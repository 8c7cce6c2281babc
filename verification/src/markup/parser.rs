//! The parser: each function reads one rule of the grammar from the start of
//! a slice of characters.

use crate::markup::grammar::{
    attribute, blanks, element, find, first_occurs_at, hyperlink, image, image_attributes, inner,
    is_blank, lemma_inner_end, lemma_inner_fail, lemma_inner_step, lemma_nodes_end,
    lemma_nodes_fail, lemma_nodes_step, literal, node, nodes, occurs_at, tagged, text, until, until_nonempty, MarkupNode,
    ParseFailure, Parsed,
};
use crate::markup::{children_view, tree_view, MarkupTag};
use crate::text::{chars_of, string_of};
use vstd::prelude::*;
use vstd::slice::slice_subrange;

verus! {

/// A count of characters read, as the grammar states it.
pub open spec fn counted(r: Result<usize, ParseFailure>) -> Result<int, ParseFailure> {
    match r {
        Ok(n) => Ok(n as int),
        Err(e) => Err(e),
    }
}

/// The input from `from` on.
fn tail(input: &[char], from: usize) -> (rest: &[char])
    requires
        from <= input@.len(),
    ensures
        rest@ == input@.skip(from as int),
        input@.len() <= usize::MAX,
{
    slice_subrange(input, from, input.len())
}

/// Reads the fixed text `lit` from the start of the input.
pub fn match_literal(input: &[char], lit: &[char]) -> (r: Result<usize, ParseFailure>)
    ensures
        counted(r) == literal(input@, lit@),
        r matches Ok(n) ==> n == lit@.len() && n <= input@.len(),
{
    let mut j: usize = 0;
    while j < lit.len()
        invariant
            j <= lit.len(),
            j <= input.len(),
            input@.take(j as int) == lit@.take(j as int),
        decreases lit.len() - j,
    {
        if j >= input.len() {
            assert(input@.take(j as int) == input@);
            assert(!lit@.is_prefix_of(input@));
            return Err(ParseFailure::Incomplete);
        }
        if input[j] != lit[j] {
            assert(!lit@.is_prefix_of(input@)) by {
                if lit@.is_prefix_of(input@) {
                    assert(input@.subrange(0, lit@.len() as int)[j as int] == lit@[j as int]);
                }
            }
            assert(!input@.is_prefix_of(lit@)) by {
                if input@.is_prefix_of(lit@) {
                    assert(lit@.subrange(0, input@.len() as int)[j as int] == input@[j as int]);
                }
            }
            return Err(ParseFailure::Mismatch);
        }
        assert(input@.take(j + 1) == input@.take(j as int).push(input@[j as int]));
        assert(lit@.take(j + 1) == lit@.take(j as int).push(lit@[j as int]));
        j += 1;
    }
    assert(lit@.take(j as int) == lit@);
    Ok(j)
}

/// Whether `pat` stands in the input at index `i`.
fn matches_at(input: &[char], pat: &[char], i: usize) -> (b: bool)
    ensures
        b == occurs_at(input@, pat@, i as int),
{
    if pat.len() > input.len() || i > input.len() - pat.len() {
        return false;
    }
    let mut j: usize = 0;
    while j < pat.len()
        invariant
            j <= pat.len(),
            i + pat.len() <= input.len(),
            input@.subrange(i as int, i + j) == pat@.take(j as int),
        decreases pat.len() - j,
    {
        if input[i + j] != pat[j] {
            assert(!occurs_at(input@, pat@, i as int)) by {
                if occurs_at(input@, pat@, i as int) {
                    assert(input@.subrange(i as int, i + pat@.len())[j as int] == pat@[j as int]);
                }
            }
            return false;
        }
        assert(input@.subrange(i as int, i + j + 1) == input@.subrange(i as int, i + j).push(
            input@[i + j],
        ));
        assert(pat@.take(j + 1) == pat@.take(j as int).push(pat@[j as int]));
        j += 1;
    }
    assert(pat@.take(j as int) == pat@);
    true
}

/// The index of the first occurrence of `pat` in the input.
pub fn find_first(input: &[char], pat: &[char]) -> (r: Option<usize>)
    ensures
        match r {
            Some(i) => find(input@, pat@) == Some(i as int) && occurs_at(input@, pat@, i as int),
            None => find(input@, pat@) is None,
        },
{
    let mut i: usize = 0;
    loop
        invariant
            i <= input.len(),
            forall|j: int| 0 <= j < i ==> !occurs_at(input@, pat@, j),
        decreases input.len() - i,
    {
        if matches_at(input, pat, i) {
            proof {
                lemma_first_occurrence_unique(input@, pat@, i as int);
            }
            return Some(i);
        }
        if i == input.len() {
            assert forall|k: int| !first_occurs_at(input@, pat@, k) by {
                if first_occurs_at(input@, pat@, k) {
                    assert(occurs_at(input@, pat@, k));
                }
            }
            return None;
        }
        i += 1;
    }
}

/// Where `pat` first occurs at `i`, `find` gives `i`.
pub proof fn lemma_first_occurrence_unique(s: Seq<char>, pat: Seq<char>, i: int)
    requires
        first_occurs_at(s, pat, i),
    ensures
        find(s, pat) == Some(i),
{
    let k = choose|k: int| first_occurs_at(s, pat, k);
    assert(first_occurs_at(s, pat, k));
    if k < i {
        assert(!occurs_at(s, pat, k));
    }
    if i < k {
        assert(!occurs_at(s, pat, i));
    }
}

/// The number of blank characters at the start of the input.
pub fn skip_blanks(input: &[char]) -> (n: usize)
    ensures
        n as int == blanks(input@),
        n <= input@.len(),
{
    let mut n: usize = 0;
    assert(input@.skip(0) == input@);
    while n < input.len() && is_blank_char(input[n])
        invariant
            n <= input.len(),
            blanks(input@) == n + blanks(input@.skip(n as int)),
        decreases input.len() - n,
    {
        proof {
            let rest = input@.skip(n as int);
            assert(rest[0] == input@[n as int]);
            assert(rest.drop_first() == input@.skip(n + 1));
        }
        n += 1;
    }
    proof {
        let rest = input@.skip(n as int);
        if n < input.len() {
            assert(rest[0] == input@[n as int]);
        }
    }
    n
}

fn is_blank_char(c: char) -> (b: bool)
    ensures
        b == is_blank(c),
{
    c == ' ' || c == '\t' || c == '\r' || c == '\n'
}


/// A text and the count of characters read, as the grammar states them.
pub open spec fn text_parsed(r: Result<(String, usize), ParseFailure>) -> Parsed<Seq<char>> {
    match r {
        Ok((text, n)) => Ok((text@, n as int)),
        Err(e) => Err(e),
    }
}

/// A tag and the count of characters read, as the grammar states them.
pub open spec fn node_parsed(r: Result<(MarkupTag, usize), ParseFailure>) -> Parsed<MarkupNode> {
    match r {
        Ok((tag, n)) => Ok((tag@, n as int)),
        Err(e) => Err(e),
    }
}

/// A sequence of tags, as the grammar states it.
pub open spec fn tree_parsed(r: Result<Vec<MarkupTag>, ParseFailure>) -> Result<
    Seq<MarkupNode>,
    ParseFailure,
> {
    match r {
        Ok(tags) => Ok(tree_view(tags@)),
        Err(e) => Err(e),
    }
}

/// Reads up to the first occurrence of `pat`.
fn take_until(input: &[char], pat: &[char]) -> (r: Result<usize, ParseFailure>)
    ensures
        counted(r) == until(input@, pat@),
        r matches Ok(n) ==> occurs_at(input@, pat@, n as int),
{
    match find_first(input, pat) {
        Some(i) => Ok(i),
        None => Err(ParseFailure::Incomplete),
    }
}

/// Reads up to the first occurrence of `pat`, and at least one character.
fn take_until_nonempty(input: &[char], pat: &[char]) -> (r: Result<usize, ParseFailure>)
    ensures
        counted(r) == until_nonempty(input@, pat@),
        r matches Ok(n) ==> 0 < n && occurs_at(input@, pat@, n as int),
{
    match find_first(input, pat) {
        Some(i) => if i == 0 {
            Err(ParseFailure::Mismatch)
        } else {
            Ok(i)
        },
        None => Err(ParseFailure::Incomplete),
    }
}

/// Reads an attribute `field="value"` and returns the value.
pub fn parse_markup_tag_field(input: &[char], field: &[char]) -> (r: Result<
    (String, usize),
    ParseFailure,
>)
    ensures
        text_parsed(r) == attribute(input@, field@),
        r matches Ok((_, used)) ==> used <= input@.len(),
{
    let equals = chars_of("=");
    let quote = chars_of("\"");
    let a = skip_blanks(input);
    let n = match match_literal(tail(input, a), field) {
        Ok(n) => n,
        Err(e) => return Err(e),
    };
    let b = a + n + skip_blanks(tail(input, a + n));
    let eq = match match_literal(tail(input, b), equals.as_slice()) {
        Ok(n) => n,
        Err(e) => return Err(e),
    };
    let c = b + eq + skip_blanks(tail(input, b + eq));
    let open = match match_literal(tail(input, c), quote.as_slice()) {
        Ok(n) => n,
        Err(e) => return Err(e),
    };
    let start = c + open;
    let len = match take_until_nonempty(tail(input, start), quote.as_slice()) {
        Ok(n) => n,
        Err(e) => return Err(e),
    };
    let close = match match_literal(tail(input, start + len), quote.as_slice()) {
        Ok(n) => n,
        Err(e) => return Err(e),
    };
    let end = start + len + close;
    let value = string_of(slice_subrange(input, start, start + len));
    Ok((value, end + skip_blanks(tail(input, end))))
}


/// The two attribute values of an image and the count of characters read, as
/// the grammar states them.
pub open spec fn pair_parsed(r: Result<((String, String), usize), ParseFailure>) -> Parsed<
    (Seq<char>, Seq<char>),
> {
    match r {
        Ok(((src, alt), n)) => Ok(((src@, alt@), n as int)),
        Err(e) => Err(e),
    }
}

/// Reads the `src` and `alt` attributes of an image, in either order, and
/// returns them in that order.
fn parse_image_attributes(input: &[char]) -> (r: Result<((String, String), usize), ParseFailure>)
    ensures
        pair_parsed(r) == image_attributes(input@),
        r matches Ok((_, used)) ==> used <= input@.len(),
{
    let src_name = chars_of("src");
    let alt_name = chars_of("alt");
    match parse_markup_tag_field(input, src_name.as_slice()) {
        Ok((src, a)) => match parse_markup_tag_field(tail(input, a), alt_name.as_slice()) {
            Ok((alt, b)) => Ok(((src, alt), a + b)),
            Err(e) => Err(e),
        },
        Err(ParseFailure::Incomplete) => Err(ParseFailure::Incomplete),
        Err(ParseFailure::Mismatch) => match parse_markup_tag_field(input, alt_name.as_slice()) {
            Ok((alt, a)) => match parse_markup_tag_field(tail(input, a), src_name.as_slice()) {
                Ok((src, b)) => Ok(((src, alt), a + b)),
                Err(e) => Err(e),
            },
            Err(e) => Err(e),
        },
    }
}

/// Reads a self-closing image tag.
pub fn parse_markup_image(input: &[char]) -> (r: Result<(MarkupTag, usize), ParseFailure>)
    ensures
        node_parsed(r) == image(input@),
        r matches Ok((_, used)) ==> used <= input@.len(),
{
    let open = chars_of("<img");
    let close = chars_of("/>");
    let n = match match_literal(input, open.as_slice()) {
        Ok(n) => n,
        Err(e) => return Err(e),
    };
    let ((src, alt), m) = match parse_image_attributes(tail(input, n)) {
        Ok(found) => found,
        Err(e) => return Err(e),
    };
    let k = match match_literal(tail(input, n + m), close.as_slice()) {
        Ok(k) => k,
        Err(e) => return Err(e),
    };
    Ok((MarkupTag::Image { src, alt }, n + m + k))
}

/// Reads plain text up to the next `<`, or to the end of the input.
pub fn parse_markup_text(input: &[char]) -> (r: Result<(MarkupTag, usize), ParseFailure>)
    ensures
        node_parsed(r) == text(input@),
        r matches Ok((_, used)) ==> used <= input@.len(),
{
    let open = chars_of("<");
    match find_first(input, open.as_slice()) {
        Some(i) => Ok((MarkupTag::Text(string_of(slice_subrange(input, 0, i))), i)),
        None => {
            assert(input@.subrange(0, input@.len() as int) == input@);
            Ok((MarkupTag::Text(string_of(input)), input.len()))
        },
    }
}

/// The tag that a formatting tag with the given name makes of its contents.
fn tag_for(name: &[char], contents: &[char], children: Vec<MarkupTag>) -> (tag: MarkupTag)
    ensures
        tag@ == tagged(name@, contents@, tree_view(children@)),
{
    proof {
        lemma_children_view(children);
    }
    if name.len() > 0 && name[0] == 'b' {
        MarkupTag::Bold(children)
    } else if name.len() > 0 && name[0] == 'u' {
        MarkupTag::Underline(children)
    } else if name.len() > 0 && name[0] == 'i' {
        MarkupTag::Italic(children)
    } else {
        MarkupTag::Text(string_of(contents))
    }
}

/// The view of a vector of children is the view of its elements, in order.
pub proof fn lemma_children_view(children: Vec<MarkupTag>)
    ensures
        children_view(children) == tree_view(children@),
{
    assert(children_view(children) =~= tree_view(children@));
}

/// The tags inside a tag and the count of characters read, as the grammar
/// states them.
pub open spec fn inner_parsed(r: Result<(Vec<MarkupTag>, usize), ParseFailure>) -> Parsed<
    Seq<MarkupNode>,
> {
    match r {
        Ok((tags, n)) => Ok((tree_view(tags@), n as int)),
        Err(e) => Err(e),
    }
}

/// Reads a hyperlink and the markup inside it.
pub fn parse_markup_hyperlink(input: &[char]) -> (r: Result<(MarkupTag, usize), ParseFailure>)
    ensures
        node_parsed(r) == hyperlink(input@),
        r matches Ok((_, used)) ==> used <= input@.len(),
    decreases input@.len(), 0int,
{
    let open = chars_of("<a");
    let href_name = chars_of("href");
    let end = chars_of(">");
    let closing = chars_of("</a>");
    let n = match match_literal(input, open.as_slice()) {
        Ok(n) => n,
        Err(e) => return Err(e),
    };
    let (href, m) = match parse_markup_tag_field(tail(input, n), href_name.as_slice()) {
        Ok(found) => found,
        Err(e) => return Err(e),
    };
    let k = match match_literal(tail(input, n + m), end.as_slice()) {
        Ok(k) => k,
        Err(e) => return Err(e),
    };
    let start = n + m + k;
    proof {
        reveal_strlit("<a");
    }
    let (children, len) = match parse_inner(tail(input, start), closing.as_slice()) {
        Ok(found) => found,
        Err(e) => return Err(e),
    };
    let close = match match_literal(tail(input, start + len), closing.as_slice()) {
        Ok(close) => close,
        Err(e) => return Err(e),
    };
    proof {
        lemma_children_view(children);
    }
    Ok((MarkupTag::Hyperlink { href, children }, start + len + close))
}

/// Reads a formatting tag and the markup inside it.
pub fn parse_markup_tag(input: &[char]) -> (r: Result<(MarkupTag, usize), ParseFailure>)
    ensures
        node_parsed(r) == element(input@),
        r matches Ok((_, used)) ==> used <= input@.len(),
    decreases input@.len(), 0int,
{
    let open = chars_of("<");
    let end = chars_of(">");
    let slash = chars_of("</");
    let n = match match_literal(input, open.as_slice()) {
        Ok(n) => n,
        Err(e) => return Err(e),
    };
    let name_len = match take_until_nonempty(tail(input, n), end.as_slice()) {
        Ok(len) => len,
        Err(e) => return Err(e),
    };
    let k = match match_literal(tail(input, n + name_len), end.as_slice()) {
        Ok(k) => k,
        Err(e) => return Err(e),
    };
    let name = slice_subrange(input, n, n + name_len);
    let start = n + name_len + k;
    let mut end_tag = chars_of("</");
    let mut i: usize = 0;
    while i < name.len()
        invariant
            i <= name.len(),
            end_tag@ == "</"@ + name@.take(i as int),
        decreases name.len() - i,
    {
        end_tag.push(name[i]);
        assert(name@.take(i + 1) == name@.take(i as int).push(name@[i as int]));
        i += 1;
    }
    assert(name@.take(i as int) == name@);
    proof {
        reveal_strlit("<");
    }
    let (children, len) = match parse_inner(tail(input, start), end_tag.as_slice()) {
        Ok(found) => found,
        Err(e) => return Err(e),
    };
    let open_close = match match_literal(tail(input, start + len), slash.as_slice()) {
        Ok(n) => n,
        Err(e) => return Err(e),
    };
    let rest = match take_until(tail(input, start + len + open_close), end.as_slice()) {
        Ok(n) => n,
        Err(e) => return Err(e),
    };
    let close = match match_literal(tail(input, start + len + open_close + rest), end.as_slice()) {
        Ok(n) => n,
        Err(e) => return Err(e),
    };
    let contents = slice_subrange(input, start, start + len);
    Ok((tag_for(name, contents, children), start + len + open_close + rest + close))
}

/// Reads the nodes inside a tag, up to the place where the input begins
/// with `closer`.
pub fn parse_inner(input: &[char], closer: &[char]) -> (r: Result<
    (Vec<MarkupTag>, usize),
    ParseFailure,
>)
    ensures
        inner_parsed(r) == inner(input@, closer@),
        r matches Ok((_, used)) ==> used <= input@.len(),
    decreases input@.len(), 2int,
{
    let mut tags: Vec<MarkupTag> = Vec::new();
    let mut at: usize = 0;
    assert(input@.skip(0) == input@);
    loop
        invariant
            at <= input.len(),
            inner(input@, closer@) == match inner(input@.skip(at as int), closer@) {
                Ok((rest, more)) => Ok::<(Seq<MarkupNode>, int), ParseFailure>(
                    (tree_view(tags@) + rest, at + more),
                ),
                Err(e) => Err(e),
            },
        decreases input.len() - at,
    {
        let rest = tail(input, at);
        proof {
            lemma_inner_end(rest@, closer@);
        }
        match match_literal(rest, closer) {
            Ok(_) => {
                assert(tree_view(tags@) + Seq::<MarkupNode>::empty() == tree_view(tags@));
                return Ok((tags, at));
            },
            Err(ParseFailure::Incomplete) => {
                return Err(ParseFailure::Incomplete);
            },
            Err(ParseFailure::Mismatch) => {},
        }
        proof {
            lemma_inner_fail(rest@, closer@);
        }
        let (tag, used) = match parse_markup_node(rest) {
            Ok(found) => found,
            Err(e) => {
                return Err(e);
            },
        };
        if used == 0 {
            return Err(ParseFailure::Mismatch);
        }
        proof {
            lemma_inner_step(rest@, closer@, tag@, used as int);
            assert(rest@.skip(used as int) == input@.skip(at + used));
            let after = inner(input@.skip(at + used), closer@);
            if let Ok((more, _)) = after {
                assert(tree_view(tags@.push(tag)) + more == tree_view(tags@) + (seq![tag@] + more));
            }
        }
        tags.push(tag);
        at += used;
    }
}

/// Reads one node: an image, else a hyperlink, else a formatting tag, else
/// text.
fn parse_markup_node(input: &[char]) -> (r: Result<(MarkupTag, usize), ParseFailure>)
    ensures
        node_parsed(r) == node(input@),
        r matches Ok((_, used)) ==> used <= input@.len(),
    decreases input@.len(), 1int,
{
    match parse_markup_image(input) {
        Ok(found) => Ok(found),
        Err(ParseFailure::Incomplete) => Err(ParseFailure::Incomplete),
        Err(ParseFailure::Mismatch) => match parse_markup_hyperlink(input) {
            Ok(found) => Ok(found),
            Err(ParseFailure::Incomplete) => Err(ParseFailure::Incomplete),
            Err(ParseFailure::Mismatch) => match parse_markup_tag(input) {
                Ok(found) => Ok(found),
                Err(ParseFailure::Incomplete) => Err(ParseFailure::Incomplete),
                Err(ParseFailure::Mismatch) => parse_markup_text(input),
            },
        },
    }
}

/// Reads nodes up to the end of the input.
pub fn parse_nodes(input: &[char]) -> (r: Result<Vec<MarkupTag>, ParseFailure>)
    ensures
        tree_parsed(r) == nodes(input@),
    decreases input@.len(), 2int,
{
    let mut tags: Vec<MarkupTag> = Vec::new();
    let mut at: usize = 0;
    assert(input@.skip(0) == input@);
    loop
        invariant
            at <= input.len(),
            nodes(input@) == match nodes(input@.skip(at as int)) {
                Ok(rest) => Ok::<Seq<MarkupNode>, ParseFailure>(tree_view(tags@) + rest),
                Err(e) => Err(e),
            },
        decreases input.len() - at,
    {
        let rest = tail(input, at);
        if rest.len() == 0 {
            proof {
                lemma_nodes_end(rest@);
                assert(tree_view(tags@) + Seq::<MarkupNode>::empty() == tree_view(tags@));
            }
            return Ok(tags);
        }
        proof {
            lemma_nodes_fail(rest@);
        }
        let (tag, used) = match parse_markup_node(rest) {
            Ok(found) => found,
            Err(e) => {
                return Err(e);
            },
        };
        if used == 0 {
            return Err(ParseFailure::Mismatch);
        }
        proof {
            lemma_nodes_step(rest@, tag@, used as int);
            assert(rest@.skip(used as int) == input@.skip(at + used));
            let after = nodes(input@.skip(at + used));
            if let Ok(more) = after {
                assert(tree_view(tags@.push(tag)) + more == tree_view(tags@) + (seq![tag@] + more));
            }
        }
        tags.push(tag);
        at += used;
    }
}

} // verus!
