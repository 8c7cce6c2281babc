//! The markup grammar, stated over sequences of characters.
//!
//! Every rule reads a prefix of its input and either matches, fails to
//! match, or runs out of input. A rule that fails to match lets the next
//! alternative be tried; one that runs out of input ends the whole parse.

use vstd::prelude::*;

verus! {

/// Why a rule did not match its input.
#[derive(Clone, Copy, Debug, PartialEq, Eq, Structural)]
pub enum ParseFailure {
    /// The input does not have the form the rule asks for.
    Mismatch,
    /// The input ended before the rule could decide.
    Incomplete,
}

/// The tree of a parsed body, with texts as character sequences.
pub enum MarkupNode {
    Bold(Seq<MarkupNode>),
    Italic(Seq<MarkupNode>),
    Underline(Seq<MarkupNode>),
    Hyperlink { href: Seq<char>, children: Seq<MarkupNode> },
    Image { src: Seq<char>, alt: Seq<char> },
    Text(Seq<char>),
}

/// What a rule yields: a value and the number of characters it read.
pub type Parsed<T> = Result<(T, int), ParseFailure>;

/// A fixed text at the start of the input. It matches when the input begins
/// with `lit`, and runs out of input when the input is a proper beginning of
/// `lit`.
pub open spec fn literal(s: Seq<char>, lit: Seq<char>) -> Result<int, ParseFailure> {
    if lit.is_prefix_of(s) {
        Ok(lit.len() as int)
    } else if s.is_prefix_of(lit) {
        Err(ParseFailure::Incomplete)
    } else {
        Err(ParseFailure::Mismatch)
    }
}

/// `pat` stands in `s` at index `i`.
pub open spec fn occurs_at(s: Seq<char>, pat: Seq<char>, i: int) -> bool {
    0 <= i && i + pat.len() <= s.len() && s.subrange(i, i + pat.len()) == pat
}

/// `pat` stands in `s` at index `i` and nowhere before it.
pub open spec fn first_occurs_at(s: Seq<char>, pat: Seq<char>, i: int) -> bool {
    occurs_at(s, pat, i) && forall|j: int| 0 <= j < i ==> !occurs_at(s, pat, j)
}

/// The index of the first occurrence of `pat` in `s`.
pub open spec fn find(s: Seq<char>, pat: Seq<char>) -> Option<int> {
    if exists|i: int| first_occurs_at(s, pat, i) {
        Some(choose|i: int| first_occurs_at(s, pat, i))
    } else {
        None
    }
}

/// Everything before the first occurrence of `pat`, which is not read.
pub open spec fn until(s: Seq<char>, pat: Seq<char>) -> Result<int, ParseFailure> {
    match find(s, pat) {
        Some(i) => Ok(i),
        None => Err(ParseFailure::Incomplete),
    }
}

/// As `until`, but at least one character must stand before `pat`.
pub open spec fn until_nonempty(s: Seq<char>, pat: Seq<char>) -> Result<int, ParseFailure> {
    match find(s, pat) {
        Some(i) => if i == 0 {
            Err(ParseFailure::Mismatch)
        } else {
            Ok(i)
        },
        None => Err(ParseFailure::Incomplete),
    }
}

pub open spec fn is_blank(c: char) -> bool {
    c == ' ' || c == '\t' || c == '\r' || c == '\n'
}

/// The number of blank characters at the start of the input.
pub open spec fn blanks(s: Seq<char>) -> int
    decreases s.len(),
{
    if s.len() > 0 && is_blank(s[0]) {
        1 + blanks(s.drop_first())
    } else {
        0
    }
}

/// No more blanks are counted than the input holds.
pub proof fn lemma_blanks_within(s: Seq<char>)
    ensures
        0 <= blanks(s) <= s.len(),
    decreases s.len(),
{
    if s.len() > 0 && is_blank(s[0]) {
        lemma_blanks_within(s.drop_first());
    }
}

/// An attribute `name="value"`: blanks may stand around the name, the equals
/// sign and the quoted value, and the value is not empty.
pub open spec fn attribute(s: Seq<char>, name: Seq<char>) -> Parsed<Seq<char>> {
    let a = blanks(s);
    match literal(s.skip(a), name) {
        Err(e) => Err(e),
        Ok(n) => {
            let b = a + n + blanks(s.skip(a + n));
            match literal(s.skip(b), "="@) {
                Err(e) => Err(e),
                Ok(eq) => {
                    let c = b + eq + blanks(s.skip(b + eq));
                    match literal(s.skip(c), "\""@) {
                        Err(e) => Err(e),
                        Ok(open) => {
                            let start = c + open;
                            match until_nonempty(s.skip(start), "\""@) {
                                Err(e) => Err(e),
                                Ok(len) => match literal(s.skip(start + len), "\""@) {
                                    Err(e) => Err(e),
                                    Ok(close) => {
                                        let end = start + len + close;
                                        Ok(
                                            (
                                                s.subrange(start, start + len),
                                                end + blanks(s.skip(end)),
                                            ),
                                        )
                                    },
                                },
                            }
                        },
                    }
                },
            }
        },
    }
}

/// An attribute reads no more than the input holds, and its value is not
/// empty.
pub proof fn lemma_attribute_within(s: Seq<char>, name: Seq<char>)
    ensures
        attribute(s, name) matches Ok((value, used)) ==> 0 < value.len() < used <= s.len(),
{
    reveal_strlit("=");
    reveal_strlit("\"");
    let a = blanks(s);
    lemma_blanks_within(s);
    if let Ok(n) = literal(s.skip(a), name) {
        lemma_blanks_within(s.skip(a + n));
        let b = a + n + blanks(s.skip(a + n));
        if let Ok(eq) = literal(s.skip(b), "="@) {
            lemma_blanks_within(s.skip(b + eq));
            let c = b + eq + blanks(s.skip(b + eq));
            if let Ok(open) = literal(s.skip(c), "\""@) {
                let start = c + open;
                if let Ok(len) = until_nonempty(s.skip(start), "\""@) {
                    if let Ok(close) = literal(s.skip(start + len), "\""@) {
                        lemma_blanks_within(s.skip(start + len + close));
                    }
                }
            }
        }
    }
}

/// The two attributes of an image, `src` and `alt`, in either order. The
/// order `alt`, `src` is tried only where no `src` attribute comes first.
pub open spec fn image_attributes(s: Seq<char>) -> Parsed<(Seq<char>, Seq<char>)> {
    match attribute(s, "src"@) {
        Ok((src, a)) => match attribute(s.skip(a), "alt"@) {
            Ok((alt, b)) => Ok(((src, alt), a + b)),
            Err(e) => Err(e),
        },
        Err(ParseFailure::Incomplete) => Err(ParseFailure::Incomplete),
        Err(ParseFailure::Mismatch) => match attribute(s, "alt"@) {
            Ok((alt, a)) => match attribute(s.skip(a), "src"@) {
                Ok((src, b)) => Ok(((src, alt), a + b)),
                Err(e) => Err(e),
            },
            Err(e) => Err(e),
        },
    }
}

/// A self-closing image tag: `<img src="..." alt="..."/>`.
pub open spec fn image(s: Seq<char>) -> Parsed<MarkupNode> {
    match literal(s, "<img"@) {
        Err(e) => Err(e),
        Ok(n) => match image_attributes(s.skip(n)) {
            Err(e) => Err(e),
            Ok(((src, alt), m)) => match literal(s.skip(n + m), "/>"@) {
                Err(e) => Err(e),
                Ok(k) => Ok((MarkupNode::Image { src, alt }, n + m + k)),
            },
        },
    }
}

/// What a formatting tag with the given name makes of its contents: the
/// first letter of the name decides, and an unknown tag keeps its contents
/// as plain text.
pub open spec fn tagged(name: Seq<char>, contents: Seq<char>, children: Seq<MarkupNode>)
    -> MarkupNode {
    if name.len() > 0 && name[0] == 'b' {
        MarkupNode::Bold(children)
    } else if name.len() > 0 && name[0] == 'u' {
        MarkupNode::Underline(children)
    } else if name.len() > 0 && name[0] == 'i' {
        MarkupNode::Italic(children)
    } else {
        MarkupNode::Text(contents)
    }
}

/// Plain text up to the next `<`, or to the end of the input.
pub open spec fn text(s: Seq<char>) -> Parsed<MarkupNode> {
    match find(s, "<"@) {
        Some(i) => Ok((MarkupNode::Text(s.take(i)), i)),
        None => Ok((MarkupNode::Text(s), s.len() as int)),
    }
}

/// A hyperlink: `<a href="...">`, then the markup inside it up to the `</a>`
/// that closes it.
pub open spec fn hyperlink(s: Seq<char>) -> Parsed<MarkupNode>
    decreases s.len(), 0int,
    via hyperlink_contents_are_shorter
{
    match literal(s, "<a"@) {
        Err(e) => Err(e),
        Ok(n) => match attribute(s.skip(n), "href"@) {
            Err(e) => Err(e),
            Ok((href, m)) => match literal(s.skip(n + m), ">"@) {
                Err(e) => Err(e),
                Ok(k) => {
                    let start = n + m + k;
                    match inner(s.skip(start), "</a>"@) {
                        Err(e) => Err(e),
                        Ok((children, len)) => match literal(s.skip(start + len), "</a>"@) {
                            Err(e) => Err(e),
                            Ok(close) => Ok(
                                (MarkupNode::Hyperlink { href, children }, start + len + close),
                            ),
                        },
                    }
                },
            },
        },
    }
}

#[via_fn]
proof fn hyperlink_contents_are_shorter(s: Seq<char>) {
    reveal_strlit("<a");
    if literal(s, "<a"@) is Ok {
        lemma_attribute_within(s.skip(2), "href"@);
    }
}

#[via_fn]
proof fn element_contents_are_shorter(s: Seq<char>) {
    reveal_strlit("<");
}

/// A formatting tag: `<name>`, then the markup inside it up to the closing
/// tag that matches it, which begins with `</name` and runs to the next `>`.
/// Tags inside it read their own closing tags, so that tags of one name may
/// stand inside one another.
pub open spec fn element(s: Seq<char>) -> Parsed<MarkupNode>
    decreases s.len(), 0int,
    via element_contents_are_shorter
{
    match literal(s, "<"@) {
        Err(e) => Err(e),
        Ok(n) => match until_nonempty(s.skip(n), ">"@) {
            Err(e) => Err(e),
            Ok(name_len) => match literal(s.skip(n + name_len), ">"@) {
                Err(e) => Err(e),
                Ok(k) => {
                    let name = s.subrange(n, n + name_len);
                    let start = n + name_len + k;
                    match inner(s.skip(start), "</"@ + name) {
                        Err(e) => Err(e),
                        Ok((children, len)) => match literal(s.skip(start + len), "</"@) {
                            Err(e) => Err(e),
                            Ok(slash) => match until(s.skip(start + len + slash), ">"@) {
                                Err(e) => Err(e),
                                Ok(rest) => match literal(
                                    s.skip(start + len + slash + rest),
                                    ">"@,
                                ) {
                                    Err(e) => Err(e),
                                    Ok(close) => Ok(
                                        (
                                            tagged(
                                                name,
                                                s.subrange(start, start + len),
                                                children,
                                            ),
                                            start + len + slash + rest + close,
                                        ),
                                    ),
                                },
                            },
                        },
                    }
                },
            },
        },
    }
}

/// One node: an image, else a hyperlink, else a formatting tag, else text.
/// The next form is tried only where the one before it fails to match.
pub open spec fn node(s: Seq<char>) -> Parsed<MarkupNode>
    decreases s.len(), 1int,
{
    match image(s) {
        Ok(found) => Ok(found),
        Err(ParseFailure::Incomplete) => Err(ParseFailure::Incomplete),
        Err(ParseFailure::Mismatch) => match hyperlink(s) {
            Ok(found) => Ok(found),
            Err(ParseFailure::Incomplete) => Err(ParseFailure::Incomplete),
            Err(ParseFailure::Mismatch) => match element(s) {
                Ok(found) => Ok(found),
                Err(ParseFailure::Incomplete) => Err(ParseFailure::Incomplete),
                Err(ParseFailure::Mismatch) => text(s),
            },
        },
    }
}

/// The nodes inside a tag: nodes up to the place where the input begins
/// with `closer`, which is not read. The input must not end before that
/// place, and a node that reads nothing fails the whole sequence.
#[verifier::opaque]
pub open spec fn inner(s: Seq<char>, closer: Seq<char>) -> Parsed<Seq<MarkupNode>>
    decreases s.len(), 2int,
{
    match literal(s, closer) {
        Ok(_) => Ok((Seq::empty(), 0)),
        Err(ParseFailure::Incomplete) => Err(ParseFailure::Incomplete),
        Err(ParseFailure::Mismatch) => match node(s) {
            Err(e) => Err(e),
            Ok((first, used)) => if 0 < used <= s.len() {
                match inner(s.skip(used), closer) {
                    Err(e) => Err(e),
                    Ok((rest, more)) => Ok((seq![first] + rest, used + more)),
                }
            } else {
                Err(ParseFailure::Mismatch)
            },
        },
    }
}

/// Nodes up to the end of the input. A node that reads nothing fails the
/// whole sequence.
#[verifier::opaque]
pub open spec fn nodes(s: Seq<char>) -> Result<Seq<MarkupNode>, ParseFailure>
    decreases s.len(), 2int,
{
    if s.len() == 0 {
        Ok(Seq::empty())
    } else {
        match node(s) {
            Err(e) => Err(e),
            Ok((first, used)) => if 0 < used <= s.len() {
                match nodes(s.skip(used)) {
                    Err(e) => Err(e),
                    Ok(rest) => Ok(seq![first] + rest),
                }
            } else {
                Err(ParseFailure::Mismatch)
            },
        }
    }
}

/// At the end of the input no node is left.
pub proof fn lemma_nodes_end(s: Seq<char>)
    requires
        s.len() == 0,
    ensures
        nodes(s) == Ok::<Seq<MarkupNode>, ParseFailure>(Seq::empty()),
{
    reveal(nodes);
}

/// Nodes up to the end of the input are a node and the nodes after it.
pub proof fn lemma_nodes_step(s: Seq<char>, first: MarkupNode, used: int)
    requires
        node(s) == Ok::<(MarkupNode, int), ParseFailure>((first, used)),
        0 < used <= s.len(),
    ensures
        nodes(s) == match nodes(s.skip(used)) {
            Ok(rest) => Ok::<Seq<MarkupNode>, ParseFailure>(seq![first] + rest),
            Err(e) => Err(e),
        },
{
    reveal(nodes);
}

/// Where a node fails, the nodes up to the end of the input fail as it does;
/// where it reads nothing, they fail to match.
pub proof fn lemma_nodes_fail(s: Seq<char>)
    requires
        s.len() > 0,
    ensures
        node(s) matches Err(e) ==> nodes(s) == Err::<Seq<MarkupNode>, ParseFailure>(e),
        node(s) matches Ok((_, used)) && used == 0 ==> nodes(s) == Err::<
            Seq<MarkupNode>,
            ParseFailure,
        >(ParseFailure::Mismatch),
{
    reveal(nodes);
}

/// The nodes inside a tag end where the input begins with the closing text,
/// and fail where the input ends before it.
pub proof fn lemma_inner_end(s: Seq<char>, closer: Seq<char>)
    ensures
        literal(s, closer) is Ok ==> inner(s, closer) == Ok::<
            (Seq<MarkupNode>, int),
            ParseFailure,
        >((Seq::empty(), 0)),
        literal(s, closer) == Err::<int, ParseFailure>(ParseFailure::Incomplete) ==> inner(
            s,
            closer,
        ) == Err::<(Seq<MarkupNode>, int), ParseFailure>(ParseFailure::Incomplete),
{
    reveal(inner);
}

/// Where a node inside a tag fails, the nodes inside the tag fail as it
/// does; where it reads nothing, they fail to match.
pub proof fn lemma_inner_fail(s: Seq<char>, closer: Seq<char>)
    requires
        literal(s, closer) == Err::<int, ParseFailure>(ParseFailure::Mismatch),
    ensures
        node(s) matches Err(e) ==> inner(s, closer) == Err::<
            (Seq<MarkupNode>, int),
            ParseFailure,
        >(e),
        node(s) matches Ok((_, used)) && used == 0 ==> inner(s, closer) == Err::<
            (Seq<MarkupNode>, int),
            ParseFailure,
        >(ParseFailure::Mismatch),
{
    reveal(inner);
}

/// The nodes inside a tag are a node and the nodes after it.
pub proof fn lemma_inner_step(s: Seq<char>, closer: Seq<char>, first: MarkupNode, used: int)
    requires
        literal(s, closer) == Err::<int, ParseFailure>(ParseFailure::Mismatch),
        node(s) == Ok::<(MarkupNode, int), ParseFailure>((first, used)),
        0 < used <= s.len(),
    ensures
        inner(s, closer) == match inner(s.skip(used), closer) {
            Ok((rest, more)) => Ok::<(Seq<MarkupNode>, int), ParseFailure>(
                (seq![first] + rest, used + more),
            ),
            Err(e) => Err(e),
        },
{
    reveal(inner);
}

/// The nodes inside a tag end where the closing text begins: no more is
/// read than stands before it.
pub proof fn lemma_inner_within(s: Seq<char>, closer: Seq<char>)
    ensures
        inner(s, closer) matches Ok((_, used)) ==> 0 <= used && used + closer.len() <= s.len()
            && closer.is_prefix_of(s.skip(used)),
    decreases s.len(), 2int,
{
    reveal(inner);
    if let Err(ParseFailure::Mismatch) = literal(s, closer) {
        lemma_node_within(s);
        if let Ok((_, used)) = node(s) {
            if 0 < used <= s.len() {
                lemma_inner_within(s.skip(used), closer);
                if let Ok((_, more)) = inner(s.skip(used), closer) {
                    assert(s.skip(used).skip(more) == s.skip(used + more));
                }
            }
        }
    } else if literal(s, closer) is Ok {
        assert(s.skip(0) == s);
    }
}

/// An image tag reads no more than the input holds.
pub proof fn lemma_image_within(s: Seq<char>)
    ensures
        image(s) matches Ok((_, used)) ==> 0 <= used <= s.len(),
{
    reveal_strlit("<img");
    reveal_strlit("/>");
    if let Ok(n) = literal(s, "<img"@) {
        let rest = s.skip(n);
        lemma_attribute_within(rest, "src"@);
        lemma_attribute_within(rest, "alt"@);
        if let Ok((_, a)) = attribute(rest, "src"@) {
            lemma_attribute_within(rest.skip(a), "alt"@);
        }
        if let Ok((_, a)) = attribute(rest, "alt"@) {
            lemma_attribute_within(rest.skip(a), "src"@);
        }
    }
}

/// A hyperlink reads no more than the input holds.
pub proof fn lemma_hyperlink_within(s: Seq<char>)
    ensures
        hyperlink(s) matches Ok((_, used)) ==> 0 <= used <= s.len(),
    decreases s.len(), 0int,
{
    reveal(inner);
    reveal_strlit("<a");
    reveal_strlit(">");
    reveal_strlit("</a>");
    if let Ok(n) = literal(s, "<a"@) {
        lemma_attribute_within(s.skip(n), "href"@);
        if let Ok((_, m)) = attribute(s.skip(n), "href"@) {
            if let Ok(k) = literal(s.skip(n + m), ">"@) {
                lemma_inner_within(s.skip(n + m + k), "</a>"@);
            }
        }
    }
}

/// A formatting tag reads no more than the input holds.
pub proof fn lemma_element_within(s: Seq<char>)
    ensures
        element(s) matches Ok((_, used)) ==> 0 <= used <= s.len(),
    decreases s.len(), 0int,
{
    reveal(inner);
    reveal_strlit("<");
    reveal_strlit(">");
    reveal_strlit("</");
    if let Ok(n) = literal(s, "<"@) {
        if let Ok(name_len) = until_nonempty(s.skip(n), ">"@) {
            if let Ok(k) = literal(s.skip(n + name_len), ">"@) {
                lemma_inner_within(
                    s.skip(n + name_len + k),
                    "</"@ + s.subrange(n, n + name_len),
                );
            }
        }
    }
}

/// A node reads no more than the input holds, so that among nodes only one
/// that reads nothing is turned away.
pub proof fn lemma_node_within(s: Seq<char>)
    ensures
        node(s) matches Ok((_, used)) ==> 0 <= used <= s.len(),
    decreases s.len(), 1int,
{
    lemma_image_within(s);
    lemma_hyperlink_within(s);
    lemma_element_within(s);
}

} // verus!
