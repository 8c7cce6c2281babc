//! Laws of nesting: what the grammar makes of plain text inside a tag, of a
//! formatting tag around markup, and of a tag inside a tag of the same name.

use crate::markup::grammar::{
    element, find, first_occurs_at, hyperlink, image, inner, lemma_inner_end, lemma_inner_step,
    lemma_nodes_end, lemma_nodes_step, literal, node, nodes, occurs_at, tagged, text, until,
    until_nonempty, MarkupNode, ParseFailure,
};
use crate::markup::layout::{
    document, flatten_node, flatten_nodes, group_from, grouped, plain, BodyBlock, BodyUnit,
    StyledRun,
};
use crate::markup::parser::lemma_first_occurrence_unique;
use crate::markup::RichTextSpanStyle;
use vstd::prelude::*;

verus! {

/// Text that is not empty and holds no `<`.
pub open spec fn is_plain(t: Seq<char>) -> bool {
    t.len() > 0 && forall|i: int| 0 <= i < t.len() ==> t[i] != '<'
}

/// One of the three letters that name a style.
pub open spec fn is_style_letter(c: char) -> bool {
    c == 'b' || c == 'i' || c == 'u'
}

/// The opening tag of the given name.
pub open spec fn opening(c: char) -> Seq<char> {
    seq!['<', c, '>']
}

/// The closing tag of the given name.
pub open spec fn closing(c: char) -> Seq<char> {
    seq!['<', '/', c, '>']
}

/// The text with which the closing tag of the given name begins.
pub open spec fn closer(c: char) -> Seq<char> {
    seq!['<', '/', c]
}

/// The node of a formatting tag of the given name around the given nodes.
pub open spec fn styled(c: char, children: Seq<MarkupNode>) -> MarkupNode {
    if c == 'b' {
        MarkupNode::Bold(children)
    } else if c == 'u' {
        MarkupNode::Underline(children)
    } else {
        MarkupNode::Italic(children)
    }
}

/// In plain text followed by a `<`, that `<` is the first one.
pub proof fn lemma_find_after_plain(t: Seq<char>, rest: Seq<char>)
    requires
        forall|i: int| 0 <= i < t.len() ==> t[i] != '<',
        rest.len() > 0,
        rest[0] == '<',
    ensures
        find(t + rest, "<"@) == Some(t.len() as int),
{
    reveal_strlit("<");
    let s = t + rest;
    assert(s.subrange(t.len() as int, t.len() as int + 1) =~= "<"@);
    assert forall|j: int| 0 <= j < t.len() implies !occurs_at(s, "<"@, j) by {
        if occurs_at(s, "<"@, j) {
            assert(s.subrange(j, j + 1)[0] == t[j]);
        }
    }
    lemma_first_occurrence_unique(s, "<"@, t.len() as int);
}

/// Plain text before a `<` is one text node.
pub proof fn lemma_plain_node(t: Seq<char>, rest: Seq<char>)
    requires
        is_plain(t),
        rest.len() > 0,
        rest[0] == '<',
    ensures
        node(t + rest) == Ok::<(MarkupNode, int), ParseFailure>(
            (MarkupNode::Text(t), t.len() as int),
        ),
{
    reveal(inner);
    reveal_strlit("<img");
    reveal_strlit("<a");
    reveal_strlit("<");
    let s = t + rest;
    assert(s[0] == t[0]);
    assert(literal(s, "<img"@) == Err::<int, ParseFailure>(ParseFailure::Mismatch)) by {
        if "<img"@.is_prefix_of(s) {
            assert(s.subrange(0, 4)[0] == '<');
        }
        if s.is_prefix_of("<img"@) {
            assert("<img"@.subrange(0, s.len() as int)[0] == s[0]);
        }
    }
    assert(literal(s, "<a"@) == Err::<int, ParseFailure>(ParseFailure::Mismatch)) by {
        if "<a"@.is_prefix_of(s) {
            assert(s.subrange(0, 2)[0] == '<');
        }
        if s.is_prefix_of("<a"@) {
            assert("<a"@.subrange(0, s.len() as int)[0] == s[0]);
        }
    }
    assert(literal(s, "<"@) == Err::<int, ParseFailure>(ParseFailure::Mismatch)) by {
        if "<"@.is_prefix_of(s) {
            assert(s.subrange(0, 1)[0] == '<');
        }
        if s.is_prefix_of("<"@) {
            assert("<"@.subrange(0, s.len() as int)[0] == s[0]);
        }
    }
    lemma_find_after_plain(t, rest);
    assert(s.take(t.len() as int) == t);
    assert(node(s) == text(s));
}

/// Inside a tag, plain text before a `<` is one text node, and what follows
/// it is read as it would be without it.
pub proof fn lemma_inner_plain(t: Seq<char>, rest: Seq<char>, end: Seq<char>)
    requires
        is_plain(t),
        rest.len() > 0,
        rest[0] == '<',
        end.len() > 0,
        end[0] == '<',
    ensures
        inner(t + rest, end) == match inner(rest, end) {
            Ok((more, used)) => Ok::<(Seq<MarkupNode>, int), ParseFailure>(
                (seq![MarkupNode::Text(t)] + more, t.len() + used),
            ),
            Err(e) => Err(e),
        },
{
    let s = t + rest;
    assert(s[0] == t[0]);
    assert(literal(s, end) == Err::<int, ParseFailure>(ParseFailure::Mismatch)) by {
        if end.is_prefix_of(s) {
            assert(s.subrange(0, end.len() as int)[0] == end[0]);
        }
        if s.is_prefix_of(end) {
            assert(end.subrange(0, s.len() as int)[0] == s[0]);
        }
    }
    lemma_plain_node(t, rest);
    lemma_inner_step(s, end, MarkupNode::Text(t), t.len() as int);
    assert(s.skip(t.len() as int) == rest);
}

/// How the opening tag of one style letter is read.
proof fn lemma_opening_read(s: Seq<char>, c: char)
    requires
        is_style_letter(c),
        s.len() >= 3,
        s[0] == '<',
        s[1] == c,
        s[2] == '>',
    ensures
        literal(s, "<img"@) == Err::<int, ParseFailure>(ParseFailure::Mismatch),
        literal(s, "<a"@) == Err::<int, ParseFailure>(ParseFailure::Mismatch),
        literal(s, "<"@) == Ok::<int, ParseFailure>(1),
        until_nonempty(s.skip(1), ">"@) == Ok::<int, ParseFailure>(1),
        literal(s.skip(2), ">"@) == Ok::<int, ParseFailure>(1),
        "</"@ + s.subrange(1, 2) == closer(c),
{
    reveal_strlit("<img");
    reveal_strlit("<a");
    reveal_strlit("<");
    reveal_strlit(">");
    reveal_strlit("</");
    assert(literal(s, "<img"@) == Err::<int, ParseFailure>(ParseFailure::Mismatch)) by {
        if "<img"@.is_prefix_of(s) {
            assert(s.subrange(0, 4)[1] == 'i');
            assert(s.subrange(0, 4)[2] == 'm');
        }
        if s.is_prefix_of("<img"@) {
            assert("<img"@.subrange(0, s.len() as int)[1] == s[1]);
            assert("<img"@.subrange(0, s.len() as int)[2] == s[2]);
        }
    }
    assert(literal(s, "<a"@) == Err::<int, ParseFailure>(ParseFailure::Mismatch)) by {
        if "<a"@.is_prefix_of(s) {
            assert(s.subrange(0, 2)[1] == 'a');
        }
        if s.is_prefix_of("<a"@) {
            assert("<a"@.subrange(0, s.len() as int)[1] == s[1]);
        }
    }
    assert(literal(s, "<"@) == Ok::<int, ParseFailure>(1)) by {
        assert(s.subrange(0, 1) =~= "<"@);
    }
    assert(until_nonempty(s.skip(1), ">"@) == Ok::<int, ParseFailure>(1)) by {
        lemma_closing_bracket_after_letter(s.skip(1), c);
    }
    assert(literal(s.skip(2), ">"@) == Ok::<int, ParseFailure>(1)) by {
        assert(s.skip(2).subrange(0, 1) =~= ">"@);
    }
    assert("</"@ + s.subrange(1, 2) =~= closer(c));
}

/// After a style letter that is followed by `>`, the first `>` stands at
/// the second place.
proof fn lemma_closing_bracket_after_letter(r: Seq<char>, c: char)
    requires
        is_style_letter(c),
        r.len() >= 2,
        r[0] == c,
        r[1] == '>',
    ensures
        find(r, ">"@) == Some(1int),
{
    reveal_strlit(">");
    assert(r.subrange(1, 2) =~= ">"@);
    assert(!occurs_at(r, ">"@, 0)) by {
        if occurs_at(r, ">"@, 0) {
            assert(r.subrange(0, 1)[0] == '>');
        }
    }
    assert(first_occurs_at(r, ">"@, 1)) by {
        assert forall|j: int| 0 <= j < 1 implies !occurs_at(r, ">"@, j) by {
            assert(j == 0);
        }
    }
    lemma_first_occurrence_unique(r, ">"@, 1);
}

/// How the closing tag of one style letter is read.
proof fn lemma_closing_read(r: Seq<char>, c: char)
    requires
        is_style_letter(c),
        r.len() >= 4,
        r[0] == '<',
        r[1] == '/',
        r[2] == c,
        r[3] == '>',
    ensures
        literal(r, "</"@) == Ok::<int, ParseFailure>(2),
        until(r.skip(2), ">"@) == Ok::<int, ParseFailure>(1),
        literal(r.skip(3), ">"@) == Ok::<int, ParseFailure>(1),
{
    reveal_strlit(">");
    reveal_strlit("</");
    assert(r.subrange(0, 2) =~= "</"@);
    lemma_closing_bracket_after_letter(r.skip(2), c);
    assert(r.skip(3).subrange(0, 1) =~= ">"@);
}

/// A formatting tag of one style letter, read by the places of its
/// characters: where the opening tag stands first, the nodes inside end
/// after `len` characters, and the closing tag stands there, the whole is
/// the node of that style around those nodes.
pub proof fn lemma_tag_reads(s: Seq<char>, c: char, children: Seq<MarkupNode>, len: int)
    requires
        is_style_letter(c),
        0 <= len,
        len + 7 <= s.len(),
        s[0] == '<',
        s[1] == c,
        s[2] == '>',
        s[len + 3] == '<',
        s[len + 4] == '/',
        s[len + 5] == c,
        s[len + 6] == '>',
        inner(s.skip(3), closer(c)) == Ok::<(Seq<MarkupNode>, int), ParseFailure>(
            (children, len),
        ),
    ensures
        node(s) == Ok::<(MarkupNode, int), ParseFailure>((styled(c, children), len + 7)),
{
    lemma_opening_read(s, c);
    let r = s.skip(len + 3);
    lemma_closing_read(r, c);
    assert(r.skip(2) == s.skip(len + 3 + 2));
    assert(r.skip(3) == s.skip(len + 3 + 2 + 1));
    assert(s.subrange(1, 2)[0] == c);
    assert(tagged(s.subrange(1, 2), s.subrange(3, 3 + len), children) == styled(c, children));
    assert(element(s) == Ok::<(MarkupNode, int), ParseFailure>((styled(c, children), len + 7)))
        by {
        reveal(inner);
    }
    assert(image(s) == Err::<(MarkupNode, int), ParseFailure>(ParseFailure::Mismatch));
    assert(hyperlink(s) == Err::<(MarkupNode, int), ParseFailure>(ParseFailure::Mismatch)) by {
        reveal(inner);
    }
    assert(node(s) == element(s)) by {
        reveal(inner);
    }
}

/// A formatting tag of one style letter around markup is the node of that
/// style around the nodes of the markup: where the nodes inside end at the
/// closing tag, the whole is read up to the end of that closing tag. The
/// markup may hold tags of the same name.
pub proof fn lemma_tag_wraps(
    c: char,
    body: Seq<char>,
    after: Seq<char>,
    children: Seq<MarkupNode>,
)
    requires
        is_style_letter(c),
        inner(body + closing(c) + after, closer(c)) == Ok::<
            (Seq<MarkupNode>, int),
            ParseFailure,
        >((children, body.len() as int)),
    ensures
        node(opening(c) + body + closing(c) + after) == Ok::<(MarkupNode, int), ParseFailure>(
            (styled(c, children), body.len() as int + 7),
        ),
{
    let s = opening(c) + body + closing(c) + after;
    assert(s.skip(3) =~= body + closing(c) + after);
    lemma_tag_reads(s, c, children, body.len() as int);
}

/// Inside a tag, plain text that stands directly before the closing tag is
/// the one node inside it.
pub proof fn lemma_inner_plain_to_end(c: char, t: Seq<char>, after: Seq<char>)
    requires
        is_plain(t),
    ensures
        inner(t + closing(c) + after, closer(c)) == Ok::<(Seq<MarkupNode>, int), ParseFailure>(
            (seq![MarkupNode::Text(t)], t.len() as int),
        ),
{
    let rest = closing(c) + after;
    assert(literal(rest, closer(c)) is Ok) by {
        assert(rest.subrange(0, 3) =~= closer(c));
    }
    lemma_inner_end(rest, closer(c));
    lemma_inner_plain(t, rest, closer(c));
    assert(t + closing(c) + after =~= t + rest);
    assert(seq![MarkupNode::Text(t)] + Seq::<MarkupNode>::empty() =~= seq![MarkupNode::Text(t)]);
}

/// The nodes of a formatting tag in which a tag of the same name stands
/// between plain texts: the outer tag holds the first text, the inner tag
/// with the second text, and the third text.
pub open spec fn nested(c: char, a: Seq<char>, b: Seq<char>, d: Seq<char>) -> MarkupNode {
    styled(
        c,
        seq![MarkupNode::Text(a), styled(c, seq![MarkupNode::Text(b)]), MarkupNode::Text(d)],
    )
}

/// Inside a tag: a tag of the same name around plain text, then plain text,
/// then the closing tag. The inner tag reads its own closing tag, and the
/// nodes inside the outer tag are the inner tag and the text after it.
proof fn lemma_inner_tag_and_plain(c: char, b: Seq<char>, d: Seq<char>)
    requires
        is_style_letter(c),
        is_plain(b),
        is_plain(d),
    ensures
        inner(opening(c) + b + closing(c) + (d + closing(c)), closer(c)) == Ok::<
            (Seq<MarkupNode>, int),
            ParseFailure,
        >(
            (
                seq![styled(c, seq![MarkupNode::Text(b)]), MarkupNode::Text(d)],
                b.len() as int + 7 + d.len() as int,
            ),
        ),
{
    let end = closer(c);
    let tail = d + closing(c);
    let s = opening(c) + b + closing(c) + tail;
    let inside = styled(c, seq![MarkupNode::Text(b)]);
    let text_d = MarkupNode::Text(d);
    lemma_inner_plain_to_end(c, b, tail);
    lemma_tag_wraps(c, b, tail, seq![MarkupNode::Text(b)]);
    assert(inner(tail, end) == Ok::<(Seq<MarkupNode>, int), ParseFailure>(
        (seq![text_d], d.len() as int),
    )) by {
        lemma_inner_plain_to_end(c, d, Seq::empty());
        assert(d + closing(c) + Seq::<char>::empty() =~= tail);
    }
    assert(literal(s, end) == Err::<int, ParseFailure>(ParseFailure::Mismatch)) by {
        assert(s[1] == c);
        if end.is_prefix_of(s) {
            assert(s.subrange(0, 3)[1] == '/');
        }
        if s.is_prefix_of(end) {
            assert(end.subrange(0, s.len() as int)[1] == s[1]);
        }
    }
    assert(s.skip(b.len() as int + 7) =~= tail);
    lemma_inner_step(s, end, inside, b.len() as int + 7);
    assert(seq![inside] + seq![text_d] =~= seq![inside, text_d]);
}

/// A formatting tag may stand inside a tag of the same name: each closing
/// tag closes the tag that was opened last. `<b>A<b>B</b>C</b>` is a bold
/// tag around A, a bold tag around B, and C.
pub proof fn lemma_same_name_nests(c: char, a: Seq<char>, b: Seq<char>, d: Seq<char>)
    requires
        is_style_letter(c),
        is_plain(a),
        is_plain(b),
        is_plain(d),
    ensures
        nodes(opening(c) + a + opening(c) + b + closing(c) + d + closing(c)) == Ok::<
            Seq<MarkupNode>,
            ParseFailure,
        >(seq![nested(c, a, b, d)]),
{
    let end = closer(c);
    let text_a = MarkupNode::Text(a);
    let inside = styled(c, seq![MarkupNode::Text(b)]);
    let text_d = MarkupNode::Text(d);
    let children = seq![text_a, inside, text_d];
    let from_inner = opening(c) + b + closing(c) + (d + closing(c));
    let body = a + opening(c) + b + closing(c) + d;
    let len = a.len() as int + b.len() as int + 7 + d.len() as int;
    let whole = opening(c) + a + opening(c) + b + closing(c) + d + closing(c);
    assert(inner(a + from_inner, end) == Ok::<(Seq<MarkupNode>, int), ParseFailure>(
        (children, len),
    )) by {
        lemma_inner_tag_and_plain(c, b, d);
        assert(from_inner[0] == '<');
        lemma_inner_plain(a, from_inner, end);
        assert(seq![text_a] + seq![inside, text_d] =~= children);
    }
    assert(node(whole) == Ok::<(MarkupNode, int), ParseFailure>(
        (nested(c, a, b, d), whole.len() as int),
    )) by {
        assert(body + closing(c) + Seq::<char>::empty() =~= a + from_inner);
        assert(body.len() == len);
        lemma_tag_wraps(c, body, Seq::empty(), children);
        assert(opening(c) + body + closing(c) + Seq::<char>::empty() =~= whole);
    }
    lemma_nodes_step(whole, nested(c, a, b, d), whole.len() as int);
    lemma_nodes_end(whole.skip(whole.len() as int));
    assert(seq![nested(c, a, b, d)] + Seq::<MarkupNode>::empty() =~= seq![nested(c, a, b, d)]);
}

/// The style that a formatting tag of the given name gives to plain text.
pub open spec fn style_of(c: char) -> RichTextSpanStyle {
    if c == 'b' {
        RichTextSpanStyle { bold: true, ..plain() }
    } else if c == 'u' {
        RichTextSpanStyle { underline: true, ..plain() }
    } else {
        RichTextSpanStyle { italic: true, ..plain() }
    }
}

/// A body in which a formatting tag stands inside a tag of the same name is
/// one block of rich text, whose runs all have the style of the tag:
/// `<b>A<b>B</b>C</b>` is the three bold runs A, B and C.
pub proof fn lemma_same_name_nests_in_body(c: char, a: Seq<char>, b: Seq<char>, d: Seq<char>)
    requires
        is_style_letter(c),
        is_plain(a),
        is_plain(b),
        is_plain(d),
    ensures
        document(opening(c) + a + opening(c) + b + closing(c) + d + closing(c)) == seq![
            BodyBlock::RichText(
                seq![
                    StyledRun { style: style_of(c), text: a },
                    StyledRun { style: style_of(c), text: b },
                    StyledRun { style: style_of(c), text: d },
                ],
            ),
        ],
{
    lemma_same_name_nests(c, a, b, d);
    let style = style_of(c);
    let run_a = StyledRun { style, text: a };
    let run_b = StyledRun { style, text: b };
    let run_d = StyledRun { style, text: d };
    let text_a = MarkupNode::Text(a);
    let text_b = MarkupNode::Text(b);
    let text_d = MarkupNode::Text(d);
    let inside = styled(c, seq![text_b]);
    let none = Seq::<BodyUnit>::empty();
    assert(flatten_nodes(seq![text_b], style) =~= seq![BodyUnit::Span(run_b)]) by {
        reveal_with_fuel(flatten_nodes, 2);
        assert(seq![text_b].drop_first() =~= Seq::<MarkupNode>::empty());
    }
    assert(flatten_node(inside, style) =~= seq![BodyUnit::Span(run_b)]);
    let children = seq![text_a, inside, text_d];
    assert(flatten_nodes(children, style) =~= seq![
        BodyUnit::Span(run_a),
        BodyUnit::Span(run_b),
        BodyUnit::Span(run_d),
    ]) by {
        reveal_with_fuel(flatten_nodes, 4);
        assert(children.drop_first() =~= seq![inside, text_d]);
        assert(children.drop_first().drop_first() =~= seq![text_d]);
        assert(children.drop_first().drop_first().drop_first() =~= Seq::<MarkupNode>::empty());
    }
    let units = seq![BodyUnit::Span(run_a), BodyUnit::Span(run_b), BodyUnit::Span(run_d)];
    let tree = seq![nested(c, a, b, d)];
    assert(flatten_nodes(tree, plain()) =~= units) by {
        reveal_with_fuel(flatten_nodes, 2);
        assert(tree.drop_first() =~= Seq::<MarkupNode>::empty());
        assert(flatten_node(tree[0], plain()) == flatten_nodes(children, style));
    }
    assert(grouped(units) =~= seq![BodyBlock::RichText(seq![run_a, run_b, run_d])]) by {
        reveal_with_fuel(group_from, 4);
        assert(units.drop_first() =~= seq![BodyUnit::Span(run_b), BodyUnit::Span(run_d)]);
        assert(units.drop_first().drop_first() =~= seq![BodyUnit::Span(run_d)]);
        assert(units.drop_first().drop_first().drop_first() =~= none);
        assert(Seq::<StyledRun>::empty().push(run_a).push(run_b).push(run_d) =~= seq![
            run_a,
            run_b,
            run_d,
        ]);
    }
}

} // verus!
