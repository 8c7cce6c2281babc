//! From the markup tree to what is drawn: the tree is flattened into styled
//! runs and images, and runs that follow one another are grouped into blocks.

use crate::markup::grammar::{
    find, first_occurs_at, literal, node, nodes, occurs_at, text, MarkupNode, ParseFailure,
};
use crate::markup::RichTextSpanStyle;
use vstd::prelude::*;

verus! {

/// A run of text in one style.
pub struct StyledRun {
    pub style: RichTextSpanStyle,
    pub text: Seq<char>,
}

/// One item of a flattened body: a run of text or an image.
pub enum BodyUnit {
    Span(StyledRun),
    Image { src: Seq<char>, alt: Seq<char> },
}

/// One block of a grouped body: runs of text that follow one another, or an
/// image.
pub enum BodyBlock {
    RichText(Seq<StyledRun>),
    Image { src: Seq<char>, alt: Seq<char> },
}

/// The style with no flag set.
pub open spec fn plain() -> RichTextSpanStyle {
    RichTextSpanStyle { bold: false, italic: false, underline: false }
}

/// The units of one node, depth first and left to right. A formatting tag
/// sets its flag for everything inside it and changes no other flag; a
/// hyperlink changes none, and its target is not kept.
pub open spec fn flatten_node(node: MarkupNode, style: RichTextSpanStyle) -> Seq<BodyUnit>
    decreases node, 0int,
{
    match node {
        MarkupNode::Text(text) => seq![BodyUnit::Span(StyledRun { style, text })],
        MarkupNode::Bold(children) => flatten_nodes(
            children,
            RichTextSpanStyle { bold: true, ..style },
        ),
        MarkupNode::Italic(children) => flatten_nodes(
            children,
            RichTextSpanStyle { italic: true, ..style },
        ),
        MarkupNode::Underline(children) => flatten_nodes(
            children,
            RichTextSpanStyle { underline: true, ..style },
        ),
        MarkupNode::Hyperlink { href, children } => flatten_nodes(children, style),
        MarkupNode::Image { src, alt } => seq![BodyUnit::Image { src, alt }],
    }
}

/// The units of a sequence of nodes: those of each node, in order.
pub open spec fn flatten_nodes(tree: Seq<MarkupNode>, style: RichTextSpanStyle) -> Seq<BodyUnit>
    decreases tree, 1int,
{
    if tree.len() == 0 {
        Seq::empty()
    } else {
        flatten_node(tree[0], style) + flatten_nodes(tree.drop_first(), style)
    }
}

/// The block that the runs gathered so far make: none where there are none.
pub open spec fn flush(pending: Seq<StyledRun>) -> Seq<BodyBlock> {
    if pending.len() > 0 {
        seq![BodyBlock::RichText(pending)]
    } else {
        Seq::empty()
    }
}

/// The blocks of `units` where the runs in `pending` stand before them: a run
/// joins the runs before it, and an image closes them and is a block of its
/// own.
pub open spec fn group_from(pending: Seq<StyledRun>, units: Seq<BodyUnit>) -> Seq<BodyBlock>
    decreases units.len(),
{
    if units.len() == 0 {
        flush(pending)
    } else {
        match units[0] {
            BodyUnit::Span(run) => group_from(pending.push(run), units.drop_first()),
            BodyUnit::Image { src, alt } => flush(pending) + seq![BodyBlock::Image { src, alt }]
                + group_from(Seq::empty(), units.drop_first()),
        }
    }
}

/// The blocks of a flattened body.
pub open spec fn grouped(units: Seq<BodyUnit>) -> Seq<BodyBlock> {
    group_from(Seq::empty(), units)
}

/// A body in blocks: the grouped, flattened tree of the text where the text
/// is well-formed markup, and else the whole text as one plain run.
pub open spec fn document(text: Seq<char>) -> Seq<BodyBlock> {
    match nodes(text) {
        Ok(tree) => grouped(flatten_nodes(tree, plain())),
        Err(_) => seq![plain_block(text)],
    }
}

/// The units that a block holds, in order.
pub open spec fn units_of(block: BodyBlock) -> Seq<BodyUnit> {
    match block {
        BodyBlock::RichText(runs) => Seq::new(runs.len(), |i: int| BodyUnit::Span(runs[i])),
        BodyBlock::Image { src, alt } => seq![BodyUnit::Image { src, alt }],
    }
}

/// The units that a sequence of blocks holds, in order.
pub open spec fn ungrouped(blocks: Seq<BodyBlock>) -> Seq<BodyUnit>
    decreases blocks.len(),
{
    if blocks.len() == 0 {
        Seq::empty()
    } else {
        units_of(blocks[0]) + ungrouped(blocks.drop_first())
    }
}

/// No block of rich text is empty, and no two of them stand side by side.
pub open spec fn well_grouped(blocks: Seq<BodyBlock>) -> bool {
    &&& forall|i: int|
        0 <= i < blocks.len() ==> (#[trigger] blocks[i] matches BodyBlock::RichText(runs)
            ==> runs.len() > 0)
    &&& forall|i: int, j: int|
        0 <= i < blocks.len() && j == i + 1 && j < blocks.len() ==> !(#[trigger] blocks[i]
            is RichText && #[trigger] blocks[j] is RichText)
}

/// The units of two sequences of blocks one after the other.
pub proof fn lemma_ungrouped_concat(a: Seq<BodyBlock>, b: Seq<BodyBlock>)
    ensures
        ungrouped(a + b) == ungrouped(a) + ungrouped(b),
    decreases a.len(),
{
    if a.len() == 0 {
        assert(a + b == b);
    } else {
        assert((a + b).drop_first() == a.drop_first() + b);
        lemma_ungrouped_concat(a.drop_first(), b);
    }
}

/// Grouping with runs already gathered keeps every unit in its place: the
/// blocks hold the gathered runs and then the units, and nothing else.
pub proof fn lemma_group_from_keeps_units(pending: Seq<StyledRun>, units: Seq<BodyUnit>)
    ensures
        ungrouped(group_from(pending, units)) == units_of(BodyBlock::RichText(pending)) + units,
    decreases units.len(),
{
    let gathered = units_of(BodyBlock::RichText(pending));
    assert(ungrouped(flush(pending)) == gathered) by {
        reveal_with_fuel(ungrouped, 2);
        if pending.len() > 0 {
            assert(flush(pending).drop_first() == Seq::<BodyBlock>::empty());
            assert(gathered + Seq::<BodyUnit>::empty() == gathered);
        } else {
            assert(gathered == Seq::<BodyUnit>::empty());
        }
    }
    if units.len() == 0 {
        assert(gathered + units == gathered);
    } else {
        let rest = units.drop_first();
        match units[0] {
            BodyUnit::Span(run) => {
                lemma_group_from_keeps_units(pending.push(run), rest);
                assert(units_of(BodyBlock::RichText(pending.push(run))) + rest == gathered
                    + units);
            },
            BodyUnit::Image { src, alt } => {
                let image = seq![BodyBlock::Image { src, alt }];
                lemma_group_from_keeps_units(Seq::empty(), rest);
                let tail = group_from(Seq::empty(), rest);
                lemma_ungrouped_concat(flush(pending) + image, tail);
                lemma_ungrouped_concat(flush(pending), image);
                assert(ungrouped(image) == seq![units[0]]) by {
                    reveal_with_fuel(ungrouped, 2);
                    assert(image.drop_first() == Seq::<BodyBlock>::empty());
                    assert(units_of(image[0]) + Seq::<BodyUnit>::empty() == seq![units[0]]);
                }
                assert(units_of(BodyBlock::RichText(Seq::empty())) + rest == rest);
                assert(gathered + seq![units[0]] + rest == gathered + units);
            },
        }
    }
}

/// Grouping loses nothing and adds nothing: the blocks hold exactly the
/// units that were grouped, in their order.
pub proof fn lemma_group_keeps_units(units: Seq<BodyUnit>)
    ensures
        ungrouped(grouped(units)) == units,
{
    lemma_group_from_keeps_units(Seq::empty(), units);
    assert(units_of(BodyBlock::RichText(Seq::empty())) + units == units);
}

/// Grouping with runs already gathered gives well-grouped blocks, and where
/// runs were gathered the first block is the one that holds them.
pub proof fn lemma_group_from_well_grouped(pending: Seq<StyledRun>, units: Seq<BodyUnit>)
    ensures
        well_grouped(group_from(pending, units)),
        pending.len() > 0 ==> group_from(pending, units).len() > 0 && group_from(
            pending,
            units,
        )[0] is RichText,
        pending.len() > 0 ==> forall|j: int|
            j == 1 && j < group_from(pending, units).len() ==> !(#[trigger] group_from(
                pending,
                units,
            )[j] is RichText),
    decreases units.len(),
{
    if units.len() > 0 {
        let rest = units.drop_first();
        match units[0] {
            BodyUnit::Span(run) => {
                lemma_group_from_well_grouped(pending.push(run), rest);
            },
            BodyUnit::Image { src, alt } => {
                lemma_group_from_well_grouped(Seq::empty(), rest);
                let head = flush(pending) + seq![BodyBlock::Image { src, alt }];
                let tail = group_from(Seq::empty(), rest);
                let all = head + tail;
                assert forall|i: int, j: int|
                    0 <= i < all.len() && j == i + 1 && j < all.len() implies !(
                #[trigger] all[i] is RichText && #[trigger] all[j] is RichText) by {
                    if i >= head.len() {
                        assert(all[i] == tail[i - head.len()]);
                        assert(all[j] == tail[j - head.len()]);
                    }
                }
                assert forall|i: int| 0 <= i < all.len() implies (#[trigger] all[i] matches BodyBlock::RichText(
                    runs,
                ) ==> runs.len() > 0) by {
                    if i >= head.len() {
                        assert(all[i] == tail[i - head.len()]);
                    }
                }
            },
        }
    }
}

/// Grouped blocks are well grouped: no block of rich text is empty, and no
/// two of them stand side by side.
pub proof fn lemma_group_well_grouped(units: Seq<BodyUnit>)
    ensures
        well_grouped(grouped(units)),
{
    lemma_group_from_well_grouped(Seq::empty(), units);
}

/// The block that holds the given text as one plain run.
pub open spec fn plain_block(text: Seq<char>) -> BodyBlock {
    BodyBlock::RichText(seq![StyledRun { style: plain(), text }])
}

/// Text without `<` is read as one text node that holds all of it.
pub proof fn lemma_plain_text_parses(s: Seq<char>)
    requires
        s.len() > 0,
        forall|i: int| 0 <= i < s.len() ==> s[i] != '<',
    ensures
        nodes(s) == Ok::<Seq<MarkupNode>, ParseFailure>(seq![MarkupNode::Text(s)]),
{
    reveal_strlit("<img");
    reveal_strlit("<a");
    reveal_strlit("<");
    assert(literal(s, "<img"@) == Err::<int, ParseFailure>(ParseFailure::Mismatch)) by {
        if "<img"@.is_prefix_of(s) {
            assert(s.subrange(0, 4)[0] == '<');
        }
        if s.is_prefix_of("<img"@) {
            assert("<img"@.subrange(0, s.len() as int)[0] == s[0]);
        }
    }
    assert(literal(s, "<a"@) == Err::<int, ParseFailure>(ParseFailure::Mismatch)) by {
        if "<a"@.is_prefix_of(s) {
            assert(s.subrange(0, 2)[0] == '<');
        }
        if s.is_prefix_of("<a"@) {
            assert("<a"@.subrange(0, s.len() as int)[0] == s[0]);
        }
    }
    assert(literal(s, "<"@) == Err::<int, ParseFailure>(ParseFailure::Mismatch)) by {
        if "<"@.is_prefix_of(s) {
            assert(s.subrange(0, 1)[0] == '<');
        }
        if s.is_prefix_of("<"@) {
            assert("<"@.subrange(0, s.len() as int)[0] == s[0]);
        }
    }
    assert(find(s, "<"@) is None) by {
        assert forall|i: int| !first_occurs_at(s, "<"@, i) by {
            if occurs_at(s, "<"@, i) {
                assert(s.subrange(i, i + 1)[0] == '<');
            }
        }
    }
    assert(node(s) == text(s));
    reveal_with_fuel(nodes, 2);
    assert(s.skip(s.len() as int).len() == 0);
    assert(seq![MarkupNode::Text(s)] + Seq::<MarkupNode>::empty() == seq![MarkupNode::Text(s)]);
}

/// A body of plain text, with no `<` in it, is one block that holds the
/// whole text as one plain run.
pub proof fn lemma_plain_text_is_one_run(s: Seq<char>)
    requires
        s.len() > 0,
        forall|i: int| 0 <= i < s.len() ==> s[i] != '<',
    ensures
        document(s) == seq![plain_block(s)],
{
    lemma_plain_text_parses(s);
    let tree = seq![MarkupNode::Text(s)];
    let run = StyledRun { style: plain(), text: s };
    let units = seq![BodyUnit::Span(run)];
    assert(flatten_nodes(tree, plain()) == units) by {
        reveal_with_fuel(flatten_nodes, 2);
        assert(tree.drop_first() == Seq::<MarkupNode>::empty());
        assert(flatten_node(tree[0], plain()) + Seq::<BodyUnit>::empty() == units);
    }
    assert(grouped(units) == seq![plain_block(s)]) by {
        reveal_with_fuel(group_from, 2);
        assert(units.drop_first() == Seq::<BodyUnit>::empty());
        assert(Seq::<StyledRun>::empty().push(run) == seq![run]);
    }
}

} // verus!
