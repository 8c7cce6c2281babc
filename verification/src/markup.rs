//! Notification body markup: a small inline language with bold, italic and
//! underline spans, hyperlinks and images, which is parsed into a tree,
//! flattened into styled runs and grouped into renderable blocks.

use crate::markup::grammar::{nodes, MarkupNode, ParseFailure};
use crate::markup::layout::{
    document, flatten_node, flatten_nodes, flush, group_from, grouped, lemma_group_keeps_units,
    lemma_group_well_grouped, plain, ungrouped, well_grouped, BodyBlock, BodyUnit, StyledRun,
};
use crate::markup::parser::{lemma_children_view, parse_nodes, tree_parsed};
use crate::text::chars_of;
use vstd::prelude::*;

pub mod grammar;
pub mod layout;
pub mod nesting;
pub mod parser;

verus! {

/// A node of the parsed markup tree.
#[derive(Debug, PartialEq, Eq)]
pub enum MarkupTag {
    Bold(Vec<MarkupTag>),
    Italic(Vec<MarkupTag>),
    Underline(Vec<MarkupTag>),
    Hyperlink { href: String, children: Vec<MarkupTag> },
    Image { src: String, alt: String },
    Text(String),
}

/// The nodes that the given children stand for.
pub open spec fn children_view(children: Vec<MarkupTag>) -> Seq<MarkupNode>
    decreases children,
{
    Seq::new(
        children.len() as nat,
        |i: int|
            if 0 <= i < children.len() {
                children[i].view()
            } else {
                MarkupNode::Text(Seq::empty())
            },
    )
}

impl View for MarkupTag {
    type V = MarkupNode;

    open spec fn view(&self) -> MarkupNode
        decreases self,
    {
        match self {
            MarkupTag::Bold(children) => MarkupNode::Bold(children_view(*children)),
            MarkupTag::Italic(children) => MarkupNode::Italic(children_view(*children)),
            MarkupTag::Underline(children) => MarkupNode::Underline(children_view(*children)),
            MarkupTag::Hyperlink { href, children } => MarkupNode::Hyperlink {
                href: href@,
                children: children_view(*children),
            },
            MarkupTag::Image { src, alt } => MarkupNode::Image { src: src@, alt: alt@ },
            MarkupTag::Text(text) => MarkupNode::Text(text@),
        }
    }
}

/// The nodes that a sequence of tags stands for.
pub open spec fn tree_view(tags: Seq<MarkupTag>) -> Seq<MarkupNode> {
    Seq::new(tags.len(), |i: int| tags[i]@)
}

/// A copy of a tree.
fn clone_tree(tree: &Vec<MarkupTag>) -> (copy: Vec<MarkupTag>)
    ensures
        tree_view(copy@) == tree_view(tree@),
    decreases tree, 1int,
{
    let mut copy: Vec<MarkupTag> = Vec::new();
    let mut i: usize = 0;
    while i < tree.len()
        invariant
            i <= tree.len(),
            tree_view(copy@) == tree_view(tree@).take(i as int),
        decreases tree.len() - i,
    {
        let tag = clone_tag(&tree[i]);
        assert(tree_view(copy@.push(tag)) == tree_view(copy@).push(tag@));
        assert(tree_view(tree@).take(i + 1) == tree_view(tree@).take(i as int).push(
            tree@[i as int]@,
        ));
        copy.push(tag);
        i += 1;
    }
    assert(tree_view(tree@).take(i as int) == tree_view(tree@));
    copy
}

/// A copy of a tag and of all that is inside it.
fn clone_tag(tag: &MarkupTag) -> (copy: MarkupTag)
    ensures
        copy@ == tag@,
    decreases tag, 0int,
{
    match tag {
        MarkupTag::Bold(children) => {
            let copies = clone_tree(children);
            proof {
                lemma_children_view(*children);
                lemma_children_view(copies);
            }
            MarkupTag::Bold(copies)
        },
        MarkupTag::Italic(children) => {
            let copies = clone_tree(children);
            proof {
                lemma_children_view(*children);
                lemma_children_view(copies);
            }
            MarkupTag::Italic(copies)
        },
        MarkupTag::Underline(children) => {
            let copies = clone_tree(children);
            proof {
                lemma_children_view(*children);
                lemma_children_view(copies);
            }
            MarkupTag::Underline(copies)
        },
        MarkupTag::Hyperlink { href, children } => {
            let copies = clone_tree(children);
            proof {
                lemma_children_view(*children);
                lemma_children_view(copies);
            }
            MarkupTag::Hyperlink { href: href.clone(), children: copies }
        },
        MarkupTag::Image { src, alt } => MarkupTag::Image { src: src.clone(), alt: alt.clone() },
        MarkupTag::Text(text) => MarkupTag::Text(text.clone()),
    }
}

impl Clone for MarkupTag {
    /// A copy of the tag and of all that is inside it.
    fn clone(&self) -> (copy: Self)
        ensures
            copy@ == self@,
    {
        clone_tag(self)
    }
}

/// Which of bold, italic and underline a run of text has.
#[derive(Copy, Clone, Debug, PartialEq, Eq)]
pub struct RichTextSpanStyle {
    pub bold: bool,
    pub italic: bool,
    pub underline: bool,
}

/// A run of text in one style.
#[derive(Clone, Debug, PartialEq, Eq)]
pub struct RichTextSpan {
    pub style: RichTextSpanStyle,
    pub text: String,
}

impl View for RichTextSpan {
    type V = StyledRun;

    open spec fn view(&self) -> StyledRun {
        StyledRun { style: self.style, text: self.text@ }
    }
}

/// One item of a flattened body, before runs are grouped into blocks.
#[derive(Clone, Debug, PartialEq, Eq)]
pub enum UngroupedBodyElement {
    Span(RichTextSpan),
    Image { src: String, alt: String },
}

impl View for UngroupedBodyElement {
    type V = BodyUnit;

    open spec fn view(&self) -> BodyUnit {
        match self {
            UngroupedBodyElement::Span(span) => BodyUnit::Span(span@),
            UngroupedBodyElement::Image { src, alt } => BodyUnit::Image { src: src@, alt: alt@ },
        }
    }
}

/// One block of a body: runs of text that follow one another, or an image.
#[derive(Clone, Debug, PartialEq, Eq)]
pub enum BodyElement {
    RichText(Vec<RichTextSpan>),
    Image { src: String, alt: String },
}

/// The runs that a sequence of spans stands for.
pub open spec fn runs_view(spans: Seq<RichTextSpan>) -> Seq<StyledRun> {
    Seq::new(spans.len(), |i: int| spans[i]@)
}

/// The units that a sequence of ungrouped elements stands for.
pub open spec fn units_view(elements: Seq<UngroupedBodyElement>) -> Seq<BodyUnit> {
    Seq::new(elements.len(), |i: int| elements[i]@)
}

impl View for BodyElement {
    type V = BodyBlock;

    open spec fn view(&self) -> BodyBlock {
        match self {
            BodyElement::RichText(spans) => BodyBlock::RichText(runs_view(spans@)),
            BodyElement::Image { src, alt } => BodyBlock::Image { src: src@, alt: alt@ },
        }
    }
}

/// The blocks that a sequence of body elements stands for.
pub open spec fn blocks_view(elements: Seq<BodyElement>) -> Seq<BodyBlock> {
    Seq::new(elements.len(), |i: int| elements[i]@)
}

/// Parses a body into its tree. Fails where the text is not well-formed
/// markup: a tag that is never closed, or a `<` that opens no tag.
pub fn parse_markup(input: &str) -> (r: Result<Vec<MarkupTag>, ParseFailure>)
    ensures
        tree_parsed(r) == nodes(input@),
{
    let chars = chars_of(input);
    parse_nodes(chars.as_slice())
}

/// Flattens a tree into runs and images, starting from the plain style.
pub fn flatten(tree: Vec<MarkupTag>) -> (units: Vec<UngroupedBodyElement>)
    ensures
        units_view(units@) == flatten_nodes(tree_view(tree@), plain()),
{
    flatten_traverser(&tree, RichTextSpanStyle { bold: false, italic: false, underline: false })
}

/// Flattens a tree into runs and images, depth first and left to right,
/// where `style` holds the flags set by the tags around it.
fn flatten_traverser(tree: &Vec<MarkupTag>, style: RichTextSpanStyle) -> (units: Vec<
    UngroupedBodyElement,
>)
    ensures
        units_view(units@) == flatten_nodes(tree_view(tree@), style),
    decreases tree,
{
    let mut units: Vec<UngroupedBodyElement> = Vec::new();
    let mut i: usize = 0;
    assert(tree_view(tree@).take(0) == Seq::<MarkupNode>::empty());
    while i < tree.len()
        invariant
            i <= tree.len(),
            units_view(units@) == flatten_nodes(tree_view(tree@).take(i as int), style),
        decreases tree.len() - i,
    {
        let mut more = match &tree[i] {
            MarkupTag::Text(text) => {
                let mut one: Vec<UngroupedBodyElement> = Vec::new();
                one.push(UngroupedBodyElement::Span(RichTextSpan { style, text: text.clone() }));
                assert(units_view(one@) == flatten_node(tree@[i as int]@, style));
                one
            },
            MarkupTag::Bold(children) => {
                proof {
                    lemma_children_view(*children);
                }
                flatten_traverser(children, RichTextSpanStyle { bold: true, ..style })
            },
            MarkupTag::Italic(children) => {
                proof {
                    lemma_children_view(*children);
                }
                flatten_traverser(children, RichTextSpanStyle { italic: true, ..style })
            },
            MarkupTag::Underline(children) => {
                proof {
                    lemma_children_view(*children);
                }
                flatten_traverser(children, RichTextSpanStyle { underline: true, ..style })
            },
            MarkupTag::Hyperlink { href: _, children } => {
                proof {
                    lemma_children_view(*children);
                }
                flatten_traverser(children, style)
            },
            MarkupTag::Image { src, alt } => {
                let mut one: Vec<UngroupedBodyElement> = Vec::new();
                one.push(UngroupedBodyElement::Image { src: src.clone(), alt: alt.clone() });
                assert(units_view(one@) == flatten_node(tree@[i as int]@, style));
                one
            },
        };
        proof {
            let done = tree_view(tree@).take(i as int);
            let next = tree_view(tree@).take(i + 1);
            assert(next == done + seq![tree@[i as int]@]);
            lemma_flatten_concat(done, seq![tree@[i as int]@], style);
            assert(units_view(more@) == flatten_node(tree@[i as int]@, style));
            lemma_flatten_single(tree@[i as int]@, style);
            assert(units_view(units@ + more@) == units_view(units@) + units_view(more@));
        }
        units.append(&mut more);
        i += 1;
    }
    assert(tree_view(tree@).take(i as int) == tree_view(tree@));
    units
}

/// Flattening a sequence of one node flattens that node.
pub proof fn lemma_flatten_single(node: MarkupNode, style: RichTextSpanStyle)
    ensures
        flatten_nodes(seq![node], style) == flatten_node(node, style),
{
    assert(seq![node].drop_first() == Seq::<MarkupNode>::empty());
    assert(flatten_nodes(seq![node].drop_first(), style) == Seq::<BodyUnit>::empty());
    assert(flatten_node(node, style) + Seq::<BodyUnit>::empty() == flatten_node(node, style));
}

/// Flattening two sequences of nodes one after the other flattens their
/// concatenation.
pub proof fn lemma_flatten_concat(a: Seq<MarkupNode>, b: Seq<MarkupNode>, style: RichTextSpanStyle)
    ensures
        flatten_nodes(a + b, style) == flatten_nodes(a, style) + flatten_nodes(b, style),
    decreases a.len(),
{
    if a.len() == 0 {
        assert(a + b == b);
    } else {
        assert((a + b).drop_first() == a.drop_first() + b);
        lemma_flatten_concat(a.drop_first(), b, style);
    }
}

/// Groups runs that follow one another into one block of rich text; each
/// image is a block of its own.
pub fn group(elements: Vec<UngroupedBodyElement>) -> (blocks: Vec<BodyElement>)
    ensures
        blocks_view(blocks@) == grouped(units_view(elements@)),
        ungrouped(blocks_view(blocks@)) == units_view(elements@),
        well_grouped(blocks_view(blocks@)),
{
    proof {
        lemma_group_keeps_units(units_view(elements@));
        lemma_group_well_grouped(units_view(elements@));
    }
    let mut blocks: Vec<BodyElement> = Vec::new();
    let mut pending: Vec<RichTextSpan> = Vec::new();
    let mut i: usize = 0;
    let ghost units = units_view(elements@);
    assert(units.skip(0) == units);
    assert(runs_view(pending@) == Seq::<StyledRun>::empty());
    assert(blocks_view(blocks@) + grouped(units) == grouped(units));
    while i < elements.len()
        invariant
            i <= elements.len(),
            units == units_view(elements@),
            grouped(units) == blocks_view(blocks@) + group_from(
                runs_view(pending@),
                units.skip(i as int),
            ),
        decreases elements.len() - i,
    {
        let ghost before = blocks_view(blocks@);
        let ghost runs = runs_view(pending@);
        let ghost rest = units.skip(i as int);
        assert(rest[0] == elements@[i as int]@);
        assert(rest.drop_first() == units.skip(i + 1));
        match &elements[i] {
            UngroupedBodyElement::Span(span) => {
                let copy = RichTextSpan { style: span.style, text: span.text.clone() };
                assert(runs_view(pending@.push(copy)) == runs.push(span@));
                pending.push(copy);
            },
            UngroupedBodyElement::Image { src, alt } => {
                if pending.len() > 0 {
                    assert(blocks_view(blocks@.push(BodyElement::RichText(pending))) == before
                        + flush(runs));
                    blocks.push(BodyElement::RichText(pending));
                } else {
                    assert(runs == Seq::<StyledRun>::empty());
                    assert(before + flush(runs) == before);
                }
                pending = Vec::new();
                let image = BodyElement::Image { src: src.clone(), alt: alt.clone() };
                assert(blocks_view(blocks@.push(image)) == before + flush(runs) + seq![image@]);
                blocks.push(image);
                assert(runs_view(pending@) == Seq::<StyledRun>::empty());
            },
        }
        i += 1;
    }
    assert(units.skip(i as int).len() == 0);
    if pending.len() > 0 {
        assert(blocks_view(blocks@.push(BodyElement::RichText(pending))) == blocks_view(blocks@)
            + flush(runs_view(pending@)));
        blocks.push(BodyElement::RichText(pending));
    } else {
        assert(runs_view(pending@) == Seq::<StyledRun>::empty());
        assert(blocks_view(blocks@) + flush(runs_view(pending@)) == blocks_view(blocks@));
    }
    blocks
}

/// Turns the text of a body into blocks to draw. Text that is not
/// well-formed markup is kept whole, as one plain run.
pub fn markup(text: String) -> (body: Vec<BodyElement>)
    ensures
        blocks_view(body@) == document(text@),
        well_grouped(blocks_view(body@)),
{
    match parse_markup(text.as_str()) {
        Ok(parsed) => group(flatten(parsed)),
        Err(_) => {
            let span = RichTextSpan {
                style: RichTextSpanStyle { bold: false, italic: false, underline: false },
                text,
            };
            let mut spans: Vec<RichTextSpan> = Vec::new();
            spans.push(span);
            assert(runs_view(spans@) == seq![span@]);
            let block = BodyElement::RichText(spans);
            let mut body: Vec<BodyElement> = Vec::new();
            body.push(block);
            assert(blocks_view(body@) == seq![block@]);
            body
        },
    }
}

} // verus!
