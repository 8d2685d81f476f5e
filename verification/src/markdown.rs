//! A plain outline of a Markdown syntax tree: the nodes that the note and Blueprint parsers
//! read, in document (pre-)order, each with its byte span, its payload and the end of its
//! subtree. `ptdgrp_markdown` parses; the outline is built from its tree node by node.
use vstd::prelude::*;

use ptdgrp_markdown::{Document, MarkdownNode, Parser, ParserOptions};
use ptdgrp_markdown::code::Code;
use ptdgrp_markdown::link::Link;
use ptdgrp_markdown::list::ListItem;
use ptdgrp_markdown::reference::Reference;

use crate::parser::{ReferenceInfo, ReferenceView, opt_ref_view};

verus! {

#[verifier::external_type_specification]
#[verifier::external_body]
pub struct ExDocument<'a>(Document<'a>);

/// What a node of the outline is.
#[derive(Clone, Copy, Debug, PartialEq, Eq, Structural)]
pub enum MdKind {
    FrontMatter,
    Heading,
    Text,
    LineBreak,
    WikiLink,
    MarkdownLink,
    OtherLink,
    Embed,
    Tag,
    BlockCode,
    Footnote,
    List,
    ListItem,
    Other,
}

/// One node of the outline.
#[derive(Clone, Debug)]
pub struct MdNode {
    /// The node's ID in the parsed document.
    pub id: usize,
    pub kind: MdKind,
    /// The heading level (1 to 6) of a heading, else 0.
    pub level: u8,
    /// The text of a text node, the name of a tag, the path of a wikilink or embed, or the
    /// URL of a Markdown link; empty otherwise.
    pub text: String,
    /// The alias of a wikilink.
    pub alias: Option<String>,
    /// The reference of a wikilink or embed.
    pub reference: Option<ReferenceInfo>,
    /// The node's block ID, without `^`.
    pub block_id: Option<String>,
    /// The marker character of a task list item (`x` in `- [x]`).
    pub task: Option<char>,
    /// The node's half-open byte range in the source.
    pub start: usize,
    pub end: usize,
    /// The position just past the node's last descendant in the outline.
    pub subtree_end: usize,
}

/// Each node's subtree starts with the node and ends inside the outline.
pub open spec fn well_formed(nodes: Seq<MdNode>) -> bool {
    forall|i: int| 0 <= i < nodes.len() ==> i < (#[trigger] nodes[i]).subtree_end <= nodes.len()
}

/// A parsed document, together with the text and options it was parsed with. Only
/// [`parse_markdown`] makes one, so its view names the parse that produced its tree.
struct MarkdownDoc<'a> {
    doc: Document<'a>,
    text: &'a str,
    cjk: bool,
    max: usize,
}

impl<'a> View for MarkdownDoc<'a> {
    type V = (Seq<char>, bool, usize);

    closed spec fn view(&self) -> (Seq<char>, bool, usize) {
        (self.text@, self.cjk, self.max)
    }
}

/// Whether `ptdgrp_markdown::Parser::parse`, with GFM and OFM enabled, CJK autocorrection
/// as given and the given input limit, accepts a text.
pub uninterp spec fn markdown_accepts(text: Seq<char>, cjk: bool, max_input_bytes: usize) -> bool;

/// The number of node slots (`Tree::node_slots_len`) of the tree that the parse of
/// `(text, cjk, max_input_bytes)` builds.
pub uninterp spec fn md_slot_count(doc: (Seq<char>, bool, usize)) -> usize;

/// `Tree::get_first_child` of a node of that tree.
pub uninterp spec fn md_first_of(doc: (Seq<char>, bool, usize), id: usize) -> Option<usize>;

/// `Tree::get_next` (the next sibling) of a node of that tree.
pub uninterp spec fn md_next_of(doc: (Seq<char>, bool, usize), id: usize) -> Option<usize>;

/// The variant of a node's `MarkdownNode` body.
pub uninterp spec fn md_body_kind_of(doc: (Seq<char>, bool, usize), id: usize) -> MdKind;

/// The variant of a link node's `Link`.
pub uninterp spec fn md_link_kind_of(doc: (Seq<char>, bool, usize), id: usize) -> MdKind;

/// Whether a code node is a fenced or indented block.
pub uninterp spec fn md_block_code_of(doc: (Seq<char>, bool, usize), id: usize) -> bool;

/// A heading node's level.
pub uninterp spec fn md_level_of(doc: (Seq<char>, bool, usize), id: usize) -> u8;

/// A node's text payload.
pub uninterp spec fn md_text_of(doc: (Seq<char>, bool, usize), id: usize) -> Seq<char>;

/// A wikilink node's alias.
pub uninterp spec fn md_alias_of(doc: (Seq<char>, bool, usize), id: usize) -> Option<Seq<char>>;

/// A wikilink's or embed's reference.
pub uninterp spec fn md_reference_of(doc: (Seq<char>, bool, usize), id: usize) -> Option<ReferenceView>;

/// A task list item's marker.
pub uninterp spec fn md_task_of(doc: (Seq<char>, bool, usize), id: usize) -> Option<char>;

/// A node's OFM block ID.
pub uninterp spec fn md_block_id_of(doc: (Seq<char>, bool, usize), id: usize) -> Option<Seq<char>>;

/// A node's byte span.
pub uninterp spec fn md_span_of(doc: (Seq<char>, bool, usize), id: usize) -> (usize, usize);

/// The keys of a frontmatter node's mapping, in the order of its JSON object (sorted).
pub uninterp spec fn md_fm_keys_of(doc: (Seq<char>, bool, usize), id: usize) -> Seq<Seq<char>>;

/// The string value of a key of a frontmatter node's mapping, if it has one.
pub uninterp spec fn md_fm_string_of(doc: (Seq<char>, bool, usize), id: usize, key: Seq<char>) -> Option<Seq<char>>;

/// A frontmatter node's mapping as JSON text.
pub uninterp spec fn md_fm_json_of(doc: (Seq<char>, bool, usize), id: usize) -> Option<Seq<char>>;

/// `b` is the first child or the next sibling of `a`.
pub open spec fn md_step(doc: (Seq<char>, bool, usize), a: usize, b: usize) -> bool {
    md_first_of(doc, a) == Some(b) || md_next_of(doc, a) == Some(b)
}

/// A path of child and sibling links that starts at the root's first child.
pub open spec fn md_chain(doc: (Seq<char>, bool, usize), path: Seq<usize>) -> bool {
    &&& 0 < path.len()
    &&& md_first_of(doc, 0) == Some(path[0])
    &&& forall|i: int| 0 <= i < path.len() - 1 ==> md_step(doc, #[trigger] path[i], path[i + 1])
}

/// The node `id` is reached from the root through child and sibling links.
pub open spec fn md_reached(doc: (Seq<char>, bool, usize), id: usize) -> bool {
    exists|path: Seq<usize>| md_chain(doc, path) && path.last() == id
}

/// `ptdgrp_markdown::Parser::parse` with GFM and OFM enabled (and CJK autocorrection for
/// notes), refusing input over `max_input_bytes`; the crate's error is rendered as text.
/// Whether it succeeds is named by `markdown_accepts`; that a text longer than the limit is
/// refused is the crate's `ensure_limits`. The document is kept with what it was parsed
/// from, which the names of its tree are applied to.
#[verifier::external_body]
fn parse_markdown<'a>(text: &'a str, cjk: bool, max_input_bytes: usize) -> (r: Result<
    MarkdownDoc<'a>,
    String,
>)
    ensures
        r is Ok <==> markdown_accepts(text@, cjk, max_input_bytes),
        crate::text::byte_len(text@) > max_input_bytes ==> r is Err,
        r matches Ok(md) ==> md@ == (text@, cjk, max_input_bytes),
{
    let options = ParserOptions::default().enabled_gfm().enabled_ofm().with_max_input_bytes(
        max_input_bytes,
    );
    let options = if cjk {
        options.enabled_cjk_autocorrect()
    } else {
        options
    };
    let doc = Parser::new_with_options(text, options).parse().map_err(|error| format!("{error:?}"))?;
    Ok(MarkdownDoc { doc, text, cjk, max: max_input_bytes })
}

/// `ptdgrp_markdown::Tree::node_slots_len`: the number of node slots of the tree.
#[verifier::external_body]
fn md_slots(md: &MarkdownDoc) -> (n: usize)
    ensures
        n == md_slot_count(md@),
{
    md.doc.tree.node_slots_len()
}

/// `ptdgrp_markdown::Tree::get_first_child`, which indexes the node slots: asked of the root
/// (slot 0, which exists when there is a slot) or of a node reached from it. The tree keeps
/// its child and sibling links on live slots (`Tree::remove` unlinks a node before it
/// releases it), so neither indexes a missing or released slot.
#[verifier::external_body]
fn md_first_child(md: &MarkdownDoc, id: usize) -> (r: Option<usize>)
    requires
        (id == 0 && 0 < md_slot_count(md@)) || md_reached(md@, id),
    ensures
        r == md_first_of(md@, id),
{
    md.doc.tree.get_first_child(id)
}

/// `ptdgrp_markdown::Tree::get_next`: the next sibling of a node reached from the root.
#[verifier::external_body]
fn md_next(md: &MarkdownDoc, id: usize) -> (r: Option<usize>)
    requires
        md_reached(md@, id),
    ensures
        r == md_next_of(md@, id),
{
    md.doc.tree.get_next(id)
}

/// The variant of the `MarkdownNode` body of a node reached from the root (`Tree`'s
/// `Index`, which panics only on a missing or released slot), one kind per variant that the
/// parsers read; links and code are told apart by `md_link_kind` and `md_is_block_code`.
#[verifier::external_body]
fn md_kind(md: &MarkdownDoc, id: usize) -> (k: MdKind)
    requires
        md_reached(md@, id),
    ensures
        k == md_body_kind_of(md@, id),
{
    match &md.doc.tree[id].body {
        MarkdownNode::FrontMatter(_) => MdKind::FrontMatter,
        MarkdownNode::Heading(_) => MdKind::Heading,
        MarkdownNode::Text(_) => MdKind::Text,
        MarkdownNode::SoftBreak => MdKind::LineBreak,
        MarkdownNode::HardBreak => MdKind::LineBreak,
        MarkdownNode::Link(_) => MdKind::OtherLink,
        MarkdownNode::Embed(_) => MdKind::Embed,
        MarkdownNode::Tag(_) => MdKind::Tag,
        MarkdownNode::Code(_) => MdKind::BlockCode,
        MarkdownNode::Footnote(_) => MdKind::Footnote,
        MarkdownNode::List(_) => MdKind::List,
        MarkdownNode::ListItem(_) => MdKind::ListItem,
        _ => MdKind::Other,
    }
}

/// The variant of a link node's `Link`: wikilink, Markdown (default) link, or another kind
/// (footnote links).
#[verifier::external_body]
fn md_link_kind(md: &MarkdownDoc, id: usize) -> (k: MdKind)
    requires
        md_reached(md@, id),
    ensures
        k == md_link_kind_of(md@, id),
{
    match &md.doc.tree[id].body {
        MarkdownNode::Link(link) => match link.as_ref() {
            Link::Wikilink(_) => MdKind::WikiLink,
            Link::Default(_) => MdKind::MarkdownLink,
            _ => MdKind::OtherLink,
        },
        _ => MdKind::Other,
    }
}

/// Whether a code node is a fenced or indented code block (not inline code).
#[verifier::external_body]
fn md_is_block_code(md: &MarkdownDoc, id: usize) -> (b: bool)
    requires
        md_reached(md@, id),
    ensures
        b == md_block_code_of(md@, id),
{
    match &md.doc.tree[id].body {
        MarkdownNode::Code(code) => matches!(code.as_ref(), Code::Fenced(_) | Code::Indented(_)),
        _ => false,
    }
}

/// The level (1 to 6) of a heading node's `HeadingLevel`.
#[verifier::external_body]
fn md_heading_level(md: &MarkdownDoc, id: usize) -> (l: u8)
    requires
        md_reached(md@, id),
    ensures
        l == md_level_of(md@, id),
{
    match &md.doc.tree[id].body {
        MarkdownNode::Heading(heading) => *heading.level() as u8,
        _ => 0,
    }
}

/// The text payload of a node: a text node's text resolved by `Document::text`, a tag's
/// name, a wikilink's or embed's path, or a Markdown link's URL.
#[verifier::external_body]
fn md_text(md: &MarkdownDoc, id: usize) -> (t: String)
    requires
        md_reached(md@, id),
    ensures
        t@ == md_text_of(md@, id),
{
    match &md.doc.tree[id].body {
        MarkdownNode::Text(text) => md.doc.text(text).to_string(),
        MarkdownNode::Tag(tag) => tag.clone(),
        MarkdownNode::Embed(embed) => embed.path.clone(),
        MarkdownNode::Link(link) => match link.as_ref() {
            Link::Wikilink(wikilink) => wikilink.path.clone(),
            Link::Default(default_link) => md.doc.text(&default_link.url).to_string(),
            _ => String::new(),
        },
        _ => String::new(),
    }
}

/// The alias (`text`) of a wikilink node.
#[verifier::external_body]
fn md_alias(md: &MarkdownDoc, id: usize) -> (a: Option<String>)
    requires
        md_reached(md@, id),
    ensures
        opt_text(a) == md_alias_of(md@, id),
{
    match &md.doc.tree[id].body {
        MarkdownNode::Link(link) => match link.as_ref() {
            Link::Wikilink(wikilink) => wikilink.text.clone(),
            _ => None,
        },
        _ => None,
    }
}

/// The `Reference` of a wikilink or embed node, converted variant by variant.
#[verifier::external_body]
fn md_reference(md: &MarkdownDoc, id: usize) -> (r: Option<ReferenceInfo>)
    requires
        md_reached(md@, id),
    ensures
        opt_ref_view(r) == md_reference_of(md@, id),
{
    let reference = match &md.doc.tree[id].body {
        MarkdownNode::Embed(embed) => embed.reference.as_ref(),
        MarkdownNode::Link(link) => match link.as_ref() {
            Link::Wikilink(wikilink) => wikilink.reference.as_ref(),
            _ => None,
        },
        _ => None,
    };
    reference.map(|reference| match reference {
        Reference::Heading(value) => ReferenceInfo::Heading { value: value.clone() },
        Reference::MultiHeading(value) => ReferenceInfo::MultiHeading { value: value.clone() },
        Reference::BlockId(value) => ReferenceInfo::BlockId { value: value.clone() },
    })
}

/// The marker of a task list item (`TaskItem::task`).
#[verifier::external_body]
fn md_task_marker(md: &MarkdownDoc, id: usize) -> (m: Option<char>)
    requires
        md_reached(md@, id),
    ensures
        m == md_task_of(md@, id),
{
    match &md.doc.tree[id].body {
        MarkdownNode::ListItem(item) => match item.as_ref() {
            ListItem::Task(task) => task.task,
            _ => None,
        },
        _ => None,
    }
}

/// The node's OFM block ID (`Node::id`).
#[verifier::external_body]
fn md_block_id(md: &MarkdownDoc, id: usize) -> (b: Option<String>)
    requires
        md_reached(md@, id),
    ensures
        opt_text(b) == md_block_id_of(md@, id),
{
    md.doc.tree[id].id.as_ref().map(|id| id.to_string())
}

/// The node's byte span (`Node::span`).
#[verifier::external_body]
fn md_span(md: &MarkdownDoc, id: usize) -> (s: (usize, usize))
    requires
        md_reached(md@, id),
    ensures
        s == md_span_of(md@, id),
{
    let span = &md.doc.tree[id].span;
    (span.start as usize, span.end as usize)
}

/// A frontmatter node's YAML mapping converted to JSON (`serde_json::to_value`, whose object
/// map sorts its keys) and rendered as JSON text.
#[verifier::external_body]
fn md_frontmatter_json(md: &MarkdownDoc, id: usize) -> (v: Option<String>)
    requires
        md_reached(md@, id),
    ensures
        opt_text(v) == md_fm_json_of(md@, id),
{
    match &md.doc.tree[id].body {
        MarkdownNode::FrontMatter(map) => serde_json::to_value(map.as_ref()).ok().map(|value| value.to_string()),
        _ => None,
    }
}

/// The value of `key` in a frontmatter node's YAML mapping, converted to JSON
/// (`serde_json::to_value`), if it is a string.
#[verifier::external_body]
fn md_frontmatter_string(md: &MarkdownDoc, id: usize, key: &str) -> (v: Option<String>)
    requires
        md_reached(md@, id),
    ensures
        opt_text(v) == md_fm_string_of(md@, id, key@),
{
    match &md.doc.tree[id].body {
        MarkdownNode::FrontMatter(map) => map
            .get(key)
            .and_then(|value| serde_json::to_value(value).ok())
            .and_then(|value| value.as_str().map(str::to_string)),
        _ => None,
    }
}

/// The keys of a frontmatter node's YAML mapping, as the keys of its JSON object
/// (`serde_json::to_value`, whose object map keeps its keys sorted); none when the mapping
/// does not convert.
#[verifier::external_body]
fn md_frontmatter_keys(md: &MarkdownDoc, id: usize) -> (k: Vec<String>)
    requires
        md_reached(md@, id),
    ensures
        k@.map_values(|s: String| s@) == md_fm_keys_of(md@, id),
{
    match &md.doc.tree[id].body {
        MarkdownNode::FrontMatter(map) => match serde_json::to_value(map.as_ref()) {
            Ok(serde_json::Value::Object(object)) => object.keys().cloned().collect(),
            _ => Vec::new(),
        },
        _ => Vec::new(),
    }
}

/// The view of an optional string.
pub open spec fn opt_text(o: Option<String>) -> Option<Seq<char>> {
    match o {
        Some(s) => Some(s@),
        None => None,
    }
}

/// The outline kind of a node: a link by its `Link` variant, code that is not a block is
/// another node, and the body's variant otherwise.
pub open spec fn md_kind_spec(doc: (Seq<char>, bool, usize), id: usize) -> MdKind {
    let k = md_body_kind_of(doc, id);
    if k == MdKind::OtherLink {
        md_link_kind_of(doc, id)
    } else if k == MdKind::BlockCode && !md_block_code_of(doc, id) {
        MdKind::Other
    } else {
        k
    }
}

/// The node of the outline holds what the tree holds for the node `id`.
pub open spec fn node_matches(n: MdNode, doc: (Seq<char>, bool, usize), id: usize) -> bool {
    &&& n.id == id
    &&& n.kind == md_kind_spec(doc, id)
    &&& n.level == md_level_of(doc, id)
    &&& n.text@ == md_text_of(doc, id)
    &&& opt_text(n.alias) == md_alias_of(doc, id)
    &&& opt_ref_view(n.reference) == md_reference_of(doc, id)
    &&& opt_text(n.block_id) == md_block_id_of(doc, id)
    &&& n.task == md_task_of(doc, id)
    &&& (n.start, n.end) == md_span_of(doc, id)
}

/// The stack after visiting the node on top of `stack`: its next sibling, at its depth, goes
/// below its first child, one level deeper.
pub open spec fn walk_next(doc: (Seq<char>, bool, usize), stack: Seq<(usize, usize)>) -> Seq<(usize, usize)>
    recommends
        0 < stack.len(),
{
    let top = stack.last();
    let rest = stack.drop_last();
    let rest = match md_next_of(doc, top.0) {
        Some(n) => rest.push((n, top.1)),
        None => rest,
    };
    match md_first_of(doc, top.0) {
        Some(c) => rest.push((c, (top.1 + 1) as usize)),
        None => rest,
    }
}

/// The nodes, with their depths, that a pre-order walk from `stack` visits in at most `fuel`
/// steps.
pub open spec fn md_walk(doc: (Seq<char>, bool, usize), stack: Seq<(usize, usize)>, fuel: nat) -> Seq<(usize, usize)>
    decreases fuel,
{
    if fuel == 0 || stack.len() == 0 {
        Seq::empty()
    } else {
        seq![stack.last()] + md_walk(doc, walk_next(doc, stack), (fuel - 1) as nat)
    }
}

/// The nodes below the root, with their depths, in document order (at most one visit per
/// node slot).
pub open spec fn md_order(doc: (Seq<char>, bool, usize)) -> Seq<(usize, usize)> {
    if md_slot_count(doc) == 0 {
        Seq::empty()
    } else {
        match md_first_of(doc, 0) {
            Some(c) => md_walk(doc, seq![(c, 0usize)], md_slot_count(doc) as nat),
            None => Seq::empty(),
        }
    }
}

/// `end` is just past the subtree of the `i`th node of `order`: the nodes between are deeper,
/// and the one at `end`, if any, is not.
pub open spec fn subtree_closed(order: Seq<(usize, usize)>, i: int, end: int) -> bool {
    &&& i < end <= order.len()
    &&& forall|j: int| i < j < end ==> (#[trigger] order[j]).1 > order[i].1
    &&& (end == order.len() || order[end].1 <= order[i].1)
}

/// `nodes` is the outline of the document that the parse of `doc` builds: one node per node
/// of `md_order`, in that order, each holding what the tree holds, with its subtree's end.
pub open spec fn md_outline(nodes: Seq<MdNode>, doc: (Seq<char>, bool, usize)) -> bool {
    &&& nodes.len() == md_order(doc).len()
    &&& forall|i: int| 0 <= i < nodes.len() ==> {
        &&& node_matches(#[trigger] nodes[i], doc, md_order(doc)[i].0)
        &&& subtree_closed(md_order(doc), i, nodes[i].subtree_end as int)
    }
}

/// The last frontmatter node of `order`.
pub open spec fn last_frontmatter(doc: (Seq<char>, bool, usize), order: Seq<(usize, usize)>) -> Option<usize>
    decreases order.len(),
{
    if order.len() == 0 {
        None
    } else if md_kind_spec(doc, order.last().0) == MdKind::FrontMatter {
        Some(order.last().0)
    } else {
        last_frontmatter(doc, order.drop_last())
    }
}

/// The keys among `keys` whose value in the frontmatter node `id` is a string, with that
/// value, in order.
pub open spec fn fm_entries(doc: (Seq<char>, bool, usize), id: usize, keys: Seq<Seq<char>>) -> Seq<(Seq<char>, Seq<char>)>
    decreases keys.len(),
{
    if keys.len() == 0 {
        Seq::empty()
    } else {
        let prev = fm_entries(doc, id, keys.drop_last());
        match md_fm_string_of(doc, id, keys.last()) {
            Some(v) => prev.push((keys.last(), v)),
            None => prev,
        }
    }
}

/// The string-valued entries of a document's last frontmatter node, if it has one.
pub open spec fn md_document_frontmatter(doc: (Seq<char>, bool, usize)) -> Option<Seq<(Seq<char>, Seq<char>)>> {
    match last_frontmatter(doc, md_order(doc)) {
        Some(id) => Some(fm_entries(doc, id, md_fm_keys_of(doc, id))),
        None => None,
    }
}

/// The JSON text of a note's last frontmatter node, if it has one.
pub open spec fn md_note_frontmatter(doc: (Seq<char>, bool, usize)) -> Option<Seq<char>> {
    match last_frontmatter(doc, md_order(doc)) {
        Some(id) => md_fm_json_of(doc, id),
        None => None,
    }
}

/// `nodes` is the outline of the parse of the Blueprint document `source` (GFM and OFM, with
/// no input limit).
pub open spec fn document_nodes(source: Seq<char>, nodes: Seq<MdNode>) -> bool {
    &&& well_formed(nodes)
    &&& md_outline(nodes, (source, false, usize::MAX))
}

/// `nodes` is the outline of the parse of the Blueprint document `source`, and `fm` the
/// string-valued entries of its last frontmatter node.
pub open spec fn document_read(
    source: Seq<char>,
    nodes: Seq<MdNode>,
    fm: Option<Seq<(Seq<char>, Seq<char>)>>,
) -> bool {
    &&& document_nodes(source, nodes)
    &&& fm == md_document_frontmatter((source, false, usize::MAX))
}

/// The outline of a document is well formed.
pub proof fn lemma_outline_well_formed(nodes: Seq<MdNode>, doc: (Seq<char>, bool, usize))
    requires
        md_outline(nodes, doc),
    ensures
        well_formed(nodes),
{
    assert forall|i: int| 0 <= i < nodes.len() implies i < (#[trigger] nodes[i]).subtree_end <= nodes.len() by {
        assert(subtree_closed(md_order(doc), i, nodes[i].subtree_end as int));
    }
}

proof fn lemma_reach_step(doc: (Seq<char>, bool, usize), a: usize, b: usize)
    requires
        md_reached(doc, a),
        md_step(doc, a, b),
    ensures
        md_reached(doc, b),
{
    let p = choose|p: Seq<usize>| md_chain(doc, p) && p.last() == a;
    let q = p.push(b);
    assert forall|i: int| 0 <= i < q.len() - 1 implies md_step(doc, #[trigger] q[i], q[i + 1]) by {
        if i < p.len() - 1 {
            assert(q[i] == p[i] && q[i + 1] == p[i + 1]);
        } else {
            assert(q[i] == a && q[i + 1] == b);
        }
    }
    assert(q[0] == p[0]);
    assert(md_chain(doc, q) && q.last() == b);
}

/// The nodes below the root, with their depths, in document order.
fn walk_order(md: &MarkdownDoc) -> (order: Vec<(usize, usize)>)
    ensures
        order@ == md_order(md@),
        forall|k: int| 0 <= k < order@.len() ==> md_reached(md@, (#[trigger] order@[k]).0),
{
    let ghost d = md@;
    let slots = md_slots(md);
    let mut order: Vec<(usize, usize)> = Vec::new();
    if slots == 0 {
        return order;
    }
    let first = match md_first_child(md, 0) {
        Some(c) => c,
        None => return order,
    };
    proof {
        let p = seq![first];
        assert(md_chain(d, p) && p.last() == first);
    }
    let mut stack: Vec<(usize, usize)> = Vec::new();
    stack.push((first, 0));
    let mut fuel: usize = slots;
    let mut steps: usize = 0;
    assert(stack@ =~= seq![(first, 0usize)]);
    assert(order@ + md_walk(d, stack@, fuel as nat) =~= md_order(d));
    while fuel > 0 && stack.len() > 0
        invariant
            d == md@,
            steps + fuel == slots,
            order@ + md_walk(d, stack@, fuel as nat) == md_order(d),
            forall|k: int| 0 <= k < stack@.len() ==> (#[trigger] stack@[k]).1 <= steps,
            forall|k: int| 0 <= k < stack@.len() ==> md_reached(d, (#[trigger] stack@[k]).0),
            forall|k: int| 0 <= k < order@.len() ==> md_reached(d, (#[trigger] order@[k]).0),
        decreases fuel,
    {
        let ghost before = stack@;
        let ghost done = order@;
        let top = stack.pop().unwrap();
        assert(top == before[before.len() - 1]);
        assert(forall|k: int| 0 <= k < stack@.len() ==> stack@[k] == before[k]);
        let next = md_next(md, top.0);
        if let Some(n) = next {
            proof {
                lemma_reach_step(d, top.0, n);
            }
            stack.push((n, top.1));
        }
        let child = md_first_child(md, top.0);
        if let Some(c) = child {
            proof {
                lemma_reach_step(d, top.0, c);
            }
            stack.push((c, top.1 + 1));
        }
        assert(stack@ =~= walk_next(d, before));
        order.push(top);
        proof {
            let rest = md_walk(d, stack@, (fuel - 1) as nat);
            assert(md_walk(d, before, fuel as nat) == seq![top] + rest);
            assert(order@ + rest =~= done + (seq![top] + rest));
        }
        fuel = fuel - 1;
        steps = steps + 1;
    }
    assert(md_walk(d, stack@, fuel as nat) =~= Seq::<(usize, usize)>::empty());
    assert(order@ =~= order@ + md_walk(d, stack@, fuel as nat));
    order
}

/// The node of the outline for the document node `id`, with the given subtree end.
fn outline_node(md: &MarkdownDoc, id: usize, subtree_end: usize) -> (n: MdNode)
    requires
        md_reached(md@, id),
    ensures
        node_matches(n, md@, id),
        n.subtree_end == subtree_end,
{
    let mut kind = md_kind(md, id);
    if kind == MdKind::OtherLink {
        kind = md_link_kind(md, id);
    } else if kind == MdKind::BlockCode && !md_is_block_code(md, id) {
        kind = MdKind::Other;
    }
    let level = md_heading_level(md, id);
    let (start, end) = md_span(md, id);
    MdNode {
        id,
        kind,
        level,
        text: md_text(md, id),
        alias: md_alias(md, id),
        reference: md_reference(md, id),
        block_id: md_block_id(md, id),
        task: md_task_marker(md, id),
        start,
        end,
        subtree_end,
    }
}

/// The position just past the subtree of the `i`th node of `order`.
fn subtree_end_at(order: &Vec<(usize, usize)>, i: usize) -> (e: usize)
    requires
        i < order@.len(),
    ensures
        subtree_closed(order@, i as int, e as int),
{
    let depth = order[i].1;
    let n: usize = order.len();
    let mut j: usize = i + 1;
    while j < order.len() && order[j].1 > depth
        invariant
            i < j <= order@.len(),
            depth == order@[i as int].1,
            forall|k: int| i < k < j ==> (#[trigger] order@[k]).1 > depth,
        decreases order@.len() - j,
    {
        j = j + 1;
    }
    j
}

/// The outline of a parsed document: its nodes below the root, in document order.
fn outline(md: &MarkdownDoc) -> (r: (Vec<MdNode>, Ghost<Seq<(usize, usize)>>))
    ensures
        r.1@ == md_order(md@),
        md_outline(r.0@, md@),
        forall|k: int| 0 <= k < r.1@.len() ==> md_reached(md@, (#[trigger] r.1@[k]).0),
{
    let order = walk_order(md);
    let mut nodes: Vec<MdNode> = Vec::new();
    let mut i: usize = 0;
    while i < order.len()
        invariant
            order@ == md_order(md@),
            forall|k: int| 0 <= k < order@.len() ==> md_reached(md@, (#[trigger] order@[k]).0),
            i <= order@.len(),
            nodes@.len() == i,
            forall|k: int| 0 <= k < i ==> {
                &&& node_matches(#[trigger] nodes@[k], md@, order@[k].0)
                &&& subtree_closed(order@, k, nodes@[k].subtree_end as int)
            },
        decreases order@.len() - i,
    {
        let end = subtree_end_at(&order, i);
        let node = outline_node(md, order[i].0, end);
        nodes.push(node);
        i = i + 1;
    }
    (nodes, Ghost(order@))
}

/// The index of the last frontmatter node of an outline.
fn last_frontmatter_index(nodes: &Vec<MdNode>, order: Ghost<Seq<(usize, usize)>>, doc: Ghost<(Seq<char>, bool, usize)>) -> (r: Option<usize>)
    requires
        nodes@.len() == order@.len(),
        forall|k: int| 0 <= k < nodes@.len() ==> node_matches(#[trigger] nodes@[k], doc@, order@[k].0),
    ensures
        match r {
            Some(k) => k < nodes@.len() && last_frontmatter(doc@, order@) == Some(nodes@[k as int].id),
            None => last_frontmatter(doc@, order@) is None,
        },
{
    let mut found: Option<usize> = None;
    let mut i: usize = 0;
    while i < nodes.len()
        invariant
            nodes@.len() == order@.len(),
            forall|k: int| 0 <= k < nodes@.len() ==> node_matches(#[trigger] nodes@[k], doc@, order@[k].0),
            i <= nodes@.len(),
            match found {
                Some(k) => k < i && last_frontmatter(doc@, order@.subrange(0, i as int)) == Some(nodes@[k as int].id),
                None => last_frontmatter(doc@, order@.subrange(0, i as int)) is None,
            },
        decreases nodes@.len() - i,
    {
        assert(order@.subrange(0, i + 1).drop_last() =~= order@.subrange(0, i as int));
        assert(node_matches(nodes@[i as int], doc@, order@[i as int].0));
        if nodes[i].kind == MdKind::FrontMatter {
            found = Some(i);
        }
        i = i + 1;
    }
    assert(order@.subrange(0, nodes@.len() as int) =~= order@);
    found
}

/// The string-valued entries of the frontmatter node `id`.
fn frontmatter_entries(md: &MarkdownDoc, id: usize) -> (entries: Vec<(String, String)>)
    requires
        md_reached(md@, id),
    ensures
        crate::blueprint::document::entries_view(entries@) == fm_entries(md@, id, md_fm_keys_of(md@, id)),
{
    let keys = md_frontmatter_keys(md, id);
    let ghost kv = keys@.map_values(|s: String| s@);
    let mut entries: Vec<(String, String)> = Vec::new();
    let mut i: usize = 0;
    while i < keys.len()
        invariant
            kv == keys@.map_values(|s: String| s@),
            kv == md_fm_keys_of(md@, id),
            md_reached(md@, id),
            i <= keys@.len(),
            crate::blueprint::document::entries_view(entries@) == fm_entries(md@, id, kv.subrange(0, i as int)),
        decreases keys@.len() - i,
    {
        let ghost prev = entries@;
        assert(kv.subrange(0, i + 1).drop_last() =~= kv.subrange(0, i as int));
        assert(kv.subrange(0, i + 1).last() == keys@[i as int]@);
        if let Some(value) = md_frontmatter_string(md, id, keys[i].as_str()) {
            entries.push((keys[i].clone(), value));
            assert(crate::blueprint::document::entries_view(entries@) =~= crate::blueprint::document::entries_view(prev).push((keys@[i as int]@, value@)));
        }
        i = i + 1;
    }
    assert(kv.subrange(0, keys@.len() as int) =~= kv);
    entries
}

/// Parses a note for the note parser (GFM, OFM and CJK autocorrection, at most
/// `max_input_bytes` bytes) and returns its outline together with the JSON text of its last
/// frontmatter node's mapping.
pub fn note_outline(text: &str, max_input_bytes: usize) -> (r: Result<
    (Vec<MdNode>, Option<String>),
    String,
>)
    ensures
        r is Ok <==> markdown_accepts(text@, true, max_input_bytes),
        crate::text::byte_len(text@) > max_input_bytes ==> r is Err,
        r matches Ok((nodes, fm)) ==> {
            &&& md_outline(nodes@, (text@, true, max_input_bytes))
            &&& opt_text(fm) == md_note_frontmatter((text@, true, max_input_bytes))
        },
{
    let md = parse_markdown(text, true, max_input_bytes)?;
    let (nodes, order) = outline(&md);
    let frontmatter = match last_frontmatter_index(&nodes, order, Ghost(md@)) {
        Some(k) => md_frontmatter_json(&md, nodes[k].id),
        None => None,
    };
    Ok((nodes, frontmatter))
}

/// Parses a Blueprint document (GFM and OFM) and returns its outline together with the
/// string-valued entries of its last frontmatter node, if it has one.
pub fn document_outline(text: &str) -> (r: Result<
    (Vec<MdNode>, Option<Vec<(String, String)>>),
    String,
>)
    ensures
        r is Ok <==> markdown_accepts(text@, false, usize::MAX),
        r matches Ok((nodes, fm)) ==> document_read(
            text@,
            nodes@,
            match fm {
                Some(e) => Some(crate::blueprint::document::entries_view(e@)),
                None => None,
            },
        ),
{
    let md = parse_markdown(text, false, usize::MAX)?;
    let (nodes, order) = outline(&md);
    proof {
        lemma_outline_well_formed(nodes@, md@);
    }
    let frontmatter = match last_frontmatter_index(&nodes, order, Ghost(md@)) {
        Some(k) => Some(frontmatter_entries(&md, nodes[k].id)),
        None => None,
    };
    Ok((nodes, frontmatter))
}

} // verus!
