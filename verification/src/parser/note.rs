//! What a note holds: its headings (with their heading paths), links, embeds, tags and
//! block IDs, read from the outline of its Markdown tree in document order.
use vstd::prelude::*;
use vstd::string::StringSliceAdditionalSpecFns;
use vstd::utf8::encode_utf8;

use crate::markdown::{MdKind, MdNode, well_formed};
use crate::parser::{
    fragment_reference, ReferenceInfo, ReferenceView, SectionInfo, SourceSpan, anchor_spec, heading_anchor,
    line_number_for_byte, line_number_spec, link_target_spec, local_markdown_link_target,
    opt_ref_view, slice_spec, slice_text,
};
use crate::text::{chars_of, push_char, push_str, string_of, trim, trim_bounds};

verus! {

/// How a link names its target.
#[derive(Clone, Copy, Debug, PartialEq, Eq, Structural)]
pub enum LinkKind {
    Wikilink,
    Markdown,
}

impl Default for LinkKind {
    fn default() -> (r: Self)
        ensures
            r == LinkKind::Wikilink,
    {
        LinkKind::Wikilink
    }
}

/// What a tag applies to: the whole note (first content line of a note with no heading
/// above it), the section of the heading above it (first content line after that heading),
/// or its own line.
#[derive(Clone, Copy, Debug, PartialEq, Eq, Structural)]
pub enum TagScope {
    Note,
    Section,
    Line,
}

#[derive(Clone, Debug, PartialEq, Eq)]
pub struct HeadingInfo {
    pub text: String,
    pub level: u8,
    pub anchor: String,
    /// The texts of the enclosing headings, outermost first.
    pub path: Vec<String>,
    pub source: SourceSpan,
}

#[derive(Clone, Debug, PartialEq, Eq)]
pub struct LinkInfo {
    pub raw: String,
    pub target: String,
    pub alias: Option<String>,
    pub reference: Option<ReferenceInfo>,
    pub kind: LinkKind,
    pub source: SourceSpan,
}

#[derive(Clone, Debug, PartialEq, Eq)]
pub struct EmbedInfo {
    pub raw: String,
    pub target: String,
    pub reference: Option<ReferenceInfo>,
    pub source: SourceSpan,
}

#[derive(Clone, Debug, PartialEq, Eq)]
pub struct TagInfo {
    pub tag: String,
    pub scope: TagScope,
    pub source: SourceSpan,
}

#[derive(Clone, Debug, PartialEq, Eq)]
pub struct BlockInfo {
    pub id: String,
    pub source: SourceSpan,
}

/// A parsed note.
#[derive(Clone, Debug)]
pub struct ParsedNote {
    pub path: String,
    /// The note's last frontmatter mapping, as JSON text.
    pub frontmatter: Option<String>,
    pub headings: Vec<HeadingInfo>,
    pub links: Vec<LinkInfo>,
    pub embeds: Vec<EmbedInfo>,
    pub tags: Vec<TagInfo>,
    pub blocks: Vec<BlockInfo>,
}

pub struct SectionView {
    pub heading: Seq<char>,
    pub level: u8,
    pub path: Seq<Seq<char>>,
    pub anchor: Seq<char>,
}

pub struct SpanView {
    pub path: Seq<char>,
    pub line_start: int,
    pub line_end: int,
    pub byte_start: int,
    pub byte_end: int,
    pub section: Option<SectionView>,
}

pub struct HeadingView {
    pub text: Seq<char>,
    pub level: u8,
    pub anchor: Seq<char>,
    pub path: Seq<Seq<char>>,
    pub source: SpanView,
}

pub struct LinkView {
    pub raw: Seq<char>,
    pub target: Seq<char>,
    pub alias: Option<Seq<char>>,
    pub reference: Option<ReferenceView>,
    pub kind: LinkKind,
    pub source: SpanView,
}

pub struct EmbedView {
    pub raw: Seq<char>,
    pub target: Seq<char>,
    pub reference: Option<ReferenceView>,
    pub source: SpanView,
}

pub struct TagView {
    pub tag: Seq<char>,
    pub scope: TagScope,
    pub source: SpanView,
}

pub struct BlockView {
    pub id: Seq<char>,
    pub source: SpanView,
}

/// The views of a list of strings.
pub open spec fn texts_of(v: Seq<String>) -> Seq<Seq<char>> {
    v.map_values(|x: String| x@)
}

pub open spec fn opt_text(o: Option<String>) -> Option<Seq<char>> {
    match o {
        Some(s) => Some(s@),
        None => None,
    }
}

impl View for SectionInfo {
    type V = SectionView;

    open spec fn view(&self) -> SectionView {
        SectionView {
            heading: self.heading@,
            level: self.heading_level,
            path: texts_of(self.heading_path@),
            anchor: self.heading_anchor@,
        }
    }
}

impl View for SourceSpan {
    type V = SpanView;

    open spec fn view(&self) -> SpanView {
        SpanView {
            path: self.path@,
            line_start: self.line_start as int,
            line_end: self.line_end as int,
            byte_start: self.byte_start as int,
            byte_end: self.byte_end as int,
            section: match self.section {
                Some(s) => Some(s@),
                None => None,
            },
        }
    }
}

impl View for HeadingInfo {
    type V = HeadingView;

    open spec fn view(&self) -> HeadingView {
        HeadingView {
            text: self.text@,
            level: self.level,
            anchor: self.anchor@,
            path: texts_of(self.path@),
            source: self.source@,
        }
    }
}

impl View for LinkInfo {
    type V = LinkView;

    open spec fn view(&self) -> LinkView {
        LinkView {
            raw: self.raw@,
            target: self.target@,
            alias: opt_text(self.alias),
            reference: opt_ref_view(self.reference),
            kind: self.kind,
            source: self.source@,
        }
    }
}

impl View for EmbedInfo {
    type V = EmbedView;

    open spec fn view(&self) -> EmbedView {
        EmbedView {
            raw: self.raw@,
            target: self.target@,
            reference: opt_ref_view(self.reference),
            source: self.source@,
        }
    }
}

impl View for TagInfo {
    type V = TagView;

    open spec fn view(&self) -> TagView {
        TagView { tag: self.tag@, scope: self.scope, source: self.source@ }
    }
}

impl View for BlockInfo {
    type V = BlockView;

    open spec fn view(&self) -> BlockView {
        BlockView { id: self.id@, source: self.source@ }
    }
}

/// What a note view holds besides its path and frontmatter.
pub struct NoteView {
    pub headings: Seq<HeadingView>,
    pub links: Seq<LinkView>,
    pub embeds: Seq<EmbedView>,
    pub tags: Seq<TagView>,
    pub blocks: Seq<BlockView>,
}

/// The state of a scan over the outline: what has been found so far, the stack of headings
/// enclosing the current node (outermost first), and where the body starts after the
/// frontmatter.
pub struct ScanState {
    pub note: NoteView,
    pub stack: Seq<HeadingView>,
    pub body_start: int,
    /// The end of the outermost footnote definition seen so far: the nodes before it lie
    /// inside a footnote.
    pub footnote_end: int,
}

/// The text that a node contributes to the visible text of its ancestors.
pub open spec fn contribution(n: MdNode) -> Seq<char> {
    match n.kind {
        MdKind::Text => n.text@,
        MdKind::LineBreak => seq!['\n'],
        _ => Seq::<char>::empty(),
    }
}

/// The visible text of the nodes `a..b` of the outline, in order.
pub open spec fn text_range(nodes: Seq<MdNode>, a: int, b: int) -> Seq<char>
    decreases b - a,
{
    if b <= a {
        Seq::<char>::empty()
    } else {
        text_range(nodes, a, b - 1) + contribution(nodes[b - 1])
    }
}

/// The visible text of node `i` and its descendants.
pub open spec fn node_text(nodes: Seq<MdNode>, i: int) -> Seq<char> {
    text_range(nodes, i, nodes[i].subtree_end as int)
}

/// The heading stack once a heading of `level` closes the headings at its level or deeper.
pub open spec fn close_headings(stack: Seq<HeadingView>, level: u8) -> Seq<HeadingView>
    decreases stack.len(),
{
    if stack.len() > 0 && stack.last().level >= level {
        close_headings(stack.drop_last(), level)
    } else {
        stack
    }
}

/// The section a node under the stack's innermost heading belongs to.
pub open spec fn section_of(stack: Seq<HeadingView>) -> Option<SectionView> {
    if stack.len() == 0 {
        None
    } else {
        let h = stack.last();
        Some(SectionView { heading: h.text, level: h.level, path: h.path.push(h.text), anchor: h.anchor })
    }
}

/// The source span of a node: its bytes, the lines of its first and last byte, and its
/// section.
pub open spec fn span_of(path: Seq<char>, b: Seq<u8>, n: MdNode, stack: Seq<HeadingView>) -> SpanView {
    let first = line_number_spec(b, n.start as int);
    let last = line_number_spec(b, if n.end > n.start { n.end - 1 } else { n.start as int });
    SpanView {
        path,
        line_start: first,
        line_end: if last < first { first } else { last },
        byte_start: n.start as int,
        byte_end: if n.end < n.start { n.start as int } else { n.end as int },
        section: section_of(stack),
    }
}

/// ASCII whitespace bytes.
pub open spec fn is_blank_byte(c: u8) -> bool {
    c == 0x20 || c == 0x09 || c == 0x0A || c == 0x0D || c == 0x0B || c == 0x0C
}

/// Every byte of `b[from..to]` is whitespace.
pub open spec fn blank_between(b: Seq<u8>, from: int, to: int) -> bool {
    forall|k: int| from <= k < to ==> is_blank_byte(#[trigger] b[k])
}

/// The offset at which the line holding byte `p` starts.
pub open spec fn line_begin(b: Seq<u8>, p: int) -> int
    decreases p,
{
    if p <= 0 {
        0
    } else if p <= b.len() && b[p - 1] == 10 {
        p
    } else {
        line_begin(b, p - 1)
    }
}

/// What a tag at node `n` applies to.
pub open spec fn tag_scope(b: Seq<u8>, st: ScanState, n: MdNode) -> TagScope {
    let line = line_begin(b, n.start as int);
    if st.stack.len() == 0 {
        if blank_between(b, st.body_start, line) {
            TagScope::Note
        } else {
            TagScope::Line
        }
    } else if blank_between(b, st.stack.last().source.byte_end, line) {
        TagScope::Section
    } else {
        TagScope::Line
    }
}

/// The alias of a Markdown link: its trimmed visible text, if any.
pub open spec fn link_alias(t: Seq<char>) -> Option<Seq<char>> {
    if trim(t).len() > 0 {
        Some(trim(t))
    } else {
        None
    }
}

pub open spec fn with_note(st: ScanState, note: NoteView) -> ScanState {
    ScanState { note, ..st }
}

/// The target and reference of a wikilink: a path that starts with `#` names a place in the
/// current note, so the target is empty and the rest is the reference.
pub open spec fn wikilink_target(n: MdNode) -> (Seq<char>, Option<ReferenceView>) {
    if n.reference is None && n.text@.len() > 0 && n.text@[0] == '#' {
        (Seq::<char>::empty(), fragment_reference(n.text@.skip(1)))
    } else {
        (n.text@, opt_ref_view(n.reference))
    }
}

/// What node `i` adds to the scan, before its block ID.
pub open spec fn node_step(path: Seq<char>, text: Seq<char>, nodes: Seq<MdNode>, i: int, st: ScanState) -> ScanState {
    let n = nodes[i];
    let b = encode_utf8(text);
    let span = span_of(path, b, n, st.stack);
    let raw = slice_spec(text, span.byte_start, span.byte_end);
    let note = st.note;
    let in_footnote = i < st.footnote_end;
    match n.kind {
        MdKind::FrontMatter => ScanState { body_start: n.end as int, ..st },
        MdKind::Footnote => ScanState {
            footnote_end: if st.footnote_end < n.subtree_end { n.subtree_end as int } else { st.footnote_end },
            ..st
        },
        MdKind::Heading => {
            let stack = close_headings(st.stack, n.level);
            let t = trim(node_text(nodes, i));
            let h = HeadingView {
                text: t,
                level: n.level,
                anchor: anchor_spec(t),
                path: stack.map_values(|x: HeadingView| x.text),
                source: span_of(path, b, n, stack),
            };
            ScanState {
                note: NoteView { headings: note.headings.push(h), ..note },
                stack: stack.push(h),
                ..st
            }
        },
        MdKind::WikiLink => if in_footnote {
            st
        } else {
            with_note(st, NoteView {
                links: note.links.push(LinkView {
                    raw,
                    target: wikilink_target(n).0,
                    alias: opt_text(n.alias),
                    reference: wikilink_target(n).1,
                    kind: LinkKind::Wikilink,
                    source: span,
                }),
                ..note
            })
        },
        MdKind::MarkdownLink => if in_footnote {
            st
        } else {
            match link_target_spec(path, n.text@) {
            Some((target, reference)) => with_note(st, NoteView {
                links: note.links.push(LinkView {
                    raw,
                    target,
                    alias: link_alias(node_text(nodes, i)),
                    reference,
                    kind: LinkKind::Markdown,
                    source: span,
                }),
                ..note
            }),
            None => st,
            }
        },
        MdKind::Embed => if in_footnote {
            st
        } else {
            with_note(st, NoteView {
                embeds: note.embeds.push(EmbedView {
                    raw,
                    target: n.text@,
                    reference: opt_ref_view(n.reference),
                    source: span,
                }),
                ..note
            })
        },
        MdKind::Tag => with_note(st, NoteView {
            tags: note.tags.push(TagView { tag: n.text@, scope: tag_scope(b, st, n), source: span }),
            ..note
        }),
        _ => st,
    }
}

/// What node `i` adds to the scan: its own contribution, then its block ID (code blocks
/// excepted), spanned under the headings in effect after the node.
pub open spec fn scan_step(path: Seq<char>, text: Seq<char>, nodes: Seq<MdNode>, i: int, st: ScanState) -> ScanState {
    let n = nodes[i];
    let after = node_step(path, text, nodes, i, st);
    match n.block_id {
        Some(id) => if n.kind != MdKind::BlockCode {
            with_note(after, NoteView {
                blocks: after.note.blocks.push(BlockView {
                    id: id@,
                    source: span_of(path, encode_utf8(text), n, after.stack),
                }),
                ..after.note
            })
        } else {
            after
        },
        None => after,
    }
}

/// The scan after the first `k` nodes of the outline.
pub open spec fn scan(path: Seq<char>, text: Seq<char>, nodes: Seq<MdNode>, k: int) -> ScanState
    decreases k,
{
    if k <= 0 {
        ScanState {
            note: NoteView {
                headings: seq![],
                links: seq![],
                embeds: seq![],
                tags: seq![],
                blocks: seq![],
            },
            stack: seq![],
            body_start: 0,
            footnote_end: 0,
        }
    } else {
        scan_step(path, text, nodes, k - 1, scan(path, text, nodes, k - 1))
    }
}

impl ParsedNote {
    /// What the note holds besides its path and frontmatter.
    pub open spec fn note_view(&self) -> NoteView {
        NoteView {
            headings: self.headings@.map_values(|h: HeadingInfo| h@),
            links: self.links@.map_values(|l: LinkInfo| l@),
            embeds: self.embeds@.map_values(|e: EmbedInfo| e@),
            tags: self.tags@.map_values(|t: TagInfo| t@),
            blocks: self.blocks@.map_values(|b: BlockInfo| b@),
        }
    }
}

fn clone_reference(r: &Option<ReferenceInfo>) -> (c: Option<ReferenceInfo>)
    ensures
        opt_ref_view(c) == opt_ref_view(*r),
{
    match r {
        None => None,
        Some(ReferenceInfo::Heading { value }) => Some(ReferenceInfo::Heading { value: value.clone() }),
        Some(ReferenceInfo::BlockId { value }) => Some(ReferenceInfo::BlockId { value: value.clone() }),
        Some(ReferenceInfo::MultiHeading { value }) => {
            let v = crate::blueprint::model::clone_strings(value);
            assert(texts_of(v@) == texts_of(value@));
            Some(ReferenceInfo::MultiHeading { value: v })
        },
    }
}

fn clone_section(s: &SectionInfo) -> (c: SectionInfo)
    ensures
        c@ == s@,
{
    SectionInfo {
        heading: s.heading.clone(),
        heading_level: s.heading_level,
        heading_path: crate::blueprint::model::clone_strings(&s.heading_path),
        heading_anchor: s.heading_anchor.clone(),
    }
}

fn clone_span(s: &SourceSpan) -> (c: SourceSpan)
    ensures
        c@ == s@,
{
    SourceSpan {
        path: s.path.clone(),
        line_start: s.line_start,
        line_end: s.line_end,
        byte_start: s.byte_start,
        byte_end: s.byte_end,
        section: match &s.section {
            Some(x) => Some(clone_section(x)),
            None => None,
        },
    }
}

fn clone_heading(h: &HeadingInfo) -> (c: HeadingInfo)
    ensures
        c@ == h@,
{
    HeadingInfo {
        text: h.text.clone(),
        level: h.level,
        anchor: h.anchor.clone(),
        path: crate::blueprint::model::clone_strings(&h.path),
        source: clone_span(&h.source),
    }
}

/// The views of a heading stack.
pub open spec fn stack_view(s: Seq<HeadingInfo>) -> Seq<HeadingView> {
    s.map_values(|h: HeadingInfo| h@)
}

/// The visible text of node `i` and its descendants.
pub(crate) fn collect_text(nodes: &Vec<MdNode>, i: usize) -> (t: String)
    requires
        well_formed(nodes@),
        i < nodes.len(),
    ensures
        t@ == node_text(nodes@, i as int),
{
    let end = nodes[i].subtree_end;
    let mut t = String::new();
    let mut j = i;
    while j < end
        invariant
            i <= j <= end <= nodes.len(),
            end == nodes@[i as int].subtree_end,
            t@ == text_range(nodes@, i as int, j as int),
        decreases end - j,
    {
        match nodes[j].kind {
            MdKind::Text => push_str(&mut t, nodes[j].text.as_str()),
            MdKind::LineBreak => push_char(&mut t, '\n'),
            _ => {},
        }
        assert(t@ =~= text_range(nodes@, i as int, j + 1));
        j += 1;
    }
    t
}

/// The section of the stack's innermost heading.
fn section_for(stack: &Vec<HeadingInfo>) -> (s: Option<SectionInfo>)
    ensures
        match s {
            Some(x) => Some(x@),
            None => None,
        } == section_of(stack_view(stack@)),
{
    if stack.len() == 0 {
        return None;
    }
    let h = &stack[stack.len() - 1];
    let mut path = crate::blueprint::model::clone_strings(&h.path);
    let ghost before = path@;
    path.push(h.text.clone());
    assert(texts_of(path@) =~= texts_of(h.path@).push(h.text@));
    Some(SectionInfo {
        heading: h.text.clone(),
        heading_level: h.level,
        heading_path: path,
        heading_anchor: h.anchor.clone(),
    })
}

/// The source span of a node under the given headings.
fn span_for(path: &str, text: &str, n: &MdNode, stack: &Vec<HeadingInfo>) -> (s: SourceSpan)
    ensures
        s@ == span_of(path@, encode_utf8(text@), *n, stack_view(stack@)),
{
    let first = line_number_for_byte(text, n.start);
    let last = line_number_for_byte(text, if n.end > n.start { n.end - 1 } else { n.start });
    SourceSpan {
        path: crate::text::to_string(path),
        line_start: first,
        line_end: if last < first { first } else { last },
        byte_start: n.start,
        byte_end: if n.end < n.start { n.start } else { n.end },
        section: section_for(stack),
    }
}

/// Closes the headings at `level` or deeper.
fn close_stack(stack: &mut Vec<HeadingInfo>, level: u8)
    ensures
        stack_view(final(stack)@) == close_headings(stack_view(old(stack)@), level),
{
    while stack.len() > 0 && stack[stack.len() - 1].level >= level
        invariant
            close_headings(stack_view(stack@), level) == close_headings(stack_view(old(stack)@), level),
        decreases stack.len(),
    {
        let ghost before = stack@;
        stack.pop();
        assert(stack_view(stack@) =~= stack_view(before).drop_last());
    }
}

/// The offset at which the line holding byte `p` starts.
fn line_begin_of(b: &[u8], p: usize) -> (r: usize)
    ensures
        r == line_begin(b@, p as int),
        r <= p,
        r <= b.len(),
{
    let mut q = p;
    if q > b.len() {
        q = b.len();
        proof {
            lemma_line_begin_clamp(b@, p as int);
        }
    }
    while q > 0 && b[q - 1] != 10
        invariant
            q <= b.len(),
            q <= p,
            line_begin(b@, q as int) == line_begin(b@, p as int),
        decreases q,
    {
        q -= 1;
    }
    q
}

proof fn lemma_line_begin_clamp(b: Seq<u8>, p: int)
    requires
        p > b.len(),
    ensures
        line_begin(b, p) == line_begin(b, b.len() as int),
    decreases p,
{
    if p - 1 > b.len() {
        lemma_line_begin_clamp(b, p - 1);
    }
}

/// Every byte of `b[from..to]` is whitespace.
fn all_blank(b: &[u8], from: usize, to: usize) -> (r: bool)
    requires
        to <= b.len(),
    ensures
        r == blank_between(b@, from as int, to as int),
{
    let mut k = from;
    while k < to
        invariant
            from <= k,
            to <= b.len(),
            forall|q: int| from <= q < k ==> is_blank_byte(#[trigger] b@[q]),
        decreases to - k,
    {
        let c = b[k];
        if !(c == 0x20 || c == 0x09 || c == 0x0A || c == 0x0D || c == 0x0B || c == 0x0C) {
            assert(!is_blank_byte(b@[k as int]));
            return false;
        }
        k += 1;
    }
    true
}

/// The state of a scan over the outline.
struct Scan {
    headings: Vec<HeadingInfo>,
    links: Vec<LinkInfo>,
    embeds: Vec<EmbedInfo>,
    tags: Vec<TagInfo>,
    blocks: Vec<BlockInfo>,
    stack: Vec<HeadingInfo>,
    body_start: usize,
    footnote_end: usize,
}

impl View for Scan {
    type V = ScanState;

    closed spec fn view(&self) -> ScanState {
        ScanState {
            note: NoteView {
                headings: self.headings@.map_values(|h: HeadingInfo| h@),
                links: self.links@.map_values(|l: LinkInfo| l@),
                embeds: self.embeds@.map_values(|e: EmbedInfo| e@),
                tags: self.tags@.map_values(|t: TagInfo| t@),
                blocks: self.blocks@.map_values(|b: BlockInfo| b@),
            },
            stack: stack_view(self.stack@),
            body_start: self.body_start as int,
            footnote_end: self.footnote_end as int,
        }
    }
}

fn heading_step(path: &str, text: &str, nodes: &Vec<MdNode>, i: usize, st: &mut Scan)
    requires
        well_formed(nodes@),
        i < nodes.len(),
        nodes@[i as int].kind == MdKind::Heading,
    ensures
        final(st)@ == node_step(path@, text@, nodes@, i as int, old(st)@),
{
    let n = &nodes[i];
    close_stack(&mut st.stack, n.level);
    let collected = collect_text(nodes, i);
    let cs = chars_of(collected.as_str());
    let (a, b) = trim_bounds(&cs, 0, cs.len());
    assert(cs@.subrange(0, cs.len() as int) =~= cs@);
    let t = string_of(&cs, a, b);
    let anchor = heading_anchor(t.as_str());
    let mut parents: Vec<String> = Vec::new();
    let mut k: usize = 0;
    while k < st.stack.len()
        invariant
            k <= st.stack.len(),
            texts_of(parents@) == stack_view(st.stack@).map_values(|x: HeadingView| x.text).take(k as int),
        decreases st.stack.len() - k,
    {
        let ghost before = parents@;
        parents.push(st.stack[k].text.clone());
        assert(texts_of(parents@) =~= texts_of(before).push(st.stack@[k as int].text@));
        assert(stack_view(st.stack@).map_values(|x: HeadingView| x.text).take(k + 1) =~= stack_view(
            st.stack@,
        ).map_values(|x: HeadingView| x.text).take(k as int).push(st.stack@[k as int].text@));
        k += 1;
    }
    assert(stack_view(st.stack@).map_values(|x: HeadingView| x.text).take(st.stack.len() as int)
        =~= stack_view(st.stack@).map_values(|x: HeadingView| x.text));
    let source = span_for(path, text, n, &st.stack);
    let info = HeadingInfo { text: t, level: n.level, anchor, path: parents, source };
    let copy = clone_heading(&info);
    let ghost hs = st.headings@;
    let ghost sk = st.stack@;
    st.headings.push(info);
    st.stack.push(copy);
    assert(st.headings@.map_values(|h: HeadingInfo| h@) =~= hs.map_values(|h: HeadingInfo| h@).push(copy@));
    assert(stack_view(st.stack@) =~= stack_view(sk).push(copy@));
}

/// The target and reference of a wikilink node.
fn wikilink_parts(n: &MdNode) -> (r: (String, Option<ReferenceInfo>))
    ensures
        (r.0@, opt_ref_view(r.1)) == wikilink_target(*n),
{
    let cs = chars_of(n.text.as_str());
    if n.reference.is_none() && cs.len() > 0 && cs[0] == '#' {
        let reference = if cs.len() == 1 {
            None
        } else if cs[1] == '^' {
            let v = string_of(&cs, 2, cs.len());
            assert(v@ =~= n.text@.skip(1).skip(1));
            Some(ReferenceInfo::BlockId { value: v })
        } else {
            let v = string_of(&cs, 1, cs.len());
            assert(v@ =~= n.text@.skip(1));
            Some(ReferenceInfo::Heading { value: v })
        };
        let empty = String::new();
        assert(empty@ =~= Seq::<char>::empty());
        (empty, reference)
    } else {
        (n.text.clone(), clone_reference(&n.reference))
    }
}

fn link_step(path: &str, text: &str, nodes: &Vec<MdNode>, i: usize, st: &mut Scan)
    requires
        well_formed(nodes@),
        i < nodes.len(),
        nodes@[i as int].kind == MdKind::WikiLink || nodes@[i as int].kind == MdKind::MarkdownLink,
    ensures
        final(st)@ == node_step(path@, text@, nodes@, i as int, old(st)@),
{
    let n = &nodes[i];
    if i < st.footnote_end {
        return;
    }
    let source = span_for(path, text, n, &st.stack);
    let raw = slice_text(text, source.byte_start, source.byte_end);
    let ghost ls = st.links@;
    if n.kind == MdKind::WikiLink {
        let (target, reference) = wikilink_parts(n);
        let link = LinkInfo {
            raw,
            target,
            alias: crate::blueprint::model::clone_opt(&n.alias),
            reference,
            kind: LinkKind::Wikilink,
            source,
        };
        st.links.push(link);
        assert(st.links@.map_values(|l: LinkInfo| l@) =~= ls.map_values(|l: LinkInfo| l@).push(link@));
    } else {
        match local_markdown_link_target(path, n.text.as_str()) {
            Some((target, reference)) => {
                let collected = collect_text(nodes, i);
                let cs = chars_of(collected.as_str());
                let (a, b) = trim_bounds(&cs, 0, cs.len());
                assert(cs@.subrange(0, cs.len() as int) =~= cs@);
                let alias = if a < b {
                    Some(string_of(&cs, a, b))
                } else {
                    None
                };
                let link = LinkInfo { raw, target, alias, reference, kind: LinkKind::Markdown, source };
                st.links.push(link);
                assert(st.links@.map_values(|l: LinkInfo| l@) =~= ls.map_values(|l: LinkInfo| l@).push(link@));
            },
            None => {},
        }
    }
}

fn embed_or_tag_step(path: &str, text: &str, nodes: &Vec<MdNode>, i: usize, st: &mut Scan)
    requires
        well_formed(nodes@),
        i < nodes.len(),
        nodes@[i as int].kind == MdKind::Embed || nodes@[i as int].kind == MdKind::Tag,
    ensures
        final(st)@ == node_step(path@, text@, nodes@, i as int, old(st)@),
{
    let n = &nodes[i];
    if n.kind == MdKind::Embed && i < st.footnote_end {
        return;
    }
    let source = span_for(path, text, n, &st.stack);
    if n.kind == MdKind::Embed {
        let raw = slice_text(text, source.byte_start, source.byte_end);
        let embed = EmbedInfo {
            raw,
            target: n.text.clone(),
            reference: clone_reference(&n.reference),
            source,
        };
        let ghost es = st.embeds@;
        st.embeds.push(embed);
        assert(st.embeds@.map_values(|e: EmbedInfo| e@) =~= es.map_values(|e: EmbedInfo| e@).push(embed@));
    } else {
        let b: &[u8] = text.as_bytes();
        let line = line_begin_of(b, n.start);
        let scope = if st.stack.len() == 0 {
            if all_blank(b, st.body_start, line) {
                TagScope::Note
            } else {
                TagScope::Line
            }
        } else if all_blank(b, st.stack[st.stack.len() - 1].source.byte_end, line) {
            TagScope::Section
        } else {
            TagScope::Line
        };
        let tag = TagInfo { tag: n.text.clone(), scope, source };
        let ghost ts = st.tags@;
        st.tags.push(tag);
        assert(st.tags@.map_values(|t: TagInfo| t@) =~= ts.map_values(|t: TagInfo| t@).push(tag@));
    }
}

fn scan_node(path: &str, text: &str, nodes: &Vec<MdNode>, i: usize, st: &mut Scan)
    requires
        well_formed(nodes@),
        i < nodes.len(),
    ensures
        final(st)@ == scan_step(path@, text@, nodes@, i as int, old(st)@),
{
    let n = &nodes[i];
    match n.kind {
        MdKind::FrontMatter => {
            st.body_start = n.end;
        },
        MdKind::Footnote => {
            if st.footnote_end < n.subtree_end {
                st.footnote_end = n.subtree_end;
            }
        },
        MdKind::Heading => heading_step(path, text, nodes, i, st),
        MdKind::WikiLink | MdKind::MarkdownLink => link_step(path, text, nodes, i, st),
        MdKind::Embed | MdKind::Tag => embed_or_tag_step(path, text, nodes, i, st),
        _ => {},
    }
    if n.kind != MdKind::BlockCode {
        if let Some(id) = &n.block_id {
            let source = span_for(path, text, n, &st.stack);
            let block = BlockInfo { id: id.clone(), source };
            let ghost bs = st.blocks@;
            st.blocks.push(block);
            assert(st.blocks@.map_values(|b: BlockInfo| b@) =~= bs.map_values(|b: BlockInfo| b@).push(block@));
        }
    }
}

/// Reads a note from the outline of its Markdown tree: headings with their enclosing heading
/// paths and anchors, wikilinks, local Markdown links (resolved from the note's path),
/// embeds, tags with their scope, and block IDs, each with its source span. The frontmatter
/// is left unset.
pub fn extract(path: &str, text: &str, nodes: &Vec<MdNode>) -> (r: ParsedNote)
    requires
        well_formed(nodes@),
    ensures
        r.path@ == path@,
        r.frontmatter is None,
        r.note_view() == scan(path@, text@, nodes@, nodes.len() as int).note,
{
    let mut st = Scan {
        headings: Vec::new(),
        links: Vec::new(),
        embeds: Vec::new(),
        tags: Vec::new(),
        blocks: Vec::new(),
        stack: Vec::new(),
        body_start: 0,
        footnote_end: 0,
    };
    assert(st@.note.headings =~= seq![]);
    assert(st@.note.links =~= seq![]);
    assert(st@.note.embeds =~= seq![]);
    assert(st@.note.tags =~= seq![]);
    assert(st@.note.blocks =~= seq![]);
    assert(st@.stack =~= seq![]);
    let mut i: usize = 0;
    while i < nodes.len()
        invariant
            well_formed(nodes@),
            i <= nodes.len(),
            st@ == scan(path@, text@, nodes@, i as int),
        decreases nodes.len() - i,
    {
        scan_node(path, text, nodes, i, &mut st);
        i += 1;
    }
    ParsedNote {
        path: crate::text::to_string(path),
        frontmatter: None,
        headings: st.headings,
        links: st.links,
        embeds: st.embeds,
        tags: st.tags,
        blocks: st.blocks,
    }
}

/// The note parser.
#[derive(Clone, Debug, Default)]
pub struct NoteParser {}

impl NoteParser {
    /// Parses a note of at most `max_input_bytes` bytes. On success the note holds its path,
    /// the JSON text of its last frontmatter mapping, and what [`extract`] reads from the
    /// outline of its Markdown tree; the Markdown parser's refusal (such as an over-long
    /// input) is the error.
    pub fn parse(path: &str, text: &str, max_input_bytes: usize) -> (r: Result<ParsedNote, String>)
        ensures
            r is Ok <==> crate::markdown::markdown_accepts(text@, true, max_input_bytes),
            crate::text::byte_len(text@) > max_input_bytes ==> r is Err,
            r matches Ok(note) ==> {
                &&& note.path@ == path@
                &&& crate::markdown::opt_text(note.frontmatter) == crate::markdown::md_note_frontmatter(
                    (text@, true, max_input_bytes),
                )
                &&& exists|nodes: Seq<MdNode>|
                    crate::markdown::md_outline(nodes, (text@, true, max_input_bytes))
                        && note.note_view() == scan(path@, text@, nodes, nodes.len() as int).note
            },
    {
        let (nodes, frontmatter) = crate::markdown::note_outline(text, max_input_bytes)?;
        proof {
            crate::markdown::lemma_outline_well_formed(nodes@, (text@, true, max_input_bytes));
        }
        let mut note = extract(path, text, &nodes);
        note.frontmatter = frontmatter;
        Ok(note)
    }
}

/// The position of the heading the line belongs to: among the headings that start at or
/// before the line, one that starts last (the last of those, when several start on the same
/// line).
pub open spec fn section_heading(hs: Seq<HeadingInfo>, line: int) -> Option<int>
    decreases hs.len(),
{
    if hs.len() == 0 {
        None
    } else {
        let prev = section_heading(hs.drop_last(), line);
        let k = hs.len() - 1;
        if hs[k].source.line_start as int <= line && (prev is None || hs[k].source.line_start
            >= hs[prev->Some_0].source.line_start) {
            Some(k)
        } else {
            prev
        }
    }
}

/// The section of a heading: its text, level, heading path (its own text last) and anchor.
pub open spec fn heading_section(h: HeadingInfo) -> SectionView {
    SectionView { heading: h.text@, level: h.level, path: texts_of(h.path@).push(h.text@), anchor: h.anchor@ }
}

proof fn lemma_section_heading_bound(hs: Seq<HeadingInfo>, line: int)
    ensures
        section_heading(hs, line) matches Some(k) ==> 0 <= k < hs.len(),
    decreases hs.len(),
{
    if hs.len() > 0 {
        lemma_section_heading_bound(hs.drop_last(), line);
    }
}

/// The section of the note that the line belongs to (see `section_heading`).
pub fn section_at(parsed: &ParsedNote, line: u64) -> (r: Option<SectionInfo>)
    ensures
        match section_heading(parsed.headings@, line as int) {
            Some(k) => r matches Some(x) && x@ == heading_section(parsed.headings@[k]),
            None => r is None,
        },
{
    let ghost hs = parsed.headings@;
    let mut best: Option<usize> = None;
    let mut i: usize = 0;
    assert(hs.take(0) =~= Seq::<HeadingInfo>::empty());
    while i < parsed.headings.len()
        invariant
            i <= hs.len(),
            hs == parsed.headings@,
            match section_heading(hs.take(i as int), line as int) {
                Some(k) => best == Some(k as usize) && 0 <= k < i,
                None => best is None,
            },
        decreases hs.len() - i,
    {
        proof {
            lemma_section_heading_bound(hs.take(i as int), line as int);
        }
        assert(hs.take(i + 1).drop_last() =~= hs.take(i as int));
        assert(hs.take(i + 1)[i as int] == hs[i as int]);
        let take = parsed.headings[i].source.line_start <= line && match best {
            None => true,
            Some(b) => parsed.headings[i].source.line_start >= parsed.headings[b].source.line_start,
        };
        if let Some(b) = best {
            assert(hs.take(i + 1)[b as int] == hs[b as int]);
        }
        if take {
            best = Some(i);
        }
        i = i + 1;
    }
    assert(hs.take(hs.len() as int) =~= hs);
    match best {
        None => None,
        Some(b) => {
            let h = &parsed.headings[b];
            let mut path = crate::blueprint::model::clone_strings(&h.path);
            let ghost before = path@;
            path.push(h.text.clone());
            assert(texts_of(path@) =~= texts_of(before).push(h.text@));
            Some(SectionInfo {
                heading: h.text.clone(),
                heading_level: h.level,
                heading_path: path,
                heading_anchor: h.anchor.clone(),
            })
        },
    }
}

/// The source span of lines `line_start` to `line_end` (one-based, inclusive) of a note: from
/// the start of the first line to the start of the line after the last (or the end of the
/// text), with the section of the first line.
pub fn source_for_line(path: &str, text: &str, parsed: &ParsedNote, line_start: u64, line_end: u64) -> (r:
    SourceSpan)
    requires
        line_end < u64::MAX,
    ensures
        r.path@ == path@,
        r.line_start == line_start,
        r.line_end == line_end,
        r.byte_start as int == crate::parser::line_start_spec(text.spec_bytes(), line_start as int),
        r.byte_end as int == if crate::parser::line_start_spec(text.spec_bytes(), line_end as int + 1)
            < text.spec_bytes().len() {
            crate::parser::line_start_spec(text.spec_bytes(), line_end as int + 1)
        } else {
            text.spec_bytes().len() as int
        },
        match section_heading(parsed.headings@, line_start as int) {
            Some(k) => r.section matches Some(x) && x@ == heading_section(parsed.headings@[k]),
            None => r.section is None,
        },
{
    let byte_start = crate::parser::byte_offset_for_line(text, line_start);
    let next = crate::parser::byte_offset_for_line(text, line_end + 1);
    let len = text.as_bytes().len();
    let byte_end = if next < len {
        next
    } else {
        len
    };
    SourceSpan {
        path: crate::text::to_string(path),
        line_start,
        line_end,
        byte_start,
        byte_end,
        section: section_at(parsed, line_start),
    }
}

} // verus!
