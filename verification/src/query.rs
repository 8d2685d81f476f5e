//! Choosing the note that a link leads to: a Markdown link names its path; a wikilink names a
//! note at the vault root, a path from the linking note's folder, or the one note whose path
//! ends with it. Several such notes are reported, never guessed between.
use vstd::prelude::*;

use crate::blueprint::document::{ends_with, has_md_suffix};
use crate::markdown::opt_text;
use crate::mutation::history::texts;
use crate::parser::note::{LinkInfo, LinkKind};
use crate::parser::{join_parts, views, walk_link_segments, walk_segments};
use crate::text::{chars_of, has_char, join_with, push_str, split_on, str_eq, string_of, to_string};

verus! {

/// The texts of the components (`camino::Utf8Path::components`) of the parent
/// (`Utf8Path::parent`) of a path; none when it has no parent.
pub uninterp spec fn parent_components(path: Seq<char>) -> Seq<Seq<char>>;

/// `camino::Utf8Path::new(path).parent()` split into its `components()`, each as characters.
/// The result is named by `parent_components`.
#[verifier::external_body]
fn path_parent_components(path: &str) -> (r: Vec<Vec<char>>)
    ensures
        views(r@) == parent_components(path@),
{
    match camino::Utf8Path::new(path).parent() {
        Some(parent) => parent.components().map(|c| c.as_str().chars().collect()).collect(),
        None => Vec::new(),
    }
}

/// The text with every trailing `.md` removed.
pub open spec fn strip_md(t: Seq<char>) -> Seq<char>
    decreases t.len(),
{
    if t.len() >= 3 && ends_with(t, ".md"@) {
        strip_md(t.take(t.len() - 3))
    } else {
        t
    }
}

/// The note path that a link target reaches from the folder of the note at `source`: its
/// segments walked from that folder (see `walk_segments`), joined with `/`, with `.md` added
/// when it lacks it; none for an empty target, one that climbs above the vault, or one that
/// reaches the vault itself.
pub open spec fn relative_target_spec(source: Seq<char>, target: Seq<char>) -> Option<Seq<char>> {
    if target.len() == 0 {
        None
    } else {
        match walk_segments(parent_components(source), split_on(target, '/')) {
            None => None,
            Some(p) => if p.len() == 0 {
                None
            } else {
                let j = join_with(p, seq!['/']);
                if ends_with(j, ".md"@) {
                    Some(j)
                } else {
                    Some(j + ".md"@)
                }
            },
        }
    }
}

/// The note path is `t.md` or ends with `/t.md`.
pub open spec fn suffix_match(p: Seq<char>, t: Seq<char>) -> bool {
    p == t + ".md"@ || ends_with(p, "/"@ + t + ".md"@)
}

/// The note paths that match `t` by suffix, in order.
pub open spec fn suffix_candidates(paths: Seq<Seq<char>>, t: Seq<char>) -> Seq<Seq<char>>
    decreases paths.len(),
{
    if paths.len() == 0 {
        Seq::empty()
    } else {
        let c = suffix_candidates(paths.drop_last(), t);
        if suffix_match(paths.last(), t) {
            c.push(paths.last())
        } else {
            c
        }
    }
}

/// Where a link leads.
#[derive(Debug)]
pub enum LinkResolution {
    /// A Markdown link: the path it names.
    Markdown { path: String },
    /// The one note that the link's target picks.
    Note { path: String },
    /// Several notes end with the target's path; none is chosen.
    Ambiguous { candidates: Vec<String> },
    /// No rule picks a note; the vault's reference resolver decides.
    Unmatched,
}

/// Where a link leads, by its texts.
pub enum ResolutionView {
    Markdown(Seq<char>),
    Note(Seq<char>),
    Ambiguous(Seq<Seq<char>>),
    Unmatched,
}

impl View for LinkResolution {
    type V = ResolutionView;

    open spec fn view(&self) -> ResolutionView {
        match self {
            LinkResolution::Markdown { path } => ResolutionView::Markdown(path@),
            LinkResolution::Note { path } => ResolutionView::Note(path@),
            LinkResolution::Ambiguous { candidates } => ResolutionView::Ambiguous(texts(candidates@)),
            LinkResolution::Unmatched => ResolutionView::Unmatched,
        }
    }
}

/// Where a link of the given kind and target, in the note at `source`, leads among the note
/// paths: a Markdown link to its target; a bare name (no `/`, no `.md`) to the root note
/// `name.md` when there is one; else the path from the linking note's folder when a note has
/// it; else, for a non-empty target, the one note whose path matches the target without its
/// `.md` by suffix, or all of them when several do; an empty target to the linking note
/// itself.
pub open spec fn resolve_spec(kind: LinkKind, target: Seq<char>, source: Seq<char>, paths: Seq<Seq<char>>) -> ResolutionView {
    if kind == LinkKind::Markdown {
        ResolutionView::Markdown(target)
    } else if !has_char(target, '/') && !ends_with(target, ".md"@) && paths.contains(target + ".md"@) {
        ResolutionView::Note(target + ".md"@)
    } else if relative_target_spec(source, target) is Some && paths.contains(relative_target_spec(source, target)->Some_0) {
        ResolutionView::Note(relative_target_spec(source, target)->Some_0)
    } else if target.len() > 0 {
        let c = suffix_candidates(paths, strip_md(target));
        if c.len() == 1 {
            ResolutionView::Note(c[0])
        } else if c.len() > 1 {
            ResolutionView::Ambiguous(c)
        } else {
            ResolutionView::Unmatched
        }
    } else if paths.contains(source) {
        ResolutionView::Note(source)
    } else {
        ResolutionView::Unmatched
    }
}

/// Whether one of the paths is `p`.
fn contains_path(paths: &Vec<String>, p: &str) -> (b: bool)
    ensures
        b == texts(paths@).contains(p@),
{
    let mut k: usize = 0;
    while k < paths.len()
        invariant
            k <= paths@.len(),
            forall|j: int| 0 <= j < k ==> texts(paths@)[j] != p@,
        decreases paths@.len() - k,
    {
        if str_eq(paths[k].as_str(), p) {
            assert(texts(paths@)[k as int] == p@);
            return true;
        }
        k = k + 1;
    }
    false
}

/// Whether the text holds the character.
fn contains_char(s: &str, c: char) -> (b: bool)
    ensures
        b == has_char(s@, c),
{
    let cs = chars_of(s);
    let mut k: usize = 0;
    while k < cs.len()
        invariant
            cs@ == s@,
            k <= cs@.len(),
            forall|j: int| 0 <= j < k ==> cs@[j] != c,
        decreases cs@.len() - k,
    {
        if cs[k] == c {
            return true;
        }
        k = k + 1;
    }
    false
}

/// Whether `s` ends with `p`.
fn ends_with_text(s: &str, p: &str) -> (b: bool)
    ensures
        b == ends_with(s@, p@),
{
    let cs = chars_of(s);
    let ps = chars_of(p);
    if cs.len() < ps.len() {
        return false;
    }
    let off = cs.len() - ps.len();
    let mut k: usize = 0;
    while k < ps.len()
        invariant
            cs@ == s@,
            ps@ == p@,
            off + ps@.len() == cs@.len(),
            cs@.len() <= usize::MAX,
            k <= ps@.len(),
            forall|j: int| 0 <= j < k ==> cs@[off + j] == ps@[j],
        decreases ps@.len() - k,
    {
        if cs[off + k] != ps[k] {
            assert(s@.skip(off as int)[k as int] != p@[k as int]);
            return false;
        }
        k = k + 1;
    }
    assert(s@.skip(off as int) =~= p@);
    true
}

/// The text with every trailing `.md` removed (see `strip_md`).
fn strip_md_suffixes(t: &str) -> (r: String)
    ensures
        r@ == strip_md(t@),
{
    proof {
        reveal_strlit(".md");
    }
    let cs = chars_of(t);
    let mut n: usize = cs.len();
    assert(cs@.take(n as int) =~= cs@);
    while n >= 3 && cs[n - 3] == '.' && cs[n - 2] == 'm' && cs[n - 1] == 'd'
        invariant
            cs@ == t@,
            n <= cs@.len(),
            strip_md(cs@.take(n as int)) == strip_md(t@),
        decreases n,
    {
        let ghost w = cs@.take(n as int);
        proof {
            reveal_strlit(".md");
            assert(w.skip(w.len() - 3)[0] == '.' && w.skip(w.len() - 3)[1] == 'm' && w.skip(w.len() - 3)[2] == 'd');
        }
        assert(w.skip(w.len() - 3) =~= ".md"@);
        assert(w.take(w.len() - 3) =~= cs@.take(n - 3));
        n = n - 3;
    }
    let ghost w = cs@.take(n as int);
    if n >= 3 {
        assert(!(w.skip(w.len() - 3) =~= ".md"@)) by {
            assert(w.skip(w.len() - 3)[0] == cs@[n - 3]);
            assert(w.skip(w.len() - 3)[1] == cs@[n - 2]);
            assert(w.skip(w.len() - 3)[2] == cs@[n - 1]);
        }
    }
    let r = string_of(&cs, 0, n);
    assert(r@ =~= w);
    r
}

/// The note paths that match `t` by suffix (see `suffix_candidates`).
fn suffix_matches(paths: &Vec<String>, t: &str) -> (r: Vec<String>)
    ensures
        texts(r@) == suffix_candidates(texts(paths@), t@),
{
    proof {
        reveal_strlit(".md");
        reveal_strlit("/");
    }
    let mut whole = to_string(t);
    push_str(&mut whole, ".md");
    let mut tail = to_string("/");
    push_str(&mut tail, t);
    push_str(&mut tail, ".md");
    let ghost ps = texts(paths@);
    let mut r: Vec<String> = Vec::new();
    let mut k: usize = 0;
    assert(ps.take(0) =~= Seq::<Seq<char>>::empty());
    assert(texts(r@) =~= Seq::<Seq<char>>::empty());
    while k < paths.len()
        invariant
            k <= paths@.len(),
            ps == texts(paths@),
            whole@ == t@ + ".md"@,
            tail@ == "/"@ + t@ + ".md"@,
            texts(r@) == suffix_candidates(ps.take(k as int), t@),
        decreases paths@.len() - k,
    {
        let p = paths[k].as_str();
        let hit = str_eq(p, whole.as_str()) || ends_with_text(p, tail.as_str());
        assert(ps.take(k + 1).drop_last() =~= ps.take(k as int));
        assert(ps.take(k + 1).last() == ps[k as int]);
        let ghost before = texts(r@);
        if hit {
            r.push(to_string(p));
            assert(texts(r@) =~= before.push(ps[k as int]));
        }
        k = k + 1;
    }
    assert(ps.take(paths@.len() as int) =~= ps);
    r
}

/// The note path that a link target reaches from the folder of the note at `source` (see
/// `relative_target_spec`).
pub fn source_relative_target(source: &str, target: &str) -> (r: Option<String>)
    ensures
        opt_text(r) == relative_target_spec(source@, target@),
{
    proof {
        reveal_strlit(".md");
    }
    if chars_of(target).len() == 0 {
        return None;
    }
    let parts = path_parent_components(source);
    let parts = match walk_link_segments(parts, target) {
        Some(p) => p,
        None => return None,
    };
    if parts.len() == 0 {
        return None;
    }
    let mut path = join_parts(&parts, '/');
    if !has_md_suffix(path.as_str()) {
        push_str(&mut path, ".md");
    }
    Some(path)
}

/// Where a reference of the given kind and target, in the note at `source`, leads among the
/// vault's note paths (see `resolve_spec`).
pub fn resolve_reference(kind: LinkKind, target: &str, source: &str, note_paths: &Vec<String>) -> (r:
    LinkResolution)
    ensures
        r@ == resolve_spec(kind, target@, source@, texts(note_paths@)),
{
    proof {
        reveal_strlit(".md");
    }
    if let LinkKind::Markdown = kind {
        return LinkResolution::Markdown { path: to_string(target) };
    }
    if !contains_char(target, '/') && !has_md_suffix(target) {
        let mut direct = to_string(target);
        push_str(&mut direct, ".md");
        if contains_path(note_paths, direct.as_str()) {
            return LinkResolution::Note { path: direct };
        }
    }
    if let Some(relative) = source_relative_target(source, target) {
        if contains_path(note_paths, relative.as_str()) {
            return LinkResolution::Note { path: relative };
        }
    }
    if chars_of(target).len() > 0 {
        let stripped = strip_md_suffixes(target);
        let candidates = suffix_matches(note_paths, stripped.as_str());
        if candidates.len() == 1 {
            return LinkResolution::Note { path: to_string(candidates[0].as_str()) };
        }
        if candidates.len() > 1 {
            return LinkResolution::Ambiguous { candidates };
        }
        return LinkResolution::Unmatched;
    }
    if contains_path(note_paths, source) {
        return LinkResolution::Note { path: to_string(source) };
    }
    LinkResolution::Unmatched
}

/// Where a link leads among the vault's note paths (see `resolve_spec`).
pub fn resolve_link(link: &LinkInfo, note_paths: &Vec<String>) -> (r: LinkResolution)
    ensures
        r@ == resolve_spec(link.kind, link.target@, link.source.path@, texts(note_paths@)),
{
    resolve_reference(link.kind, link.target.as_str(), link.source.path.as_str(), note_paths)
}

/// A reference leads to the note `wanted`: its path names it, or it is the one note that the
/// reference picks.
pub open spec fn leads_to_spec(kind: LinkKind, target: Seq<char>, source: Seq<char>, paths: Seq<Seq<char>>, wanted: Seq<char>) -> bool {
    match resolve_spec(kind, target, source, paths) {
        ResolutionView::Markdown(p) => p == wanted,
        ResolutionView::Note(p) => p == wanted,
        _ => false,
    }
}

/// Whether a reference leads to the note `wanted` (see `leads_to_spec`).
pub fn leads_to(kind: LinkKind, target: &str, source: &str, note_paths: &Vec<String>, wanted: &str) -> (b: bool)
    ensures
        b == leads_to_spec(kind, target@, source@, texts(note_paths@), wanted@),
{
    match resolve_reference(kind, target, source, note_paths) {
        LinkResolution::Markdown { path } => crate::text::str_eq(path.as_str(), wanted),
        LinkResolution::Note { path } => crate::text::str_eq(path.as_str(), wanted),
        _ => false,
    }
}

/// The positions of the links that lead to the note `wanted` (only wikilinks, when asked), in
/// order.
pub open spec fn inbound_spec(links: Seq<LinkInfo>, paths: Seq<Seq<char>>, wanted: Seq<char>, wikilinks_only: bool) -> Seq<
    int,
>
    decreases links.len(),
{
    if links.len() == 0 {
        Seq::empty()
    } else {
        let p = inbound_spec(links.drop_last(), paths, wanted, wikilinks_only);
        let l = links.last();
        if (!wikilinks_only || l.kind == LinkKind::Wikilink) && leads_to_spec(l.kind, l.target@, l.source.path@, paths, wanted) {
            p.push(links.len() - 1)
        } else {
            p
        }
    }
}

/// The positions of the links that lead to the note `wanted` (see `inbound_spec`).
pub fn inbound_positions(links: &Vec<LinkInfo>, note_paths: &Vec<String>, wanted: &str, wikilinks_only: bool) -> (r: Vec<
    usize,
>)
    ensures
        r@.map_values(|k: usize| k as int) == inbound_spec(links@, texts(note_paths@), wanted@, wikilinks_only),
        forall|j: int| 0 <= j < r@.len() ==> #[trigger] r@[j] < links@.len(),
{
    let mut r: Vec<usize> = Vec::new();
    let mut k: usize = 0;
    assert(links@.take(0) =~= Seq::<LinkInfo>::empty());
    assert(r@.map_values(|k: usize| k as int) =~= Seq::<int>::empty());
    while k < links.len()
        invariant
            k <= links@.len(),
            r@.map_values(|k: usize| k as int) == inbound_spec(links@.take(k as int), texts(note_paths@), wanted@, wikilinks_only),
            forall|j: int| 0 <= j < r@.len() ==> #[trigger] r@[j] < k,
        decreases links@.len() - k,
    {
        let l = &links[k];
        let kind_ok = !wikilinks_only || match l.kind {
            LinkKind::Wikilink => true,
            LinkKind::Markdown => false,
        };
        let hit = kind_ok && leads_to(l.kind, l.target.as_str(), l.source.path.as_str(), note_paths, wanted);
        assert(links@.take(k + 1).drop_last() =~= links@.take(k as int));
        assert(links@.take(k + 1).last() == links@[k as int]);
        let ghost before = r@;
        if hit {
            r.push(k);
            assert(r@.map_values(|k: usize| k as int) =~= before.map_values(|k: usize| k as int).push(k as int));
        }
        k = k + 1;
    }
    assert(links@.take(links@.len() as int) =~= links@);
    r
}

/// A wikilink with a target that picks no note at the vault root or from the linking note's
/// folder, and that several note paths end with, leads to all of them as ambiguous: no note
/// is guessed.
pub proof fn ambiguous_reference_not_guessed(target: Seq<char>, source: Seq<char>, paths: Seq<Seq<char>>)
    requires
        target.len() > 0,
        !(!has_char(target, '/') && !ends_with(target, ".md"@) && paths.contains(target + ".md"@)),
        !(relative_target_spec(source, target) is Some && paths.contains(relative_target_spec(source, target)->Some_0)),
        suffix_candidates(paths, strip_md(target)).len() > 1,
    ensures
        resolve_spec(LinkKind::Wikilink, target, source, paths) == ResolutionView::Ambiguous(
            suffix_candidates(paths, strip_md(target)),
        ),
{
}

/// The text a reference adds after a target, if there is one (see `suffix_spec`).
pub open spec fn opt_suffix(r: Option<crate::parser::ReferenceView>) -> Seq<char> {
    match r {
        Some(v) => crate::parser::suffix_spec(v),
        None => Seq::empty(),
    }
}

/// The targets of an ambiguous reference, reported compactly: each candidate path with the
/// reference's heading or block after it, in natural order.
pub fn ambiguous_targets(candidates: &Vec<String>, reference: &Option<crate::parser::ReferenceInfo>) -> (r: Vec<
    String,
>)
    ensures
        texts(r@) == crate::natural::natural_sort(
            texts(candidates@).map_values(|c: Seq<char>| c + opt_suffix(crate::parser::opt_ref_view(*reference))),
        ),
{
    let suffix = match reference {
        Some(x) => crate::parser::reference_suffix(x),
        None => String::new(),
    };
    let ghost want = texts(candidates@).map_values(|c: Seq<char>| c + opt_suffix(crate::parser::opt_ref_view(*reference)));
    let mut out: Vec<String> = Vec::new();
    let mut k: usize = 0;
    while k < candidates.len()
        invariant
            k <= candidates@.len(),
            suffix@ == opt_suffix(crate::parser::opt_ref_view(*reference)),
            want == texts(candidates@).map_values(|c: Seq<char>| c + opt_suffix(crate::parser::opt_ref_view(*reference))),
            texts(out@) == want.take(k as int),
        decreases candidates@.len() - k,
    {
        let mut t = to_string(candidates[k].as_str());
        push_str(&mut t, suffix.as_str());
        let ghost before = texts(out@);
        out.push(t);
        assert(texts(out@) =~= before.push(want[k as int]));
        assert(want.take(k + 1) =~= want.take(k as int).push(want[k as int]));
        k = k + 1;
    }
    assert(want.take(candidates@.len() as int) =~= want);
    crate::natural::sort_natural(out)
}

} // verus!
