//! Expansion of the deny patterns against the file system, and the ordered,
//! duplicate-free list of sensitive paths found there.

use vstd::prelude::*;
use crate::paths::{canonicalize, glob_entries, is_absolute_path, join_path, joined, path_is_absolute, relative_to, strip_path_prefix};
use crate::sensitive_paths::{path_sensitive, FilterView, SensitivePathConfig};
use crate::text::{lemma_path_lt_total, lemma_path_lt_transitive, opt_view, path_less, path_lt, strs};

verus! {

/// A sensitive file found on disk: the path that glob expansion produced, its
/// canonical form, and its path relative to the working directory when it
/// lies under it.
#[derive(Debug, Clone, PartialEq, Eq)]
pub struct ResolvedSensitivePath {
    pub absolute: String,
    pub canonical: String,
    pub relative: Option<String>,
}

pub struct ResolvedView {
    pub absolute: Seq<char>,
    pub canonical: Seq<char>,
    pub relative: Option<Seq<char>>,
}

impl View for ResolvedSensitivePath {
    type V = ResolvedView;

    open spec fn view(&self) -> ResolvedView {
        ResolvedView {
            absolute: self.absolute@,
            canonical: self.canonical@,
            relative: opt_view(self.relative),
        }
    }
}

pub open spec fn views(v: Seq<ResolvedSensitivePath>) -> Seq<ResolvedView> {
    v.map_values(|r: ResolvedSensitivePath| r@)
}

/// The forms under which a resolved file may be named: the absolute path,
/// the canonical path when it differs, and the relative path, bare and
/// behind `./`.
pub open spec fn variants_of(e: ResolvedView) -> Seq<Seq<char>> {
    let head = if e.absolute == e.canonical {
        seq![e.absolute]
    } else {
        seq![e.absolute, e.canonical]
    };
    match e.relative {
        Some(r) => head + seq![r, joined(seq!['.'], r)],
        None => head,
    }
}

impl ResolvedSensitivePath {
    pub fn variants(&self) -> (r: Vec<String>)
        ensures
            strs(r@) == variants_of(self@),
    {
        let mut r: Vec<String> = Vec::new();
        r.push(self.absolute.clone());
        if self.absolute != self.canonical {
            r.push(self.canonical.clone());
        }
        match &self.relative {
            Some(rel) => {
                r.push(rel.clone());
                let dot = join_path(".", rel.as_str());
                proof {
                    reveal_strlit(".");
                    assert("."@ =~= seq!['.']);
                    assert(dot@ == joined(seq!['.'], rel@));
                }
                r.push(dot);
            },
            None => {},
        }
        assert(strs(r@) =~= variants_of(self@));
        r
    }
}

pub open spec fn opt_lt(a: Option<Seq<char>>, b: Option<Seq<char>>) -> bool {
    match (a, b) {
        (None, Some(_)) => true,
        (Some(x), Some(y)) => path_lt(x, y),
        _ => false,
    }
}

/// Lexicographic order on the triple (absolute, canonical, relative), with
/// an absent relative path first.  Paths compare component by component
/// (`path_lt`), as `Path` orders them: `config/x` comes before `config.d/y`.
pub open spec fn entry_lt(a: ResolvedView, b: ResolvedView) -> bool {
    path_lt(a.absolute, b.absolute) || (a.absolute == b.absolute && (path_lt(a.canonical, b.canonical)
        || (a.canonical == b.canonical && opt_lt(a.relative, b.relative))))
}

pub open spec fn strictly_sorted(s: Seq<ResolvedView>) -> bool {
    forall|i: int, j: int| 0 <= i < j < s.len() ==> entry_lt(#[trigger] s[i], #[trigger] s[j])
}

proof fn lemma_entry_lt_transitive(a: ResolvedView, b: ResolvedView, c: ResolvedView)
    requires
        entry_lt(a, b),
        entry_lt(b, c),
    ensures
        entry_lt(a, c),
{
    if path_lt(a.absolute, b.absolute) && path_lt(b.absolute, c.absolute) {
        lemma_path_lt_transitive(a.absolute, b.absolute, c.absolute);
    }
    if path_lt(a.canonical, b.canonical) && path_lt(b.canonical, c.canonical) {
        lemma_path_lt_transitive(a.canonical, b.canonical, c.canonical);
    }
    if a.relative is Some && b.relative is Some && c.relative is Some {
        if path_lt(a.relative->0, b.relative->0) && path_lt(b.relative->0, c.relative->0) {
            lemma_path_lt_transitive(a.relative->0, b.relative->0, c.relative->0);
        }
    }
}

proof fn lemma_entry_lt_total(a: ResolvedView, b: ResolvedView)
    requires
        a != b,
    ensures
        entry_lt(a, b) || entry_lt(b, a),
{
    if a.absolute != b.absolute {
        lemma_path_lt_total(a.absolute, b.absolute);
    } else if a.canonical != b.canonical {
        lemma_path_lt_total(a.canonical, b.canonical);
    } else if a.relative is Some && b.relative is Some {
        lemma_path_lt_total(a.relative->0, b.relative->0);
    }
}

fn opt_str_eq(a: &Option<String>, b: &Option<String>) -> (r: bool)
    ensures
        r == (opt_view(*a) == opt_view(*b)),
{
    match a {
        Some(x) => match b {
            Some(y) => x.eq(y),
            None => false,
        },
        None => b.is_none(),
    }
}

fn entry_less(a: &ResolvedSensitivePath, b: &ResolvedSensitivePath) -> (r: bool)
    ensures
        r == entry_lt(a@, b@),
{
    if path_less(a.absolute.as_str(), b.absolute.as_str()) {
        return true;
    }
    if a.absolute != b.absolute {
        return false;
    }
    if path_less(a.canonical.as_str(), b.canonical.as_str()) {
        return true;
    }
    if a.canonical != b.canonical {
        return false;
    }
    match (&a.relative, &b.relative) {
        (None, Some(_)) => true,
        (Some(x), Some(y)) => path_less(x.as_str(), y.as_str()),
        _ => false,
    }
}

fn entry_equal(a: &ResolvedSensitivePath, b: &ResolvedSensitivePath) -> (r: bool)
    ensures
        r == (a@ == b@),
{
    a.absolute == b.absolute && a.canonical == b.canonical && opt_str_eq(&a.relative, &b.relative)
}

/// Adds an entry to a strictly sorted list, unless it is there already.
fn insert_sorted(out: &mut Vec<ResolvedSensitivePath>, e: ResolvedSensitivePath)
    requires
        strictly_sorted(views(old(out)@)),
    ensures
        strictly_sorted(views(final(out)@)),
        forall|x: ResolvedView|
            #[trigger] views(final(out)@).contains(x) <==> (views(old(out)@).contains(x) || x == e@),
{
    let ghost old_v = views(out@);
    let mut pos: usize = 0;
    while pos < out.len() && entry_less(&out[pos], &e)
        invariant
            views(out@) == old_v,
            pos <= out@.len(),
            forall|k: int| 0 <= k < pos ==> entry_lt(#[trigger] old_v[k], e@),
        decreases out@.len() - pos,
    {
        pos = pos + 1;
    }
    if pos < out.len() && entry_equal(&out[pos], &e) {
        assert(old_v[pos as int] == e@);
        assert forall|x: ResolvedView|
            #[trigger] views(out@).contains(x) <==> (old_v.contains(x) || x == e@) by {
            if x == e@ {
                assert(old_v[pos as int] == x);
            }
        }
        return;
    }
    let ghost ev = e@;
    if pos < out.len() {
        proof {
            assert(!entry_lt(old_v[pos as int], ev));
            lemma_entry_lt_total(old_v[pos as int], ev);
            assert(entry_lt(ev, old_v[pos as int]));
        }
    }
    out.insert(pos, e);
    let ghost new_v = views(out@);
    assert(new_v =~= old_v.insert(pos as int, ev));
    assert forall|i: int, j: int| 0 <= i < j < new_v.len() implies entry_lt(
        #[trigger] new_v[i],
        #[trigger] new_v[j],
    ) by {
        if j < pos {
        } else if j == pos {
            assert(entry_lt(old_v[i], ev));
        } else if i < pos {
            assert(entry_lt(old_v[i], ev));
            assert(entry_lt(ev, old_v[pos as int]));
            if j - 1 > pos {
                assert(entry_lt(old_v[pos as int], old_v[j - 1]));
                lemma_entry_lt_transitive(ev, old_v[pos as int], old_v[j - 1]);
            }
            lemma_entry_lt_transitive(old_v[i], ev, old_v[j - 1]);
        } else if i == pos {
            if j - 1 > pos {
                assert(entry_lt(old_v[pos as int], old_v[j - 1]));
                lemma_entry_lt_transitive(ev, old_v[pos as int], old_v[j - 1]);
            }
        } else {
            assert(entry_lt(old_v[i - 1], old_v[j - 1]));
        }
    }
    assert forall|x: ResolvedView|
        #[trigger] new_v.contains(x) <==> (old_v.contains(x) || x == ev) by {
        if new_v.contains(x) {
            let k = choose|k: int| 0 <= k < new_v.len() && new_v[k] == x;
            if k < pos {
                assert(old_v[k] == x);
            } else if k > pos {
                assert(old_v[k - 1] == x);
            }
        }
        if old_v.contains(x) {
            let k = choose|k: int| 0 <= k < old_v.len() && old_v[k] == x;
            if k < pos {
                assert(new_v[k] == x);
            } else {
                assert(new_v[k + 1] == x);
            }
        }
        if x == ev {
            assert(new_v[pos as int] == x);
        }
    }
}

/// A hit of glob expansion: the path found, and its canonical form (the path
/// itself where it has none).
#[derive(Debug, Clone, PartialEq, Eq)]
pub struct GlobHit {
    pub absolute: String,
    pub canonical: String,
}

pub struct HitView {
    pub absolute: Seq<char>,
    pub canonical: Seq<char>,
}

impl View for GlobHit {
    type V = HitView;

    open spec fn view(&self) -> HitView {
        HitView { absolute: self.absolute@, canonical: self.canonical@ }
    }
}

pub open spec fn hit_views(v: Seq<GlobHit>) -> Seq<HitView> {
    v.map_values(|h: GlobHit| h@)
}

/// The entry that a hit gives, relative to the working directory `base`.
pub open spec fn entry_for(base: Seq<char>, hit: HitView) -> ResolvedView {
    ResolvedView {
        absolute: hit.absolute,
        canonical: hit.canonical,
        relative: relative_to(hit.canonical, base),
    }
}

/// `out` is the resolution of `hits` under `cfg`: the entries of the hits
/// whose canonical path is sensitive, each once, in ascending order.
pub open spec fn resolution(
    cfg: FilterView,
    base: Seq<char>,
    hits: Seq<HitView>,
    out: Seq<ResolvedView>,
) -> bool {
    &&& strictly_sorted(out)
    &&& forall|x: ResolvedView|
        #[trigger] out.contains(x) ==> exists|j: int|
            0 <= j < hits.len() && path_sensitive(cfg, #[trigger] hits[j].canonical) && x
                == entry_for(base, hits[j])
    &&& forall|j: int|
        0 <= j < hits.len() && path_sensitive(cfg, #[trigger] hits[j].canonical) ==> out.contains(
            entry_for(base, hits[j]),
        )
}

impl SensitivePathConfig {
    /// Keeps the hits whose canonical path is sensitive, computes their path
    /// relative to `base`, and returns them without duplicates, sorted.
    pub fn resolve_hits(&self, base: &str, hits: &Vec<GlobHit>) -> (r: Vec<ResolvedSensitivePath>)
        ensures
            resolution(self@, base@, hit_views(hits@), views(r@)),
    {
        let ghost hv = hit_views(hits@);
        let mut out: Vec<ResolvedSensitivePath> = Vec::new();
        let mut j: usize = 0;
        while j < hits.len()
            invariant
                hv == hit_views(hits@),
                j <= hits@.len(),
                strictly_sorted(views(out@)),
                forall|x: ResolvedView|
                    #[trigger] views(out@).contains(x) ==> exists|k: int|
                        0 <= k < j && path_sensitive(self@, #[trigger] hv[k].canonical) && x
                            == entry_for(base@, hv[k]),
                forall|k: int|
                    0 <= k < j && path_sensitive(self@, #[trigger] hv[k].canonical) ==> views(
                        out@,
                    ).contains(entry_for(base@, hv[k])),
            decreases hits@.len() - j,
        {
            let hit = &hits[j];
            assert(hv[j as int] == hit@);
            if self.is_path_sensitive(hit.canonical.as_str()) {
                let relative = strip_path_prefix(hit.canonical.as_str(), base);
                let e = ResolvedSensitivePath {
                    absolute: hit.absolute.clone(),
                    canonical: hit.canonical.clone(),
                    relative,
                };
                assert(e@ == entry_for(base@, hv[j as int]));
                let ghost before = views(out@);
                insert_sorted(&mut out, e);
                assert forall|x: ResolvedView|
                    #[trigger] views(out@).contains(x) implies exists|k: int|
                        0 <= k < j + 1 && path_sensitive(self@, #[trigger] hv[k].canonical) && x
                            == entry_for(base@, hv[k]) by {
                    if before.contains(x) {
                    } else {
                        assert(path_sensitive(self@, hv[j as int].canonical));
                    }
                }
                assert forall|k: int|
                    0 <= k < j + 1 && path_sensitive(self@, #[trigger] hv[k].canonical) implies views(
                        out@,
                    ).contains(entry_for(base@, hv[k])) by {
                    if k < j {
                        assert(before.contains(entry_for(base@, hv[k])));
                    }
                }
            }
            j = j + 1;
        }
        out
    }

    /// The glob pattern of each deny pattern, in order: absolute patterns as
    /// they are, the others joined onto `base`.
    pub fn glob_patterns(&self, base: &str) -> (r: Vec<String>)
        ensures
            r@.len() == self@.deny.len(),
            forall|i: int|
                0 <= i < r@.len() ==> (#[trigger] r@[i])@ == glob_pattern_of(base@, self@.deny[i]),
    {
        let patterns = self.deny_patterns();
        let mut r: Vec<String> = Vec::new();
        let mut i: usize = 0;
        while i < patterns.len()
            invariant
                strs(patterns@) == self@.deny,
                i <= patterns@.len(),
                r@.len() == i,
                forall|k: int|
                    0 <= k < i ==> (#[trigger] r@[k])@ == glob_pattern_of(base@, self@.deny[k]),
            decreases patterns@.len() - i,
        {
            assert(self@.deny[i as int] == patterns@[i as int]@);
            r.push(glob_pattern(base, patterns[i].as_str()));
            i = i + 1;
        }
        r
    }

    /// Expands each deny pattern against the file system, relative to the
    /// working directory (made absolute against `current_dir` and then
    /// canonicalized where possible), and resolves what was found.  The
    /// patterns handed to glob are those of `glob_patterns`; what the file
    /// system holds decides the hits, and the result is their resolution.
    /// With no deny pattern there is nothing to find.
    pub fn resolve_paths(&self, sandbox_policy_cwd: &str, current_dir: &str) -> (r: Vec<
        ResolvedSensitivePath,
    >)
        ensures
            exists|base: Seq<char>, hits: Seq<HitView>|
                {
                    &&& resolution(self@, base, hits, views(r@))
                    &&& (self@.deny.len() == 0 ==> hits.len() == 0)
                },
            self@.deny.len() == 0 ==> r@.len() == 0,
    {
        let absolute = absolute_cwd(sandbox_policy_cwd, current_dir);
        let base = or_same(canonicalize(absolute.as_str()), &absolute);
        let patterns = self.glob_patterns(base.as_str());
        let mut hits: Vec<GlobHit> = Vec::new();
        let mut i: usize = 0;
        while i < patterns.len()
            invariant
                i <= patterns@.len(),
                i == 0 ==> hits@.len() == 0,
            decreases patterns@.len() - i,
        {
            match glob_entries(patterns[i].as_str()) {
                Some(entries) => {
                    let mut k: usize = 0;
                    while k < entries.len()
                        decreases entries@.len() - k,
                    {
                        let entry = &entries[k];
                        let canonical = or_same(canonicalize(entry.as_str()), entry);
                        hits.push(GlobHit { absolute: entry.clone(), canonical });
                        k = k + 1;
                    }
                },
                None => {},
            }
            i = i + 1;
        }
        let r = self.resolve_hits(base.as_str(), &hits);
        proof {
            let hv = hit_views(hits@);
            assert(resolution(self@, base@, hv, views(r@)));
            if self@.deny.len() == 0 && r@.len() > 0 {
                assert(views(r@).contains(views(r@)[0]));
            }
        }
        r
    }
}

/// The working directory as an absolute path: as it is when absolute, else
/// joined onto the process's current directory.
pub open spec fn absolute_cwd_of(cwd: Seq<char>, current_dir: Seq<char>) -> Seq<char> {
    if path_is_absolute(cwd) {
        cwd
    } else {
        joined(current_dir, cwd)
    }
}

/// The glob pattern of a deny pattern: as it is when absolute, else joined
/// onto the working directory.
pub open spec fn glob_pattern_of(base: Seq<char>, pattern: Seq<char>) -> Seq<char> {
    if path_is_absolute(pattern) {
        pattern
    } else {
        joined(base, pattern)
    }
}

pub fn absolute_cwd(cwd: &str, current_dir: &str) -> (r: String)
    ensures
        r@ == absolute_cwd_of(cwd@, current_dir@),
{
    if is_absolute_path(cwd) {
        String::from_str(cwd)
    } else {
        join_path(current_dir, cwd)
    }
}

pub fn glob_pattern(base: &str, pattern: &str) -> (r: String)
    ensures
        r@ == glob_pattern_of(base@, pattern@),
{
    if is_absolute_path(pattern) {
        String::from_str(pattern)
    } else {
        join_path(base, pattern)
    }
}

/// The value found, or the path itself where none was: the fallback for a
/// path that cannot be canonicalized.
pub fn or_same(found: Option<String>, path: &String) -> (r: String)
    ensures
        r@ == match found {
            Some(c) => c@,
            None => path@,
        },
{
    match found {
        Some(c) => c,
        None => path.clone(),
    }
}

} // verus!
