//! Deny and allow lists of sensitive file patterns, and the classifier that
//! decides whether a path or a command-line token names a sensitive file.

use vstd::prelude::*;
use crate::paths::{file_name, file_name_of, is_absolute_path, path_is_absolute};
use crate::text::{chars_of, push_char, strs};

verus! {

/// Whole-string wildcard matching: `*` matches any run of characters
/// (separators included), `?` exactly one character, and any other character
/// itself.
pub open spec fn wild_match(pattern: Seq<char>, text: Seq<char>) -> bool
    decreases pattern.len() + text.len(),
{
    if pattern.len() == 0 {
        text.len() == 0
    } else if pattern[0] == '*' {
        wild_match(pattern.drop_first(), text) || (text.len() > 0 && wild_match(pattern, text.drop_first()))
    } else {
        text.len() > 0 && (pattern[0] == '?' || pattern[0] == text[0]) && wild_match(
            pattern.drop_first(),
            text.drop_first(),
        )
    }
}

/// Relies on `wildmatch::WildMatch::new` and `WildMatchPattern::matches`: a
/// case-sensitive whole-input match where `*` matches any run of characters,
/// `?` exactly one, and no character escapes another.
#[verifier::external_body]
fn pattern_matches(pattern: &str, text: &str) -> (r: bool)
    ensures
        r == wild_match(pattern@, text@),
{
    wildmatch::WildMatch::new(pattern).matches(text)
}

/// A path's text with every backslash turned into a forward slash.
pub open spec fn normalize(s: Seq<char>) -> Seq<char> {
    s.map_values(|c: char| if c == '\\' { '/' } else { c })
}

/// Replaces each backslash with a forward slash.
pub fn normalize_candidate(value: &str) -> (r: String)
    ensures
        r@ == normalize(value@),
{
    let n = value.unicode_len();
    let mut r = String::new();
    let mut i: usize = 0;
    while i < n
        invariant
            n == value@.len(),
            i <= n,
            r@ == normalize(value@.subrange(0, i as int)),
        decreases n - i,
    {
        let c = value.get_char(i);
        if c == '\\' {
            push_char(&mut r, '/');
        } else {
            push_char(&mut r, c);
        }
        assert(normalize(value@.subrange(0, i + 1)) =~= normalize(value@.subrange(0, i as int)).push(
            if c == '\\' { '/' } else { c },
        ));
        i = i + 1;
    }
    assert(value@.subrange(0, n as int) =~= value@);
    r
}

/// A path's normalized text and its normalized file name.
pub fn normalize_path(path: &str) -> (r: (String, Option<String>))
    ensures
        r.0@ == normalize(path@),
        crate::text::opt_view(r.1) == normalized_file_name(path@),
{
    let normalized = normalize_candidate(path);
    let name = match file_name(path) {
        Some(n) => Some(normalize_candidate(n.as_str())),
        None => None,
    };
    (normalized, name)
}

pub open spec fn is_ascii_alpha(c: char) -> bool {
    ('a' <= c && c <= 'z') || ('A' <= c && c <= 'Z')
}

/// The characters that may stand inside a path token of a command line.
pub open spec fn token_char(c: char) -> bool {
    is_ascii_alpha(c) || ('0' <= c && c <= '9') || c == '.' || c == '_' || c == '-' || c == '/'
}

pub fn is_path_token_char(c: char) -> (r: bool)
    ensures
        r == token_char(c),
{
    ('a' <= c && c <= 'z') || ('A' <= c && c <= 'Z') || ('0' <= c && c <= '9') || c == '.' || c
        == '_' || c == '-' || c == '/'
}

/// Whether `s[i..j]` is a token: a non-empty maximal run of token characters.
pub open spec fn is_token(s: Seq<char>, i: int, j: int) -> bool {
    &&& 0 <= i < j <= s.len()
    &&& forall|k: int| i <= k < j ==> token_char(#[trigger] s[k])
    &&& (i == 0 || !token_char(s[i - 1]))
    &&& (j == s.len() || !token_char(s[j]))
}

/// Whether an allow entry is absolute: rooted, a UNC prefix, a drive letter,
/// a bare `~` or `~/…`, or absolute for the platform's paths.
pub open spec fn absolute_pattern(s: Seq<char>) -> bool {
    if s.len() > 0 && s[0] == '/' {
        true
    } else if s.len() >= 2 && s[0] == '\\' && s[1] == '\\' {
        true
    } else if s.len() >= 2 && s[1] == ':' && is_ascii_alpha(s[0]) {
        true
    } else if s.len() > 0 && s[0] == '~' {
        s.len() == 1 || s[1] == '/'
    } else {
        rooted_or_prefixed(s) && path_is_absolute(s)
    }
}

/// Whether a path starts as an absolute path must on some platform: with a
/// separator, or with a drive.
pub open spec fn rooted_or_prefixed(s: Seq<char>) -> bool {
    s.len() > 0 && (s[0] == '/' || s[0] == '\\' || (s.len() >= 2 && s[1] == ':'))
}

pub fn is_absolute_pattern(candidate: &str) -> (r: bool)
    ensures
        r == absolute_pattern(candidate@),
{
    let n = candidate.unicode_len();
    if n > 0 && candidate.get_char(0) == '/' {
        return true;
    }
    if n >= 2 && candidate.get_char(0) == '\\' && candidate.get_char(1) == '\\' {
        return true;
    }
    if n >= 2 && candidate.get_char(1) == ':' {
        let c = candidate.get_char(0);
        if ('a' <= c && c <= 'z') || ('A' <= c && c <= 'Z') {
            return true;
        }
    }
    if n > 0 && candidate.get_char(0) == '~' {
        return n == 1 || candidate.get_char(1) == '/';
    }
    is_absolute_path(candidate)
}

/// Whether some pattern matches the path text or its file name.
pub open spec fn pattern_hits(
    patterns: Seq<Seq<char>>,
    path: Seq<char>,
    name: Option<Seq<char>>,
) -> bool {
    exists|i: int|
        0 <= i < patterns.len() && (wild_match(#[trigger] patterns[i], path) || (name is Some
            && wild_match(patterns[i], name->0)))
}

/// The classifier: a deny match makes a path sensitive unless an allow entry
/// matches it too.
pub open spec fn classify(
    deny: Seq<Seq<char>>,
    allow: Seq<Seq<char>>,
    path: Seq<char>,
    name: Option<Seq<char>>,
) -> bool {
    !pattern_hits(allow, path, name) && pattern_hits(deny, path, name)
}

/// The normalized file name of a path.
pub open spec fn normalized_file_name(path: Seq<char>) -> Option<Seq<char>> {
    match file_name_of(path) {
        Some(n) => Some(normalize(n)),
        None => None,
    }
}

/// The view of a configuration: its deny patterns and its allow patterns.
pub struct FilterView {
    pub deny: Seq<Seq<char>>,
    pub allow: Seq<Seq<char>>,
}

/// Whether a path is sensitive under a configuration.
pub open spec fn path_sensitive(cfg: FilterView, path: Seq<char>) -> bool {
    classify(cfg.deny, cfg.allow, normalize(path), normalized_file_name(path))
}

/// Whether a command-line string names a sensitive file, as a whole or
/// through one of its tokens.
pub open spec fn candidate_sensitive(cfg: FilterView, candidate: Seq<char>) -> bool {
    let n = normalize(candidate);
    classify(cfg.deny, cfg.allow, n, file_name_of(n)) || exists|i: int, j: int|
        is_token(n, i, j) && #[trigger] classify(
            cfg.deny,
            cfg.allow,
            n.subrange(i, j),
            Some(n.subrange(i, j)),
        )
}

/// Allow takes precedence over deny: a path that a deny entry and an allow
/// entry both match, by its text or by its file name, is not sensitive.
pub proof fn lemma_allow_overrides_deny(cfg: FilterView, path: Seq<char>)
    requires
        pattern_hits(cfg.deny, normalize(path), normalized_file_name(path)),
        pattern_hits(cfg.allow, normalize(path), normalized_file_name(path)),
    ensures
        !path_sensitive(cfg, path),
{
}

/// The relative entries of an allow list, in order.
pub open spec fn relative_patterns(s: Seq<Seq<char>>) -> Seq<Seq<char>>
    decreases s.len(),
{
    if s.len() == 0 {
        s
    } else {
        let rest = relative_patterns(s.drop_last());
        if absolute_pattern(s.last()) {
            rest
        } else {
            rest.push(s.last())
        }
    }
}

/// Every entry that `relative_patterns` keeps is relative, and every one it
/// drops is absolute.
pub proof fn lemma_relative_patterns(s: Seq<Seq<char>>)
    ensures
        forall|i: int|
            0 <= i < relative_patterns(s).len() ==> !absolute_pattern(#[trigger] relative_patterns(s)[i]),
        forall|i: int|
            0 <= i < s.len() && !absolute_pattern(#[trigger] s[i]) ==> relative_patterns(s).contains(s[i]),
    decreases s.len(),
{
    if s.len() > 0 {
        lemma_relative_patterns(s.drop_last());
        let rest = relative_patterns(s.drop_last());
        assert forall|i: int| 0 <= i < s.len() && !absolute_pattern(#[trigger] s[i]) implies relative_patterns(
            s,
        ).contains(s[i]) by {
            if i < s.len() - 1 {
                assert(s.drop_last()[i] == s[i]);
                let k = choose|k: int| 0 <= k < rest.len() && rest[k] == s[i];
                assert(relative_patterns(s)[k] == s[i]);
            } else {
                assert(relative_patterns(s)[rest.len() as int] == s[i]);
            }
        }
    }
}

/// The invariant of a configuration: no allow entry is absolute.
pub open spec fn allow_is_relative(cfg: FilterView) -> bool {
    forall|i: int| 0 <= i < cfg.allow.len() ==> !absolute_pattern(#[trigger] cfg.allow[i])
}

/// Patterns read from a settings file.
#[derive(Debug, Clone, PartialEq, Default)]
pub struct SensitivePathsToml {
    pub deny: Vec<String>,
    pub allow: Vec<String>,
}

/// The deny and allow lists, kept as written.  Allow entries are relative.
pub struct SensitivePathConfig {
    deny_raw: Vec<String>,
    allow_raw: Vec<String>,
}

impl View for SensitivePathConfig {
    type V = FilterView;

    closed spec fn view(&self) -> FilterView {
        FilterView { deny: strs(self.deny_raw@), allow: strs(self.allow_raw@) }
    }
}

pub open spec fn default_deny() -> Seq<Seq<char>> {
    seq![seq!['.', 'e', 'n', 'v'], seq!['.', 'e', 'n', 'v', '.', '*']]
}

pub open spec fn default_allow() -> Seq<Seq<char>> {
    seq![seq!['.', 'e', 'n', 'v', '.', 'e', 'x', 'a', 'm', 'p', 'l', 'e']]
}

fn default_deny_list() -> (r: Vec<String>)
    ensures
        strs(r@) == default_deny(),
{
    let mut r: Vec<String> = Vec::new();
    let mut a = String::new();
    push_char(&mut a, '.');
    push_char(&mut a, 'e');
    push_char(&mut a, 'n');
    push_char(&mut a, 'v');
    let mut b = a.clone();
    push_char(&mut b, '.');
    push_char(&mut b, '*');
    assert(a@ =~= seq!['.', 'e', 'n', 'v']);
    assert(b@ =~= seq!['.', 'e', 'n', 'v', '.', '*']);
    r.push(a);
    r.push(b);
    assert(strs(r@) =~= default_deny());
    r
}

fn default_allow_list() -> (r: Vec<String>)
    ensures
        strs(r@) == default_allow(),
{
    let mut r: Vec<String> = Vec::new();
    let mut a = String::new();
    push_char(&mut a, '.');
    push_char(&mut a, 'e');
    push_char(&mut a, 'n');
    push_char(&mut a, 'v');
    push_char(&mut a, '.');
    push_char(&mut a, 'e');
    push_char(&mut a, 'x');
    push_char(&mut a, 'a');
    push_char(&mut a, 'm');
    push_char(&mut a, 'p');
    push_char(&mut a, 'l');
    push_char(&mut a, 'e');
    assert(a@ =~= seq!['.', 'e', 'n', 'v', '.', 'e', 'x', 'a', 'm', 'p', 'l', 'e']);
    r.push(a);
    assert(strs(r@) =~= default_allow());
    r
}

impl Default for SensitivePathConfig {
    /// Denies `.env` and `.env.*`, and allows `.env.example`.
    fn default() -> (r: Self)
        ensures
            r@.deny == default_deny(),
            r@.allow == default_allow(),
            allow_is_relative(r@),
    {
        let r = SensitivePathConfig::from_lists(default_deny_list(), default_allow_list());
        proof {
            let a = default_allow();
            assert(a.drop_last() =~= Seq::<Seq<char>>::empty());
            assert(!absolute_pattern(a.last()));
            assert(relative_patterns(a.drop_last()) =~= Seq::<Seq<char>>::empty());
            assert(relative_patterns(a) =~= Seq::<Seq<char>>::empty().push(a.last()));
            assert(relative_patterns(a) =~= a);
        }
        r
    }
}

impl SensitivePathConfig {
    /// The default lists, extended by those of a settings file.
    pub fn from_toml(toml: Option<SensitivePathsToml>) -> (r: Self)
        ensures
            r@.deny == default_deny() + match toml {
                Some(t) => strs(t.deny@),
                None => Seq::empty(),
            },
            r@.allow == relative_patterns(
                default_allow() + match toml {
                    Some(t) => strs(t.allow@),
                    None => Seq::empty(),
                },
            ),
            allow_is_relative(r@),
    {
        let mut deny_patterns = default_deny_list();
        let mut allow_patterns = default_allow_list();
        let ghost d0 = deny_patterns@;
        let ghost a0 = allow_patterns@;
        match toml {
            Some(t) => {
                let mut d = t.deny;
                let mut a = t.allow;
                let ghost dv = d@;
                let ghost av = a@;
                deny_patterns.append(&mut d);
                allow_patterns.append(&mut a);
                assert(strs(d0 + dv) =~= strs(d0) + strs(dv));
                assert(strs(a0 + av) =~= strs(a0) + strs(av));
            },
            None => {
                assert(default_deny() + Seq::<Seq<char>>::empty() =~= default_deny());
                assert(default_allow() + Seq::<Seq<char>>::empty() =~= default_allow());
            },
        }
        Self::from_lists(deny_patterns, allow_patterns)
    }

    /// Keeps the deny list as it is, and the allow entries that are not
    /// absolute.
    pub fn from_lists(deny: Vec<String>, allow: Vec<String>) -> (r: Self)
        ensures
            r@.deny == strs(deny@),
            r@.allow == relative_patterns(strs(allow@)),
            allow_is_relative(r@),
    {
        let mut kept: Vec<String> = Vec::new();
        let n = allow.len();
        let mut i: usize = 0;
        while i < n
            invariant
                n == allow@.len(),
                i <= n,
                strs(kept@) == relative_patterns(strs(allow@.subrange(0, i as int))),
            decreases n - i,
        {
            let p = &allow[i];
            assert(strs(allow@.subrange(0, i + 1)).drop_last() =~= strs(allow@.subrange(0, i as int)));
            if !is_absolute_pattern(p.as_str()) {
                kept.push(p.clone());
                assert(strs(kept@) =~= relative_patterns(strs(allow@.subrange(0, i as int))).push(p@));
            }
            i = i + 1;
        }
        assert(allow@.subrange(0, n as int) =~= allow@);
        proof {
            lemma_relative_patterns(strs(allow@));
        }
        SensitivePathConfig { deny_raw: deny, allow_raw: kept }
    }

    pub fn deny_patterns(&self) -> (r: &[String])
        ensures
            strs(r@) == self@.deny,
    {
        self.deny_raw.as_slice()
    }

    pub fn is_path_sensitive(&self, path: &str) -> (r: bool)
        ensures
            r == path_sensitive(self@, path@),
    {
        let (normalized, name) = normalize_path(path);
        self.matches(normalized.as_str(), &name)
    }

    pub fn is_candidate_sensitive(&self, candidate: &str) -> (r: bool)
        ensures
            r == candidate_sensitive(self@, candidate@),
    {
        let normalized = normalize_candidate(candidate);
        let name = file_name(normalized.as_str());
        if self.matches(normalized.as_str(), &name) {
            return true;
        }
        let ghost s = normalized@;
        let cs = chars_of(normalized.as_str());
        let n = cs.len();
        let mut start: usize = 0;
        let mut i: usize = 0;
        while i < n
            invariant
                cs@ == s,
                s == normalized@,
                s == normalize(candidate@),
                n == s.len(),
                start <= i <= n,
                forall|k: int| start <= k < i ==> token_char(#[trigger] s[k]),
                start == 0 || !token_char(s[start - 1]),
                forall|a: int, b: int|
                    is_token(s, a, b) && b < start ==> !#[trigger] classify(
                        self@.deny,
                        self@.allow,
                        s.subrange(a, b),
                        Some(s.subrange(a, b)),
                    ),
            decreases n - i,
        {
            if !is_path_token_char(cs[i]) {
                if start < i {
                    let token = normalized.as_str().substring_char(start, i);
                    let tok = Some(String::from_str(token));
                    if self.matches(token, &tok) {
                        assert(is_token(s, start as int, i as int));
                        assert(classify(
                            self@.deny,
                            self@.allow,
                            s.subrange(start as int, i as int),
                            Some(s.subrange(start as int, i as int)),
                        ));
                        return true;
                    }
                }
                assert forall|a: int, b: int|
                    is_token(s, a, b) && b < i + 1 implies !#[trigger] classify(
                        self@.deny,
                        self@.allow,
                        s.subrange(a, b),
                        Some(s.subrange(a, b)),
                    ) by {
                    if b >= start {
                        if b < i {
                            assert(token_char(s[b]));
                        } else if a < start {
                            assert(token_char(s[start - 1]));
                        } else if a > start {
                            assert(token_char(s[a - 1]));
                        }
                    }
                }
                start = i + 1;
            }
            i = i + 1;
        }
        if start < n {
            let token = normalized.as_str().substring_char(start, n);
            let tok = Some(String::from_str(token));
            if self.matches(token, &tok) {
                assert(is_token(s, start as int, n as int));
                assert(classify(
                    self@.deny,
                    self@.allow,
                    s.subrange(start as int, n as int),
                    Some(s.subrange(start as int, n as int)),
                ));
                return true;
            }
        }
        assert forall|a: int, b: int| is_token(s, a, b) implies !#[trigger] classify(
            self@.deny,
            self@.allow,
            s.subrange(a, b),
            Some(s.subrange(a, b)),
        ) by {
            if b >= start {
                if b < n {
                    assert(token_char(s[b]));
                } else if a < start {
                    assert(token_char(s[start - 1]));
                } else if a > start {
                    assert(token_char(s[a - 1]));
                }
            }
        }
        false
    }

    fn matches(&self, path: &str, name: &Option<String>) -> (r: bool)
        ensures
            r == classify(self@.deny, self@.allow, path@, crate::text::opt_view(*name)),
    {
        if self.is_allowed(path, name) {
            return false;
        }
        any_pattern_hits(&self.deny_raw, path, name)
    }

    fn is_allowed(&self, path: &str, name: &Option<String>) -> (r: bool)
        ensures
            r == pattern_hits(self@.allow, path@, crate::text::opt_view(*name)),
    {
        any_pattern_hits(&self.allow_raw, path, name)
    }
}

fn any_pattern_hits(patterns: &Vec<String>, path: &str, name: &Option<String>) -> (r: bool)
    ensures
        r == pattern_hits(strs(patterns@), path@, crate::text::opt_view(*name)),
{
    let ghost ps = strs(patterns@);
    let ghost nv = crate::text::opt_view(*name);
    let mut i: usize = 0;
    while i < patterns.len()
        invariant
            ps == strs(patterns@),
            nv == crate::text::opt_view(*name),
            i <= patterns@.len(),
            forall|k: int|
                0 <= k < i ==> !(wild_match(#[trigger] ps[k], path@) || (nv is Some && wild_match(
                    ps[k],
                    nv->0,
                ))),
        decreases patterns@.len() - i,
    {
        let p = patterns[i].as_str();
        assert(ps[i as int] == p@);
        if pattern_matches(p, path) {
            return true;
        }
        match name {
            Some(n) => {
                if pattern_matches(p, n.as_str()) {
                    return true;
                }
            },
            None => {},
        }
        i = i + 1;
    }
    false
}

} // verus!
