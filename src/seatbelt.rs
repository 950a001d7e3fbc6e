//! The profile compiler: turns a sandbox policy, its writable roots and the
//! resolved sensitive paths into a Seatbelt profile and the argument vector
//! of `sandbox-exec`.  Every path reaches the profile as a named parameter.

use vstd::prelude::*;
use crate::paths::canonicalize;
use crate::resolve::{or_same, resolution, views, variants_of, HitView, ResolvedSensitivePath, ResolvedView};
use crate::sensitive_paths::SensitivePathConfig;
use crate::text::{decimal, decimal_string, strs};

verus! {

/// The access that a command is granted.
#[derive(Debug, Clone)]
pub enum SandboxPolicy {
    DangerFullAccess,
    ReadOnly,
    WorkspaceWrite {
        writable_roots: Vec<String>,
        network_access: bool,
        exclude_tmpdir_env_var: bool,
        exclude_slash_tmp: bool,
    },
}

impl SandboxPolicy {
    pub open spec fn full_write(&self) -> bool {
        self is DangerFullAccess
    }

    pub open spec fn full_network(&self) -> bool {
        match self {
            SandboxPolicy::DangerFullAccess => true,
            SandboxPolicy::ReadOnly => false,
            SandboxPolicy::WorkspaceWrite { network_access, .. } => *network_access,
        }
    }

    pub fn has_full_disk_write_access(&self) -> (r: bool)
        ensures
            r == self.full_write(),
    {
        match self {
            SandboxPolicy::DangerFullAccess => true,
            _ => false,
        }
    }

    /// Every policy may read the whole disk.
    pub fn has_full_disk_read_access(&self) -> (r: bool)
        ensures
            r,
    {
        true
    }

    pub fn has_full_network_access(&self) -> (r: bool)
        ensures
            r == self.full_network(),
    {
        match self {
            SandboxPolicy::DangerFullAccess => true,
            SandboxPolicy::ReadOnly => false,
            SandboxPolicy::WorkspaceWrite { network_access, .. } => *network_access,
        }
    }
}

/// A directory the command may write under, except below its read-only
/// sub-paths.
#[derive(Debug, Clone, PartialEq)]
pub struct WritableRoot {
    pub root: String,
    pub read_only_subpaths: Vec<String>,
}

pub struct RootView {
    pub root: Seq<char>,
    pub read_only: Seq<Seq<char>>,
}

impl View for WritableRoot {
    type V = RootView;

    open spec fn view(&self) -> RootView {
        RootView { root: self.root@, read_only: strs(self.read_only_subpaths@) }
    }
}

pub open spec fn root_views(v: Seq<WritableRoot>) -> Seq<RootView> {
    v.map_values(|w: WritableRoot| w@)
}

/// The strings of `parts`, with `sep` between each two.
pub open spec fn join(sep: Seq<char>, parts: Seq<Seq<char>>) -> Seq<char>
    decreases parts.len(),
{
    if parts.len() == 0 {
        Seq::empty()
    } else if parts.len() == 1 {
        parts[0]
    } else {
        join(sep, parts.drop_last()) + sep + parts.last()
    }
}

/// The sequences of `s`, one after the other.
pub open spec fn flat(s: Seq<Seq<Seq<char>>>) -> Seq<Seq<char>>
    decreases s.len(),
{
    if s.len() == 0 {
        Seq::empty()
    } else {
        flat(s.drop_last()) + s.last()
    }
}

/// The non-empty strings of `s`, each at its first occurrence.
pub open spec fn dedup_nonempty(s: Seq<Seq<char>>) -> Seq<Seq<char>>
    decreases s.len(),
{
    if s.len() == 0 {
        Seq::empty()
    } else {
        let d = dedup_nonempty(s.drop_last());
        if s.last().len() == 0 || d.contains(s.last()) {
            d
        } else {
            d.push(s.last())
        }
    }
}

pub open spec fn root_param(i: nat) -> Seq<char> {
    "WRITABLE_ROOT_"@ + decimal(i)
}

pub open spec fn ro_param(i: nat, j: nat) -> Seq<char> {
    root_param(i) + "_RO_"@ + decimal(j)
}

pub open spec fn deny_param(k: nat) -> Seq<char> {
    "SENSITIVE_DENY_"@ + decimal(k)
}

/// The argument that binds a parameter to a value.
pub open spec fn binding(name: Seq<char>, value: Seq<char>) -> Seq<char> {
    "-D"@ + name + "="@ + value
}

pub open spec fn subpath_clause(name: Seq<char>) -> Seq<char> {
    "(subpath (param \""@ + name + "\"))"@
}

pub open spec fn require_not_clause(name: Seq<char>) -> Seq<char> {
    "(require-not "@ + subpath_clause(name) + ")"@
}

/// The clause that lets a command write under root `i`, outside its
/// read-only sub-paths.
pub open spec fn root_clause(i: nat, root: RootView) -> Seq<char> {
    if root.read_only.len() == 0 {
        subpath_clause(root_param(i))
    } else {
        "(require-all "@ + join(
            " "@,
            seq![subpath_clause(root_param(i))] + Seq::new(
                root.read_only.len(),
                |j: int| require_not_clause(ro_param(i, j as nat)),
            ),
        ) + " )"@
    }
}

/// The bindings of root `i` and of its read-only sub-paths.
pub open spec fn root_bindings(i: nat, root: RootView) -> Seq<Seq<char>> {
    seq![binding(root_param(i), root.root)] + Seq::new(
        root.read_only.len(),
        |j: int| binding(ro_param(i, j as nat), root.read_only[j]),
    )
}

pub open spec fn full_write_section() -> Seq<char> {
    "(allow file-write* (regex #\"^/\"))"@
}

pub open spec fn read_section() -> Seq<char> {
    "; allow read-only file operations\n(allow file-read*)"@
}

pub open spec fn network_section() -> Seq<char> {
    "(allow network-outbound)\n(allow network-inbound)\n(allow system-socket)"@
}

pub open spec fn write_section(policy: SandboxPolicy, roots: Seq<RootView>) -> Option<Seq<char>> {
    if policy.full_write() {
        Some(full_write_section())
    } else if roots.len() == 0 {
        None
    } else {
        Some(
            "(allow file-write*\n"@ + join(
                " "@,
                Seq::new(roots.len(), |i: int| root_clause(i as nat, roots[i])),
            ) + "\n)"@,
        )
    }
}

pub open spec fn write_bindings(policy: SandboxPolicy, roots: Seq<RootView>) -> Seq<Seq<char>> {
    if policy.full_write() {
        Seq::empty()
    } else {
        flat(Seq::new(roots.len(), |i: int| root_bindings(i as nat, roots[i])))
    }
}

/// The strings that name sensitive files: every variant of every entry, in
/// order, the empty ones dropped and each kept once.  A full-access policy
/// has none.
pub open spec fn deny_strings(policy: SandboxPolicy, entries: Seq<ResolvedView>) -> Seq<Seq<char>> {
    if policy is DangerFullAccess {
        Seq::empty()
    } else {
        dedup_nonempty(flat(Seq::new(entries.len(), |i: int| variants_of(entries[i]))))
    }
}

pub open spec fn deny_clause(k: nat) -> Seq<char> {
    "    (path (param \""@ + deny_param(k) + "\"))"@
}

pub open spec fn deny_section(strings: Seq<Seq<char>>) -> Option<Seq<char>> {
    if strings.len() == 0 {
        None
    } else {
        Some(
            "(deny file-read*\n"@ + join(
                "\n"@,
                Seq::new(strings.len(), |k: int| deny_clause(k as nat)),
            ) + "\n)"@,
        )
    }
}

pub open spec fn deny_bindings(strings: Seq<Seq<char>>) -> Seq<Seq<char>> {
    Seq::new(strings.len(), |k: int| binding(deny_param(k as nat), strings[k]))
}

pub open spec fn network_section_of(policy: SandboxPolicy) -> Option<Seq<char>> {
    if policy.full_network() {
        Some(network_section())
    } else {
        None
    }
}

pub open spec fn opt_seq(o: Option<Seq<char>>) -> Seq<Seq<char>> {
    match o {
        Some(x) => seq![x],
        None => Seq::empty(),
    }
}

/// The sections of the profile, in their fixed order: the base policy, read
/// access, write access, read denials and network access.
pub open spec fn profile_sections(
    base: Seq<char>,
    policy: SandboxPolicy,
    roots: Seq<RootView>,
    entries: Seq<ResolvedView>,
) -> Seq<Seq<char>> {
    seq![base] + seq![read_section()] + opt_seq(write_section(policy, roots)) + opt_seq(
        deny_section(deny_strings(policy, entries)),
    ) + opt_seq(network_section_of(policy))
}

/// The argument vector of `sandbox-exec`: the profile, the parameter
/// bindings, and the command after `--`.
pub open spec fn seatbelt_args_spec(
    command: Seq<Seq<char>>,
    policy: SandboxPolicy,
    roots: Seq<RootView>,
    entries: Seq<ResolvedView>,
    base: Seq<char>,
) -> Seq<Seq<char>> {
    seq!["-p"@, join("\n"@, profile_sections(base, policy, roots, entries))] + write_bindings(
        policy,
        roots,
    ) + deny_bindings(deny_strings(policy, entries)) + seq!["--"@] + command
}

/// Joins strings with a separator between each two.
fn join_strings(parts: &Vec<String>, sep: &str) -> (r: String)
    ensures
        r@ == join(sep@, strs(parts@)),
{
    let mut r = String::new();
    let mut i: usize = 0;
    while i < parts.len()
        invariant
            i <= parts@.len(),
            r@ == join(sep@, strs(parts@.subrange(0, i as int))),
        decreases parts@.len() - i,
    {
        let ghost pre = strs(parts@.subrange(0, i as int));
        assert(strs(parts@.subrange(0, i + 1)).drop_last() =~= pre);
        if i > 0 {
            r.append(sep);
        }
        r.append(parts[i].as_str());
        proof {
            if i == 0 {
                assert(r@ =~= strs(parts@.subrange(0, 1))[0]);
            }
        }
        i = i + 1;
    }
    assert(parts@.subrange(0, parts@.len() as int) =~= parts@);
    r
}

/// Whether `v` holds a string equal to `s`.
fn contains_str(v: &Vec<String>, s: &String) -> (r: bool)
    ensures
        r == strs(v@).contains(s@),
{
    let mut i: usize = 0;
    while i < v.len()
        invariant
            i <= v@.len(),
            forall|k: int| 0 <= k < i ==> strs(v@)[k] != s@,
        decreases v@.len() - i,
    {
        if v[i].eq(s) {
            assert(strs(v@)[i as int] == s@);
            return true;
        }
        i = i + 1;
    }
    false
}

fn root_param_string(i: usize) -> (r: String)
    ensures
        r@ == root_param(i as nat),
{
    let mut s = String::from_str("WRITABLE_ROOT_");
    let d = decimal_string(i);
    s.append(d.as_str());
    s
}

fn ro_param_string(i: usize, j: usize) -> (r: String)
    ensures
        r@ == ro_param(i as nat, j as nat),
{
    let mut s = root_param_string(i);
    s.append("_RO_");
    let d = decimal_string(j);
    s.append(d.as_str());
    s
}

fn deny_param_string(k: usize) -> (r: String)
    ensures
        r@ == deny_param(k as nat),
{
    let mut s = String::from_str("SENSITIVE_DENY_");
    let d = decimal_string(k);
    s.append(d.as_str());
    s
}

fn binding_string(name: &str, value: &str) -> (r: String)
    ensures
        r@ == binding(name@, value@),
{
    let mut s = String::from_str("-D");
    s.append(name);
    s.append("=");
    s.append(value);
    s
}

fn subpath_string(name: &str) -> (r: String)
    ensures
        r@ == subpath_clause(name@),
{
    let mut s = String::from_str("(subpath (param \"");
    s.append(name);
    s.append("\"))");
    s
}

fn require_not_string(name: &str) -> (r: String)
    ensures
        r@ == require_not_clause(name@),
{
    let mut s = String::from_str("(require-not ");
    let inner = subpath_string(name);
    s.append(inner.as_str());
    s.append(")");
    s
}

fn deny_clause_string(k: usize) -> (r: String)
    ensures
        r@ == deny_clause(k as nat),
{
    let mut s = String::from_str("    (path (param \"");
    let p = deny_param_string(k);
    s.append(p.as_str());
    s.append("\"))");
    s
}

/// The write clauses of the roots and their bindings, appended to `binds`.
fn root_clauses(roots: &Vec<WritableRoot>, binds: &mut Vec<String>) -> (r: Vec<String>)
    ensures
        strs(r@) == Seq::new(
            roots@.len() as nat,
            |k: int| root_clause(k as nat, root_views(roots@)[k]),
        ),
        strs(final(binds)@) == strs(old(binds)@) + flat(
            Seq::new(roots@.len() as nat, |k: int| root_bindings(k as nat, root_views(roots@)[k])),
        ),
{
    let ghost rv = root_views(roots@);
    let ghost start = strs(binds@);
    let mut clauses: Vec<String> = Vec::new();
    let mut i: usize = 0;
    assert(flat(Seq::new(0, |k: int| root_bindings(k as nat, rv[k]))) =~= Seq::<Seq<char>>::empty());
    assert(strs(binds@) =~= start + Seq::<Seq<char>>::empty());
    while i < roots.len()
        invariant
            rv == root_views(roots@),
            i <= roots@.len(),
            strs(clauses@) == Seq::new(i as nat, |k: int| root_clause(k as nat, rv[k])),
            strs(binds@) == start + flat(Seq::new(i as nat, |k: int| root_bindings(k as nat, rv[k]))),
        decreases roots@.len() - i,
    {
        let wr = &roots[i];
        assert(rv[i as int] == wr@);
        let rp = root_param_string(i);
        let ghost before = strs(binds@);
        binds.push(binding_string(rp.as_str(), wr.root.as_str()));
        let ro_list = &wr.read_only_subpaths;
        let ghost ro = strs(ro_list@);
        let ghost c0 = strs(clauses@);
        if ro_list.len() == 0 {
            clauses.push(subpath_string(rp.as_str()));
            assert(Seq::new(
                ro.len(),
                |m: int| binding(ro_param(i as nat, m as nat), ro[m]),
            ) =~= Seq::<Seq<char>>::empty());
            assert(strs(binds@) =~= before + root_bindings(i as nat, rv[i as int]));
        } else {
            let mut parts: Vec<String> = Vec::new();
            parts.push(subpath_string(rp.as_str()));
            let mut j: usize = 0;
            assert(strs(parts@) =~= seq![subpath_clause(root_param(i as nat))] + Seq::new(
                0,
                |m: int| require_not_clause(ro_param(i as nat, m as nat)),
            ));
            assert(strs(binds@) =~= before + seq![binding(root_param(i as nat), wr.root@)]
                + Seq::new(0, |m: int| binding(ro_param(i as nat, m as nat), ro[m])));
            while j < ro_list.len()
                invariant
                    ro == strs(ro_list@),
                    j <= ro_list@.len(),
                    rp@ == root_param(i as nat),
                    strs(parts@) == seq![subpath_clause(root_param(i as nat))] + Seq::new(
                        j as nat,
                        |m: int| require_not_clause(ro_param(i as nat, m as nat)),
                    ),
                    strs(binds@) == before + seq![binding(root_param(i as nat), wr.root@)]
                        + Seq::new(j as nat, |m: int| binding(ro_param(i as nat, m as nat), ro[m])),
                decreases ro_list@.len() - j,
            {
                let rop = ro_param_string(i, j);
                assert(ro[j as int] == ro_list@[j as int]@);
                let ghost p0 = strs(parts@);
                let ghost b0 = strs(binds@);
                let b = binding_string(rop.as_str(), ro_list[j].as_str());
                let c = require_not_string(rop.as_str());
                binds.push(b);
                parts.push(c);
                assert(strs(parts@) =~= p0.push(c@));
                assert(strs(binds@) =~= b0.push(b@));
                assert(strs(parts@) =~= seq![subpath_clause(root_param(i as nat))] + Seq::new(
                    (j + 1) as nat,
                    |m: int| require_not_clause(ro_param(i as nat, m as nat)),
                ));
                assert(strs(binds@) =~= before + seq![binding(root_param(i as nat), wr.root@)]
                    + Seq::new((j + 1) as nat, |m: int| binding(ro_param(i as nat, m as nat), ro[m])));
                j = j + 1;
            }
            let mut clause = String::from_str("(require-all ");
            let joined = join_strings(&parts, " ");
            clause.append(joined.as_str());
            clause.append(" )");
            assert(clause@ == root_clause(i as nat, rv[i as int]));
            clauses.push(clause);
            assert(strs(binds@) =~= before + root_bindings(i as nat, rv[i as int]));
        }
        assert(Seq::new((i + 1) as nat, |k: int| root_bindings(k as nat, rv[k])).drop_last()
            =~= Seq::new(i as nat, |k: int| root_bindings(k as nat, rv[k])));
        assert(strs(binds@) =~= start + flat(
            Seq::new((i + 1) as nat, |k: int| root_bindings(k as nat, rv[k])),
        ));
        assert(strs(clauses@) =~= c0.push(root_clause(i as nat, rv[i as int])));
        assert(strs(clauses@) =~= Seq::new((i + 1) as nat, |k: int| root_clause(k as nat, rv[k])));
        i = i + 1;
    }
    clauses
}

/// The variants of the entries, in order, the empty ones dropped and each
/// kept once.
fn collect_deny_strings(entries: &Vec<ResolvedSensitivePath>) -> (r: Vec<String>)
    ensures
        strs(r@) == dedup_nonempty(
            flat(Seq::new(entries@.len() as nat, |x: int| variants_of(views(entries@)[x]))),
        ),
{
    let ghost ev = views(entries@);
    let mut deny: Vec<String> = Vec::new();
    let mut a: usize = 0;
    assert(flat(Seq::new(0, |x: int| variants_of(ev[x]))) =~= Seq::<Seq<char>>::empty());
    while a < entries.len()
        invariant
            ev == views(entries@),
            a <= entries@.len(),
            strs(deny@) == dedup_nonempty(flat(Seq::new(a as nat, |x: int| variants_of(ev[x])))),
        decreases entries@.len() - a,
    {
        let vs = entries[a].variants();
        assert(ev[a as int] == entries@[a as int]@);
        let ghost prefix = flat(Seq::new(a as nat, |x: int| variants_of(ev[x])));
        let ghost vv = strs(vs@);
        let mut b: usize = 0;
        assert(prefix + vv.subrange(0, 0) =~= prefix);
        while b < vs.len()
            invariant
                vv == strs(vs@),
                b <= vs@.len(),
                strs(deny@) == dedup_nonempty(prefix + vv.subrange(0, b as int)),
            decreases vs@.len() - b,
        {
            let v = &vs[b];
            let ghost whole = prefix + vv.subrange(0, b + 1);
            assert(whole.drop_last() =~= prefix + vv.subrange(0, b as int));
            assert(whole.last() == v@);
            let ghost d0 = strs(deny@);
            if v.as_str().unicode_len() > 0 && !contains_str(&deny, v) {
                deny.push(v.clone());
                assert(strs(deny@) =~= d0.push(v@));
            }
            b = b + 1;
        }
        assert(vv.subrange(0, vv.len() as int) =~= vv);
        assert(Seq::new((a + 1) as nat, |x: int| variants_of(ev[x])).drop_last() =~= Seq::new(
            a as nat,
            |x: int| variants_of(ev[x]),
        ));
        a = a + 1;
    }
    deny
}

/// The read-deny clauses and bindings of the deny strings.
fn deny_parts(deny: &Vec<String>) -> (r: (Vec<String>, Vec<String>))
    ensures
        strs(r.0@) == Seq::new(deny@.len() as nat, |k: int| deny_clause(k as nat)),
        strs(r.1@) == deny_bindings(strs(deny@)),
{
    let ghost ds = strs(deny@);
    let mut clauses: Vec<String> = Vec::new();
    let mut binds: Vec<String> = Vec::new();
    let mut k: usize = 0;
    while k < deny.len()
        invariant
            ds == strs(deny@),
            k <= deny@.len(),
            strs(clauses@) == Seq::new(k as nat, |m: int| deny_clause(m as nat)),
            strs(binds@) == Seq::new(k as nat, |m: int| binding(deny_param(m as nat), ds[m])),
        decreases deny@.len() - k,
    {
        let p = deny_param_string(k);
        let ghost c0 = strs(clauses@);
        let ghost b0 = strs(binds@);
        let c = deny_clause_string(k);
        let b = binding_string(p.as_str(), deny[k].as_str());
        clauses.push(c);
        binds.push(b);
        assert(strs(clauses@) =~= c0.push(c@));
        assert(strs(binds@) =~= b0.push(b@));
        assert(strs(clauses@) =~= Seq::new((k + 1) as nat, |m: int| deny_clause(m as nat)));
        assert(strs(binds@) =~= Seq::new((k + 1) as nat, |m: int| binding(deny_param(m as nat), ds[m])));
        k = k + 1;
    }
    (clauses, binds)
}

/// Builds the argument vector of `sandbox-exec` from a policy, its writable
/// roots (in the form they are to be bound), the resolved sensitive paths and
/// the base policy text.  A full-access policy denies no sensitive path.
pub fn seatbelt_args(
    command: Vec<String>,
    policy: &SandboxPolicy,
    writable_roots: &Vec<WritableRoot>,
    resolved: &Vec<ResolvedSensitivePath>,
    base_policy: &str,
) -> (r: Vec<String>)
    ensures
        strs(r@) == seatbelt_args_spec(
            strs(command@),
            *policy,
            root_views(writable_roots@),
            views(resolved@),
            base_policy@,
        ),
{
    let ghost rv = root_views(writable_roots@);
    let ghost ev = views(resolved@);
    let mut write_binds: Vec<String> = Vec::new();
    let write: Option<String> = if policy.has_full_disk_write_access() {
        Some(String::from_str("(allow file-write* (regex #\"^/\"))"))
    } else if writable_roots.len() == 0 {
        None
    } else {
        let clauses = root_clauses(writable_roots, &mut write_binds);
        let mut section = String::from_str("(allow file-write*\n");
        let joined = join_strings(&clauses, " ");
        section.append(joined.as_str());
        section.append("\n)");
        Some(section)
    };
    assert(opt_seq(write_section(*policy, rv)) =~= match write {
        Some(w) => seq![w@],
        None => Seq::<Seq<char>>::empty(),
    });
    assert(strs(write_binds@) =~= write_bindings(*policy, rv));
    let deny = match policy {
        SandboxPolicy::DangerFullAccess => Vec::new(),
        _ => collect_deny_strings(resolved),
    };
    let ghost ds = strs(deny@);
    assert(ds =~= deny_strings(*policy, ev));
    let (deny_clauses, mut deny_binds) = deny_parts(&deny);
    let mut sections: Vec<String> = Vec::new();
    sections.push(String::from_str(base_policy));
    if policy.has_full_disk_read_access() {
        sections.push(String::from_str("; allow read-only file operations\n(allow file-read*)"));
    }
    match write {
        Some(w) => sections.push(w),
        None => {},
    }
    if deny.len() > 0 {
        let mut section = String::from_str("(deny file-read*\n");
        let joined = join_strings(&deny_clauses, "\n");
        section.append(joined.as_str());
        section.append("\n)");
        sections.push(section);
    }
    if policy.has_full_network_access() {
        sections.push(
            String::from_str("(allow network-outbound)\n(allow network-inbound)\n(allow system-socket)"),
        );
    }
    assert(strs(sections@) =~= profile_sections(base_policy@, *policy, rv, ev));
    let mut args: Vec<String> = Vec::new();
    args.push(String::from_str("-p"));
    args.push(join_strings(&sections, "\n"));
    let ghost a0 = strs(args@);
    args.append(&mut write_binds);
    assert(strs(args@) =~= a0 + write_bindings(*policy, rv));
    let ghost a1 = strs(args@);
    args.append(&mut deny_binds);
    assert(strs(args@) =~= a1 + deny_bindings(ds));
    args.push(String::from_str("--"));
    let ghost a2 = strs(args@);
    let mut cmd = command;
    let ghost cv = strs(cmd@);
    args.append(&mut cmd);
    assert(strs(args@) =~= a2 + cv);
    args
}

/// Under a full-access policy the profile holds no read-deny section and
/// binds no sensitive path, whatever entries were resolved.
pub proof fn lemma_full_access_denies_nothing(
    command: Seq<Seq<char>>,
    roots: Seq<RootView>,
    entries: Seq<ResolvedView>,
    base: Seq<char>,
)
    ensures
        deny_strings(SandboxPolicy::DangerFullAccess, entries).len() == 0,
        profile_sections(base, SandboxPolicy::DangerFullAccess, roots, entries) == seq![
            base,
            read_section(),
            full_write_section(),
            network_section(),
        ],
        seatbelt_args_spec(command, SandboxPolicy::DangerFullAccess, roots, entries, base)
            == seatbelt_args_spec(command, SandboxPolicy::DangerFullAccess, roots, Seq::empty(), base),
{
    assert(profile_sections(base, SandboxPolicy::DangerFullAccess, roots, entries) =~= seq![
        base,
        read_section(),
        full_write_section(),
        network_section(),
    ]);
}

/// The profile ends with the fixed network block when the policy grants full
/// network access; otherwise it holds only the other sections.
pub proof fn lemma_network_section(
    policy: SandboxPolicy,
    roots: Seq<RootView>,
    entries: Seq<ResolvedView>,
    base: Seq<char>,
)
    ensures
        policy.full_network() ==> profile_sections(base, policy, roots, entries) == seq![base]
            + seq![read_section()] + opt_seq(write_section(policy, roots)) + opt_seq(
            deny_section(deny_strings(policy, entries)),
        ) + seq![network_section()],
        !policy.full_network() ==> profile_sections(base, policy, roots, entries) == seq![base]
            + seq![read_section()] + opt_seq(write_section(policy, roots)) + opt_seq(
            deny_section(deny_strings(policy, entries)),
        ),
{
    let rest = seq![base] + seq![read_section()] + opt_seq(write_section(policy, roots)) + opt_seq(
        deny_section(deny_strings(policy, entries)),
    );
    if !policy.full_network() {
        assert(rest + opt_seq(network_section_of(policy)) =~= rest);
    }
}

/// Two writable roots, the first with one read-only sub-path: the roots are
/// bound in order as `WRITABLE_ROOT_0`, `WRITABLE_ROOT_0_RO_0` and
/// `WRITABLE_ROOT_1`, and the write section requires the first root without
/// its sub-path, or the second root.
pub proof fn lemma_two_roots_with_carve_out(
    policy: SandboxPolicy,
    r0: Seq<char>,
    ro0: Seq<char>,
    r1: Seq<char>,
)
    requires
        !policy.full_write(),
    ensures
        ({
            let roots = seq![
                RootView { root: r0, read_only: seq![ro0] },
                RootView { root: r1, read_only: Seq::empty() },
            ];
            &&& write_bindings(policy, roots) == seq![
                binding(root_param(0), r0),
                binding(ro_param(0, 0), ro0),
                binding(root_param(1), r1),
            ]
            &&& write_section(policy, roots) == Some(
                "(allow file-write*\n"@ + ("(require-all "@ + (subpath_clause(root_param(0)) + " "@
                    + require_not_clause(ro_param(0, 0))) + " )"@) + " "@ + subpath_clause(
                    root_param(1),
                ) + "\n)"@,
            )
        }),
{
    let roots = seq![
        RootView { root: r0, read_only: seq![ro0] },
        RootView { root: r1, read_only: Seq::empty() },
    ];
    let f = |i: int| root_bindings(i as nat, roots[i]);
    let s2 = Seq::new(2, f);
    assert(s2.drop_last().drop_last() =~= Seq::<Seq<Seq<char>>>::empty());
    assert(s2.drop_last() =~= Seq::new(1, f));
    assert(root_bindings(0, roots[0]) =~= seq![binding(root_param(0), r0), binding(ro_param(0, 0), ro0)]);
    assert(root_bindings(1, roots[1]) =~= seq![binding(root_param(1), r1)]);
    assert(Seq::new(1, f).drop_last() =~= Seq::<Seq<Seq<char>>>::empty());
    assert(flat(Seq::<Seq<Seq<char>>>::empty()) =~= Seq::<Seq<char>>::empty());
    assert(Seq::new(1, f).last() == root_bindings(0, roots[0]));
    assert(flat(Seq::new(1, f)) =~= root_bindings(0, roots[0]));
    assert(flat(s2) =~= seq![
        binding(root_param(0), r0),
        binding(ro_param(0, 0), ro0),
        binding(root_param(1), r1),
    ]);
    let parts = seq![subpath_clause(root_param(0))] + Seq::new(
        1,
        |j: int| require_not_clause(ro_param(0, j as nat)),
    );
    assert(parts.drop_last() =~= seq![subpath_clause(root_param(0))]);
    assert(join(" "@, parts.drop_last()) == subpath_clause(root_param(0)));
    assert(parts.len() == 2);
    assert(parts.last() == require_not_clause(ro_param(0, 0)));
    assert(join(" "@, parts) == subpath_clause(root_param(0)) + " "@ + require_not_clause(ro_param(0, 0)));
    let clauses = Seq::new(2, |i: int| root_clause(i as nat, roots[i]));
    assert(clauses.drop_last() =~= seq![root_clause(0, roots[0])]);
    assert(join(" "@, clauses.drop_last()) == root_clause(0, roots[0]));
    assert(clauses.len() == 2);
    assert(clauses.last() == root_clause(1, roots[1]));
    assert(join(" "@, clauses) == root_clause(0, roots[0]) + " "@ + root_clause(1, roots[1]));
}

/// Two lists of roots that differ only in the paths they hold.
pub open spec fn same_shape(a: Seq<RootView>, b: Seq<RootView>) -> bool {
    &&& a.len() == b.len()
    &&& forall|i: int| 0 <= i < a.len() ==> (#[trigger] a[i]).read_only.len() == b[i].read_only.len()
}

/// Compiles the argument vector of `sandbox-exec`.  Unless the policy grants
/// full write access, each writable root and read-only sub-path is bound in
/// canonical form where the file system gives one; unless the policy grants
/// full access, the deny patterns are resolved against the working directory.  What the file system holds decides those
/// paths; the arguments are those that `seatbelt_args` builds from them.
pub fn create_seatbelt_command_args(
    command: Vec<String>,
    sandbox_policy: &SandboxPolicy,
    sandbox_policy_cwd: &str,
    current_dir: &str,
    sensitive_paths: &SensitivePathConfig,
    writable_roots: &Vec<WritableRoot>,
    base_policy: &str,
) -> (r: Vec<String>)
    ensures
        exists|roots: Seq<RootView>, entries: Seq<ResolvedView>|
            {
                &&& same_shape(roots, root_views(writable_roots@))
                &&& (sandbox_policy is DangerFullAccess ==> entries.len() == 0)
                &&& (!(sandbox_policy is DangerFullAccess) ==> exists|
                    base: Seq<char>,
                    hits: Seq<HitView>,
                |
                    {
                        &&& resolution(sensitive_paths@, base, hits, entries)
                        &&& (sensitive_paths@.deny.len() == 0 ==> hits.len() == 0)
                    })
                &&& (sensitive_paths@.deny.len() == 0 ==> entries.len() == 0)
                &&& strs(r@) == seatbelt_args_spec(
                    strs(command@),
                    *sandbox_policy,
                    roots,
                    entries,
                    base_policy@,
                )
            },
{
    let ghost rv = root_views(writable_roots@);
    let full_write = sandbox_policy.has_full_disk_write_access();
    let count = if full_write { 0 } else { writable_roots.len() };
    let mut canonical: Vec<WritableRoot> = Vec::new();
    let mut i: usize = 0;
    while i < count
        invariant
            rv == root_views(writable_roots@),
            count <= writable_roots@.len(),
            i <= count,
            canonical@.len() == i,
            forall|k: int|
                0 <= k < i ==> (#[trigger] root_views(canonical@)[k]).read_only.len()
                    == rv[k].read_only.len(),
        decreases writable_roots@.len() - i,
    {
        let wr = &writable_roots[i];
        let root = or_same(canonicalize(wr.root.as_str()), &wr.root);
        let mut ro: Vec<String> = Vec::new();
        let mut j: usize = 0;
        let ghost c0 = canonical@;
        while j < wr.read_only_subpaths.len()
            invariant
                canonical@ == c0,
                j <= wr.read_only_subpaths@.len(),
                ro@.len() == j,
            decreases wr.read_only_subpaths@.len() - j,
        {
            ro.push(or_same(canonicalize(wr.read_only_subpaths[j].as_str()), &wr.read_only_subpaths[j]));
            j = j + 1;
        }
        assert(rv[i as int] == wr@);
        let w = WritableRoot { root, read_only_subpaths: ro };
        canonical.push(w);
        assert(root_views(canonical@) =~= root_views(c0).push(w@));
        i = i + 1;
    }
    let resolved = match sandbox_policy {
        SandboxPolicy::DangerFullAccess => Vec::new(),
        _ => sensitive_paths.resolve_paths(sandbox_policy_cwd, current_dir),
    };
    if full_write {
        // Under full write access the roots are not bound, so they are not
        // canonicalized either.
        let r = seatbelt_args(command, sandbox_policy, writable_roots, &resolved, base_policy);
        assert(same_shape(rv, rv));
        r
    } else {
        let r = seatbelt_args(command, sandbox_policy, &canonical, &resolved, base_policy);
        assert(same_shape(root_views(canonical@), rv));
        r
    }
}

} // verus!
