use vstd::prelude::*;
use crate::text::{chars_of, find, find_chars, slice_chars, string_from, trim, trim_ws};
use crate::text::{is_ws, occurs_at, lemma_find_occurs, trim_start_ws, trim_end_ws, starts_with};
use crate::version::{version_order, version_order_of};

verus! {

/// A version requirement of a dependency.
#[derive(Debug, Clone, PartialEq, Eq)]
pub enum VersionReq {
    Any,
    Eq(String),
    Gt(String),
    Gte(String),
    Lt(String),
    Lte(String),
}

/// The mathematical form of a `VersionReq`.
pub enum ReqView {
    Any,
    Eq(Seq<char>),
    Gt(Seq<char>),
    Gte(Seq<char>),
    Lt(Seq<char>),
    Lte(Seq<char>),
}

impl View for VersionReq {
    type V = ReqView;

    open spec fn view(&self) -> ReqView {
        match self {
            VersionReq::Any => ReqView::Any,
            VersionReq::Eq(v) => ReqView::Eq(v@),
            VersionReq::Gt(v) => ReqView::Gt(v@),
            VersionReq::Gte(v) => ReqView::Gte(v@),
            VersionReq::Lt(v) => ReqView::Lt(v@),
            VersionReq::Lte(v) => ReqView::Lte(v@),
        }
    }
}

/// A dependency of a package: a name and an optional version requirement.
#[derive(Debug, Clone, PartialEq, Eq)]
pub struct Dependency {
    pub name: String,
    pub version_req: Option<VersionReq>,
}

pub struct DependencyView {
    pub name: Seq<char>,
    pub req: Option<ReqView>,
}

impl View for Dependency {
    type V = DependencyView;

    open spec fn view(&self) -> DependencyView {
        DependencyView {
            name: self.name@,
            req: match self.version_req {
                Some(r) => Some(r@),
                None => None,
            },
        }
    }
}

/// Whether `version` meets the requirement.
pub open spec fn req_matches(r: ReqView, version: Seq<char>) -> bool {
    match r {
        ReqView::Any => true,
        ReqView::Eq(v) => version_order(version, v) == 0,
        ReqView::Gt(v) => version_order(version, v) == 1,
        ReqView::Gte(v) => version_order(version, v) != -1,
        ReqView::Lt(v) => version_order(version, v) == -1,
        ReqView::Lte(v) => version_order(version, v) != 1,
    }
}

/// Whether `version` meets the dependency (any version does without a requirement).
pub open spec fn dep_matches(d: DependencyView, version: Seq<char>) -> bool {
    match d.req {
        None => true,
        Some(r) => req_matches(r, version),
    }
}

/// "At least `v`" is "newer than `v`" or "equal to `v`"; "older than" is
/// the negation of "at least", "at most" that of "newer than", and "at
/// most" is "older than" or "equal to".
pub proof fn lemma_req_relations(v: Seq<char>, x: Seq<char>)
    ensures
        req_matches(ReqView::Gte(v), x) <==> (req_matches(ReqView::Gt(v), x) || req_matches(ReqView::Eq(v), x)),
        req_matches(ReqView::Lt(v), x) <==> !req_matches(ReqView::Gte(v), x),
        req_matches(ReqView::Lte(v), x) <==> !req_matches(ReqView::Gt(v), x),
        req_matches(ReqView::Lte(v), x) <==> (req_matches(ReqView::Lt(v), x) || req_matches(ReqView::Eq(v), x)),
        req_matches(ReqView::Any, x),
{
    crate::version::lemma_version_order_range(x, v);
}

/// A version is equal to, at least and at most itself, and neither newer
/// nor older than itself.
pub proof fn lemma_req_reflexive(v: Seq<char>)
    ensures
        req_matches(ReqView::Eq(v), v),
        req_matches(ReqView::Gte(v), v),
        req_matches(ReqView::Lte(v), v),
        !req_matches(ReqView::Gt(v), v),
        !req_matches(ReqView::Lt(v), v),
{
    crate::version::lemma_version_order_reflexive(v);
}

/// `x` is newer than `v` exactly when `v` is older than `x`, and equality
/// holds both ways or neither.
pub proof fn lemma_req_converse(v: Seq<char>, x: Seq<char>)
    ensures
        req_matches(ReqView::Gt(v), x) <==> req_matches(ReqView::Lt(x), v),
        req_matches(ReqView::Gte(v), x) <==> req_matches(ReqView::Lte(x), v),
        req_matches(ReqView::Eq(v), x) <==> req_matches(ReqView::Eq(x), v),
{
    crate::version::lemma_version_order_antisymmetric(x, v);
}

pub open spec fn op_gte() -> Seq<char> {
    seq!['>', '=']
}

pub open spec fn op_lte() -> Seq<char> {
    seq!['<', '=']
}

pub open spec fn op_gt() -> Seq<char> {
    seq!['>']
}

pub open spec fn op_lt() -> Seq<char> {
    seq!['<']
}

pub open spec fn op_eq() -> Seq<char> {
    seq!['=']
}

/// No character of `s` is one of the operator characters `<`, `>`, `=`.
pub open spec fn free_of_operators(s: Seq<char>) -> bool {
    forall|i: int| 0 <= i < s.len() ==> #[trigger] s[i] != '<' && s[i] != '>' && s[i] != '='
}

proof fn lemma_no_occurrence(d: Seq<char>, op: Seq<char>, c: char)
    requires
        op.len() > 0,
        op[0] == c,
        forall|i: int| 0 <= i < d.len() ==> #[trigger] d[i] != c,
    ensures
        find(d, op) is None,
{
    lemma_find_occurs(d, op, 0);
    assert forall|k: int| 0 <= k implies !occurs_at(d, op, k) by {
        if occurs_at(d, op, k) {
            assert(d.subrange(k, k + op.len())[0] == d[k]);
        }
    }
}

/// "name<version", with no other operator character in it, asks for a
/// version strictly older than `version`: the version itself does not
/// match, and a version matches exactly when it is older.
pub proof fn lemma_parse_less_than(n: Seq<char>, v: Seq<char>)
    requires
        free_of_operators(n),
        free_of_operators(v),
        n.len() > 0 ==> !is_ws(n[0]),
        v.len() > 0 ==> !is_ws(v.last()),
    ensures
        parse_dependency(n + seq!['<'] + v).name == n,
        parse_dependency(n + seq!['<'] + v).req == Some(ReqView::Lt(v)),
        !dep_matches(parse_dependency(n + seq!['<'] + v), v),
        forall|x: Seq<char>| dep_matches(parse_dependency(n + seq!['<'] + v), x) <==> version_order(x, v) == -1,
{
    let d = n + seq!['<'] + v;
    let p = n.len() as int;
    assert(d[p] == '<');
    assert(!is_ws(d[0]));
    assert(trim_start_ws(d) == d);
    assert(d.last() == (if v.len() > 0 { v.last() } else { '<' }));
    assert(trim_end_ws(d) == d);
    assert(trim_ws(d) == d);
    assert forall|i: int| 0 <= i < d.len() implies #[trigger] d[i] != '>' by {
        if i < p {
            assert(d[i] == n[i]);
        } else if i > p {
            assert(d[i] == v[i - p - 1]);
        }
    }
    lemma_no_occurrence(d, op_gte(), '>');
    lemma_no_occurrence(d, op_gt(), '>');
    lemma_find_occurs(d, op_lte(), 0);
    assert forall|k: int| 0 <= k implies !occurs_at(d, op_lte(), k) by {
        if occurs_at(d, op_lte(), k) {
            assert(d.subrange(k, k + 2)[0] == d[k]);
            assert(d.subrange(k, k + 2)[1] == d[k + 1]);
            if k < p {
                assert(d[k] == n[k]);
            } else if k > p {
                assert(d[k] == v[k - p - 1]);
            } else {
                assert(d[k + 1] == v[0]);
            }
        }
    }
    lemma_find_occurs(d, op_lt(), 0);
    assert(occurs_at(d, op_lt(), p)) by {
        assert(d.subrange(p, p + 1) =~= op_lt());
    }
    assert forall|k: int| 0 <= k < p implies !occurs_at(d, op_lt(), k) by {
        if occurs_at(d, op_lt(), k) {
            assert(d.subrange(k, k + 1)[0] == d[k]);
            assert(d[k] == n[k]);
        }
    }
    assert(find(d, op_lt()) == Some(p));
    assert(split_at_op(d, op_lt(), p).0 =~= n);
    assert(split_at_op(d, op_lt(), p).1 =~= v);
    crate::version::lemma_version_order_reflexive(v);
}

/// Splits `d` around the first occurrence of `op`.
pub open spec fn split_at_op(d: Seq<char>, op: Seq<char>, p: int) -> (Seq<char>, Seq<char>) {
    (d.subrange(0, p), d.subrange(p + op.len(), d.len() as int))
}

/// What `Dependency::parse` makes of a string: the string is trimmed, and the
/// first of the operators `>=`, `<=`, `>`, `<`, `=` (in that order of preference)
/// found in it splits it into a name and a version.
pub open spec fn parse_dependency(dep: Seq<char>) -> DependencyView {
    let d = trim_ws(dep);
    if let Some(p) = find(d, op_gte()) {
        DependencyView {
            name: split_at_op(d, op_gte(), p).0,
            req: Some(ReqView::Gte(split_at_op(d, op_gte(), p).1)),
        }
    } else if let Some(p) = find(d, op_lte()) {
        DependencyView {
            name: split_at_op(d, op_lte(), p).0,
            req: Some(ReqView::Lte(split_at_op(d, op_lte(), p).1)),
        }
    } else if let Some(p) = find(d, op_gt()) {
        DependencyView {
            name: split_at_op(d, op_gt(), p).0,
            req: Some(ReqView::Gt(split_at_op(d, op_gt(), p).1)),
        }
    } else if let Some(p) = find(d, op_lt()) {
        DependencyView {
            name: split_at_op(d, op_lt(), p).0,
            req: Some(ReqView::Lt(split_at_op(d, op_lt(), p).1)),
        }
    } else if let Some(p) = find(d, op_eq()) {
        DependencyView {
            name: split_at_op(d, op_eq(), p).0,
            req: Some(ReqView::Eq(split_at_op(d, op_eq(), p).1)),
        }
    } else {
        DependencyView { name: d, req: None }
    }
}

/// Searches `d` for an operator; returns the name and version around it.
fn split_op(d: &Vec<char>, op: &Vec<char>) -> (r: Option<(String, String)>)
    requires
        op@.len() <= 2,
    ensures
        match r {
            Some((n, v)) => find(d@, op@) matches Some(p) && n@ == split_at_op(d@, op@, p).0
                && v@ == split_at_op(d@, op@, p).1,
            None => find(d@, op@) is None,
        },
{
    match find_chars(d, op) {
        Some(p) => {
            proof {
                crate::text::lemma_find_occurs(d@, op@, 0);
                assert(crate::text::occurs_at(d@, op@, p as int));
                assert(p + op@.len() <= d@.len());
            }
            let name = string_from(&slice_chars(d, 0, p));
            let olen = op.len();
            let dlen = d.len();
            assert(p + olen <= dlen);
            let version = string_from(&slice_chars(d, p + olen, dlen));
            Some((name, version))
        },
        None => None,
    }
}

impl Dependency {
    /// Parses a dependency string such as `"glibc>=2.39"` or `"libcurl=8.0"`.
    pub fn parse(dep: &str) -> (r: Dependency)
        ensures
            r@ == parse_dependency(dep@),
    {
        let d = trim(&chars_of(dep));
        let gte = vec!['>', '='];
        let lte = vec!['<', '='];
        let gt = vec!['>'];
        let lt = vec!['<'];
        let eq = vec!['='];
        assert(gte@ =~= op_gte());
        assert(lte@ =~= op_lte());
        assert(gt@ =~= op_gt());
        assert(lt@ =~= op_lt());
        assert(eq@ =~= op_eq());
        if let Some((name, version)) = split_op(&d, &gte) {
            return Dependency { name, version_req: Some(VersionReq::Gte(version)) };
        }
        if let Some((name, version)) = split_op(&d, &lte) {
            return Dependency { name, version_req: Some(VersionReq::Lte(version)) };
        }
        if let Some((name, version)) = split_op(&d, &gt) {
            return Dependency { name, version_req: Some(VersionReq::Gt(version)) };
        }
        if let Some((name, version)) = split_op(&d, &lt) {
            return Dependency { name, version_req: Some(VersionReq::Lt(version)) };
        }
        if let Some((name, version)) = split_op(&d, &eq) {
            return Dependency { name, version_req: Some(VersionReq::Eq(version)) };
        }
        Dependency { name: string_from(&d), version_req: None }
    }

    /// Whether `version` meets this dependency.
    pub fn matches(&self, version: &str) -> (r: bool)
        ensures
            r == dep_matches(self@, version@),
    {
        match &self.version_req {
            None => true,
            Some(req) => req.matches(version),
        }
    }
}

impl VersionReq {
    /// Whether `version` meets the requirement.
    pub fn matches(&self, version: &str) -> (r: bool)
        ensures
            r == req_matches(self@, version@),
    {
        match self {
            VersionReq::Any => true,
            VersionReq::Eq(v) => version_order_of(version, v.as_str()) == 0,
            VersionReq::Gt(v) => version_order_of(version, v.as_str()) == 1,
            VersionReq::Gte(v) => version_order_of(version, v.as_str()) != -1,
            VersionReq::Lt(v) => version_order_of(version, v.as_str()) == -1,
            VersionReq::Lte(v) => version_order_of(version, v.as_str()) != 1,
        }
    }
}

/// Compares two versions (`v` prefix, numeric parts, pre-release tags).
pub fn compare_versions(a: &str, b: &str) -> (r: std::cmp::Ordering)
    ensures
        version_order(a@, b@) == -1 <==> r == std::cmp::Ordering::Less,
        version_order(a@, b@) == 0 <==> r == std::cmp::Ordering::Equal,
        version_order(a@, b@) == 1 <==> r == std::cmp::Ordering::Greater,
{
    let o = version_order_of(a, b);
    proof {
        crate::version::lemma_version_order_range(a@, b@);
    }
    if o < 0 {
        std::cmp::Ordering::Less
    } else if o == 0 {
        std::cmp::Ordering::Equal
    } else {
        std::cmp::Ordering::Greater
    }
}



// ───────────────────────── what a solve computes ─────────────────────────

/// The outcome of resolving dependencies.
#[derive(Debug)]
pub struct DepsResult {
    /// Packages to install, dependencies first.
    pub to_install: Vec<String>,
    /// Packages to upgrade: (name, installed version, available version).
    pub to_upgrade: Vec<(String, String, String)>,
    /// Packages to remove (conflicts).
    pub to_remove: Vec<String>,
    /// Requested or needed names that no available package resolves.
    pub missing: Vec<String>,
    /// Conflicts: (package, "name=installed version" it conflicts with).
    pub conflicts: Vec<(String, String)>,
    /// Warnings.
    pub warnings: Vec<String>,
}

pub open spec fn triples(v: Seq<(String, String, String)>) -> Seq<(Seq<char>, Seq<char>, Seq<char>)> {
    v.map_values(|t: (String, String, String)| (t.0@, t.1@, t.2@))
}

pub open spec fn pairs(v: Seq<(String, String)>) -> Seq<(Seq<char>, Seq<char>)> {
    v.map_values(|t: (String, String)| pair_view(t))
}

/// The `j`-th dependency of available package `k` is named `b` and is not met
/// by the installed packages.
pub open spec fn unmet_dep(
    inst: Seq<(Seq<char>, Seq<char>)>,
    avail: Seq<(Seq<char>, InfoView)>,
    k: int,
    j: int,
    b: Seq<char>,
) -> bool {
    &&& 0 <= j < avail[k].1.depends.len()
    &&& parse_dependency(avail[k].1.depends[j]).name == b
    &&& !satisfied(inst, parse_dependency(avail[k].1.depends[j]))
}

/// Some dependency of available package `k` is named `b` and is not met.
pub open spec fn is_unmet_name(
    inst: Seq<(Seq<char>, Seq<char>)>,
    avail: Seq<(Seq<char>, InfoView)>,
    k: int,
    b: Seq<char>,
) -> bool {
    exists|j: int| #[trigger] unmet_dep(inst, avail, k, j, b)
}

/// `b` is the name of a dependency of what `a` resolves to, not met by the
/// installed packages: resolving `a` asks for `b` next.
pub open spec fn is_successor(
    inst: Seq<(Seq<char>, Seq<char>)>,
    avail: Seq<(Seq<char>, InfoView)>,
    a: Seq<char>,
    b: Seq<char>,
) -> bool {
    match resolve_index(avail, a) {
        Some(k) => is_unmet_name(inst, avail, k, b),
        None => false,
    }
}

/// A chain of requests from one of `roots`, each element asking for the next.
pub open spec fn is_request_path(
    inst: Seq<(Seq<char>, Seq<char>)>,
    avail: Seq<(Seq<char>, InfoView)>,
    roots: Seq<Seq<char>>,
    path: Seq<Seq<char>>,
) -> bool {
    &&& path.len() > 0
    &&& roots.contains(path[0])
    &&& forall|i: int| 0 <= i < path.len() - 1 ==> is_successor(inst, avail, #[trigger] path[i], path[i + 1])
}

/// `n` is requested when resolving `roots`.
pub open spec fn reachable(
    inst: Seq<(Seq<char>, Seq<char>)>,
    avail: Seq<(Seq<char>, InfoView)>,
    roots: Seq<Seq<char>>,
    n: Seq<char>,
) -> bool {
    exists|path: Seq<Seq<char>>| #[trigger] is_request_path(inst, avail, roots, path) && path.last() == n
}

/// `n` resolves to the available package named `m`.
pub open spec fn resolves_to(avail: Seq<(Seq<char>, InfoView)>, n: Seq<char>, m: Seq<char>) -> bool {
    resolve_index(avail, n) matches Some(k) && avail[k].0 == m
}

/// `e` is the upgrade `n` calls for: it resolves to an installed package with an
/// older version than the available one.
pub open spec fn upgrade_of(
    inst: Seq<(Seq<char>, Seq<char>)>,
    avail: Seq<(Seq<char>, InfoView)>,
    n: Seq<char>,
    e: (Seq<char>, Seq<char>, Seq<char>),
) -> bool {
    resolve_index(avail, n) matches Some(k) && lookup(inst, avail[k].0) matches Some(iv)
        && version_order(avail[k].1.version, iv) == 1 && e == (avail[k].0, iv, avail[k].1.version)
}

/// The `c`-th conflict of available package `k` is installed in a matching
/// version, reported as `e`.
pub open spec fn conflict_entry(
    inst: Seq<(Seq<char>, Seq<char>)>,
    avail: Seq<(Seq<char>, InfoView)>,
    k: int,
    c: int,
    e: (Seq<char>, Seq<char>),
) -> bool {
    let d = parse_dependency(avail[k].1.conflicts[c]);
    lookup(inst, d.name) matches Some(cv) && dep_matches(d, cv) && e == (avail[k].0, d.name + seq!['='] + cv)
}

/// `e` is a conflict reported for what `n` resolves to.
pub open spec fn conflict_of(
    inst: Seq<(Seq<char>, Seq<char>)>,
    avail: Seq<(Seq<char>, InfoView)>,
    n: Seq<char>,
    e: (Seq<char>, Seq<char>),
) -> bool {
    resolve_index(avail, n) matches Some(k) && exists|c: int|
        0 <= c < avail[k].1.conflicts.len() && #[trigger] conflict_entry(inst, avail, k, c, e)
}

/// The upgrade that `n` calls for, as a list of at most one entry.
pub open spec fn upgrades_for(
    inst: Seq<(Seq<char>, Seq<char>)>,
    avail: Seq<(Seq<char>, InfoView)>,
    n: Seq<char>,
) -> Seq<(Seq<char>, Seq<char>, Seq<char>)> {
    match resolve_index(avail, n) {
        Some(k) => match lookup(inst, avail[k].0) {
            Some(iv) => if version_order(avail[k].1.version, iv) == 1 {
                seq![(avail[k].0, iv, avail[k].1.version)]
            } else {
                seq![]
            },
            None => seq![],
        },
        None => seq![],
    }
}

/// The upgrades called for by the names of `order`, in that order.
pub open spec fn upgrades_along(
    inst: Seq<(Seq<char>, Seq<char>)>,
    avail: Seq<(Seq<char>, InfoView)>,
    order: Seq<Seq<char>>,
) -> Seq<(Seq<char>, Seq<char>, Seq<char>)>
    decreases order.len(),
{
    if order.len() == 0 {
        seq![]
    } else {
        upgrades_along(inst, avail, order.drop_last()) + upgrades_for(inst, avail, order.last())
    }
}

/// The conflicts reported for available package `k` from its first `c`
/// conflict entries, in order.
pub open spec fn conflict_hits(
    inst: Seq<(Seq<char>, Seq<char>)>,
    avail: Seq<(Seq<char>, InfoView)>,
    k: int,
    c: int,
) -> Seq<(Seq<char>, Seq<char>)>
    decreases c,
{
    if c <= 0 {
        seq![]
    } else {
        let prev = conflict_hits(inst, avail, k, c - 1);
        let d = parse_dependency(avail[k].1.conflicts[c - 1]);
        match lookup(inst, d.name) {
            Some(cv) => if dep_matches(d, cv) {
                prev.push((avail[k].0, d.name + seq!['='] + cv))
            } else {
                prev
            },
            None => prev,
        }
    }
}

/// The conflicts reported for what `n` resolves to, in order.
pub open spec fn conflicts_for(
    inst: Seq<(Seq<char>, Seq<char>)>,
    avail: Seq<(Seq<char>, InfoView)>,
    n: Seq<char>,
) -> Seq<(Seq<char>, Seq<char>)> {
    match resolve_index(avail, n) {
        Some(k) => conflict_hits(inst, avail, k, avail[k].1.conflicts.len() as int),
        None => seq![],
    }
}

/// The conflicts reported for the names of `order`, in that order.
pub open spec fn conflicts_along(
    inst: Seq<(Seq<char>, Seq<char>)>,
    avail: Seq<(Seq<char>, InfoView)>,
    order: Seq<Seq<char>>,
) -> Seq<(Seq<char>, Seq<char>)>
    decreases order.len(),
{
    if order.len() == 0 {
        seq![]
    } else {
        conflicts_along(inst, avail, order.drop_last()) + conflicts_for(inst, avail, order.last())
    }
}

/// The names of the first `j` dependencies of available package `k` that
/// the installed packages do not meet, in order.
pub open spec fn unmet_list(
    inst: Seq<(Seq<char>, Seq<char>)>,
    avail: Seq<(Seq<char>, InfoView)>,
    k: int,
    j: int,
) -> Seq<Seq<char>>
    decreases j,
{
    if j <= 0 {
        seq![]
    } else {
        let prev = unmet_list(inst, avail, k, j - 1);
        let d = parse_dependency(avail[k].1.depends[j - 1]);
        if satisfied(inst, d) {
            prev
        } else {
            prev.push(d.name)
        }
    }
}

/// The names that visiting `n` asks for next, in order: the unmet
/// dependencies of what it resolves to.
pub open spec fn requests_of(
    inst: Seq<(Seq<char>, Seq<char>)>,
    avail: Seq<(Seq<char>, InfoView)>,
    n: Seq<char>,
) -> Seq<Seq<char>> {
    match resolve_index(avail, n) {
        Some(k) => unmet_list(inst, avail, k, avail[k].1.depends.len() as int),
        None => seq![],
    }
}

/// One step of the breadth-first walk over requests. The state is the
/// queue, the position of the next name in it, and the names visited so
/// far: a name not yet visited is visited and its requests join the queue.
pub open spec fn walk_step(
    inst: Seq<(Seq<char>, Seq<char>)>,
    avail: Seq<(Seq<char>, InfoView)>,
    s: (Seq<Seq<char>>, int, Seq<Seq<char>>),
) -> (Seq<Seq<char>>, int, Seq<Seq<char>>) {
    if 0 <= s.1 < s.0.len() {
        let n = s.0[s.1];
        if s.2.contains(n) {
            (s.0, s.1 + 1, s.2)
        } else {
            (s.0 + requests_of(inst, avail, n), s.1 + 1, s.2.push(n))
        }
    } else {
        s
    }
}

/// The state of the walk from `roots` after `steps` steps.
pub open spec fn walk(
    inst: Seq<(Seq<char>, Seq<char>)>,
    avail: Seq<(Seq<char>, InfoView)>,
    roots: Seq<Seq<char>>,
    steps: nat,
) -> (Seq<Seq<char>>, int, Seq<Seq<char>>)
    decreases steps,
{
    if steps == 0 {
        (roots, 0, seq![])
    } else {
        walk_step(inst, avail, walk(inst, avail, roots, (steps - 1) as nat))
    }
}

/// After `steps` steps the walk has used up its queue.
pub open spec fn walk_done(
    inst: Seq<(Seq<char>, Seq<char>)>,
    avail: Seq<(Seq<char>, InfoView)>,
    roots: Seq<Seq<char>>,
    steps: nat,
) -> bool {
    walk(inst, avail, roots, steps).1 >= walk(inst, avail, roots, steps).0.len()
}

/// The names visited when the walk has run for `steps` steps.
pub open spec fn walk_visited(
    inst: Seq<(Seq<char>, Seq<char>)>,
    avail: Seq<(Seq<char>, InfoView)>,
    roots: Seq<Seq<char>>,
    steps: nat,
) -> Seq<Seq<char>> {
    walk(inst, avail, roots, steps).2
}

/// Once the walk has used up its queue it stays where it is: every count of
/// steps at which it is done gives the same visited names.
pub proof fn lemma_walk_settles(
    inst: Seq<(Seq<char>, Seq<char>)>,
    avail: Seq<(Seq<char>, InfoView)>,
    roots: Seq<Seq<char>>,
    s1: nat,
    s2: nat,
)
    requires
        walk_done(inst, avail, roots, s1),
        walk_done(inst, avail, roots, s2),
    ensures
        walk(inst, avail, roots, s1) == walk(inst, avail, roots, s2),
{
    if s1 <= s2 {
        lemma_walk_stays(inst, avail, roots, s1, s2);
    } else {
        lemma_walk_stays(inst, avail, roots, s2, s1);
    }
}

proof fn lemma_walk_stays(
    inst: Seq<(Seq<char>, Seq<char>)>,
    avail: Seq<(Seq<char>, InfoView)>,
    roots: Seq<Seq<char>>,
    s1: nat,
    s2: nat,
)
    requires
        walk_done(inst, avail, roots, s1),
        s1 <= s2,
    ensures
        walk(inst, avail, roots, s1) == walk(inst, avail, roots, s2),
    decreases s2 - s1,
{
    if s1 < s2 {
        lemma_walk_stays(inst, avail, roots, s1, (s2 - 1) as nat);
    }
}

/// The names of `order` that resolve to no available package, in order.
pub open spec fn missing_along(avail: Seq<(Seq<char>, InfoView)>, order: Seq<Seq<char>>) -> Seq<Seq<char>>
    decreases order.len(),
{
    if order.len() == 0 {
        seq![]
    } else if resolve_index(avail, order.last()) is None {
        missing_along(avail, order.drop_last()).push(order.last())
    } else {
        missing_along(avail, order.drop_last())
    }
}

/// The names of all dependencies of all available packages.
pub open spec fn dep_names(avail: Seq<(Seq<char>, InfoView)>) -> Seq<Seq<char>>
    decreases avail.len(),
{
    if avail.len() == 0 {
        seq![]
    } else {
        dep_names(avail.drop_last()) + avail.last().1.depends.map_values(
            |s: Seq<char>| parse_dependency(s).name,
        )
    }
}

pub proof fn lemma_dep_names(avail: Seq<(Seq<char>, InfoView)>, k: int, j: int)
    requires
        0 <= k < avail.len(),
        0 <= j < avail[k].1.depends.len(),
    ensures
        dep_names(avail).contains(parse_dependency(avail[k].1.depends[j]).name),
    decreases avail.len(),
{
    let rest = dep_names(avail.drop_last());
    let tail = avail.last().1.depends.map_values(|s: Seq<char>| parse_dependency(s).name);
    if k == avail.len() - 1 {
        assert((rest + tail)[rest.len() + j] == tail[j]);
    } else {
        lemma_dep_names(avail.drop_last(), k, j);
        let i = choose|i: int| 0 <= i < rest.len() && rest[i] == parse_dependency(avail[k].1.depends[j]).name;
        assert((rest + tail)[i] == rest[i]);
    }
}

/// How many elements of `universe` are not in `v`.
pub open spec fn unvisited(universe: Seq<Seq<char>>, v: Seq<Seq<char>>) -> nat {
    universe.filter(|x: Seq<char>| !v.contains(x)).len()
}

// ───────────────────────── solver state ─────────────────────────

/// The characters of each string.
pub open spec fn strs(v: Seq<String>) -> Seq<Seq<char>> {
    v.map_values(|s: String| s@)
}

/// What the solver knows of an available package.
#[derive(Debug, Clone)]
pub struct PackageInfo {
    pub version: String,
    pub depends: Vec<String>,
    pub provides: Vec<String>,
    pub conflicts: Vec<String>,
    pub repo: String,
    pub install_size: u64,
}

pub struct InfoView {
    pub version: Seq<char>,
    pub depends: Seq<Seq<char>>,
    pub provides: Seq<Seq<char>>,
    pub conflicts: Seq<Seq<char>>,
    pub repo: Seq<char>,
    pub install_size: u64,
}

impl View for PackageInfo {
    type V = InfoView;

    open spec fn view(&self) -> InfoView {
        InfoView {
            version: self.version@,
            depends: strs(self.depends@),
            provides: strs(self.provides@),
            conflicts: strs(self.conflicts@),
            repo: self.repo@,
            install_size: self.install_size,
        }
    }
}

/// The first index at or after `k` of an entry named `name`.
pub open spec fn name_index_from<V>(entries: Seq<(Seq<char>, V)>, name: Seq<char>, k: int) -> Option<int>
    decreases entries.len() - k,
{
    if k < 0 || k >= entries.len() {
        None
    } else if entries[k].0 == name {
        Some(k)
    } else {
        name_index_from(entries, name, k + 1)
    }
}

/// The index of the entry named `name`.
pub open spec fn name_index<V>(entries: Seq<(Seq<char>, V)>, name: Seq<char>) -> Option<int> {
    name_index_from(entries, name, 0)
}

/// The value stored under `name`.
pub open spec fn lookup<V>(entries: Seq<(Seq<char>, V)>, name: Seq<char>) -> Option<V> {
    match name_index(entries, name) {
        Some(i) => Some(entries[i].1),
        None => None,
    }
}

/// No two entries share a name.
pub open spec fn unique_names<V>(entries: Seq<(Seq<char>, V)>) -> bool {
    forall|i: int, j: int| 0 <= i < j < entries.len() ==> entries[i].0 != entries[j].0
}

/// `entries` after storing `value` under `name`: replaced in place, or appended.
pub open spec fn store<V>(entries: Seq<(Seq<char>, V)>, name: Seq<char>, value: V) -> Seq<(Seq<char>, V)> {
    match name_index(entries, name) {
        Some(i) => entries.update(i, (name, value)),
        None => entries.push((name, value)),
    }
}

pub proof fn lemma_name_index<V>(entries: Seq<(Seq<char>, V)>, name: Seq<char>, k: int)
    requires
        0 <= k,
    ensures
        name_index_from(entries, name, k) matches Some(i) ==> k <= i < entries.len() && entries[i].0 == name,
        name_index_from(entries, name, k) matches Some(i) ==> forall|m: int| k <= m < i ==> entries[m].0 != name,
        name_index_from(entries, name, k) is None ==> forall|m: int| k <= m < entries.len() ==> entries[m].0 != name,
    decreases entries.len() - k,
{
    if k < entries.len() && entries[k].0 != name {
        lemma_name_index(entries, name, k + 1);
    }
}

/// A provide entry `p` offers the name `name` (exactly, or as `name=...`).
pub open spec fn provide_offers(p: Seq<char>, name: Seq<char>) -> bool {
    p == name || crate::text::starts_with(p, name + seq!['='])
}

pub open spec fn provides_name(provides: Seq<Seq<char>>, name: Seq<char>) -> bool {
    exists|j: int| 0 <= j < provides.len() && provide_offers(#[trigger] provides[j], name)
}

/// The first available package at or after `k` that provides `name`.
pub open spec fn first_provider_from(avail: Seq<(Seq<char>, InfoView)>, name: Seq<char>, k: int) -> Option<int>
    decreases avail.len() - k,
{
    if k < 0 || k >= avail.len() {
        None
    } else if provides_name(avail[k].1.provides, name) {
        Some(k)
    } else {
        first_provider_from(avail, name, k + 1)
    }
}

/// The available package a name resolves to: the one of that name, else the
/// first (in the order packages were added) that provides it.
pub open spec fn resolve_index(avail: Seq<(Seq<char>, InfoView)>, name: Seq<char>) -> Option<int> {
    match name_index(avail, name) {
        Some(i) => Some(i),
        None => first_provider_from(avail, name, 0),
    }
}

pub proof fn lemma_first_provider(avail: Seq<(Seq<char>, InfoView)>, name: Seq<char>, k: int)
    requires
        0 <= k,
    ensures
        first_provider_from(avail, name, k) matches Some(i) ==> k <= i < avail.len() && provides_name(avail[i].1.provides, name),
        first_provider_from(avail, name, k) is None ==> forall|m: int| k <= m < avail.len() ==> !provides_name(#[trigger] avail[m].1.provides, name),
    decreases avail.len() - k,
{
    if k < avail.len() && !provides_name(avail[k].1.provides, name) {
        lemma_first_provider(avail, name, k + 1);
    }
}

pub proof fn lemma_resolve_index(avail: Seq<(Seq<char>, InfoView)>, name: Seq<char>)
    ensures
        resolve_index(avail, name) matches Some(i) ==> 0 <= i < avail.len() && (avail[i].0 == name
            || provides_name(avail[i].1.provides, name)),
{
    lemma_name_index(avail, name, 0);
    lemma_first_provider(avail, name, 0);
}

proof fn lemma_first_provider_at_most(avail: Seq<(Seq<char>, InfoView)>, name: Seq<char>, s: int, k: int)
    requires
        0 <= s <= k < avail.len(),
        provides_name(avail[k].1.provides, name),
    ensures
        first_provider_from(avail, name, s) matches Some(i) && s <= i <= k,
    decreases k - s,
{
    if !provides_name(avail[s].1.provides, name) {
        lemma_first_provider_at_most(avail, name, s + 1, k);
    }
}

/// A provides entry "NAME=VERSION" offers NAME: a request for NAME resolves
/// to some package, and where no package is called NAME, to the first
/// package (at or before the one holding that entry) one of whose provides
/// is NAME itself or begins with "NAME=".
pub proof fn lemma_versioned_provide_offers(
    avail: Seq<(Seq<char>, InfoView)>,
    name: Seq<char>,
    version: Seq<char>,
    k: int,
    j: int,
)
    requires
        0 <= k < avail.len(),
        0 <= j < avail[k].1.provides.len(),
        avail[k].1.provides[j] == name + seq!['='] + version,
    ensures
        resolve_index(avail, name) is Some,
        (forall|m: int| 0 <= m < avail.len() ==> (#[trigger] avail[m]).0 != name) ==> (resolve_index(avail, name) matches Some(i)
            && i <= k && exists|jj: int| 0 <= jj < avail[i].1.provides.len() && (avail[i].1.provides[jj] == name
                || starts_with(#[trigger] avail[i].1.provides[jj], name + seq!['=']))),
{
    let e = avail[k].1.provides[j];
    assert(e.subrange(0, name.len() as int + 1) =~= name + seq!['=']);
    assert(provide_offers(e, name));
    assert(provides_name(avail[k].1.provides, name));
    lemma_name_index(avail, name, 0);
    lemma_first_provider_at_most(avail, name, 0, k);
    lemma_first_provider(avail, name, 0);
    if forall|m: int| 0 <= m < avail.len() ==> (#[trigger] avail[m]).0 != name {
        let i = first_provider_from(avail, name, 0)->0;
        assert(provides_name(avail[i].1.provides, name));
        let jj = choose|jj: int| 0 <= jj < avail[i].1.provides.len() && provide_offers(#[trigger] avail[i].1.provides[jj], name);
        assert(avail[i].1.provides[jj] == name || starts_with(avail[i].1.provides[jj], name + seq!['=']));
    }
}

/// An upgrade is only ever called for by a strictly newer available
/// version: its installed version is what is installed under its name, and
/// the offered version is newer (so an equal version gives no upgrade).
pub proof fn lemma_upgrade_is_newer(
    inst: Seq<(Seq<char>, Seq<char>)>,
    avail: Seq<(Seq<char>, InfoView)>,
    n: Seq<char>,
    e: (Seq<char>, Seq<char>, Seq<char>),
)
    requires
        upgrade_of(inst, avail, n, e),
    ensures
        lookup(inst, e.0) == Some(e.1),
        version_order(e.2, e.1) == 1,
        e.2 != e.1,
{
    crate::version::lemma_version_order_reflexive(e.1);
}

/// A dependency is met by the installed packages.
pub open spec fn satisfied(installed: Seq<(Seq<char>, Seq<char>)>, d: DependencyView) -> bool {
    match lookup(installed, d.name) {
        Some(v) => dep_matches(d, v),
        None => false,
    }
}

/// Resolves packages to install, upgrade and conflicts.
pub struct DepSolver {
    installed: Vec<(String, String)>,
    available: Vec<(String, PackageInfo)>,
}

pub open spec fn pair_view(e: (String, String)) -> (Seq<char>, Seq<char>) {
    (e.0@, e.1@)
}

pub open spec fn avail_view(e: (String, PackageInfo)) -> (Seq<char>, InfoView) {
    (e.0@, e.1@)
}

impl DepSolver {
    /// Installed packages: name and version, in the order they were added.
    pub closed spec fn inst(&self) -> Seq<(Seq<char>, Seq<char>)> {
        self.installed@.map_values(|e: (String, String)| pair_view(e))
    }

    /// Available packages: name and what is known of it, in the order they were added.
    pub closed spec fn avail(&self) -> Seq<(Seq<char>, InfoView)> {
        self.available@.map_values(|e: (String, PackageInfo)| avail_view(e))
    }

    /// No two installed, and no two available, packages share a name.
    #[verifier::type_invariant]
    closed spec fn wf(&self) -> bool {
        &&& unique_names(self.inst())
        &&& unique_names(self.avail())
    }

    /// A solver that knows of no package.
    pub fn new() -> (r: Self)
        ensures
            r.inst() == Seq::<(Seq<char>, Seq<char>)>::empty(),
            r.avail() == Seq::<(Seq<char>, InfoView)>::empty(),
    {
        let r = DepSolver { installed: Vec::new(), available: Vec::new() };
        assert(r.inst() =~= Seq::<(Seq<char>, Seq<char>)>::empty());
        assert(r.avail() =~= Seq::<(Seq<char>, InfoView)>::empty());
        r
    }

    /// Records an installed package (a later call for the same name replaces the version).
    pub fn add_installed(&mut self, name: &str, version: &str)
        ensures
            final(self).inst() == store(old(self).inst(), name@, version@),
            final(self).avail() == old(self).avail(),
    {
        proof {
            use_type_invariant(&*self);
        }
        let n = crate::text::string_from(&chars_of(name));
        let v = crate::text::string_from(&chars_of(version));
        let ghost old_inst = self.inst();
        let ghost old_av = self.avail();
        let mut list: Vec<(String, String)> = Vec::new();
        proof {
            assert(Seq::<(String, String)>::empty().map_values(|e: (String, String)| pair_view(e)) =~= Seq::<(Seq<char>, Seq<char>)>::empty());
        }
        std::mem::swap(&mut list, &mut self.installed);
        let mut i: usize = 0;
        let mut found = false;
        while i < list.len()
            invariant_except_break
                i <= list@.len(),
                !found,
                name_index(old_inst, name@) == name_index_from(old_inst, name@, i as int),
            invariant
                n@ == name@,
                old_inst == list@.map_values(|e: (String, String)| pair_view(e)),
            ensures
                found ==> i < list@.len() && name_index(old_inst, name@) == Some(i as int),
                !found ==> name_index(old_inst, name@) is None,
            decreases list@.len() - i,
        {
            assert(old_inst[i as int] == pair_view(list@[i as int]));
            if crate::text::same_string(&list[i].0, &n) {
                found = true;
                break;
            }
            i = i + 1;
        }
        proof {
            lemma_name_index(old_inst, name@, 0);
        }
        if found {
            list.set(i, (n, v));
            proof {
                assert(list@.map_values(|e: (String, String)| pair_view(e)) =~= old_inst.update(i as int, (name@, version@)));
            }
        } else {
            list.push((n, v));
            proof {
                assert(list@.map_values(|e: (String, String)| pair_view(e)) =~= old_inst.push((name@, version@)));
            }
        }
        self.installed = list;
    }

    /// Records an available package (a later call for the same name replaces it in place).
    pub fn add_available(&mut self, name: &str, info: PackageInfo)
        ensures
            final(self).avail() == store(old(self).avail(), name@, info@),
            final(self).inst() == old(self).inst(),
    {
        proof {
            use_type_invariant(&*self);
        }
        let n = crate::text::string_from(&chars_of(name));
        let ghost old_av = self.avail();
        let ghost old_inst = self.inst();
        let ghost iv = info@;
        let mut list: Vec<(String, PackageInfo)> = Vec::new();
        proof {
            assert(Seq::<(String, PackageInfo)>::empty().map_values(|e: (String, PackageInfo)| avail_view(e)) =~= Seq::<(Seq<char>, InfoView)>::empty());
        }
        std::mem::swap(&mut list, &mut self.available);
        let mut i: usize = 0;
        let mut found = false;
        while i < list.len()
            invariant_except_break
                i <= list@.len(),
                !found,
                name_index(old_av, name@) == name_index_from(old_av, name@, i as int),
            invariant
                n@ == name@,
                old_av == list@.map_values(|e: (String, PackageInfo)| avail_view(e)),
            ensures
                found ==> i < list@.len() && name_index(old_av, name@) == Some(i as int),
                !found ==> name_index(old_av, name@) is None,
            decreases list@.len() - i,
        {
            assert(old_av[i as int] == avail_view(list@[i as int]));
            if crate::text::same_string(&list[i].0, &n) {
                found = true;
                break;
            }
            i = i + 1;
        }
        proof {
            lemma_name_index(old_av, name@, 0);
        }
        if found {
            list.set(i, (n, info));
            proof {
                assert(list@.map_values(|e: (String, PackageInfo)| avail_view(e)) =~= old_av.update(i as int, (name@, iv)));
            }
        } else {
            list.push((n, info));
            proof {
                assert(list@.map_values(|e: (String, PackageInfo)| avail_view(e)) =~= old_av.push((name@, iv)));
            }
        }
        self.available = list;
    }

    /// The version of an installed package.
    fn installed_version(&self, name: &String) -> (r: Option<&String>)
        ensures
            match r {
                Some(v) => lookup(self.inst(), name@) == Some(v@),
                None => lookup(self.inst(), name@) is None,
            },
    {
        let ghost inst = self.inst();
        let mut i: usize = 0;
        while i < self.installed.len()
            invariant
                i <= self.installed@.len(),
                inst == self.inst(),
                inst == self.installed@.map_values(|e: (String, String)| pair_view(e)),
                name_index(inst, name@) == name_index_from(inst, name@, i as int),
            decreases self.installed@.len() - i,
        {
            assert(inst[i as int] == pair_view(self.installed@[i as int]));
            if crate::text::same_string(&self.installed[i].0, name) {
                return Some(&self.installed[i].1);
            }
            i = i + 1;
        }
        None
    }

    /// The index of the available package of this exact name.
    fn available_index(&self, name: &String) -> (r: Option<usize>)
        ensures
            match r {
                Some(i) => name_index(self.avail(), name@) == Some(i as int) && i < self.available@.len(),
                None => name_index(self.avail(), name@) is None,
            },
    {
        let ghost av = self.avail();
        let mut i: usize = 0;
        while i < self.available.len()
            invariant
                i <= self.available@.len(),
                av == self.avail(),
                av == self.available@.map_values(|e: (String, PackageInfo)| avail_view(e)),
                name_index(av, name@) == name_index_from(av, name@, i as int),
            decreases self.available@.len() - i,
        {
            assert(av[i as int] == avail_view(self.available@[i as int]));
            if crate::text::same_string(&self.available[i].0, name) {
                return Some(i);
            }
            i = i + 1;
        }
        None
    }

    /// Whether one provides list offers `name`.
    fn offers(provides: &Vec<String>, name: &String) -> (r: bool)
        ensures
            r == provides_name(strs(provides@), name@),
    {
        let cs = chars_of(name.as_str());
        let mut pat = cs.clone();
        pat.push('=');
        assert(pat@ =~= name@ + seq!['=']);
        let mut j: usize = 0;
        while j < provides.len()
            invariant
                j <= provides@.len(),
                cs@ == name@,
                pat@ == name@ + seq!['='],
                forall|k: int| 0 <= k < j ==> !provide_offers(#[trigger] strs(provides@)[k], name@),
            decreases provides@.len() - j,
        {
            let p = chars_of(provides[j].as_str());
            assert(strs(provides@)[j as int] == provides@[j as int]@);
            if crate::text::chars_eq(&p, &cs) || crate::text::has_prefix(&p, &pat) {
                assert(provide_offers(strs(provides@)[j as int], name@));
                return true;
            }
            j = j + 1;
        }
        false
    }

    /// Finds the available package a name resolves to (directly or through provides).
    fn resolve_provide(&self, name: &String) -> (r: Option<usize>)
        ensures
            match r {
                Some(i) => resolve_index(self.avail(), name@) == Some(i as int) && i < self.available@.len(),
                None => resolve_index(self.avail(), name@) is None,
            },
    {
        if let Some(i) = self.available_index(name) {
            return Some(i);
        }
        let ghost av = self.avail();
        let mut k: usize = 0;
        while k < self.available.len()
            invariant
                k <= self.available@.len(),
                av == self.avail(),
                av == self.available@.map_values(|e: (String, PackageInfo)| avail_view(e)),
                name_index(av, name@) is None,
                first_provider_from(av, name@, 0) == first_provider_from(av, name@, k as int),
            decreases self.available@.len() - k,
        {
            assert(av[k as int] == avail_view(self.available@[k as int]));
            if Self::offers(&self.available[k].1.provides, name) {
                return Some(k);
            }
            k = k + 1;
        }
        None
    }

    /// Whether a dependency is met by the installed packages.
    fn is_satisfied(&self, dep: &Dependency) -> (r: bool)
        ensures
            r == satisfied(self.inst(), dep@),
    {
        match self.installed_version(&dep.name) {
            Some(v) => dep.matches(v.as_str()),
            None => false,
        }
    }

    /// Orders `packages` so that dependencies come before the packages that
    /// need them (a dependency cycle is cut where it is first met).
    fn topo_sort(&self, packages: &Vec<String>) -> (r: Vec<String>)
        requires
            self.wf(),
        ensures
            strs(r@).no_duplicates(),
            forall|x: Seq<char>| strs(r@).contains(x) <==> strs(packages@).contains(x),
            topo_ordered(self.avail(), strs(r@), strs(packages@)),
    {
        let mut sorted: Vec<String> = Vec::new();
        let mut temp: Vec<String> = Vec::new();
        let mut i: usize = 0;
        proof {
            assert(strs(sorted@) =~= Seq::<Seq<char>>::empty());
            assert(strs(temp@) =~= Seq::<Seq<char>>::empty());
        }
        while i < packages.len()
            invariant
                self.wf(),
                i <= packages@.len(),
                strs(temp@) == Seq::<Seq<char>>::empty(),
                strs(sorted@).no_duplicates(),
                forall|x: Seq<char>| strs(sorted@).contains(x) ==> strs(packages@).contains(x),
                forall|k: int| 0 <= k < i ==> strs(sorted@).contains(#[trigger] strs(packages@)[k]),
                topo_ordered(self.avail(), strs(sorted@), strs(packages@)),
            decreases packages@.len() - i,
        {
            assert(strs(packages@).contains(strs(packages@)[i as int]));
            if !contains_string(&sorted, &packages[i]) {
                self.topo_visit(&packages[i], packages, &mut sorted, &mut temp);
            }
            i = i + 1;
        }
        proof {
            assert forall|x: Seq<char>| strs(packages@).contains(x) implies strs(sorted@).contains(x) by {
                let k = choose|k: int| 0 <= k < strs(packages@).len() && strs(packages@)[k] == x;
            }
        }
        sorted
    }

    /// Visits `pkg` and what it depends on (within `all`), appending each to
    /// `sorted` after its dependencies; `temp` is the path being visited.
    fn topo_visit(&self, pkg: &String, all: &Vec<String>, sorted: &mut Vec<String>, temp: &mut Vec<String>)
        requires
            self.wf(),
            strs(all@).contains(pkg@),
            strs(old(sorted)@).no_duplicates(),
            strs(old(temp)@).no_duplicates(),
            forall|x: Seq<char>| strs(old(sorted)@).contains(x) ==> !strs(old(temp)@).contains(x),
            forall|x: Seq<char>| strs(old(sorted)@).contains(x) ==> strs(all@).contains(x),
            topo_ordered(self.avail(), strs(old(sorted)@), strs(all@)),
            forall|t: Seq<char>| strs(old(temp)@).contains(t) ==> depends_path(self.avail(), strs(all@), t, pkg@),
        ensures
            strs(final(temp)@) == strs(old(temp)@),
            final(sorted)@.len() >= old(sorted)@.len(),
            strs(final(sorted)@).take(old(sorted)@.len() as int) == strs(old(sorted)@),
            strs(final(sorted)@).no_duplicates(),
            forall|x: Seq<char>| strs(final(sorted)@).contains(x) ==> !strs(old(temp)@).contains(x),
            forall|x: Seq<char>| strs(final(sorted)@).contains(x) ==> strs(all@).contains(x),
            topo_ordered(self.avail(), strs(final(sorted)@), strs(all@)),
            !strs(old(temp)@).contains(pkg@) ==> strs(final(sorted)@).contains(pkg@),
        decreases unmarked(strs(all@), strs(old(sorted)@), strs(old(temp)@)),
    {
        if contains_string(temp, pkg) {
            return;
        }
        if contains_string(sorted, pkg) {
            assert(strs(sorted@).take(sorted@.len() as int) =~= strs(sorted@));
            return;
        }
        let ghost sorted0 = strs(sorted@);
        let ghost temp0 = strs(temp@);
        temp.push(pkg.clone());
        proof {
            assert(strs(temp@) =~= temp0.push(pkg@));
            lemma_push_contains(temp0, pkg@);
            lemma_unmarked_push_temp(strs(all@), sorted0, temp0, pkg@);
        }
        if let Some(k) = self.available_index(pkg) {
            let ghost av = self.avail();
            let deps = &self.available[k].1.depends;
            proof {
                lemma_name_index(av, pkg@, 0);
                assert(av[k as int] == avail_view(self.available@[k as int]));
                assert(lookup(av, pkg@) == Some(av[k as int].1));
                assert(av[k as int].1.depends == strs(deps@));
            }
            let mut j: usize = 0;
            while j < deps.len()
                invariant
                    self.wf(),
                    av == self.avail(),
                    lookup(av, pkg@) == Some(av[k as int].1),
                    0 <= k < av.len(),
                    av[k as int].1.depends == strs(deps@),
                    j <= deps@.len(),
                    strs(all@).contains(pkg@),
                    strs(temp@) == temp0.push(pkg@),
                    !temp0.contains(pkg@),
                    temp0.no_duplicates(),
                    forall|t: Seq<char>| temp0.contains(t) ==> depends_path(av, strs(all@), t, pkg@),
                    sorted@.len() >= sorted0.len(),
                    strs(sorted@).take(sorted0.len() as int) == sorted0,
                    strs(sorted@).no_duplicates(),
                    !strs(sorted@).contains(pkg@),
                    forall|x: Seq<char>| strs(sorted@).contains(x) ==> !temp0.contains(x),
                    forall|x: Seq<char>| strs(sorted@).contains(x) ==> strs(all@).contains(x),
                    topo_ordered(av, strs(sorted@), strs(all@)),
                    forall|jj: int| 0 <= jj < j ==> {
                        let d = #[trigger] parse_dependency(strs(deps@)[jj]).name;
                        strs(all@).contains(d) ==> strs(sorted@).contains(d) || depends_path(av, strs(all@), d, pkg@)
                    },
                    unmarked(strs(all@), sorted0, temp0) > unmarked(strs(all@), strs(sorted@), strs(temp@)),
                    sorted0 == strs(old(sorted)@),
                    temp0 == strs(old(temp)@),
                decreases deps@.len() - j,
            {
                let dep = Dependency::parse(deps[j].as_str());
                assert(strs(deps@)[j as int] == deps@[j as int]@);
                if contains_string(all, &dep.name) {
                    let ghost d = dep.name@;
                    proof {
                        assert(edge(av, pkg@, d)) by {
                            assert(parse_dependency(av[k as int].1.depends[j as int]).name == d);
                        }
                        lemma_path_single(av, strs(all@), pkg@);
                        lemma_path_extend(av, strs(all@), pkg@, pkg@, d);
                        assert forall|t: Seq<char>| strs(temp@).contains(t) implies depends_path(av, strs(all@), t, d) by {
                            if t == pkg@ {
                            } else {
                                assert(temp0.contains(t));
                                lemma_path_extend(av, strs(all@), t, pkg@, d);
                            }
                        }
                        assert(topo_ordered(self.avail(), strs(sorted@), strs(all@)));
                        lemma_push_contains(temp0, pkg@);
                        assert forall|x: Seq<char>| strs(sorted@).contains(x) implies !strs(temp@).contains(x) by {}
                    }
                    let ghost s_before = strs(sorted@);
                    self.topo_visit(&dep.name, all, sorted, temp);
                    proof {
                        lemma_take_prefix(s_before, strs(sorted@), sorted0.len() as int);
                        lemma_unmarked_le(strs(all@), s_before, strs(sorted@), strs(temp@));
                        if strs(temp@).contains(d) {
                            if d == pkg@ {
                                lemma_path_single(av, strs(all@), pkg@);
                            }
                        }
                        assert forall|jj: int| 0 <= jj < j + 1 implies {
                            let dd = #[trigger] parse_dependency(strs(deps@)[jj]).name;
                            strs(all@).contains(dd) ==> strs(sorted@).contains(dd) || depends_path(av, strs(all@), dd, pkg@)
                        } by {
                            let dd = parse_dependency(strs(deps@)[jj]).name;
                            if jj < j && strs(all@).contains(dd) && s_before.contains(dd) {
                                lemma_prefix_contains(s_before, strs(sorted@), dd);
                            }
                        }
                    }
                } else {
                    assert forall|jj: int| 0 <= jj < j + 1 implies {
                        let dd = #[trigger] parse_dependency(strs(deps@)[jj]).name;
                        strs(all@).contains(dd) ==> strs(sorted@).contains(dd) || depends_path(av, strs(all@), dd, pkg@)
                    } by {}
                }
                j = j + 1;
            }
            proof {
                assert forall|d: Seq<char>| edge(av, pkg@, d) && strs(all@).contains(d) implies strs(sorted@).contains(d) || depends_path(av, strs(all@), d, pkg@) by {
                    let jj = choose|jj: int| 0 <= jj < av[k as int].1.depends.len() && parse_dependency(av[k as int].1.depends[jj]).name == d;
                    assert(parse_dependency(strs(deps@)[jj]).name == d);
                }
            }
        } else {
            proof {
                lemma_name_index(self.avail(), pkg@, 0);
                assert forall|d: Seq<char>| !edge(self.avail(), pkg@, d) by {}
            }
        }
        let ghost s_mid = strs(sorted@);
        let ghost t_mid = temp@;
        assert(strs(t_mid) == temp0.push(pkg@));
        temp.pop();
        proof {
            assert(temp@ =~= t_mid.drop_last());
            assert forall|i: int| 0 <= i < temp0.len() implies strs(temp@)[i] == temp0[i] by {
                assert(strs(t_mid)[i] == temp0.push(pkg@)[i]);
            }
            assert(strs(temp@) =~= temp0);
        }
        sorted.push(pkg.clone());
        proof {
            let s_new = strs(sorted@);
            assert(s_new =~= s_mid.push(pkg@));
            assert(s_new.take(sorted0.len() as int) =~= s_mid.take(sorted0.len() as int));
            assert(s_new.take(s_mid.len() as int) =~= s_mid);
            lemma_topo_push(self.avail(), s_mid, strs(all@), pkg@);
            assert(s_new[s_mid.len() as int] == pkg@);
            lemma_push_contains(s_mid, pkg@);
        }
    }

    /// Reports the conflicts of available package `k` with installed packages.
    fn record_conflicts(&self, k: usize, out: &mut Vec<(String, String)>)
        requires
            self.wf(),
            k < self.avail().len(),
        ensures
            forall|e: (Seq<char>, Seq<char>)| #[trigger] pairs(final(out)@).contains(e) <==> pairs(old(out)@).contains(e)
                || exists|c: int| 0 <= c < self.avail()[k as int].1.conflicts.len() && #[trigger] conflict_entry(self.inst(), self.avail(), k as int, c, e),
            pairs(final(out)@) == pairs(old(out)@) + conflict_hits(self.inst(), self.avail(), k as int, self.avail()[k as int].1.conflicts.len() as int),
    {
        let ghost av = self.avail();
        let ghost inst = self.inst();
        let ghost out0 = pairs(out@);
        let name = &self.available[k].0;
        let conflicts = &self.available[k].1.conflicts;
        proof {
            assert(av[k as int] == avail_view(self.available@[k as int]));
        }
        let mut c: usize = 0;
        assert(out0 + conflict_hits(inst, av, k as int, 0) =~= out0);
        while c < conflicts.len()
            invariant
                av == self.avail(),
                inst == self.inst(),
                av[k as int].0 == name@,
                av[k as int].1.conflicts == strs(conflicts@),
                c <= conflicts@.len(),
                out0 == pairs(old(out)@),
                forall|e: (Seq<char>, Seq<char>)| #[trigger] pairs(out@).contains(e) <==> out0.contains(e)
                    || exists|cc: int| 0 <= cc < c && #[trigger] conflict_entry(inst, av, k as int, cc, e),
                pairs(out@) == out0 + conflict_hits(inst, av, k as int, c as int),
            decreases conflicts@.len() - c,
        {
            let dep = Dependency::parse(conflicts[c].as_str());
            assert(strs(conflicts@)[c as int] == conflicts@[c as int]@);
            let ghost before = pairs(out@);
            match self.installed_version(&dep.name) {
                Some(cv) => {
                    if dep.matches(cv.as_str()) {
                        let what = crate::text::concat(&crate::text::concat(&chars_of(dep.name.as_str()), &['=']), &chars_of(cv.as_str()));
                        let entry = (name.clone(), crate::text::string_from(&what));
                        let ghost ev = pair_view(entry);
                        proof {
                            assert(seq!['='] =~= ['='].view());
                            assert(conflict_entry(inst, av, k as int, c as int, ev));
                        }
                        out.push(entry);
                        proof {
                            assert(pairs(out@) =~= before.push(ev));
                            assert(pairs(out@) =~= out0 + conflict_hits(inst, av, k as int, c + 1));
                            lemma_push_contains_pairs(before, ev);
                            assert forall|e: (Seq<char>, Seq<char>)| #[trigger] pairs(out@).contains(e) <==> out0.contains(e)
                                || exists|cc: int| 0 <= cc < c + 1 && #[trigger] conflict_entry(inst, av, k as int, cc, e) by {
                                if e != ev && conflict_entry(inst, av, k as int, c as int, e) {
                                    assert(false);
                                }
                            }
                        }
                    } else {
                        proof {
                            assert forall|e: (Seq<char>, Seq<char>)| #[trigger] pairs(out@).contains(e) <==> out0.contains(e)
                                || exists|cc: int| 0 <= cc < c + 1 && #[trigger] conflict_entry(inst, av, k as int, cc, e) by {
                                assert(!conflict_entry(inst, av, k as int, c as int, e));
                            }
                        }
                    }
                },
                None => {
                    proof {
                        assert forall|e: (Seq<char>, Seq<char>)| #[trigger] pairs(out@).contains(e) <==> out0.contains(e)
                            || exists|cc: int| 0 <= cc < c + 1 && #[trigger] conflict_entry(inst, av, k as int, cc, e) by {
                            assert(!conflict_entry(inst, av, k as int, c as int, e));
                        }
                    }
                },
            }
            c = c + 1;
        }
    }

    /// Appends to `queue` the names of the dependencies of available package
    /// `k` that the installed packages do not meet.
    fn queue_unmet(&self, k: usize, queue: &mut Vec<String>)
        requires
            self.wf(),
            k < self.avail().len(),
        ensures
            final(queue)@.len() >= old(queue)@.len(),
            strs(final(queue)@).take(old(queue)@.len() as int) == strs(old(queue)@),
            forall|j: int| 0 <= j < self.avail()[k as int].1.depends.len()
                && !satisfied(self.inst(), #[trigger] parse_dependency(self.avail()[k as int].1.depends[j]))
                ==> strs(final(queue)@).contains(parse_dependency(self.avail()[k as int].1.depends[j]).name),
            forall|i: int| old(queue)@.len() <= i < final(queue)@.len() ==> is_unmet_name(
                self.inst(),
                self.avail(),
                k as int,
                #[trigger] strs(final(queue)@)[i],
            ),
            strs(final(queue)@) == strs(old(queue)@) + unmet_list(self.inst(), self.avail(), k as int, self.avail()[k as int].1.depends.len() as int),
    {
        let ghost av = self.avail();
        let ghost inst = self.inst();
        let ghost q0 = strs(queue@);
        let ghost mut srcs: Seq<int> = seq![];
        let deps = &self.available[k].1.depends;
        proof {
            assert(av[k as int] == avail_view(self.available@[k as int]));
        }
        let mut j: usize = 0;
        assert(q0 + unmet_list(inst, av, k as int, 0) =~= q0);
        while j < deps.len()
            invariant
                av == self.avail(),
                inst == self.inst(),
                0 <= k < av.len(),
                av[k as int].1.depends == strs(deps@),
                j <= deps@.len(),
                q0 == strs(old(queue)@),
                queue@.len() >= q0.len(),
                strs(queue@).take(q0.len() as int) == q0,
                forall|jj: int| 0 <= jj < j && !satisfied(inst, #[trigger] parse_dependency(av[k as int].1.depends[jj]))
                    ==> strs(queue@).contains(parse_dependency(av[k as int].1.depends[jj]).name),
                srcs.len() == queue@.len() - q0.len(),
                forall|i: int| 0 <= i < srcs.len() ==> unmet_dep(inst, av, k as int, #[trigger] srcs[i], strs(queue@)[q0.len() + i]),
                strs(queue@) == q0 + unmet_list(inst, av, k as int, j as int),
            decreases deps@.len() - j,
        {
            let dep = Dependency::parse(deps[j].as_str());
            assert(strs(deps@)[j as int] == deps@[j as int]@);
            assert(dep@ == parse_dependency(av[k as int].1.depends[j as int]));
            let ghost dname = dep@.name;
            if !self.is_satisfied(&dep) {
                let ghost before = strs(queue@);
                queue.push(dep.name);
                proof {
                    assert(strs(queue@) =~= before.push(dname));
                    assert(strs(queue@) =~= q0 + unmet_list(inst, av, k as int, j + 1));
                    lemma_push_contains(before, dname);
                    assert(strs(queue@).take(q0.len() as int) =~= before.take(q0.len() as int));
                    let old_srcs = srcs;
                    srcs = srcs.push(j as int);
                    assert forall|i: int| 0 <= i < srcs.len() implies unmet_dep(inst, av, k as int, #[trigger] srcs[i], strs(queue@)[q0.len() + i]) by {
                        if i < old_srcs.len() {
                            assert(srcs[i] == old_srcs[i]);
                            assert(strs(queue@)[q0.len() + i] == before[q0.len() + i]);
                        }
                    }
                }
            } else {
                assert(unmet_list(inst, av, k as int, j + 1) == unmet_list(inst, av, k as int, j as int));
            }
            j = j + 1;
        }
        proof {
            assert forall|i: int| q0.len() <= i < queue@.len() implies is_unmet_name(inst, av, k as int, #[trigger] strs(queue@)[i]) by {
                assert(unmet_dep(inst, av, k as int, srcs[i - q0.len()], strs(queue@)[q0.len() + (i - q0.len())]));
            }
        }
    }

    /// Resolves what installing (or checking) `packages` takes: what to
    /// install in dependency order, what to upgrade, what is missing and
    /// which installed packages conflict.
    #[verifier::rlimit(100)]
    #[verifier::spinoff_prover]
    pub fn solve(&self, packages: &[String], install: bool) -> (r: DepsResult)
        ensures
            strs(r.missing@).no_duplicates(),
            forall|n: Seq<char>| #[trigger] strs(r.missing@).contains(n) <==> reachable(self.inst(), self.avail(), strs(packages@), n)
                && resolve_index(self.avail(), n) is None,
            strs(r.to_install@).no_duplicates(),
            forall|m: Seq<char>| #[trigger] strs(r.to_install@).contains(m) <==> install && lookup(self.inst(), m) is None
                && exists|n: Seq<char>| reachable(self.inst(), self.avail(), strs(packages@), n) && #[trigger] resolves_to(self.avail(), n, m),
            topo_ordered(self.avail(), strs(r.to_install@), strs(r.to_install@)),
            forall|e: (Seq<char>, Seq<char>, Seq<char>)| #[trigger] triples(r.to_upgrade@).contains(e) <==> exists|n: Seq<char>|
                reachable(self.inst(), self.avail(), strs(packages@), n) && #[trigger] upgrade_of(self.inst(), self.avail(), n, e),
            forall|e: (Seq<char>, Seq<char>)| #[trigger] pairs(r.conflicts@).contains(e) <==> exists|n: Seq<char>|
                reachable(self.inst(), self.avail(), strs(packages@), n) && #[trigger] conflict_of(self.inst(), self.avail(), n, e),
            forall|e: (Seq<char>, Seq<char>, Seq<char>)| #[trigger] triples(r.to_upgrade@).contains(e) ==>
                lookup(self.inst(), e.0) == Some(e.1) && version_order(e.2, e.1) == 1,
            exists|steps: nat| {
                &&& #[trigger] walk_done(self.inst(), self.avail(), strs(packages@), steps)
                &&& strs(r.missing@) == missing_along(self.avail(), walk_visited(self.inst(), self.avail(), strs(packages@), steps))
                &&& triples(r.to_upgrade@) == upgrades_along(self.inst(), self.avail(), walk_visited(self.inst(), self.avail(), strs(packages@), steps))
                &&& pairs(r.conflicts@) == conflicts_along(self.inst(), self.avail(), walk_visited(self.inst(), self.avail(), strs(packages@), steps))
            },
            r.to_remove@.len() == 0,
            r.warnings@.len() == 0,
    {
        proof {
            use_type_invariant(self);
        }
        let ghost inst = self.inst();
        let ghost av = self.avail();
        let ghost roots = strs(packages@);
        let ghost universe = roots + dep_names(av);
        let mut result = DepsResult {
            to_install: Vec::new(),
            to_upgrade: Vec::new(),
            to_remove: Vec::new(),
            missing: Vec::new(),
            conflicts: Vec::new(),
            warnings: Vec::new(),
        };
        let mut queue: Vec<String> = Vec::new();
        let mut p: usize = 0;
        while p < packages.len()
            invariant
                p <= packages@.len(),
                roots == strs(packages@),
                strs(queue@) == roots.take(p as int),
            decreases packages@.len() - p,
        {
            let ghost before = strs(queue@);
            let item = packages[p].clone();
            assert(item@ == roots[p as int]);
            queue.push(item);
            assert(strs(queue@) =~= before.push(item@));
            assert(strs(queue@) =~= roots.take(p + 1));
            p = p + 1;
        }
        assert(roots.take(packages@.len() as int) =~= roots);
        let mut visited: Vec<String> = Vec::new();
        let mut to_install_set: Vec<String> = Vec::new();
        let mut qi: usize = 0;
        let ghost mut steps: nat = 0;
        proof {
            assert(strs(queue@) == roots);
            assert(strs(visited@) =~= Seq::<Seq<char>>::empty());
            assert(strs(to_install_set@) =~= Seq::<Seq<char>>::empty());
            assert(strs(result.missing@) =~= Seq::<Seq<char>>::empty());
            assert(triples(result.to_upgrade@) =~= Seq::<(Seq<char>, Seq<char>, Seq<char>)>::empty());
            assert(pairs(result.conflicts@) =~= Seq::<(Seq<char>, Seq<char>)>::empty());
            assert forall|k: int| 0 <= k < strs(queue@).len() implies reachable(inst, av, roots, #[trigger] strs(queue@)[k]) by {
                lemma_reach_root(inst, av, roots, roots[k]);
            }
            assert forall|k: int| 0 <= k < strs(queue@).len() implies universe.contains(#[trigger] strs(queue@)[k]) by {
                assert(universe[k] == roots[k]);
            }
        }
        while qi < queue.len()
            invariant
                self.wf(),
                inst == self.inst(),
                av == self.avail(),
                roots == strs(packages@),
                universe == roots + dep_names(av),
                qi <= queue@.len(),
                roots.len() <= queue@.len(),
                strs(queue@).take(roots.len() as int) == roots,
                forall|k: int| 0 <= k < queue@.len() ==> reachable(inst, av, roots, #[trigger] strs(queue@)[k]),
                forall|k: int| 0 <= k < queue@.len() ==> universe.contains(#[trigger] strs(queue@)[k]),
                strs(visited@).no_duplicates(),
                forall|x: Seq<char>| #[trigger] strs(visited@).contains(x) ==> strs(queue@).take(qi as int).contains(x),
                forall|k: int| 0 <= k < qi ==> strs(visited@).contains(#[trigger] strs(queue@)[k]),
                forall|x: Seq<char>, b: Seq<char>| strs(visited@).contains(x) && #[trigger] is_successor(inst, av, x, b)
                    ==> strs(queue@).contains(b),
                strs(result.missing@).no_duplicates(),
                forall|n: Seq<char>| #[trigger] strs(result.missing@).contains(n) <==> strs(visited@).contains(n)
                    && resolve_index(av, n) is None,
                strs(to_install_set@).no_duplicates(),
                forall|m: Seq<char>| #[trigger] strs(to_install_set@).contains(m) <==> install && lookup(inst, m) is None
                    && exists|n: Seq<char>| strs(visited@).contains(n) && #[trigger] resolves_to(av, n, m),
                forall|e: (Seq<char>, Seq<char>, Seq<char>)| #[trigger] triples(result.to_upgrade@).contains(e) <==> exists|n: Seq<char>|
                    strs(visited@).contains(n) && #[trigger] upgrade_of(inst, av, n, e),
                forall|e: (Seq<char>, Seq<char>)| #[trigger] pairs(result.conflicts@).contains(e) <==> exists|n: Seq<char>|
                    strs(visited@).contains(n) && #[trigger] conflict_of(inst, av, n, e),
                triples(result.to_upgrade@) == upgrades_along(inst, av, strs(visited@)),
                pairs(result.conflicts@) == conflicts_along(inst, av, strs(visited@)),
                strs(result.missing@) == missing_along(av, strs(visited@)),
                walk(inst, av, roots, steps) == (strs(queue@), qi as int, strs(visited@)),
                result.to_remove@.len() == 0,
                result.warnings@.len() == 0,
            decreases unvisited(universe, strs(visited@)), queue@.len() - qi,
        {
            let pkg_name = queue[qi].clone();
            let ghost pn = pkg_name@;
            assert(strs(queue@)[qi as int] == pn);
            let ghost st_prev = walk(inst, av, roots, steps);
            qi = qi + 1;
            proof {
                steps = steps + 1;
                assert(walk(inst, av, roots, steps) == walk_step(inst, av, st_prev));
            }
            proof {
                assert forall|x: Seq<char>| #[trigger] strs(visited@).contains(x) implies strs(queue@).take(qi as int).contains(x) by {
                    lemma_take_grow(strs(queue@), qi - 1, x);
                }
            }
            if contains_string(&visited, &pkg_name) {
                assert forall|k: int| 0 <= k < qi implies strs(visited@).contains(#[trigger] strs(queue@)[k]) by {
                    if k == qi - 1 {
                        assert(strs(queue@)[k] == pn);
                    }
                }
                assert(walk(inst, av, roots, steps) == (strs(queue@), qi as int, strs(visited@)));
                continue;
            }
            let ghost v0 = strs(visited@);
            let ghost q_before = strs(queue@);
            proof {
                lemma_unvisited_push(universe, v0, pn);
            }
            let ghost up0 = triples(result.to_upgrade@);
            let ghost cf_start = pairs(result.conflicts@);
            visited.push(pkg_name.clone());
            proof {
                assert(strs(visited@) =~= v0.push(pn));
                assert(strs(visited@).drop_last() =~= v0);
                assert(upgrades_along(inst, av, strs(visited@)) == up0 + upgrades_for(inst, av, pn));
                assert(conflicts_along(inst, av, strs(visited@)) == cf_start + conflicts_for(inst, av, pn));
                lemma_push_contains(v0, pn);
                lemma_push_no_dup(v0, pn);
                assert(strs(queue@).take(qi as int)[qi - 1] == pn);
                assert forall|k: int| 0 <= k < qi implies strs(visited@).contains(#[trigger] strs(queue@)[k]) by {
                    if k == qi - 1 {
                        assert(strs(queue@)[k] == pn);
                    } else {
                        assert(v0.contains(strs(queue@)[k]));
                    }
                }
            }
            match self.resolve_provide(&pkg_name) {
                Some(k) => {
                    let name = &self.available[k].0;
                    let info = &self.available[k].1;
                    proof {
                        assert(av[k as int] == avail_view(self.available@[k as int]));
                        assert(resolves_to(av, pn, name@));
                    }
                    match self.installed_version(name) {
                        Some(iv) => {
                            if version_order_of(info.version.as_str(), iv.as_str()) == 1 {
                                let up = (name.clone(), iv.clone(), info.version.clone());
                                let ghost e0 = (name@, iv@, info.version@);
                                let ghost before = triples(result.to_upgrade@);
                                result.to_upgrade.push(up);
                                proof {
                                    assert(triples(result.to_upgrade@) =~= before.push(e0));
                                    lemma_push_contains_triples(before, e0);
                                    assert(upgrade_of(inst, av, pn, e0));
                                    assert(upgrades_for(inst, av, pn) == seq![e0]);
                                    assert(triples(result.to_upgrade@) =~= up0 + upgrades_for(inst, av, pn));
                                }
                            } else {
                                assert forall|e: (Seq<char>, Seq<char>, Seq<char>)| !upgrade_of(inst, av, pn, e) by {}
                                assert(triples(result.to_upgrade@) =~= up0 + upgrades_for(inst, av, pn));
                            }
                            proof {
                                assert forall|m: Seq<char>| !(lookup(inst, m) is None && resolves_to(av, pn, m)) by {}
                            }
                        },
                        None => {
                            assert forall|e: (Seq<char>, Seq<char>, Seq<char>)| !upgrade_of(inst, av, pn, e) by {}
                            assert(triples(result.to_upgrade@) =~= up0 + upgrades_for(inst, av, pn));
                            if install && !contains_string(&to_install_set, name) {
                                let ghost before = strs(to_install_set@);
                                to_install_set.push(name.clone());
                                proof {
                                    assert(strs(to_install_set@) =~= before.push(name@));
                                    lemma_push_contains(before, name@);
                                    lemma_push_no_dup(before, name@);
                                }
                            }
                        },
                    }
                    let ghost cf0 = pairs(result.conflicts@);
                    self.record_conflicts(k, &mut result.conflicts);
                    self.queue_unmet(k, &mut queue);
                    proof {
                        assert(requests_of(inst, av, pn) == unmet_list(inst, av, k as int, av[k as int].1.depends.len() as int));
                        assert(strs(queue@) == q_before + requests_of(inst, av, pn));
                        assert(walk(inst, av, roots, steps) == (strs(queue@), qi as int, strs(visited@)));
                        assert(missing_along(av, strs(visited@)) == missing_along(av, v0));
                        assert(pairs(result.conflicts@) == cf_start + conflicts_for(inst, av, pn));
                        assert(forall|k2: int| 0 <= k2 < q_before.len() ==> strs(queue@)[k2] == q_before[k2]) by {
                            assert forall|k2: int| 0 <= k2 < q_before.len() implies strs(queue@)[k2] == q_before[k2] by {
                                assert(strs(queue@).take(q_before.len() as int)[k2] == q_before[k2]);
                            }
                        }
                        assert(strs(queue@).take(roots.len() as int) =~= roots);
                        assert forall|k2: int| 0 <= k2 < qi implies strs(visited@).contains(#[trigger] strs(queue@)[k2]) by {
                            assert(strs(queue@)[k2] == q_before[k2]);
                        }
                        assert(strs(queue@).take(qi as int) =~= q_before.take(qi as int));
                        assert forall|k2: int| 0 <= k2 < queue@.len() implies reachable(inst, av, roots, #[trigger] strs(queue@)[k2])
                            && universe.contains(strs(queue@)[k2]) by {
                            if k2 < q_before.len() {
                                assert(strs(queue@)[k2] == q_before[k2]);
                            } else {
                                assert(is_unmet_name(inst, av, k as int, strs(queue@)[k2]));
                                let jj = choose|jj: int| #[trigger] unmet_dep(inst, av, k as int, jj, strs(queue@)[k2]);
                                assert(is_successor(inst, av, pn, strs(queue@)[k2]));
                                lemma_reach_extend(inst, av, roots, pn, strs(queue@)[k2]);
                                lemma_dep_names(av, k as int, jj);
                                let d = dep_names(av);
                                let w = choose|w: int| 0 <= w < d.len() && d[w] == strs(queue@)[k2];
                                assert(universe[roots.len() + w] == d[w]);
                            }
                        }
                        assert forall|x: Seq<char>, b: Seq<char>| strs(visited@).contains(x) && #[trigger] is_successor(inst, av, x, b)
                            implies strs(queue@).contains(b) by {
                            if x == pn {
                                let jj = choose|jj: int| #[trigger] unmet_dep(inst, av, k as int, jj, b);
                                assert(!satisfied(inst, #[trigger] parse_dependency(av[k as int].1.depends[jj])));
                            } else {
                                assert(q_before.contains(b));
                                lemma_prefix_contains(q_before, strs(queue@), b);
                            }
                        }
                        assert forall|e: (Seq<char>, Seq<char>)| #[trigger] pairs(result.conflicts@).contains(e) <==> exists|n: Seq<char>|
                            strs(visited@).contains(n) && #[trigger] conflict_of(inst, av, n, e) by {
                            if exists|c: int| 0 <= c < av[k as int].1.conflicts.len() && #[trigger] conflict_entry(inst, av, k as int, c, e) {
                                assert(conflict_of(inst, av, pn, e));
                            }
                            if conflict_of(inst, av, pn, e) {
                                assert(exists|c: int| 0 <= c < av[k as int].1.conflicts.len() && #[trigger] conflict_entry(inst, av, k as int, c, e));
                            }
                        }
                        assert forall|m: Seq<char>| #[trigger] strs(to_install_set@).contains(m) <==> install && lookup(inst, m) is None
                            && exists|n: Seq<char>| strs(visited@).contains(n) && #[trigger] resolves_to(av, n, m) by {
                            if resolves_to(av, pn, m) {
                                assert(m == name@);
                            }
                        }
                        assert forall|e: (Seq<char>, Seq<char>, Seq<char>)| #[trigger] triples(result.to_upgrade@).contains(e) <==> exists|n: Seq<char>|
                            strs(visited@).contains(n) && #[trigger] upgrade_of(inst, av, n, e) by {
                        }
                    }
                },
                None => {
                    let ghost before = strs(result.missing@);
                    result.missing.push(pkg_name);
                    proof {
                        assert(strs(queue@) =~= q_before + requests_of(inst, av, pn));
                        assert(walk(inst, av, roots, steps) == (strs(queue@), qi as int, strs(visited@)));
                        assert(missing_along(av, strs(visited@)) == missing_along(av, v0).push(pn));
                        assert(triples(result.to_upgrade@) =~= up0 + upgrades_for(inst, av, pn));
                        assert(pairs(result.conflicts@) =~= cf_start + conflicts_for(inst, av, pn));
                        assert(strs(result.missing@) =~= before.push(pn));
                        lemma_push_contains(before, pn);
                        lemma_push_no_dup(before, pn);
                        assert forall|x: Seq<char>, b: Seq<char>| strs(visited@).contains(x) && #[trigger] is_successor(inst, av, x, b)
                            implies strs(queue@).contains(b) by {
                            if x == pn {
                                assert(!is_successor(inst, av, x, b));
                            }
                        }
                        assert forall|m: Seq<char>| #[trigger] strs(to_install_set@).contains(m) <==> install && lookup(inst, m) is None
                            && exists|n: Seq<char>| strs(visited@).contains(n) && #[trigger] resolves_to(av, n, m) by {
                            assert(!resolves_to(av, pn, m));
                        }
                        assert forall|e: (Seq<char>, Seq<char>, Seq<char>)| #[trigger] triples(result.to_upgrade@).contains(e) <==> exists|n: Seq<char>|
                            strs(visited@).contains(n) && #[trigger] upgrade_of(inst, av, n, e) by {
                            assert(!upgrade_of(inst, av, pn, e));
                        }
                        assert forall|e: (Seq<char>, Seq<char>)| #[trigger] pairs(result.conflicts@).contains(e) <==> exists|n: Seq<char>|
                            strs(visited@).contains(n) && #[trigger] conflict_of(inst, av, n, e) by {
                            assert(!conflict_of(inst, av, pn, e));
                        }
                    }
                },
            }
        }
        proof {
            let v = strs(visited@);
            assert(strs(queue@).take(qi as int) =~= strs(queue@));
            assert forall|x: Seq<char>| roots.contains(x) implies v.contains(x) by {
                let i = choose|i: int| 0 <= i < roots.len() && roots[i] == x;
                assert(strs(queue@).take(roots.len() as int)[i] == strs(queue@)[i]);
            }
            assert forall|x: Seq<char>, b: Seq<char>| v.contains(x) && #[trigger] is_successor(inst, av, x, b) implies v.contains(b) by {
                assert(strs(queue@).contains(b));
                let i = choose|i: int| 0 <= i < strs(queue@).len() && strs(queue@)[i] == b;
            }
            assert forall|n: Seq<char>| v.contains(n) <==> reachable(inst, av, roots, n) by {
                if reachable(inst, av, roots, n) {
                    lemma_closed_holds_reachable(inst, av, roots, v, n);
                }
                if v.contains(n) {
                    let i = choose|i: int| 0 <= i < strs(queue@).len() && strs(queue@)[i] == n;
                }
            }
        }
        let sorted = self.topo_sort(&to_install_set);
        proof {
            assert forall|e: (Seq<char>, Seq<char>, Seq<char>)| #[trigger] triples(result.to_upgrade@).contains(e) implies
                lookup(inst, e.0) == Some(e.1) && version_order(e.2, e.1) == 1 by {
                let n = choose|n: Seq<char>| strs(visited@).contains(n) && #[trigger] upgrade_of(inst, av, n, e);
                lemma_upgrade_is_newer(inst, av, n, e);
            }
            assert(walk_done(inst, av, roots, steps));
            assert(walk_visited(inst, av, roots, steps) == strs(visited@));
            assert(triples(result.to_upgrade@) == upgrades_along(inst, av, strs(visited@)));
            lemma_topo_members(av, strs(sorted@), strs(to_install_set@), strs(sorted@));
        }
        result.to_install = sorted;
        result
    }
}

/// Whether `v` holds a string equal to `x`.
pub fn contains_string(v: &Vec<String>, x: &String) -> (r: bool)
    ensures
        r == strs(v@).contains(x@),
{
    let mut i: usize = 0;
    while i < v.len()
        invariant
            i <= v@.len(),
            forall|k: int| 0 <= k < i ==> strs(v@)[k] != x@,
        decreases v@.len() - i,
    {
        assert(strs(v@)[i as int] == v@[i as int]@);
        if crate::text::same_string(&v[i], x) {
            assert(strs(v@)[i as int] == x@);
            return true;
        }
        i = i + 1;
    }
    false
}

// ───────────────────────── dependency order ─────────────────────────

/// `x` is available and one of its dependency strings names `d`.
pub open spec fn edge(avail: Seq<(Seq<char>, InfoView)>, x: Seq<char>, d: Seq<char>) -> bool {
    match lookup(avail, x) {
        Some(info) => exists|j: int|
            0 <= j < info.depends.len() && #[trigger] parse_dependency(info.depends[j]).name == d,
        None => false,
    }
}

/// A chain of dependencies within `all`: each element is in `all` and
/// depends on the next.
pub open spec fn is_dep_path(avail: Seq<(Seq<char>, InfoView)>, all: Seq<Seq<char>>, path: Seq<Seq<char>>) -> bool {
    &&& path.len() > 0
    &&& forall|i: int| 0 <= i < path.len() ==> all.contains(#[trigger] path[i])
    &&& forall|i: int| 0 <= i < path.len() - 1 ==> edge(avail, #[trigger] path[i], path[i + 1])
}

/// `a` depends, directly or through others in `all`, on `b` (or is `b`).
pub open spec fn depends_path(avail: Seq<(Seq<char>, InfoView)>, all: Seq<Seq<char>>, a: Seq<char>, b: Seq<char>) -> bool {
    exists|path: Seq<Seq<char>>| #[trigger] is_dep_path(avail, all, path) && path[0] == a && path.last() == b
}

/// Every dependency (within `all`) of an element comes before it, unless the
/// dependency in turn depends on the element through packages of `all` (a
/// cycle within `all`).
pub open spec fn topo_ordered(avail: Seq<(Seq<char>, InfoView)>, s: Seq<Seq<char>>, all: Seq<Seq<char>>) -> bool {
    forall|i: int, d: Seq<char>|
        0 <= i < s.len() && #[trigger] edge(avail, s[i], d) && all.contains(d) ==> s.take(i).contains(d)
            || depends_path(avail, all, d, s[i])
}

/// How many elements of `all` are neither in `sorted` nor in `temp`.
pub open spec fn unmarked(all: Seq<Seq<char>>, sorted: Seq<Seq<char>>, temp: Seq<Seq<char>>) -> nat {
    all.filter(|x: Seq<char>| !sorted.contains(x) && !temp.contains(x)).len()
}


pub proof fn lemma_unvisited_push(universe: Seq<Seq<char>>, v: Seq<Seq<char>>, x: Seq<char>)
    requires
        universe.contains(x),
        !v.contains(x),
    ensures
        unvisited(universe, v.push(x)) < unvisited(universe, v),
{
    let k = choose|k: int| 0 <= k < universe.len() && universe[k] == x;
    lemma_push_contains(v, x);
    lemma_filter_strict(universe, |y: Seq<char>| !v.contains(y), |y: Seq<char>| !v.push(x).contains(y), k);
}

pub proof fn lemma_reach_root(
    inst: Seq<(Seq<char>, Seq<char>)>,
    avail: Seq<(Seq<char>, InfoView)>,
    roots: Seq<Seq<char>>,
    r: Seq<char>,
)
    requires
        roots.contains(r),
    ensures
        reachable(inst, avail, roots, r),
{
    let p = seq![r];
    assert(is_request_path(inst, avail, roots, p));
}

pub proof fn lemma_reach_extend(
    inst: Seq<(Seq<char>, Seq<char>)>,
    avail: Seq<(Seq<char>, InfoView)>,
    roots: Seq<Seq<char>>,
    a: Seq<char>,
    b: Seq<char>,
)
    requires
        reachable(inst, avail, roots, a),
        is_successor(inst, avail, a, b),
    ensures
        reachable(inst, avail, roots, b),
{
    let p = choose|p: Seq<Seq<char>>| #[trigger] is_request_path(inst, avail, roots, p) && p.last() == a;
    let q = p.push(b);
    assert forall|i: int| 0 <= i < q.len() - 1 implies is_successor(inst, avail, #[trigger] q[i], q[i + 1]) by {
        if i < p.len() - 1 {
            assert(q[i] == p[i] && q[i + 1] == p[i + 1]);
        }
    }
    assert(q[0] == p[0]);
    assert(is_request_path(inst, avail, roots, q));
}

/// A set of names that holds the roots and is closed under requests holds
/// every reachable name.
pub proof fn lemma_closed_holds_reachable(
    inst: Seq<(Seq<char>, Seq<char>)>,
    avail: Seq<(Seq<char>, InfoView)>,
    roots: Seq<Seq<char>>,
    v: Seq<Seq<char>>,
    n: Seq<char>,
)
    requires
        forall|x: Seq<char>| roots.contains(x) ==> v.contains(x),
        forall|x: Seq<char>, b: Seq<char>| v.contains(x) && #[trigger] is_successor(inst, avail, x, b) ==> v.contains(b),
        reachable(inst, avail, roots, n),
    ensures
        v.contains(n),
{
    let p = choose|p: Seq<Seq<char>>| #[trigger] is_request_path(inst, avail, roots, p) && p.last() == n;
    lemma_path_in(inst, avail, roots, v, p, p.len() - 1);
}

proof fn lemma_path_in(
    inst: Seq<(Seq<char>, Seq<char>)>,
    avail: Seq<(Seq<char>, InfoView)>,
    roots: Seq<Seq<char>>,
    v: Seq<Seq<char>>,
    p: Seq<Seq<char>>,
    i: int,
)
    requires
        forall|x: Seq<char>| roots.contains(x) ==> v.contains(x),
        forall|x: Seq<char>, b: Seq<char>| v.contains(x) && #[trigger] is_successor(inst, avail, x, b) ==> v.contains(b),
        is_request_path(inst, avail, roots, p),
        0 <= i < p.len(),
    ensures
        v.contains(p[i]),
    decreases i,
{
    if i > 0 {
        lemma_path_in(inst, avail, roots, v, p, i - 1);
        assert(is_successor(inst, avail, p[i - 1], p[i]));
    }
}


pub proof fn lemma_push_no_dup(s: Seq<Seq<char>>, a: Seq<char>)
    requires
        s.no_duplicates(),
        !s.contains(a),
    ensures
        s.push(a).no_duplicates(),
{
    let t = s.push(a);
    assert forall|i: int, j: int| 0 <= i < t.len() && 0 <= j < t.len() && i != j implies t[i] != t[j] by {
        if i < s.len() && j < s.len() {
            assert(t[i] == s[i] && t[j] == s[j]);
        } else if i < s.len() {
            assert(t[i] == s[i]);
        } else if j < s.len() {
            assert(t[j] == s[j]);
        }
    }
}

pub proof fn lemma_take_grow(s: Seq<Seq<char>>, n: int, x: Seq<char>)
    requires
        0 <= n < s.len(),
        s.take(n).contains(x),
    ensures
        s.take(n + 1).contains(x),
{
    let i = choose|i: int| 0 <= i < n && s.take(n)[i] == x;
    assert(s.take(n + 1)[i] == x);
}

pub proof fn lemma_push_contains_pairs(s: Seq<(Seq<char>, Seq<char>)>, a: (Seq<char>, Seq<char>))
    ensures
        forall|x: (Seq<char>, Seq<char>)| #[trigger] s.push(a).contains(x) <==> s.contains(x) || x == a,
{
    assert forall|x: (Seq<char>, Seq<char>)| #[trigger] s.push(a).contains(x) implies s.contains(x) || x == a by {
        let k = choose|k: int| 0 <= k < s.push(a).len() && s.push(a)[k] == x;
        if k < s.len() {
            assert(s[k] == x);
        }
    }
    assert forall|x: (Seq<char>, Seq<char>)| s.contains(x) || x == a implies #[trigger] s.push(a).contains(x) by {
        if x == a {
            assert(s.push(a)[s.len() as int] == a);
        } else {
            let k = choose|k: int| 0 <= k < s.len() && s[k] == x;
            assert(s.push(a)[k] == x);
        }
    }
}

pub proof fn lemma_push_contains_triples(s: Seq<(Seq<char>, Seq<char>, Seq<char>)>, a: (Seq<char>, Seq<char>, Seq<char>))
    ensures
        forall|x: (Seq<char>, Seq<char>, Seq<char>)| #[trigger] s.push(a).contains(x) <==> s.contains(x) || x == a,
{
    assert forall|x: (Seq<char>, Seq<char>, Seq<char>)| #[trigger] s.push(a).contains(x) implies s.contains(x) || x == a by {
        let k = choose|k: int| 0 <= k < s.push(a).len() && s.push(a)[k] == x;
        if k < s.len() {
            assert(s[k] == x);
        }
    }
    assert forall|x: (Seq<char>, Seq<char>, Seq<char>)| s.contains(x) || x == a implies #[trigger] s.push(a).contains(x) by {
        if x == a {
            assert(s.push(a)[s.len() as int] == a);
        } else {
            let k = choose|k: int| 0 <= k < s.len() && s[k] == x;
            assert(s.push(a)[k] == x);
        }
    }
}

pub proof fn lemma_push_contains(s: Seq<Seq<char>>, a: Seq<char>)
    ensures
        forall|x: Seq<char>| #[trigger] s.push(a).contains(x) <==> s.contains(x) || x == a,
{
    assert forall|x: Seq<char>| #[trigger] s.push(a).contains(x) implies s.contains(x) || x == a by {
        let k = choose|k: int| 0 <= k < s.push(a).len() && s.push(a)[k] == x;
        if k < s.len() {
            assert(s[k] == x);
        }
    }
    assert forall|x: Seq<char>| s.contains(x) || x == a implies #[trigger] s.push(a).contains(x) by {
        if x == a {
            assert(s.push(a)[s.len() as int] == a);
        } else {
            let k = choose|k: int| 0 <= k < s.len() && s[k] == x;
            assert(s.push(a)[k] == x);
        }
    }
}

pub proof fn lemma_path_single(avail: Seq<(Seq<char>, InfoView)>, all: Seq<Seq<char>>, a: Seq<char>)
    requires
        all.contains(a),
    ensures
        depends_path(avail, all, a, a),
{
    let p = seq![a];
    assert(is_dep_path(avail, all, p));
}

pub proof fn lemma_path_extend(avail: Seq<(Seq<char>, InfoView)>, all: Seq<Seq<char>>, a: Seq<char>, b: Seq<char>, c: Seq<char>)
    requires
        all.contains(c),
        depends_path(avail, all, a, b),
        edge(avail, b, c),
    ensures
        depends_path(avail, all, a, c),
{
    let p = choose|p: Seq<Seq<char>>| #[trigger] is_dep_path(avail, all, p) && p[0] == a && p.last() == b;
    let q = p.push(c);
    assert forall|i: int| 0 <= i < q.len() implies all.contains(#[trigger] q[i]) by {
        if i < p.len() {
            assert(q[i] == p[i]);
        }
    }
    assert forall|i: int| 0 <= i < q.len() - 1 implies edge(avail, #[trigger] q[i], q[i + 1]) by {
        if i < p.len() - 1 {
            assert(q[i] == p[i] && q[i + 1] == p[i + 1]);
        }
    }
    assert(is_dep_path(avail, all, q));
}

pub proof fn lemma_take_prefix(a: Seq<Seq<char>>, b: Seq<Seq<char>>, n: int)
    requires
        0 <= n <= a.len() <= b.len(),
        b.take(a.len() as int) == a,
    ensures
        b.take(n) == a.take(n),
{
    assert(b.take(n) =~= a.take(n));
}

pub proof fn lemma_prefix_contains(a: Seq<Seq<char>>, b: Seq<Seq<char>>, x: Seq<char>)
    requires
        a.len() <= b.len(),
        b.take(a.len() as int) == a,
        a.contains(x),
    ensures
        b.contains(x),
{
    let k = choose|k: int| 0 <= k < a.len() && a[k] == x;
    assert(b[k] == b.take(a.len() as int)[k]);
}

pub proof fn lemma_filter_sub(s: Seq<Seq<char>>, p: spec_fn(Seq<char>) -> bool, q: spec_fn(Seq<char>) -> bool)
    requires
        forall|x: Seq<char>| #[trigger] q(x) ==> p(x),
    ensures
        s.filter(q).len() <= s.filter(p).len(),
    decreases s.len(),
{
    reveal(Seq::filter);
    if s.len() > 0 {
        lemma_filter_sub(s.drop_last(), p, q);
    }
}

pub proof fn lemma_filter_strict(s: Seq<Seq<char>>, p: spec_fn(Seq<char>) -> bool, q: spec_fn(Seq<char>) -> bool, i: int)
    requires
        forall|x: Seq<char>| #[trigger] q(x) ==> p(x),
        0 <= i < s.len(),
        p(s[i]),
        !q(s[i]),
    ensures
        s.filter(q).len() < s.filter(p).len(),
    decreases s.len(),
{
    reveal(Seq::filter);
    if i == s.len() - 1 {
        lemma_filter_sub(s.drop_last(), p, q);
    } else {
        lemma_filter_strict(s.drop_last(), p, q, i);
    }
}

pub proof fn lemma_unmarked_le(all: Seq<Seq<char>>, s1: Seq<Seq<char>>, s2: Seq<Seq<char>>, t: Seq<Seq<char>>)
    requires
        s1.len() <= s2.len(),
        s2.take(s1.len() as int) == s1,
    ensures
        unmarked(all, s2, t) <= unmarked(all, s1, t),
{
    assert forall|x: Seq<char>| s1.contains(x) implies s2.contains(x) by {
        lemma_prefix_contains(s1, s2, x);
    }
    lemma_filter_sub(all, |x: Seq<char>| !s1.contains(x) && !t.contains(x), |x: Seq<char>| !s2.contains(x) && !t.contains(x));
}

pub proof fn lemma_unmarked_push_temp(all: Seq<Seq<char>>, s: Seq<Seq<char>>, t: Seq<Seq<char>>, x: Seq<char>)
    requires
        all.contains(x),
        !s.contains(x),
        !t.contains(x),
    ensures
        unmarked(all, s, t.push(x)) < unmarked(all, s, t),
{
    let k = choose|k: int| 0 <= k < all.len() && all[k] == x;
    lemma_push_contains(t, x);
    lemma_filter_strict(all, |y: Seq<char>| !s.contains(y) && !t.contains(y), |y: Seq<char>| !s.contains(y) && !t.push(x).contains(y), k);
}

pub proof fn lemma_topo_push(avail: Seq<(Seq<char>, InfoView)>, s: Seq<Seq<char>>, all: Seq<Seq<char>>, x: Seq<char>)
    requires
        topo_ordered(avail, s, all),
        forall|d: Seq<char>| edge(avail, x, d) && all.contains(d) ==> s.contains(d) || depends_path(avail, all, d, x),
    ensures
        topo_ordered(avail, s.push(x), all),
{
    let s2 = s.push(x);
    assert forall|i: int, d: Seq<char>|
        0 <= i < s2.len() && #[trigger] edge(avail, s2[i], d) && all.contains(d) implies s2.take(i).contains(d)
            || depends_path(avail, all, d, s2[i]) by {
        if i < s.len() {
            assert(s2.take(i) =~= s.take(i));
            assert(s2[i] == s[i]);
        } else {
            assert(s2.take(i) =~= s);
        }
    }
}

/// The dependency order of a list depends only on which names `all` holds.
pub proof fn lemma_topo_members(avail: Seq<(Seq<char>, InfoView)>, s: Seq<Seq<char>>, a: Seq<Seq<char>>, b: Seq<Seq<char>>)
    requires
        topo_ordered(avail, s, a),
        forall|x: Seq<char>| a.contains(x) <==> b.contains(x),
    ensures
        topo_ordered(avail, s, b),
{
    assert forall|i: int, d: Seq<char>|
        0 <= i < s.len() && #[trigger] edge(avail, s[i], d) && b.contains(d) implies s.take(i).contains(d)
            || depends_path(avail, b, d, s[i]) by {
        if !s.take(i).contains(d) {
            assert(depends_path(avail, a, d, s[i]));
            let p = choose|p: Seq<Seq<char>>| #[trigger] is_dep_path(avail, a, p) && p[0] == d && p.last() == s[i];
            assert forall|k: int| 0 <= k < p.len() implies b.contains(#[trigger] p[k]) by {
                assert(a.contains(p[k]));
            }
            assert(is_dep_path(avail, b, p));
        }
    }
}

} // verus!
