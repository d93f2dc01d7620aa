//! The mathematical model of version specs and package requests, shared by the
//! `package` and `dependencies` modules, with the laws that hold of it.
use vstd::prelude::*;
use vstd::utf8::{
    encode_scalar, encode_utf8, has_width_1_encoding, has_width_2_encoding, has_width_3_encoding,
    leading_byte_width_1, leading_byte_width_2, leading_byte_width_3, leading_byte_width_4,
};

use crate::text::{
    is_decimal_digit, lemma_encode_utf8_concat, first_index_of, lemma_encode_utf8_injective, lemma_first_index_of, lemma_first_index_of_is,
};

verus! {

/// What a version spec means: any version, versions with a prefix, or one version.
pub enum VersionSpecView {
    Any,
    Partial(Seq<char>),
    Exact(Seq<char>),
}

/// A package request as a name and a version spec.
pub struct RequestView {
    pub name: Seq<char>,
    pub version: VersionSpecView,
}

/// True for the bytes of the ASCII digits `0` to `9`.
pub open spec fn is_ascii_digit(b: u8) -> bool {
    0x30 <= b <= 0x39
}

/// `prefix` starts `version`, and `version` either ends there or goes on with a non-digit.
pub open spec fn prefix_matches(prefix: Seq<u8>, version: Seq<u8>) -> bool {
    &&& prefix.len() <= version.len()
    &&& version.subrange(0, prefix.len() as int) == prefix
    &&& (version.len() == prefix.len() || !is_ascii_digit(version[prefix.len() as int]))
}

impl VersionSpecView {
    /// Whether the version `version` satisfies this spec.
    pub open spec fn matches(self, version: Seq<char>) -> bool {
        match self {
            VersionSpecView::Any => true,
            VersionSpecView::Exact(e) => version == e,
            VersionSpecView::Partial(p) => prefix_matches(encode_utf8(p), encode_utf8(version)),
        }
    }

    /// The compatibility test that version specs use.
    pub open spec fn compatible(self, other: VersionSpecView) -> bool {
        match (self, other) {
            (VersionSpecView::Any, _) => true,
            (_, VersionSpecView::Any) => true,
            (VersionSpecView::Exact(a), VersionSpecView::Exact(b)) => a == b,
            (VersionSpecView::Exact(a), VersionSpecView::Partial(_)) => other.matches(a),
            (VersionSpecView::Partial(_), VersionSpecView::Exact(b)) => self.matches(b),
            (VersionSpecView::Partial(a), VersionSpecView::Partial(b)) => self.matches(b)
                || other.matches(a),
        }
    }

    /// The intersection of two version specs (`&`), `None` when they are incompatible.
    pub open spec fn intersect(self, other: VersionSpecView) -> Option<VersionSpecView> {
        if self == other {
            Some(self)
        } else if !self.compatible(other) {
            None
        } else {
            match (self, other) {
                (VersionSpecView::Any, _) => Some(other),
                (_, VersionSpecView::Any) => Some(self),
                (VersionSpecView::Exact(a), VersionSpecView::Exact(_)) => Some(self),
                (VersionSpecView::Exact(a), VersionSpecView::Partial(_)) => Some(self),
                (VersionSpecView::Partial(_), VersionSpecView::Exact(b)) => Some(other),
                (VersionSpecView::Partial(a), VersionSpecView::Partial(b)) => if encode_utf8(
                    a,
                ).len() <= encode_utf8(b).len() {
                    Some(other)
                } else {
                    Some(self)
                },
            }
        }
    }

    /// The text of a version spec: `*`, `~prefix` or the exact version.
    pub open spec fn display(self) -> Seq<char> {
        match self {
            VersionSpecView::Any => seq!['*'],
            VersionSpecView::Partial(p) => seq!['~'] + p,
            VersionSpecView::Exact(e) => e,
        }
    }

    /// A version that satisfies this spec.
    pub open spec fn witness(self) -> Seq<char> {
        match self {
            VersionSpecView::Any => Seq::empty(),
            VersionSpecView::Partial(p) => p,
            VersionSpecView::Exact(e) => e,
        }
    }
}

/// How a package version spec is read: empty or `*` is any version, `~p` is the prefix `p`,
/// anything else is an exact version.
pub open spec fn parse_version_spec(s: Seq<char>) -> VersionSpecView {
    if s.len() == 0 || s == seq!['*'] {
        VersionSpecView::Any
    } else if s[0] == '~' {
        VersionSpecView::Partial(s.subrange(1, s.len() as int))
    } else {
        VersionSpecView::Exact(s)
    }
}

/// How a dependency version spec is read: `*` is any version, `~p` is the prefix `p`,
/// anything else (the empty text too) is an exact version.
pub open spec fn parse_dependency_version_spec(s: Seq<char>) -> VersionSpecView {
    if s == seq!['*'] {
        VersionSpecView::Any
    } else if s.len() > 0 && s[0] == '~' {
        VersionSpecView::Partial(s.subrange(1, s.len() as int))
    } else {
        VersionSpecView::Exact(s)
    }
}

/// The name part of a request text: everything before the first `@`.
pub open spec fn request_name(s: Seq<char>) -> Seq<char> {
    s.subrange(0, first_index_of(s, '@'))
}

/// The version part of a request text: everything after the first `@`, or empty.
pub open spec fn request_version(s: Seq<char>) -> Seq<char> {
    if first_index_of(s, '@') < s.len() {
        s.subrange(first_index_of(s, '@') + 1, s.len() as int)
    } else {
        Seq::empty()
    }
}

/// How a request text `name[@version]` is read.
pub open spec fn parse_request(s: Seq<char>) -> RequestView {
    RequestView { name: request_name(s), version: parse_version_spec(request_version(s)) }
}

impl RequestView {
    /// The text of a request: the name alone for any version, else `name@version`.
    pub open spec fn display(self) -> Seq<char> {
        if self.version == VersionSpecView::Any {
            self.name
        } else {
            self.name + seq!['@'] + self.version.display()
        }
    }
}

/// Conflicts by dependency name: each name with the set of its conflicting version specs.
pub type ConflictsView = Seq<(Seq<char>, Seq<VersionSpecView>)>;

/// The names of a sequence of requests.
pub open spec fn request_names(rs: Seq<RequestView>) -> Seq<Seq<char>> {
    rs.map_values(|r: RequestView| r.name)
}

/// The names that have conflicts.
pub open spec fn conflict_names(c: ConflictsView) -> Seq<Seq<char>> {
    c.map_values(|e: (Seq<char>, Seq<VersionSpecView>)| e.0)
}

/// Adds `x` to a set of version specs kept as a sequence without repetitions.
pub open spec fn set_insert(s: Seq<VersionSpecView>, x: VersionSpecView) -> Seq<VersionSpecView> {
    if s.contains(x) {
        s
    } else {
        s.push(x)
    }
}

/// Records that `a` and `b` conflict for `name`: they join the set of that name,
/// which is created when the name has no conflicts yet.
pub open spec fn add_conflict(
    c: ConflictsView,
    name: Seq<char>,
    a: VersionSpecView,
    b: VersionSpecView,
) -> ConflictsView {
    let i = first_index_of(conflict_names(c), name);
    if i < c.len() {
        c.update(i, (name, set_insert(set_insert(c[i].1, a), b)))
    } else {
        c.push((name, set_insert(set_insert(Seq::empty(), a), b)))
    }
}

/// No set of conflicting specs repeats a spec, and no name has two entries.
pub open spec fn conflicts_wf(c: ConflictsView) -> bool {
    &&& conflict_names(c).no_duplicates()
    &&& forall|i: int| 0 <= i < c.len() ==> (#[trigger] c[i]).1.no_duplicates()
}

/// The state of a merge: the merged requests and the conflicts found so far.
pub struct MergeState {
    pub merged: Seq<RequestView>,
    pub conflicts: ConflictsView,
}

/// Merges one more request: a new name is appended; a known name gets the
/// intersection of its spec and the new one, or, when they are incompatible, a conflict.
pub open spec fn merge_step(st: MergeState, r: RequestView) -> MergeState {
    let i = first_index_of(request_names(st.merged), r.name);
    if i == st.merged.len() {
        MergeState { merged: st.merged.push(r), conflicts: st.conflicts }
    } else {
        match st.merged[i].version.intersect(r.version) {
            Some(m) => MergeState {
                merged: st.merged.update(i, RequestView { name: st.merged[i].name, version: m }),
                conflicts: st.conflicts,
            },
            None => MergeState {
                merged: st.merged,
                conflicts: add_conflict(st.conflicts, r.name, st.merged[i].version, r.version),
            },
        }
    }
}

/// Merges the requests in order, from nothing merged and no conflicts.
pub open spec fn merge_all(rs: Seq<RequestView>) -> MergeState
    decreases rs.len(),
{
    if rs.len() == 0 {
        MergeState { merged: Seq::empty(), conflicts: Seq::empty() }
    } else {
        merge_step(merge_all(rs.drop_last()), rs.last())
    }
}

/// The merged requests, or all the conflicts when there is any.
pub open spec fn merge_requests(rs: Seq<RequestView>) -> Result<Seq<RequestView>, ConflictsView> {
    let st = merge_all(rs);
    if st.conflicts.len() == 0 {
        Ok(st.merged)
    } else {
        Err(st.conflicts)
    }
}

/// Inserting into a set of specs keeps it free of repetitions.
pub proof fn lemma_set_insert_no_duplicates(s: Seq<VersionSpecView>, x: VersionSpecView)
    requires
        s.no_duplicates(),
    ensures
        set_insert(s, x).no_duplicates(),
        set_insert(s, x).contains(x),
        forall|y: VersionSpecView| s.contains(y) ==> set_insert(s, x).contains(y),
{
    if !s.contains(x) {
        assert forall|i: int, j: int|
            0 <= i < s.push(x).len() && 0 <= j < s.push(x).len() && i != j implies s.push(x)[i]
            != s.push(x)[j] by {
            if i < s.len() && j < s.len() {
            } else if i < s.len() {
                assert(s.contains(s[i]));
            } else {
                assert(s.contains(s[j]));
            }
        }
        assert(s.push(x)[s.len() as int] == x);
        assert forall|y: VersionSpecView| s.contains(y) implies s.push(x).contains(y) by {
            let k = choose|k: int| 0 <= k < s.len() && s[k] == y;
            assert(s.push(x)[k] == y);
        }
    }
}

/// Recording a conflict keeps the conflicts well formed.
pub proof fn law_add_conflict_wf(
    c: ConflictsView,
    name: Seq<char>,
    a: VersionSpecView,
    b: VersionSpecView,
)
    requires
        conflicts_wf(c),
    ensures
        conflicts_wf(add_conflict(c, name, a, b)),
        add_conflict(c, name, a, b).len() > 0,
{
    let i = first_index_of(conflict_names(c), name);
    lemma_first_index_of(conflict_names(c), name);
    let r = add_conflict(c, name, a, b);
    if i < c.len() {
        lemma_set_insert_no_duplicates(c[i].1, a);
        lemma_set_insert_no_duplicates(set_insert(c[i].1, a), b);
        assert(conflict_names(r) =~= conflict_names(c));
        assert forall|k: int| 0 <= k < r.len() implies (#[trigger] r[k]).1.no_duplicates() by {
            if k != i {
                assert(r[k] == c[k]);
            }
        }
    } else {
        let e: Seq<VersionSpecView> = Seq::empty();
        lemma_set_insert_no_duplicates(e, a);
        lemma_set_insert_no_duplicates(set_insert(e, a), b);
        assert(conflict_names(r) =~= conflict_names(c).push(name));
        assert(!conflict_names(c).contains(name));
        assert forall|p: int, q: int|
            0 <= p < conflict_names(r).len() && 0 <= q < conflict_names(r).len() && p != q implies conflict_names(
            r,
        )[p] != conflict_names(r)[q] by {
            if p < c.len() && q < c.len() {
            } else if p < c.len() {
                assert(conflict_names(c)[p] != name);
            } else {
                assert(conflict_names(c)[q] != name);
            }
        }
        assert forall|k: int| 0 <= k < r.len() implies (#[trigger] r[k]).1.no_duplicates() by {
            if k < c.len() {
                assert(r[k] == c[k]);
            }
        }
    }
}

// ---------------------------------------------------------------------------------------
// Lemmas about prefixes.
/// A spec always matches its own witness.
pub proof fn lemma_witness_matches(a: VersionSpecView)
    ensures
        a.matches(a.witness()),
{
    if let VersionSpecView::Partial(p) = a {
        assert(encode_utf8(p).subrange(0, encode_utf8(p).len() as int) =~= encode_utf8(p));
    }
}

/// Two matching prefixes of one version: the shorter matches the longer.
proof fn lemma_prefixes_of_common_version(p: Seq<u8>, q: Seq<u8>, v: Seq<u8>)
    requires
        prefix_matches(p, v),
        prefix_matches(q, v),
        p.len() <= q.len(),
    ensures
        prefix_matches(p, q),
{
    assert(q.subrange(0, p.len() as int) =~= v.subrange(0, p.len() as int));
    if q.len() != p.len() {
        assert(q[p.len() as int] == v[p.len() as int]);
    }
}

/// A prefix that matches a longer prefix matches everything the longer one matches.
proof fn lemma_prefix_matches_transitive(p: Seq<u8>, q: Seq<u8>, v: Seq<u8>)
    requires
        prefix_matches(p, q),
        prefix_matches(q, v),
    ensures
        prefix_matches(p, v),
{
    assert(v.subrange(0, p.len() as int) =~= q.subrange(0, p.len() as int));
    if q.len() != p.len() {
        assert(v[p.len() as int] == q[p.len() as int]);
    }
}

/// Two prefixes of equal length that match each other are equal.
proof fn lemma_prefix_same_len(p: Seq<u8>, q: Seq<u8>)
    requires
        prefix_matches(p, q),
        p.len() == q.len(),
    ensures
        p == q,
{
    assert(q.subrange(0, p.len() as int) =~= q);
}

// ---------------------------------------------------------------------------------------
// Laws of version specs.
/// Every version spec is satisfied by some version.
pub proof fn law_every_spec_is_satisfiable(a: VersionSpecView)
    ensures
        exists|v: Seq<char>| a.matches(v),
{
    lemma_witness_matches(a);
}

/// Compatibility is symmetric.
pub proof fn law_compatible_symmetric(a: VersionSpecView, b: VersionSpecView)
    ensures
        a.compatible(b) == b.compatible(a),
{
}

/// Two version specs are compatible exactly when some version satisfies both.
pub proof fn law_compatible_iff_common_version(a: VersionSpecView, b: VersionSpecView)
    ensures
        a.compatible(b) <==> exists|v: Seq<char>| a.matches(v) && b.matches(v),
{
    lemma_witness_matches(a);
    lemma_witness_matches(b);
    if a.compatible(b) {
        match (a, b) {
            (VersionSpecView::Any, _) => {
                assert(a.matches(b.witness()) && b.matches(b.witness()));
            },
            (_, VersionSpecView::Any) => {
                assert(a.matches(a.witness()) && b.matches(a.witness()));
            },
            (VersionSpecView::Exact(x), _) => {
                assert(a.matches(x) && b.matches(x));
            },
            (_, VersionSpecView::Exact(y)) => {
                assert(a.matches(y) && b.matches(y));
            },
            (VersionSpecView::Partial(x), VersionSpecView::Partial(y)) => {
                if a.matches(y) {
                    assert(a.matches(y) && b.matches(y));
                } else {
                    assert(a.matches(x) && b.matches(x));
                }
            },
        }
    }
    if exists|v: Seq<char>| a.matches(v) && b.matches(v) {
        let v = choose|v: Seq<char>| a.matches(v) && b.matches(v);
        if let (VersionSpecView::Partial(x), VersionSpecView::Partial(y)) = (a, b) {
            if encode_utf8(x).len() <= encode_utf8(y).len() {
                lemma_prefixes_of_common_version(encode_utf8(x), encode_utf8(y), encode_utf8(v));
            } else {
                lemma_prefixes_of_common_version(encode_utf8(y), encode_utf8(x), encode_utf8(v));
            }
        }
    }
}

/// Every spec is compatible with itself, and its intersection with itself is itself.
pub proof fn law_intersect_idempotent(a: VersionSpecView)
    ensures
        a.compatible(a),
        a.intersect(a) == Some(a),
{
    lemma_witness_matches(a);
}

/// The intersection is `None` exactly when the two specs are incompatible.
pub proof fn law_intersect_none_iff_incompatible(a: VersionSpecView, b: VersionSpecView)
    ensures
        a.intersect(b) is None <==> !a.compatible(b),
{
    law_intersect_idempotent(a);
}

/// The intersection of two specs does not depend on their order.
pub proof fn law_intersect_commutative(a: VersionSpecView, b: VersionSpecView)
    ensures
        a.intersect(b) == b.intersect(a),
{
    if let (VersionSpecView::Partial(x), VersionSpecView::Partial(y)) = (a, b) {
        if a != b && a.compatible(b) && encode_utf8(x).len() == encode_utf8(y).len() {
            if a.matches(y) {
                lemma_prefix_same_len(encode_utf8(x), encode_utf8(y));
            } else {
                lemma_prefix_same_len(encode_utf8(y), encode_utf8(x));
            }
            lemma_encode_utf8_injective(x, y);
        }
    }
}

/// A version satisfies the intersection exactly when it satisfies both specs.
pub proof fn law_intersect_matches(a: VersionSpecView, b: VersionSpecView, v: Seq<char>)
    requires
        a.intersect(b) is Some,
    ensures
        a.intersect(b).unwrap().matches(v) <==> (a.matches(v) && b.matches(v)),
{
    if a != b {
        if let (VersionSpecView::Partial(x), VersionSpecView::Partial(y)) = (a, b) {
            let (px, py, pv) = (encode_utf8(x), encode_utf8(y), encode_utf8(v));
            if px.len() < py.len() {
                assert(!prefix_matches(py, px));
                if prefix_matches(py, pv) {
                    lemma_prefix_matches_transitive(px, py, pv);
                }
            } else if py.len() < px.len() {
                assert(!prefix_matches(px, py));
                if prefix_matches(px, pv) {
                    lemma_prefix_matches_transitive(py, px, pv);
                }
            } else if a.matches(y) {
                lemma_prefix_same_len(px, py);
            } else {
                lemma_prefix_same_len(py, px);
            }
        }
    }
}

} // verus!

verus! {

/// Returns whether the spec `Partial(prefix)` matches `version`, byte by byte.
pub fn partial_matches(prefix: &str, version: &str) -> (r: bool)
    ensures
        r == prefix_matches(encode_utf8(prefix@), encode_utf8(version@)),
{
    let p = prefix.as_bytes();
    let v = version.as_bytes();
    if p.len() > v.len() {
        return false;
    }
    let mut i: usize = 0;
    while i < p.len()
        invariant
            p@ == encode_utf8(prefix@),
            v@ == encode_utf8(version@),
            p@.len() <= v@.len(),
            i <= p@.len(),
            forall|j: int| 0 <= j < i ==> p@[j] == v@[j],
        decreases p@.len() - i,
    {
        if p[i] != v[i] {
            assert(v@.subrange(0, p@.len() as int)[i as int] != p@[i as int]);
            return false;
        }
        i = i + 1;
    }
    assert(v@.subrange(0, p@.len() as int) =~= p@);
    if v.len() == p.len() {
        true
    } else {
        let b = v[p.len()];
        !(b >= 0x30 && b <= 0x39)
    }
}

} // verus!

verus! {

/// `v` satisfies every request of `rs` named `name`.
pub open spec fn satisfies_all(rs: Seq<RequestView>, name: Seq<char>, v: Seq<char>) -> bool {
    forall|i: int| 0 <= i < rs.len() && (#[trigger] rs[i]).name == name ==> rs[i].version.matches(v)
}

/// Some version satisfies every request of `rs` named `name`.
pub open spec fn jointly_satisfiable(rs: Seq<RequestView>, name: Seq<char>) -> bool {
    exists|v: Seq<char>| satisfies_all(rs, name, v)
}

/// What holds of the merge of every prefix of the requests.
spec fn merge_invariant(rs: Seq<RequestView>, st: MergeState) -> bool {
    &&& request_names(st.merged).no_duplicates()
    &&& forall|n: Seq<char>| request_names(st.merged).contains(n) <==> request_names(rs).contains(n)
    &&& st.conflicts.len() == 0 ==> forall|j: int, v: Seq<char>|
        0 <= j < st.merged.len() ==> (#[trigger] st.merged[j].version.matches(v) <==> satisfies_all(
            rs,
            st.merged[j].name,
            v,
        ))
    &&& st.conflicts.len() > 0 ==> exists|i: int|
        0 <= i < rs.len() && !jointly_satisfiable(rs, (#[trigger] rs[i]).name)
}

/// Satisfying all requests of a longer list means satisfying those of its prefix.
proof fn lemma_satisfies_all_push(rs: Seq<RequestView>, r: RequestView, name: Seq<char>, v: Seq<char>)
    ensures
        satisfies_all(rs.push(r), name, v) <==> (satisfies_all(rs, name, v) && (r.name == name
            ==> r.version.matches(v))),
{
    let rs2 = rs.push(r);
    if satisfies_all(rs2, name, v) {
        assert forall|i: int| 0 <= i < rs.len() && (#[trigger] rs[i]).name == name implies rs[i].version.matches(v) by {
            assert(rs2[i] == rs[i]);
        }
        assert(rs2[rs.len() as int] == r);
    }
    if satisfies_all(rs, name, v) && (r.name == name ==> r.version.matches(v)) {
        assert forall|i: int| 0 <= i < rs2.len() && (#[trigger] rs2[i]).name == name implies rs2[i].version.matches(v) by {
            if i < rs.len() {
                assert(rs2[i] == rs[i]);
            }
        }
    }
}

/// An element of a pushed sequence is the pushed one or an element of the sequence.
proof fn lemma_push_contains<T>(s: Seq<T>, x: T, n: T)
    ensures
        s.push(x).contains(n) <==> (s.contains(n) || n == x),
{
    if s.contains(n) {
        let k = choose|k: int| 0 <= k < s.len() && s[k] == n;
        assert(s.push(x)[k] == n);
    }
    if n == x {
        assert(s.push(x)[s.len() as int] == x);
    }
    if s.push(x).contains(n) {
        let k = choose|k: int| 0 <= k < s.push(x).len() && s.push(x)[k] == n;
        if k < s.len() {
            assert(s[k] == n);
        }
    }
}

/// The merge invariant holds of every prefix of the requests.
proof fn lemma_merge_invariant(rs: Seq<RequestView>)
    ensures
        merge_invariant(rs, merge_all(rs)),
    decreases rs.len(),
{
    if rs.len() == 0 {
        return;
    }
    let prev = rs.drop_last();
    let r = rs.last();
    lemma_merge_invariant(prev);
    assert(prev.push(r) =~= rs);
    let st = merge_all(prev);
    let st2 = merge_all(rs);
    let names = request_names(st.merged);
    let i = first_index_of(names, r.name);
    lemma_first_index_of(names, r.name);
    assert(request_names(rs) =~= request_names(prev).push(r.name));
    assert forall|n: Seq<char>, v: Seq<char>|
        #[trigger] satisfies_all(rs, n, v) <==> (satisfies_all(prev, n, v) && (r.name == n
            ==> r.version.matches(v))) by {
        lemma_satisfies_all_push(prev, r, n, v);
    }
    assert forall|n: Seq<char>| #[trigger] request_names(rs).contains(n) <==> (request_names(prev).contains(n) || n == r.name) by {
        lemma_push_contains(request_names(prev), r.name, n);
    }
    // The conflict witness of the prefix stays a witness.
    if st.conflicts.len() > 0 {
        let w = choose|w: int| 0 <= w < prev.len() && !jointly_satisfiable(prev, (#[trigger] prev[w]).name);
        assert(rs[w] == prev[w]);
        if jointly_satisfiable(rs, rs[w].name) {
            let v = choose|v: Seq<char>| satisfies_all(rs, rs[w].name, v);
            assert(satisfies_all(prev, prev[w].name, v));
        }
    }
    if i == st.merged.len() {
        assert(!names.contains(r.name));
        assert(request_names(st2.merged) =~= names.push(r.name));
        assert forall|n: Seq<char>| #[trigger] request_names(st2.merged).contains(n) <==> (names.contains(n) || n == r.name) by {
            lemma_push_contains(names, r.name, n);
        }
        assert(request_names(st2.merged).no_duplicates()) by {
            assert forall|p: int, q: int|
                0 <= p < names.push(r.name).len() && 0 <= q < names.push(r.name).len() && p != q implies names.push(
                r.name,
            )[p] != names.push(r.name)[q] by {
                if p < names.len() && q < names.len() {
                } else if p < names.len() {
                    assert(names.contains(names[p]));
                } else {
                    assert(names.contains(names[q]));
                }
            }
        }
        assert(!request_names(prev).contains(r.name));
        if st2.conflicts.len() == 0 {
            assert forall|j: int, v: Seq<char>| 0 <= j < st2.merged.len() implies (
            #[trigger] st2.merged[j].version.matches(v) <==> satisfies_all(rs, st2.merged[j].name, v)) by {
                if j < st.merged.len() {
                    assert(st2.merged[j] == st.merged[j]);
                    assert(names[j] == st.merged[j].name);
                } else {
                    assert(st2.merged[j] == r);
                    assert forall|k: int| 0 <= k < prev.len() && (#[trigger] prev[k]).name == r.name implies prev[k].version.matches(v) by {
                        assert(request_names(prev)[k] == prev[k].name);
                    }
                }
            }
        }
    } else {
        assert(names[i] == st.merged[i].name);
        assert(st.merged[i].name == r.name);
        assert(names.contains(r.name));
        match st.merged[i].version.intersect(r.version) {
            Some(m) => {
                assert(request_names(st2.merged) =~= names);
                if st2.conflicts.len() == 0 {
                    assert forall|j: int, v: Seq<char>| 0 <= j < st2.merged.len() implies (
                    #[trigger] st2.merged[j].version.matches(v) <==> satisfies_all(rs, st2.merged[j].name, v)) by {
                        if j != i {
                            assert(st2.merged[j] == st.merged[j]);
                            assert(names[j] != names[i]);
                        } else {
                            law_intersect_matches(st.merged[i].version, r.version, v);
                        }
                    }
                }
            },
            None => {
                assert(st2.merged == st.merged);
                lemma_first_index_of(conflict_names(st.conflicts), r.name);
                assert(st2.conflicts.len() > 0);
                if st.conflicts.len() == 0 {
                    law_intersect_none_iff_incompatible(st.merged[i].version, r.version);
                    law_compatible_iff_common_version(st.merged[i].version, r.version);
                    let last = (rs.len() - 1) as int;
                    assert(rs[last] == r);
                    if jointly_satisfiable(rs, r.name) {
                        let v = choose|v: Seq<char>| satisfies_all(rs, r.name, v);
                        assert(st.merged[i] == st.merged[i]);
                        assert(st.merged[i].version.matches(v));
                        assert(r.version.matches(v));
                    }
                    assert(!jointly_satisfiable(rs, rs[last].name));
                }
            },
        }
    }
}

/// Merging keeps one request per name, the names of the requests, in the order
/// they first appear.
pub proof fn law_merge_names(rs: Seq<RequestView>)
    ensures
        request_names(merge_all(rs).merged).no_duplicates(),
        forall|n: Seq<char>|
            request_names(merge_all(rs).merged).contains(n) <==> request_names(rs).contains(n),
{
    lemma_merge_invariant(rs);
}

/// Merging succeeds exactly when, for each name, some version satisfies all the requests
/// of that name; and then a version satisfies a merged request exactly when it satisfies
/// every request of that name.
pub proof fn law_merge_is_intersection(rs: Seq<RequestView>)
    ensures
        merge_requests(rs) is Ok <==> forall|i: int|
            0 <= i < rs.len() ==> jointly_satisfiable(rs, (#[trigger] rs[i]).name),
        merge_requests(rs) matches Ok(m) ==> forall|j: int, v: Seq<char>|
            0 <= j < m.len() ==> (#[trigger] m[j].version.matches(v) <==> satisfies_all(
                rs,
                m[j].name,
                v,
            )),
{
    lemma_merge_invariant(rs);
    let st = merge_all(rs);
    if st.conflicts.len() == 0 {
        assert forall|i: int| 0 <= i < rs.len() implies jointly_satisfiable(rs, (#[trigger] rs[i]).name) by {
            assert(request_names(rs)[i] == rs[i].name);
            assert(request_names(rs).contains(rs[i].name));
            let j = choose|j: int| 0 <= j < st.merged.len() && request_names(st.merged)[j] == rs[i].name;
            lemma_witness_matches(st.merged[j].version);
            assert(st.merged[j].version.matches(st.merged[j].version.witness()));
            assert(satisfies_all(rs, st.merged[j].name, st.merged[j].version.witness()));
        }
    }
}

} // verus!

verus! {

/// An exact version that reads back as itself: not empty, not `*`, not starting with `~`.
pub open spec fn is_plain_version(e: Seq<char>) -> bool {
    e.len() > 0 && e != seq!['*'] && e[0] != '~'
}

/// A version spec whose text reads back as itself.
pub open spec fn displays_faithfully(v: VersionSpecView) -> bool {
    match v {
        VersionSpecView::Exact(e) => is_plain_version(e),
        _ => true,
    }
}

/// Reading the text of a version spec gives the spec back, unless it is an exact version
/// that is empty, `*` or starts with `~`.
pub proof fn law_version_spec_display_parse(v: VersionSpecView)
    requires
        displays_faithfully(v),
    ensures
        parse_version_spec(v.display()) == v,
{
    if let VersionSpecView::Partial(p) = v {
        let d = seq!['~'] + p;
        assert(d.subrange(1, d.len() as int) =~= p);
        assert(d != seq!['*']) by {
            assert(d[0] == '~');
        }
    }
}

/// The text of a read version spec is the text read, unless that text is empty.
pub proof fn law_version_spec_parse_display(s: Seq<char>)
    requires
        s.len() > 0,
    ensures
        parse_version_spec(s).display() == s,
{
    if s != seq!['*'] && s[0] == '~' {
        assert(seq!['~'] + s.subrange(1, s.len() as int) =~= s);
    }
}

/// The text of a read request is the text read, unless it has an `@` followed by
/// nothing or by `*`.
pub proof fn law_request_parse_display(s: Seq<char>)
    requires
        first_index_of(s, '@') == s.len() || (request_version(s).len() > 0 && request_version(s)
            != seq!['*']),
    ensures
        parse_request(s).display() == s,
{
    lemma_first_index_of(s, '@');
    let k = first_index_of(s, '@');
    if k == s.len() {
        assert(s.subrange(0, k) =~= s);
    } else {
        let rest = request_version(s);
        law_version_spec_parse_display(rest);
        assert(parse_version_spec(rest) != VersionSpecView::Any);
        assert(s.subrange(0, k) + seq!['@'] + rest =~= s);
    }
}

/// Reading the text of a request gives the request back, when its name has no `@` and
/// its version spec displays faithfully.
pub proof fn law_request_display_parse(r: RequestView)
    requires
        !r.name.contains('@'),
        displays_faithfully(r.version),
    ensures
        parse_request(r.display()) == r,
{
    let d = r.display();
    if r.version == VersionSpecView::Any {
        lemma_first_index_of_is(d, '@', d.len() as int);
        assert(d.subrange(0, d.len() as int) =~= d);
        assert(request_version(d) =~= Seq::<char>::empty());
    } else {
        let n = r.name.len() as int;
        assert forall|j: int| 0 <= j < n implies d[j] != '@' by {
            assert(d[j] == r.name[j]);
        }
        assert(d[n] == '@');
        lemma_first_index_of_is(d, '@', n);
        assert(d.subrange(0, n) =~= r.name);
        assert(d.subrange(n + 1, d.len() as int) =~= r.version.display());
        law_version_spec_display_parse(r.version);
        if let VersionSpecView::Exact(e) = r.version {
            assert(r.version.display().len() > 0);
        }
        if let VersionSpecView::Partial(p) = r.version {
            assert((seq!['~'] + p).len() > 0);
        }
    }
}

} // verus!

verus! {

/// The packages to add, change and remove in a workspace.
pub struct ChangeSetView {
    pub add: Seq<RequestView>,
    pub change: Seq<RequestView>,
    pub remove: Seq<RequestView>,
}

/// A package installed in a workspace: name, resolved version, requested spec.
pub struct InstalledView {
    pub name: Seq<char>,
    pub version: Seq<char>,
    pub requested: VersionSpecView,
}

/// The names of the installed packages.
pub open spec fn installed_names(ws: Seq<InstalledView>) -> Seq<Seq<char>> {
    ws.map_values(|p: InstalledView| p.name)
}

/// The requests that the installed packages answered.
pub open spec fn installed_requests(ws: Seq<InstalledView>) -> Seq<RequestView> {
    ws.map_values(|p: InstalledView| RequestView { name: p.name, version: p.requested })
}

/// Sorts one merged request: a package that is installed and satisfies it needs nothing,
/// one that is installed and does not is to change, one that is not installed is to add
/// (once).
pub open spec fn resolve_step(cs: ChangeSetView, ws: Seq<InstalledView>, r: RequestView) -> ChangeSetView {
    let i = first_index_of(installed_names(ws), r.name);
    if i < ws.len() {
        if r.version.matches(ws[i].version) {
            cs
        } else {
            ChangeSetView { change: cs.change.push(r), ..cs }
        }
    } else if request_names(cs.add).contains(r.name) {
        cs
    } else {
        ChangeSetView { add: cs.add.push(r), ..cs }
    }
}

/// Sorts the merged requests in order.
pub open spec fn resolve_all(cs: ChangeSetView, ws: Seq<InstalledView>, merged: Seq<RequestView>) -> ChangeSetView
    decreases merged.len(),
{
    if merged.len() == 0 {
        cs
    } else {
        resolve_step(resolve_all(cs, ws, merged.drop_last()), ws, merged.last())
    }
}

/// Resolves a changeset against the installed packages: the requests of the installed
/// packages and the requests to add are merged, and the merged requests are sorted into
/// the packages to add and to change. Fails with the conflicts of the merge.
pub open spec fn resolve_changes(cs: ChangeSetView, ws: Seq<InstalledView>) -> Result<
    ChangeSetView,
    ConflictsView,
> {
    match merge_requests(installed_requests(ws) + cs.add) {
        Ok(merged) => Ok(
            resolve_all(ChangeSetView { add: Seq::empty(), ..cs }, ws, merged),
        ),
        Err(c) => Err(c),
    }
}

} // verus!

verus! {

/// A package of this name is installed.
pub open spec fn is_installed(ws: Seq<InstalledView>, name: Seq<char>) -> bool {
    installed_names(ws).contains(name)
}

/// The version installed under `name` (the first package of that name).
pub open spec fn installed_version(ws: Seq<InstalledView>, name: Seq<char>) -> Seq<char> {
    ws[first_index_of(installed_names(ws), name)].version
}

/// The merged requests for packages that are not installed, in order.
pub open spec fn requests_to_add(ws: Seq<InstalledView>, m: Seq<RequestView>) -> Seq<RequestView>
    decreases m.len(),
{
    if m.len() == 0 {
        Seq::empty()
    } else {
        let rest = requests_to_add(ws, m.drop_last());
        if is_installed(ws, m.last().name) {
            rest
        } else {
            rest.push(m.last())
        }
    }
}

/// The merged requests for installed packages whose installed version does not satisfy
/// them, in order.
pub open spec fn requests_to_change(ws: Seq<InstalledView>, m: Seq<RequestView>) -> Seq<RequestView>
    decreases m.len(),
{
    if m.len() == 0 {
        Seq::empty()
    } else {
        let rest = requests_to_change(ws, m.drop_last());
        let r = m.last();
        if is_installed(ws, r.name) && !r.version.matches(installed_version(ws, r.name)) {
            rest.push(r)
        } else {
            rest
        }
    }
}

/// The first index of a name is below the length exactly when the name occurs.
proof fn lemma_first_index_of_contains(s: Seq<Seq<char>>, n: Seq<char>)
    ensures
        (first_index_of(s, n) < s.len()) <==> s.contains(n),
{
    lemma_first_index_of(s, n);
    if s.contains(n) {
        let k = choose|k: int| 0 <= k < s.len() && s[k] == n;
        assert(!(first_index_of(s, n) == s.len())) by {
            if first_index_of(s, n) == s.len() {
                assert(s[k] != n);
            }
        }
    }
}

/// The names of a sequence of requests with one more request.
proof fn lemma_request_names_push(rs: Seq<RequestView>, r: RequestView)
    ensures
        request_names(rs.push(r)) == request_names(rs).push(r.name),
{
    assert(request_names(rs.push(r)) =~= request_names(rs).push(r.name));
}

/// A request is to add exactly when it is merged and its package is not installed; it
/// is to change exactly when it is merged, its package is installed, and the installed
/// version does not satisfy it.
proof fn lemma_sorted_membership(ws: Seq<InstalledView>, m: Seq<RequestView>)
    ensures
        forall|x: RequestView|
            #[trigger] requests_to_add(ws, m).contains(x) <==> (m.contains(x) && !is_installed(
                ws,
                x.name,
            )),
        forall|x: RequestView|
            #[trigger] requests_to_change(ws, m).contains(x) <==> (m.contains(x) && is_installed(
                ws,
                x.name,
            ) && !x.version.matches(installed_version(ws, x.name))),
    decreases m.len(),
{
    if m.len() > 0 {
        let p = m.drop_last();
        lemma_sorted_membership(ws, p);
        assert(m =~= p.push(m.last()));
        assert forall|x: RequestView|
            requests_to_add(ws, m).contains(x) <==> (m.contains(x) && !is_installed(ws, x.name)) by {
            lemma_push_contains(requests_to_add(ws, p), m.last(), x);
            lemma_push_contains(p, m.last(), x);
        }
        assert forall|x: RequestView|
            requests_to_change(ws, m).contains(x) <==> (m.contains(x) && is_installed(ws, x.name)
                && !x.version.matches(installed_version(ws, x.name))) by {
            lemma_push_contains(requests_to_change(ws, p), m.last(), x);
            lemma_push_contains(p, m.last(), x);
        }
    }
}

/// Every request to add, or to change, is one of the merged requests.
proof fn lemma_sorted_requests_come_from(ws: Seq<InstalledView>, m: Seq<RequestView>)
    ensures
        forall|x: RequestView| requests_to_add(ws, m).contains(x) ==> m.contains(x),
        forall|x: RequestView| requests_to_change(ws, m).contains(x) ==> m.contains(x),
{
    lemma_sorted_membership(ws, m);
}

/// With merged requests that name each package once, sorting them never meets a name
/// twice: the requests to add are those for packages not installed, and the requests to
/// change are appended to the changes already there.
proof fn lemma_resolve_all_sorts(cs: ChangeSetView, ws: Seq<InstalledView>, m: Seq<RequestView>)
    requires
        cs.add == Seq::<RequestView>::empty(),
        request_names(m).no_duplicates(),
    ensures
        resolve_all(cs, ws, m) == (ChangeSetView {
            add: requests_to_add(ws, m),
            change: cs.change + requests_to_change(ws, m),
            remove: cs.remove,
        }),
    decreases m.len(),
{
    if m.len() == 0 {
        assert(cs.change + Seq::<RequestView>::empty() =~= cs.change);
    } else {
        let p = m.drop_last();
        let r = m.last();
        assert(m =~= p.push(r));
        lemma_request_names_push(p, r);
        assert(request_names(p).no_duplicates()) by {
            assert forall|i: int, j: int|
                0 <= i < request_names(p).len() && 0 <= j < request_names(p).len() && i != j
                implies request_names(p)[i] != request_names(p)[j] by {
                assert(request_names(p)[i] == request_names(m)[i]);
                assert(request_names(p)[j] == request_names(m)[j]);
            }
        }
        assert(!request_names(p).contains(r.name)) by {
            if request_names(p).contains(r.name) {
                let k = choose|k: int| 0 <= k < request_names(p).len() && request_names(p)[k] == r.name;
                assert(request_names(m)[k] == request_names(m)[m.len() - 1]);
            }
        }
        lemma_resolve_all_sorts(cs, ws, p);
        lemma_sorted_requests_come_from(ws, p);
        lemma_first_index_of_contains(installed_names(ws), r.name);
        let prev = resolve_all(cs, ws, p);
        assert(!request_names(prev.add).contains(r.name)) by {
            if request_names(prev.add).contains(r.name) {
                let k = choose|k: int| 0 <= k < request_names(prev.add).len() && request_names(prev.add)[k] == r.name;
                assert(prev.add == requests_to_add(ws, p));
                assert(prev.add[k].name == r.name);
                assert(prev.add.contains(prev.add[k]));
                assert(p.contains(prev.add[k]));
                let q = choose|q: int| 0 <= q < p.len() && p[q] == prev.add[k];
                assert(request_names(p)[q] == r.name);
            }
        }
        assert((cs.change + requests_to_change(ws, p)).push(r) =~= cs.change + requests_to_change(ws, p).push(r));
    }
}

/// Resolving a changeset sorts the merged requests: the ones for packages that are not
/// installed are to add, the ones that the installed version does not satisfy are
/// appended to the changes, and the removals stay as they were.
pub proof fn law_resolve_sorts_merged_requests(cs: ChangeSetView, ws: Seq<InstalledView>)
    ensures
        resolve_changes(cs, ws) == match merge_requests(installed_requests(ws) + cs.add) {
            Ok(m) => Ok(
                ChangeSetView {
                    add: requests_to_add(ws, m),
                    change: cs.change + requests_to_change(ws, m),
                    remove: cs.remove,
                },
            ),
            Err(c) => Err::<ChangeSetView, ConflictsView>(c),
        },
{
    let all = installed_requests(ws) + cs.add;
    law_merge_names(all);
    if let Ok(m) = merge_requests(all) {
        lemma_resolve_all_sorts(ChangeSetView { add: Seq::empty(), ..cs }, ws, m);
    }
}

/// A sequence of requests names `n` exactly when one of its requests has that name.
proof fn lemma_request_names_contains(rs: Seq<RequestView>, n: Seq<char>)
    ensures
        request_names(rs).contains(n) <==> exists|i: int| 0 <= i < rs.len() && (#[trigger] rs[i]).name == n,
{
    if request_names(rs).contains(n) {
        let k = choose|k: int| 0 <= k < request_names(rs).len() && request_names(rs)[k] == n;
        assert(rs[k].name == n);
    }
    if exists|i: int| 0 <= i < rs.len() && (#[trigger] rs[i]).name == n {
        let i = choose|i: int| 0 <= i < rs.len() && (#[trigger] rs[i]).name == n;
        assert(request_names(rs)[i] == n);
    }
}

/// Sorting merged requests that name each package once gives requests to add, and
/// requests to change, that name each package once.
proof fn lemma_sorted_no_duplicates(ws: Seq<InstalledView>, m: Seq<RequestView>)
    requires
        request_names(m).no_duplicates(),
    ensures
        request_names(requests_to_add(ws, m)).no_duplicates(),
        request_names(requests_to_change(ws, m)).no_duplicates(),
    decreases m.len(),
{
    if m.len() > 0 {
        let p = m.drop_last();
        let r = m.last();
        assert(m =~= p.push(r));
        lemma_request_names_push(p, r);
        assert(request_names(p).no_duplicates()) by {
            assert forall|i: int, j: int|
                0 <= i < request_names(p).len() && 0 <= j < request_names(p).len() && i != j
                implies request_names(p)[i] != request_names(p)[j] by {
                assert(request_names(p)[i] == request_names(m)[i]);
                assert(request_names(p)[j] == request_names(m)[j]);
            }
        }
        lemma_sorted_no_duplicates(ws, p);
        lemma_sorted_membership(ws, p);
        let a = requests_to_add(ws, p);
        let c = requests_to_change(ws, p);
        assert forall|s: Seq<RequestView>| (s == a || s == c) implies !request_names(s).contains(
            r.name,
        ) by {
            lemma_request_names_contains(s, r.name);
            if request_names(s).contains(r.name) {
                let i = choose|i: int| 0 <= i < s.len() && (#[trigger] s[i]).name == r.name;
                assert(s.contains(s[i]));
                assert(p.contains(s[i]));
                let q = choose|q: int| 0 <= q < p.len() && p[q] == s[i];
                assert(request_names(m)[q] == request_names(m)[m.len() - 1]);
            }
        }
        lemma_request_names_push(a, r);
        lemma_request_names_push(c, r);
        assert forall|s: Seq<RequestView>|
            (s == a || s == c) && request_names(s).no_duplicates() && !request_names(s).contains(r.name)
            implies request_names(s.push(r)).no_duplicates() by {
            lemma_request_names_push(s, r);
            let ns = request_names(s.push(r));
            assert forall|i: int, j: int| 0 <= i < ns.len() && 0 <= j < ns.len() && i != j implies ns[i]
                != ns[j] by {
                if i < s.len() && j < s.len() {
                    assert(ns[i] == request_names(s)[i]);
                    assert(ns[j] == request_names(s)[j]);
                } else if i < s.len() {
                    assert(ns[i] == request_names(s)[i]);
                    assert(request_names(s).contains(ns[i]));
                } else if j < s.len() {
                    assert(ns[j] == request_names(s)[j]);
                    assert(request_names(s).contains(ns[j]));
                }
            }
        }
    }
}

/// A resolved changeset keeps the removals, and keeps the changes it had, ahead of the
/// new ones.
pub proof fn law_resolve_keeps_removals_and_changes(cs: ChangeSetView, ws: Seq<InstalledView>)
    ensures
        resolve_changes(cs, ws) matches Ok(out) ==> out.remove == cs.remove && cs.change.len()
            <= out.change.len() && out.change.subrange(0, cs.change.len() as int) == cs.change,
{
    law_resolve_sorts_merged_requests(cs, ws);
    if let Ok(out) = resolve_changes(cs, ws) {
        assert(out.change.subrange(0, cs.change.len() as int) =~= cs.change);
    }
}

/// A resolved changeset adds each package at most once and only packages that are not
/// installed; each new change is for an installed package whose installed version does
/// not satisfy it, and names a package once.
pub proof fn law_resolve_adds_missing_changes_unsatisfied(cs: ChangeSetView, ws: Seq<InstalledView>)
    ensures
        resolve_changes(cs, ws) matches Ok(out) ==> {
            let added = out.add;
            let changed = out.change.subrange(cs.change.len() as int, out.change.len() as int);
            &&& request_names(added).no_duplicates()
            &&& request_names(changed).no_duplicates()
            &&& forall|i: int| 0 <= i < added.len() ==> !is_installed(ws, (#[trigger] added[i]).name)
            &&& forall|i: int|
                0 <= i < changed.len() ==> is_installed(ws, (#[trigger] changed[i]).name)
                    && !changed[i].version.matches(installed_version(ws, changed[i].name))
        },
{
    law_resolve_sorts_merged_requests(cs, ws);
    let all = installed_requests(ws) + cs.add;
    law_merge_names(all);
    if let Ok(m) = merge_requests(all) {
        let out = resolve_changes(cs, ws)->Ok_0;
        let added = requests_to_add(ws, m);
        let changed = requests_to_change(ws, m);
        assert(out.change.subrange(cs.change.len() as int, out.change.len() as int) =~= changed);
        lemma_sorted_no_duplicates(ws, m);
        lemma_sorted_membership(ws, m);
        assert forall|i: int| 0 <= i < added.len() implies !is_installed(ws, (#[trigger] added[i]).name) by {
            assert(added.contains(added[i]));
        }
        assert forall|i: int| 0 <= i < changed.len() implies is_installed(ws, (#[trigger] changed[i]).name)
            && !changed[i].version.matches(installed_version(ws, changed[i].name)) by {
            assert(changed.contains(changed[i]));
        }
    }
}

/// Every added or newly changed request asks for exactly the versions that satisfy all the
/// requests of its name: those of the installed packages and those to add.
pub proof fn law_resolve_specs_are_intersections(cs: ChangeSetView, ws: Seq<InstalledView>)
    ensures
        resolve_changes(cs, ws) matches Ok(out) ==> {
            let all = installed_requests(ws) + cs.add;
            let changed = out.change.subrange(cs.change.len() as int, out.change.len() as int);
            &&& forall|i: int, v: Seq<char>|
                0 <= i < out.add.len() ==> (#[trigger] out.add[i].version.matches(v)
                    <==> satisfies_all(all, out.add[i].name, v))
            &&& forall|i: int, v: Seq<char>|
                0 <= i < changed.len() ==> (#[trigger] changed[i].version.matches(v)
                    <==> satisfies_all(all, changed[i].name, v))
        },
{
    law_resolve_sorts_merged_requests(cs, ws);
    let all = installed_requests(ws) + cs.add;
    law_merge_is_intersection(all);
    if let Ok(m) = merge_requests(all) {
        let out = resolve_changes(cs, ws)->Ok_0;
        let added = requests_to_add(ws, m);
        let changed = requests_to_change(ws, m);
        assert(out.change.subrange(cs.change.len() as int, out.change.len() as int) =~= changed);
        lemma_sorted_membership(ws, m);
        assert forall|i: int, v: Seq<char>| 0 <= i < added.len() implies (#[trigger] added[i].version.matches(v)
            <==> satisfies_all(all, added[i].name, v)) by {
            assert(added.contains(added[i]));
            let j = choose|j: int| 0 <= j < m.len() && m[j] == added[i];
            assert(m[j].version.matches(v) <==> satisfies_all(all, m[j].name, v));
        }
        assert forall|i: int, v: Seq<char>| 0 <= i < changed.len() implies (#[trigger] changed[i].version.matches(v)
            <==> satisfies_all(all, changed[i].name, v)) by {
            assert(changed.contains(changed[i]));
            let j = choose|j: int| 0 <= j < m.len() && m[j] == changed[i];
            assert(m[j].version.matches(v) <==> satisfies_all(all, m[j].name, v));
        }
    }
}

/// Nothing requested is left out: a requested package that is not installed is added; an
/// installed one whose version fails one of the requests of its name is changed; and an
/// installed one whose version satisfies them all is neither added nor changed.
pub proof fn law_resolve_is_complete(cs: ChangeSetView, ws: Seq<InstalledView>)
    ensures
        resolve_changes(cs, ws) matches Ok(out) ==> {
            let all = installed_requests(ws) + cs.add;
            let changed = out.change.subrange(cs.change.len() as int, out.change.len() as int);
            &&& forall|n: Seq<char>|
                request_names(all).contains(n) && !is_installed(ws, n) ==> #[trigger] request_names(
                    out.add,
                ).contains(n)
            &&& forall|n: Seq<char>|
                request_names(all).contains(n) && is_installed(ws, n) && !satisfies_all(
                    all,
                    n,
                    installed_version(ws, n),
                ) ==> #[trigger] request_names(changed).contains(n)
            &&& forall|n: Seq<char>|
                #![trigger request_names(out.add).contains(n)]
                #![trigger request_names(changed).contains(n)]
                is_installed(ws, n) && satisfies_all(all, n, installed_version(ws, n)) ==> !request_names(
                    out.add,
                ).contains(n) && !request_names(changed).contains(n)
        },
{
    law_resolve_sorts_merged_requests(cs, ws);
    let all = installed_requests(ws) + cs.add;
    law_merge_is_intersection(all);
    law_merge_names(all);
    if let Ok(m) = merge_requests(all) {
        let out = resolve_changes(cs, ws)->Ok_0;
        let added = requests_to_add(ws, m);
        let changed = requests_to_change(ws, m);
        assert(out.change.subrange(cs.change.len() as int, out.change.len() as int) =~= changed);
        lemma_sorted_membership(ws, m);
        assert forall|n: Seq<char>| request_names(all).contains(n) && !is_installed(ws, n) implies #[trigger] request_names(
            added,
        ).contains(n) by {
            assert(request_names(m).contains(n));
            lemma_request_names_contains(m, n);
            let j = choose|j: int| 0 <= j < m.len() && (#[trigger] m[j]).name == n;
            assert(m.contains(m[j]));
            assert(added.contains(m[j]));
            let k = choose|k: int| 0 <= k < added.len() && added[k] == m[j];
            lemma_request_names_contains(added, n);
        }
        assert forall|n: Seq<char>|
            request_names(all).contains(n) && is_installed(ws, n) && !satisfies_all(
                all,
                n,
                installed_version(ws, n),
            ) implies #[trigger] request_names(changed).contains(n) by {
            assert(request_names(m).contains(n));
            lemma_request_names_contains(m, n);
            let j = choose|j: int| 0 <= j < m.len() && (#[trigger] m[j]).name == n;
            assert(m[j].version.matches(installed_version(ws, n)) <==> satisfies_all(all, m[j].name, installed_version(ws, n)));
            assert(m.contains(m[j]));
            assert(changed.contains(m[j]));
            let k = choose|k: int| 0 <= k < changed.len() && changed[k] == m[j];
            lemma_request_names_contains(changed, n);
        }
        assert forall|n: Seq<char>|
            is_installed(ws, n) && satisfies_all(all, n, installed_version(ws, n)) implies !request_names(
                added,
            ).contains(n) && !request_names(changed).contains(n) by {
            lemma_request_names_contains(added, n);
            lemma_request_names_contains(changed, n);
            if request_names(added).contains(n) {
                let k = choose|k: int| 0 <= k < added.len() && (#[trigger] added[k]).name == n;
                assert(added.contains(added[k]));
            }
            if request_names(changed).contains(n) {
                let k = choose|k: int| 0 <= k < changed.len() && (#[trigger] changed[k]).name == n;
                assert(changed.contains(changed[k]));
                let j = choose|j: int| 0 <= j < m.len() && m[j] == changed[k];
                assert(m[j].version.matches(installed_version(ws, n)) <==> satisfies_all(all, m[j].name, installed_version(ws, n)));
            }
        }
    }
}

/// Resolving a changeset succeeds exactly when, for every name requested (by the
/// installed packages or by the requests to add), some version satisfies all the
/// requests of that name.
pub proof fn law_resolve_succeeds_iff_satisfiable(cs: ChangeSetView, ws: Seq<InstalledView>)
    ensures
        resolve_changes(cs, ws) is Ok <==> forall|i: int|
            0 <= i < (installed_requests(ws) + cs.add).len() ==> jointly_satisfiable(
                installed_requests(ws) + cs.add,
                (#[trigger] (installed_requests(ws) + cs.add)[i]).name,
            ),
{
    law_merge_is_intersection(installed_requests(ws) + cs.add);
}

/// The version specs of the requests named `name`, in order.
pub open spec fn specs_named(rs: Seq<RequestView>, name: Seq<char>) -> Seq<VersionSpecView>
    decreases rs.len(),
{
    if rs.len() == 0 {
        Seq::empty()
    } else if rs.last().name == name {
        specs_named(rs.drop_last(), name).push(rs.last().version)
    } else {
        specs_named(rs.drop_last(), name)
    }
}

/// The left fold of `&` over version specs: `None` as soon as a step has no
/// intersection, and `None` for no specs at all.
pub open spec fn intersect_all(specs: Seq<VersionSpecView>) -> Option<VersionSpecView>
    decreases specs.len(),
{
    if specs.len() == 0 {
        None
    } else if specs.len() == 1 {
        Some(specs[0])
    } else {
        match intersect_all(specs.drop_last()) {
            Some(a) => a.intersect(specs.last()),
            None => None,
        }
    }
}

/// A name that no request has has no specs.
proof fn lemma_specs_named_absent(rs: Seq<RequestView>, name: Seq<char>)
    requires
        !request_names(rs).contains(name),
    ensures
        specs_named(rs, name) == Seq::<VersionSpecView>::empty(),
    decreases rs.len(),
{
    if rs.len() > 0 {
        let p = rs.drop_last();
        assert(request_names(rs)[rs.len() - 1] == rs.last().name);
        assert(!request_names(p).contains(name)) by {
            if request_names(p).contains(name) {
                let k = choose|k: int| 0 <= k < request_names(p).len() && request_names(p)[k] == name;
                assert(request_names(rs)[k] == name);
            }
        }
        lemma_specs_named_absent(p, name);
    }
}

/// Recording a conflict leaves at least one.
proof fn lemma_add_conflict_nonempty(
    c: ConflictsView,
    name: Seq<char>,
    a: VersionSpecView,
    b: VersionSpecView,
)
    ensures
        add_conflict(c, name, a, b).len() > 0,
{
    lemma_first_index_of(conflict_names(c), name);
}

/// While no conflict is found, each merged request holds the fold of `&` over the specs of
/// its name; once one is found, conflicts stay.
proof fn lemma_merge_folds(rs: Seq<RequestView>)
    ensures
        merge_all(rs).conflicts.len() == 0 ==> forall|j: int|
            0 <= j < merge_all(rs).merged.len() ==> intersect_all(
                specs_named(rs, (#[trigger] merge_all(rs).merged[j]).name),
            ) == Some(merge_all(rs).merged[j].version),
    decreases rs.len(),
{
    if rs.len() > 0 {
        let p = rs.drop_last();
        let r = rs.last();
        lemma_merge_folds(p);
        lemma_merge_invariant(p);
        let st = merge_all(p);
        let st2 = merge_all(rs);
        assert(st2 == merge_step(st, r));
        let names = request_names(st.merged);
        let i = first_index_of(names, r.name);
        lemma_first_index_of(names, r.name);
        if i < st.merged.len() {
            if st.merged[i].version.intersect(r.version) is None {
                lemma_add_conflict_nonempty(st.conflicts, r.name, st.merged[i].version, r.version);
            }
        }
        if st2.conflicts.len() == 0 {
            assert(st.conflicts.len() == 0);
            assert forall|j: int| 0 <= j < st2.merged.len() implies intersect_all(
                specs_named(rs, (#[trigger] st2.merged[j]).name),
            ) == Some(st2.merged[j].version) by {
                let n = st2.merged[j].name;
                if j < st.merged.len() && j != i {
                    assert(st2.merged[j] == st.merged[j]);
                    assert(names[j] == n);
                    if n == r.name {
                        if i < st.merged.len() {
                            assert(names[i] == names[j]);
                        }
                    }
                    assert(n != r.name);
                    assert(specs_named(rs, n) == specs_named(p, n));
                } else if j == i && i < st.merged.len() {
                    assert(names[i] == r.name);
                    assert(n == r.name);
                    let prev = specs_named(p, n);
                    assert(intersect_all(prev) == Some(st.merged[i].version));
                    assert(prev.len() > 0);
                    assert(specs_named(rs, n) == prev.push(r.version));
                    assert(prev.push(r.version).drop_last() =~= prev);
                } else {
                    assert(i == st.merged.len());
                    assert(j == st.merged.len());
                    assert(st2.merged[j] == r);
                    assert(!names.contains(r.name)) by {
                        if names.contains(r.name) {
                            let k = choose|k: int| 0 <= k < names.len() && names[k] == r.name;
                            assert(names[k] != r.name);
                        }
                    }
                    assert(!request_names(p).contains(r.name));
                    lemma_specs_named_absent(p, r.name);
                    assert(specs_named(rs, r.name) =~= seq![r.version]);
                }
            }
        }
    }
}

/// A merged request holds the left fold of `&` over the specs of all the requests of its
/// name, in order.
pub proof fn law_merge_is_fold(rs: Seq<RequestView>)
    ensures
        merge_requests(rs) matches Ok(m) ==> forall|j: int|
            0 <= j < m.len() ==> intersect_all(specs_named(rs, (#[trigger] m[j]).name)) == Some(
                m[j].version,
            ),
{
    lemma_merge_folds(rs);
}

/// The first byte of the UTF-8 encoding of a char is an ASCII digit exactly when the
/// char is one.
proof fn lemma_first_byte_is_digit(c: char)
    ensures
        encode_utf8(seq![c]).len() >= 1,
        is_ascii_digit(encode_utf8(seq![c])[0]) <==> is_decimal_digit(c),
{
    let v = c as u32;
    assert(seq![c].drop_first() =~= Seq::<char>::empty());
    assert(seq![c][0] == c);
    assert(encode_utf8(Seq::<char>::empty()) =~= Seq::<u8>::empty());
    assert(encode_utf8(seq![c]) == encode_scalar(v) + encode_utf8(seq![c].drop_first()));
    assert(encode_utf8(seq![c]) =~= encode_scalar(v));
    if has_width_1_encoding(v) {
        assert(leading_byte_width_1(v) == v as u8) by (bit_vector)
            requires
                v <= 0x7F,
        ;
    } else if has_width_2_encoding(v) {
        assert(leading_byte_width_2(v) >= 0xC0) by (bit_vector);
    } else if has_width_3_encoding(v) {
        assert(leading_byte_width_3(v) >= 0xE0) by (bit_vector);
    } else {
        assert(leading_byte_width_4(v) >= 0xF0) by (bit_vector);
    }
}

/// A partial version `~p` matches `p` itself, and a version that goes on after `p` exactly
/// when the char that follows `p` is not an ASCII digit: `~1` matches `1.0` and `1-beta`,
/// but not `10`.
pub proof fn law_partial_matches_at_boundary(p: Seq<char>, c: char, w: Seq<char>)
    ensures
        VersionSpecView::Partial(p).matches(p),
        VersionSpecView::Partial(p).matches(p + seq![c] + w) <==> !is_decimal_digit(c),
{
    let ep = encode_utf8(p);
    assert(ep.subrange(0, ep.len() as int) =~= ep);
    lemma_encode_utf8_concat(p, seq![c]);
    lemma_encode_utf8_concat(p + seq![c], w);
    lemma_first_byte_is_digit(c);
    let ev = encode_utf8(p + seq![c] + w);
    let ec = encode_utf8(seq![c]);
    assert(ev =~= ep + ec + encode_utf8(w));
    assert(ev.subrange(0, ep.len() as int) =~= ep);
    assert(ev[ep.len() as int] == ec[0]);
}

/// Any version satisfies `*`, and an exact spec only its own version.
pub proof fn law_any_and_exact_matches(e: Seq<char>, v: Seq<char>)
    ensures
        VersionSpecView::Any.matches(v),
        VersionSpecView::Exact(e).matches(v) <==> v == e,
{
}

} // verus!
