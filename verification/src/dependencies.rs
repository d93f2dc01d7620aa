//! Dependency requests of packages and their merging.
use std::ops::BitAnd;
use std::str::FromStr;

use vstd::prelude::*;
use vstd::string::StrSliceExecFns;

use crate::adapters::debug_string;
use crate::error::{conflicts_report, specs_report, version_spec_debug};
use crate::text::{
    first_index_of, lemma_first_index_of, lemma_first_index_of_is, lengths_fit, str_eq,
    suffix_from,
};
use crate::version::{
    add_conflict, conflict_names, conflicts_wf, law_add_conflict_wf,
    law_compatible_iff_common_version, merge_all, merge_requests, parse_dependency_version_spec,
    partial_matches, request_names, set_insert, ConflictsView, RequestView, VersionSpecView,
};

verus! {

/// A dependency of a package, with an unresolved version.
#[derive(Debug, Clone, Eq, Hash)]
pub struct DependencyRequest {
    /// The name of the dependency.
    pub name: String,
    /// The version of the dependency.
    pub version: VersionSpec,
}

/// A version spec, which can be used to resolve to a concrete version.
#[derive(Debug, Clone, Eq, Hash)]
pub enum VersionSpec {
    /// Any version at all.
    Any,
    /// A version matching this prefix.
    Partial(String),
    /// Exactly this version.
    Exact(String),
}

impl View for VersionSpec {
    type V = VersionSpecView;

    open spec fn view(&self) -> VersionSpecView {
        match self {
            VersionSpec::Any => VersionSpecView::Any,
            VersionSpec::Partial(p) => VersionSpecView::Partial(p@),
            VersionSpec::Exact(e) => VersionSpecView::Exact(e@),
        }
    }
}

impl DeepView for VersionSpec {
    type V = VersionSpecView;

    open spec fn deep_view(&self) -> VersionSpecView {
        self@
    }
}

impl PartialEq for VersionSpec {
    fn eq(&self, other: &Self) -> (r: bool) {
        match (self, other) {
            (VersionSpec::Any, VersionSpec::Any) => true,
            (VersionSpec::Partial(a), VersionSpec::Partial(b)) => str_eq(a.as_str(), b.as_str()),
            (VersionSpec::Exact(a), VersionSpec::Exact(b)) => str_eq(a.as_str(), b.as_str()),
            _ => false,
        }
    }
}

impl vstd::std_specs::cmp::PartialEqSpecImpl for VersionSpec {
    open spec fn obeys_eq_spec() -> bool {
        true
    }

    open spec fn eq_spec(&self, other: &Self) -> bool {
        self@ == other@
    }
}

impl VersionSpec {
    /// Constructs a version spec that matches specifically `version`.
    pub fn exact(version: &str) -> (r: Self)
        ensures
            r@ == VersionSpecView::Exact(version@),
    {
        VersionSpec::Exact(version.to_owned())
    }

    /// Constructs a version spec that matches any version with the given prefix.
    pub fn partial(prefix: &str) -> (r: Self)
        ensures
            r@ == VersionSpecView::Partial(prefix@),
    {
        VersionSpec::Partial(prefix.to_owned())
    }

    /// Returns a copy of this version spec.
    pub fn duplicate(&self) -> (r: Self)
        ensures
            r@ == self@,
    {
        match self {
            VersionSpec::Any => VersionSpec::Any,
            VersionSpec::Partial(p) => VersionSpec::Partial(p.clone()),
            VersionSpec::Exact(e) => VersionSpec::Exact(e.clone()),
        }
    }

    /// Returns `true` if `version` matches this version spec.
    pub fn matches(&self, version: &str) -> (r: bool)
        ensures
            r == self@.matches(version@),
    {
        match self {
            VersionSpec::Any => true,
            VersionSpec::Exact(exact) => str_eq(version, exact.as_str()),
            VersionSpec::Partial(prefix) => partial_matches(prefix.as_str(), version),
        }
    }

    /// Returns `true` if `self` is compatible with `other`.
    pub fn is_compatible(&self, other: &Self) -> (r: bool)
        ensures
            r == self@.compatible(other@),
            r <==> exists|v: Seq<char>| self@.matches(v) && other@.matches(v),
    {
        proof {
            law_compatible_iff_common_version(self@, other@);
        }
        match (self, other) {
            (VersionSpec::Any, _) => true,
            (_, VersionSpec::Any) => true,
            (VersionSpec::Exact(a), VersionSpec::Exact(b)) => str_eq(a.as_str(), b.as_str()),
            (VersionSpec::Exact(a), VersionSpec::Partial(_)) => other.matches(a.as_str()),
            (VersionSpec::Partial(_), VersionSpec::Exact(b)) => self.matches(b.as_str()),
            (VersionSpec::Partial(a), VersionSpec::Partial(b)) => {
                self.matches(b.as_str()) || other.matches(a.as_str())
            },
        }
    }

    /// The intersection of two version specs, `None` if they are incompatible.
    pub fn intersect(self, rhs: Self) -> (r: Option<Self>)
        ensures
            r matches Some(c) ==> Some(c@) == self@.intersect(rhs@),
            r is None <==> self@.intersect(rhs@) is None,
    {
        if self == rhs {
            return Some(self);
        }
        if !self.is_compatible(&rhs) {
            return None;
        }
        match (self, rhs) {
            (VersionSpec::Any, rhs) => Some(rhs),
            (lhs, VersionSpec::Any) => Some(lhs),
            (VersionSpec::Exact(a), VersionSpec::Exact(_)) => Some(VersionSpec::Exact(a)),
            (VersionSpec::Exact(a), VersionSpec::Partial(_)) => Some(VersionSpec::Exact(a)),
            (VersionSpec::Partial(_), VersionSpec::Exact(b)) => Some(VersionSpec::Exact(b)),
            (VersionSpec::Partial(a), VersionSpec::Partial(b)) => {
                lengths_fit(a.as_str());
                lengths_fit(b.as_str());
                if a.as_str().len() <= b.as_str().len() {
                    Some(VersionSpec::Partial(b))
                } else {
                    Some(VersionSpec::Partial(a))
                }
            },
        }
    }

    /// Reads a version spec: `*` is any version, `~prefix` is a partial version, anything
    /// else, the empty text too, is an exact version.
    pub fn parse(s: &str) -> (r: Self)
        ensures
            r@ == parse_dependency_version_spec(s@),
    {
        proof {
            reveal_strlit("*");
            assert("*"@ =~= seq!['*']);
        }
        if str_eq(s, "*") {
            return VersionSpec::Any;
        }
        let n = s.unicode_len();
        if n > 0 && s.get_char(0) == '~' {
            return VersionSpec::Partial(suffix_from(s, 1));
        }
        VersionSpec::Exact(s.to_owned())
    }
}

impl BitAnd for VersionSpec {
    type Output = Option<Self>;

    fn bitand(self, rhs: Self) -> (r: Option<Self>)
        ensures
            r matches Some(c) ==> Some(c@) == self@.intersect(rhs@),
            r is None <==> self@.intersect(rhs@) is None,
    {
        self.intersect(rhs)
    }
}

/// The result of `&` is stated by the ensures of `bitand` above, over views; no spec
/// function of exec values is claimed for it.
impl vstd::std_specs::ops::BitAndSpecImpl for VersionSpec {
    open spec fn obeys_bitand_spec() -> bool {
        false
    }

    open spec fn bitand_req(self, rhs: Self) -> bool {
        true
    }

    open spec fn bitand_spec(self, rhs: Self) -> Option<Self> {
        None
    }
}

impl FromStr for VersionSpec {
    type Err = ();

    /// Reads a dependency version spec as [`VersionSpec::parse`] does; reading never fails.
    fn from_str(s: &str) -> (r: Result<Self, Self::Err>)
        ensures
            r matches Ok(v) && v@ == parse_dependency_version_spec(s@),
    {
        Ok(VersionSpec::parse(s))
    }
}

impl View for DependencyRequest {
    type V = RequestView;

    open spec fn view(&self) -> RequestView {
        RequestView { name: self.name@, version: self.version@ }
    }
}

impl DeepView for DependencyRequest {
    type V = RequestView;

    open spec fn deep_view(&self) -> RequestView {
        self@
    }
}

impl PartialEq for DependencyRequest {
    fn eq(&self, other: &Self) -> (r: bool) {
        str_eq(self.name.as_str(), other.name.as_str()) && self.version.eq(&other.version)
    }
}

impl vstd::std_specs::cmp::PartialEqSpecImpl for DependencyRequest {
    open spec fn obeys_eq_spec() -> bool {
        true
    }

    open spec fn eq_spec(&self, other: &Self) -> bool {
        self@ == other@
    }
}

impl DependencyRequest {
    /// Returns a copy of this request.
    pub fn duplicate(&self) -> (r: Self)
        ensures
            r@ == self@,
    {
        DependencyRequest { name: self.name.clone(), version: self.version.duplicate() }
    }
}

/// Conflicts between dependency requests.
#[derive(Debug, Default)]
pub struct Conflicts {
    /// The conflicting dependency requests: each name with its set of conflicting specs,
    /// kept without repetitions.
    inner: Vec<(String, Vec<VersionSpec>)>,
}

impl View for Conflicts {
    type V = ConflictsView;

    closed spec fn view(&self) -> ConflictsView {
        self.inner@.map_values(|e: (String, Vec<VersionSpec>)| (e.0@, e.1.deep_view()))
    }
}

/// Adds `x` to `set` unless an equal spec is already there.
fn insert_version(set: &mut Vec<VersionSpec>, x: VersionSpec)
    ensures
        final(set).deep_view() == set_insert(old(set).deep_view(), x@),
{
    let mut j: usize = 0;
    while j < set.len()
        invariant
            j <= set.len(),
            set.deep_view() == old(set).deep_view(),
            forall|k: int| 0 <= k < j ==> set.deep_view()[k] != x@,
        decreases set.len() - j,
    {
        if set[j].eq(&x) {
            assert(set.deep_view()[j as int] == x@);
            return;
        }
        j = j + 1;
    }
    assert(!set.deep_view().contains(x@));
    let ghost before = set.deep_view();
    set.push(x);
    assert(set.deep_view() =~= before.push(x@));
}

impl Conflicts {
    /// No conflicts at all.
    pub fn new() -> (r: Self)
        ensures
            r@ == Seq::<(Seq<char>, Seq<VersionSpecView>)>::empty(),
    {
        Conflicts { inner: Vec::new() }
    }

    /// The conflicts: each dependency name with its conflicting version specs.
    pub fn entries(&self) -> (r: &[(String, Vec<VersionSpec>)])
        ensures
            r@.map_values(|e: (String, Vec<VersionSpec>)| (e.0@, e.1.deep_view())) == self@,
    {
        self.inner.as_slice()
    }

    /// Index of the first entry for `name`, or the number of entries.
    fn index_of(&self, name: &String) -> (r: usize)
        ensures
            r == first_index_of(conflict_names(self@), name@),
    {
        let mut i: usize = 0;
        while i < self.inner.len()
            invariant
                i <= self.inner.len(),
                forall|j: int| 0 <= j < i ==> conflict_names(self@)[j] != name@,
            decreases self.inner.len() - i,
        {
            if str_eq(self.inner[i].0.as_str(), name.as_str()) {
                proof {
                    lemma_first_index_of_is(conflict_names(self@), name@, i as int);
                }
                return i;
            }
            i = i + 1;
        }
        proof {
            lemma_first_index_of_is(conflict_names(self@), name@, i as int);
        }
        i
    }

    /// Adds a conflict.
    pub fn add_conflict(&mut self, name: String, a: VersionSpec, b: VersionSpec)
        ensures
            final(self)@ == add_conflict(old(self)@, name@, a@, b@),
            final(self)@.len() > 0,
            conflicts_wf(old(self)@) ==> conflicts_wf(final(self)@),
    {
        let ghost old_view = self@;
        let i = self.index_of(&name);
        proof {
            lemma_first_index_of(conflict_names(old_view), name@);
            if conflicts_wf(old_view) {
                law_add_conflict_wf(old_view, name@, a@, b@);
            }
        }
        let ghost old_inner = self.inner@;
        if i < self.inner.len() {
            let (_, mut versions) = self.inner.remove(i);
            assert(versions.deep_view() == old_view[i as int].1);
            insert_version(&mut versions, a);
            insert_version(&mut versions, b);
            let ghost entry = (name, versions);
            self.inner.insert(i, (name, versions));
            assert(self.inner@ =~= old_inner.update(i as int, entry));
            assert(self@ =~= old_view.update(i as int, (name@, entry.1.deep_view())));
            assert(self@ =~= add_conflict(old_view, name@, a@, b@));
        } else {
            let mut versions: Vec<VersionSpec> = Vec::new();
            assert(versions.deep_view() =~= Seq::<VersionSpecView>::empty());
            insert_version(&mut versions, a);
            insert_version(&mut versions, b);
            let ghost entry = (name, versions);
            self.inner.push((name, versions));
            assert(self.inner@ =~= old_inner.push(entry));
            assert(self@ =~= old_view.push((name@, entry.1.deep_view())));
            assert(self@ =~= add_conflict(old_view, name@, a@, b@));
        }
    }

    /// Returns true if there are no conflicts.
    pub fn is_empty(&self) -> (r: bool)
        ensures
            r == (self@.len() == 0),
    {
        self.inner.len() == 0
    }
}

/// Index of the first request named `name` in `rs`, or `rs.len()`.
fn find_request(rs: &Vec<DependencyRequest>, name: &String) -> (r: usize)
    ensures
        r == first_index_of(request_names(rs.deep_view()), name@),
{
    let ghost names = request_names(rs.deep_view());
    let mut i: usize = 0;
    while i < rs.len()
        invariant
            i <= rs.len(),
            names == request_names(rs.deep_view()),
            forall|j: int| 0 <= j < i ==> names[j] != name@,
        decreases rs.len() - i,
    {
        if str_eq(rs[i].name.as_str(), name.as_str()) {
            proof {
                lemma_first_index_of_is(names, name@, i as int);
            }
            return i;
        }
        i = i + 1;
    }
    proof {
        lemma_first_index_of_is(names, name@, i as int);
    }
    i
}

/// Attempts to merge a set of dependency requests in such a way that each dependency is only
/// present once, and the version spec for each dependency is the intersection of all the version
/// specs for that dependency.
pub fn merge_dependency_requests(requests: Vec<DependencyRequest>) -> (r: Result<
    Vec<DependencyRequest>,
    Conflicts,
>)
    ensures
        match r {
            Ok(v) => merge_requests(requests.deep_view()) == Ok::<_, Seq<(Seq<char>, Seq<VersionSpecView>)>>(v.deep_view()),
            Err(c) => merge_requests(requests.deep_view()) == Err::<Seq<RequestView>, _>(c@) && conflicts_wf(c@),
        },
{
    let mut rv: Vec<DependencyRequest> = Vec::new();
    let mut conflicts = Conflicts::new();
    let ghost rs = requests.deep_view();
    assert(rs.take(0) =~= Seq::<RequestView>::empty());
    assert(rv.deep_view() =~= Seq::<RequestView>::empty());
    for idx in 0..requests.len()
        invariant
            rs == requests.deep_view(),
            rv.deep_view() == merge_all(rs.take(idx as int)).merged,
            conflicts@ == merge_all(rs.take(idx as int)).conflicts,
            conflicts_wf(conflicts@),
    {
        let request = &requests[idx];
        assert(rs.take(idx + 1).drop_last() =~= rs.take(idx as int));
        assert(rs.take(idx + 1).last() == request@);
        let i = find_request(&rv, &request.name);
        let ghost before = rv.deep_view();
        proof {
            lemma_first_index_of(request_names(before), request.name@);
        }
        if i == rv.len() {
            rv.push(request.duplicate());
            assert(rv.deep_view() =~= before.push(request@));
        } else {
            assert(request_names(before)[i as int] == before[i as int].name);
            match rv[i].version.duplicate().intersect(request.version.duplicate()) {
                Some(merged) => {
                    let name = rv[i].name.clone();
                    let entry = DependencyRequest { name, version: merged };
                    rv.set(i, entry);
                    assert(rv.deep_view() =~= before.update(i as int, entry@));
                },
                None => {
                    conflicts.add_conflict(
                        request.name.clone(),
                        rv[i].version.duplicate(),
                        request.version.duplicate(),
                    );
                },
            }
        }
    }
    assert(rs.take(requests.len() as int) =~= rs);
    if conflicts.is_empty() {
        Ok(rv)
    } else {
        Err(conflicts)
    }
}

impl VersionSpec {
    /// The text of this spec in a conflict report.
    pub fn to_debug_string(&self) -> (r: String)
        ensures
            r@ == version_spec_debug(self@),
    {
        match self {
            VersionSpec::Any => "Any".to_owned(),
            VersionSpec::Partial(p) => {
                let mut s = "Partial(".to_owned();
                s.append(debug_string(p.as_str()).as_str());
                s.append(")");
                s
            },
            VersionSpec::Exact(e) => {
                let mut s = "Exact(".to_owned();
                s.append(debug_string(e.as_str()).as_str());
                s.append(")");
                s
            },
        }
    }
}

impl Conflicts {
    /// The report of the conflicts: for each dependency a heading line, then one line per
    /// conflicting spec.
    pub fn to_display_string(&self) -> (r: String)
        ensures
            r@ == conflicts_report(self@),
    {
        let mut out = String::new();
        for i in 0..self.inner.len()
            invariant
                out@ == conflicts_report(self@.take(i as int)),
        {
            assert(self@.take(i + 1).drop_last() =~= self@.take(i as int));
            out.append("conflicting requests for dependency '");
            out.append(self.inner[i].0.as_str());
            out.append("':\n");
            let specs = &self.inner[i].1;
            let ghost sv = specs.deep_view();
            let ghost head = out@;
            assert(sv.take(0) =~= Seq::<VersionSpecView>::empty());
            for j in 0..specs.len()
                invariant
                    sv == specs.deep_view(),
                    out@ == head + specs_report(sv.take(j as int)),
            {
                assert(sv.take(j + 1).drop_last() =~= sv.take(j as int));
                assert(sv[j as int] == specs@[j as int]@);
                out.append("  ");
                out.append(specs[j].to_debug_string().as_str());
                out.append("\n");
                assert(out@ =~= head + specs_report(sv.take(j + 1)));
            }
            assert(sv.take(specs.len() as int) =~= sv);
            assert(self@[i as int].1 == sv);
            assert(out@ =~= conflicts_report(self@.take(i + 1)));
        }
        assert(self@.take(self.inner.len() as int) =~= self@);
        out
    }
}

} // verus!
