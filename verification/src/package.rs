//! Packages, package requests, version specs and changesets of a workspace.
use std::ops::BitAnd;
use std::str::FromStr;

use vstd::prelude::*;

use crate::adapters::{joined_path, path_join};
use crate::error::{Conflicts, InvalidVersonSpec};
use crate::manifest::Package;
use crate::text::{
    concat, find_char, first_index_of, join, join_with, lemma_first_index_of_is, lengths_fit,
    prefix_to, str_eq, suffix_from,
};
use crate::version_order::{
    law_newest_match, law_version_order_is_strict, newest_match, version_less, version_lt,
};
use crate::version::{
    conflicts_wf, law_compatible_iff_common_version, merge_all, merge_requests, parse_request,
    installed_names, installed_requests, parse_version_spec, partial_matches,
    resolve_all, resolve_changes, ChangeSetView, InstalledView, request_names, request_version, RequestView,
    VersionSpecView,
};

verus! {

/// A version spec, which can be used to resolve to a concrete version.
#[derive(Debug, Clone, Eq, Hash)]
pub enum VersionSpec {
    /// Any version at all.
    Any,
    /// A version matching this prefix.
    Partial(String),
    /// Exactly this version.
    Exact(String),
}

impl View for VersionSpec {
    type V = VersionSpecView;

    open spec fn view(&self) -> VersionSpecView {
        match self {
            VersionSpec::Any => VersionSpecView::Any,
            VersionSpec::Partial(p) => VersionSpecView::Partial(p@),
            VersionSpec::Exact(e) => VersionSpecView::Exact(e@),
        }
    }
}

impl DeepView for VersionSpec {
    type V = VersionSpecView;

    open spec fn deep_view(&self) -> VersionSpecView {
        self@
    }
}

impl PartialEq for VersionSpec {
    fn eq(&self, other: &Self) -> (r: bool) {
        match (self, other) {
            (VersionSpec::Any, VersionSpec::Any) => true,
            (VersionSpec::Partial(a), VersionSpec::Partial(b)) => str_eq(a.as_str(), b.as_str()),
            (VersionSpec::Exact(a), VersionSpec::Exact(b)) => str_eq(a.as_str(), b.as_str()),
            _ => false,
        }
    }
}

impl vstd::std_specs::cmp::PartialEqSpecImpl for VersionSpec {
    open spec fn obeys_eq_spec() -> bool {
        true
    }

    open spec fn eq_spec(&self, other: &Self) -> bool {
        self@ == other@
    }
}

impl Default for VersionSpec {
    fn default() -> (r: Self)
        ensures
            r@ == VersionSpecView::Any,
    {
        VersionSpec::Any
    }
}

impl VersionSpec {
    /// Constructs a version spec that matches specifically `version`.
    pub fn exact(version: &str) -> (r: Self)
        ensures
            r@ == VersionSpecView::Exact(version@),
    {
        VersionSpec::Exact(version.to_owned())
    }

    /// Constructs a version spec that matches any version with the given prefix.
    pub fn partial(prefix: &str) -> (r: Self)
        ensures
            r@ == VersionSpecView::Partial(prefix@),
    {
        VersionSpec::Partial(prefix.to_owned())
    }

    /// Returns a copy of this version spec.
    pub fn duplicate(&self) -> (r: Self)
        ensures
            r == *self,
            r@ == self@,
    {
        match self {
            VersionSpec::Any => VersionSpec::Any,
            VersionSpec::Partial(p) => VersionSpec::Partial(p.clone()),
            VersionSpec::Exact(e) => VersionSpec::Exact(e.clone()),
        }
    }

    /// Returns `true` if `version` matches this version spec.
    pub fn matches(&self, version: &str) -> (r: bool)
        ensures
            r == self@.matches(version@),
    {
        match self {
            VersionSpec::Any => true,
            VersionSpec::Exact(exact) => str_eq(version, exact.as_str()),
            VersionSpec::Partial(prefix) => partial_matches(prefix.as_str(), version),
        }
    }

    /// Returns `true` if `self` is compatible with `other`, in that there is at least a
    /// theoretical version that satisfies both.
    pub fn is_compatible(&self, other: &Self) -> (r: bool)
        ensures
            r == self@.compatible(other@),
            r <==> exists|v: Seq<char>| self@.matches(v) && other@.matches(v),
    {
        proof {
            law_compatible_iff_common_version(self@, other@);
        }
        match (self, other) {
            (VersionSpec::Any, _) => true,
            (_, VersionSpec::Any) => true,
            (VersionSpec::Exact(a), VersionSpec::Exact(b)) => str_eq(a.as_str(), b.as_str()),
            (VersionSpec::Exact(a), VersionSpec::Partial(_)) => other.matches(a.as_str()),
            (VersionSpec::Partial(_), VersionSpec::Exact(b)) => self.matches(b.as_str()),
            (VersionSpec::Partial(a), VersionSpec::Partial(b)) => {
                self.matches(b.as_str()) || other.matches(a.as_str())
            },
        }
    }

    /// The intersection of two version specs: the spec of the versions that satisfy
    /// both, or `None` if no version does.
    pub fn intersect(self, rhs: Self) -> (r: Option<Self>)
        ensures
            r matches Some(c) ==> Some(c@) == self@.intersect(rhs@),
            r is None <==> self@.intersect(rhs@) is None,
    {
        if self == rhs {
            return Some(self);
        }
        if !self.is_compatible(&rhs) {
            return None;
        }
        match (self, rhs) {
            (VersionSpec::Any, rhs) => Some(rhs),
            (lhs, VersionSpec::Any) => Some(lhs),
            (VersionSpec::Exact(a), VersionSpec::Exact(_)) => Some(VersionSpec::Exact(a)),
            (VersionSpec::Exact(a), VersionSpec::Partial(_)) => Some(VersionSpec::Exact(a)),
            (VersionSpec::Partial(_), VersionSpec::Exact(b)) => Some(VersionSpec::Exact(b)),
            (VersionSpec::Partial(a), VersionSpec::Partial(b)) => {
                lengths_fit(a.as_str());
                lengths_fit(b.as_str());
                if a.as_str().len() <= b.as_str().len() {
                    Some(VersionSpec::Partial(b))
                } else {
                    Some(VersionSpec::Partial(a))
                }
            },
        }
    }

    /// Reads a version spec: empty or `*` is any version, `~prefix` is a partial version,
    /// anything else is an exact version.
    pub fn parse(s: &str) -> (r: Self)
        ensures
            r@ == parse_version_spec(s@),
    {
        proof {
            reveal_strlit("*");
            assert("*"@ =~= seq!['*']);
        }
        let n = s.unicode_len();
        if n == 0 {
            return VersionSpec::Any;
        }
        if str_eq(s, "*") {
            return VersionSpec::Any;
        }
        if s.get_char(0) == '~' {
            return VersionSpec::Partial(suffix_from(s, 1));
        }
        VersionSpec::Exact(s.to_owned())
    }

    /// The text of this version spec: `*`, `~prefix` or the exact version.
    pub fn to_display_string(&self) -> (r: String)
        ensures
            r@ == self@.display(),
    {
        proof {
            reveal_strlit("*");
            reveal_strlit("~");
        }
        match self {
            VersionSpec::Any => "*".to_owned(),
            VersionSpec::Exact(version) => version.clone(),
            VersionSpec::Partial(prefix) => concat("~", prefix.as_str()),
        }
    }
}

impl BitAnd for VersionSpec {
    type Output = Option<Self>;

    fn bitand(self, rhs: Self) -> (r: Option<Self>)
        ensures
            r matches Some(c) ==> Some(c@) == self@.intersect(rhs@),
            r is None <==> self@.intersect(rhs@) is None,
    {
        self.intersect(rhs)
    }
}

/// The result of `&` is stated by the ensures of `bitand` above, over views; no spec
/// function of exec values is claimed for it.
impl vstd::std_specs::ops::BitAndSpecImpl for VersionSpec {
    open spec fn obeys_bitand_spec() -> bool {
        false
    }

    open spec fn bitand_req(self, rhs: Self) -> bool {
        true
    }

    open spec fn bitand_spec(self, rhs: Self) -> Option<Self> {
        None
    }
}

impl FromStr for VersionSpec {
    type Err = InvalidVersonSpec;

    /// Reads a version spec as [`VersionSpec::parse`] does; reading never fails.
    fn from_str(s: &str) -> (r: Result<Self, Self::Err>)
        ensures
            r matches Ok(v) && v@ == parse_version_spec(s@),
    {
        Ok(VersionSpec::parse(s))
    }
}

} // verus!

verus! {

/// A request for a package.
#[derive(Debug, Clone, Eq, Hash)]
pub struct PackageRequest {
    /// The name of the package.
    pub name: String,
    /// The requested version of the package.
    pub version: VersionSpec,
}

impl View for PackageRequest {
    type V = RequestView;

    open spec fn view(&self) -> RequestView {
        RequestView { name: self.name@, version: self.version@ }
    }
}

impl DeepView for PackageRequest {
    type V = RequestView;

    open spec fn deep_view(&self) -> RequestView {
        self@
    }
}

impl PartialEq for PackageRequest {
    fn eq(&self, other: &Self) -> (r: bool) {
        str_eq(self.name.as_str(), other.name.as_str()) && self.version.eq(&other.version)
    }
}

impl vstd::std_specs::cmp::PartialEqSpecImpl for PackageRequest {
    open spec fn obeys_eq_spec() -> bool {
        true
    }

    open spec fn eq_spec(&self, other: &Self) -> bool {
        self@ == other@
    }
}

impl PackageRequest {
    /// The text of this request: the name alone for any version, else `name@version`.
    pub fn to_display_string(&self) -> (r: String)
        ensures
            r@ == self@.display(),
    {
        match &self.version {
            VersionSpec::Any => self.name.clone(),
            _ => {
                let mut s = concat(self.name.as_str(), "@");
                let v = self.version.to_display_string();
                s.append(v.as_str());
                proof {
                    reveal_strlit("@");
                    assert("@"@ =~= seq!['@']);
                }
                s
            },
        }
    }

    /// The request that installing `value` answered: its name, and its resolved version
    /// read as a version spec.
    pub fn from_workspace_package(value: WorkspacePackage) -> (r: Self)
        ensures
            r@ == (RequestView { name: value.name@, version: parse_version_spec(value.version@) }),
    {
        PackageRequest { name: value.name, version: VersionSpec::parse(value.version.as_str()) }
    }

    /// Resolves this request against the known versions of its package: the newest
    /// version that matches (the first of equally new ones). Fails if no version is known,
    /// or none matches.
    pub fn resolve_known_version(&self, known_versions: &[String]) -> (r: Result<
        KnownPackage,
        ResolveError,
    >)
        ensures
            r.is_ok() == (known_versions@.len() > 0 && newest_match(
                known_versions.deep_view(),
                self@.version,
            ) < known_versions@.len()),
            r matches Ok(k) ==> k@ == (NameVersionView {
                name: self@.name,
                version: known_versions.deep_view()[newest_match(
                    known_versions.deep_view(),
                    self@.version,
                )],
            }),
            r matches Err(e) ==> e@ == (if known_versions@.len() == 0 {
                ResolveErrorView::NotKnown(self@.name)
            } else {
                ResolveErrorView::VersionNotKnown(
                    self@.display(),
                    join_with(known_versions.deep_view(), ", "@),
                )
            }),
    {
        if known_versions.len() == 0 {
            return Err(ResolveError::NotKnown(self.name.clone()));
        }
        let i = newest_matching(&self.version, known_versions);
        if i < known_versions.len() {
            assert(known_versions.deep_view()[i as int] == known_versions@[i as int]@);
            Ok(KnownPackage { name: self.name.clone(), version: known_versions[i].clone() })
        } else {
            Err(ResolveError::VersionNotKnown(self.to_display_string(), join(known_versions, ", ")))
        }
    }

    /// Resolves this request against the package of its name installed in a workspace,
    /// if any. Fails if there is none, or if its version does not match.
    pub fn resolve_workspace_version(&self, installed: Option<&WorkspacePackage>) -> (r: Result<
        WorkspacePackage,
        ResolveError,
    >)
        ensures
            match installed {
                None => r matches Err(e) && e@ == ResolveErrorView::NotInstalled(self@.display()),
                Some(p) => if self@.version.matches(p.version@) {
                    r matches Ok(w) && w@ == (WorkspacePackageView {
                        name: self@.name,
                        version: p.version@,
                        requested_version: self@.version,
                    })
                } else {
                    r matches Err(e) && e@ == ResolveErrorView::VersionNotInstalled(
                        self@.display(),
                        p.version@,
                    )
                },
            },
    {
        match installed {
            None => Err(ResolveError::NotInstalled(self.to_display_string())),
            Some(p) => {
                if !self.version.matches(p.version.as_str()) {
                    Err(
                        ResolveError::VersionNotInstalled(
                            self.to_display_string(),
                            p.version.clone(),
                        ),
                    )
                } else {
                    Ok(WorkspacePackage::from_request(self, p.version.as_str()))
                }
            },
        }
    }

    /// Returns a copy of this request.
    pub fn duplicate(&self) -> (r: Self)
        ensures
            r@ == self@,
    {
        PackageRequest { name: self.name.clone(), version: self.version.duplicate() }
    }

    /// Reads a request `name[@version]`: the name is everything before the first `@`,
    /// the version spec everything after it (any version when there is none).
    pub fn parse(s: &str) -> (r: Self)
        ensures
            r@ == parse_request(s@),
    {
        proof {
            reveal_strlit("");
        }
        let n = s.unicode_len();
        let k = find_char(s, '@');
        proof {
            crate::text::lemma_first_index_of(s@, '@');
        }
        let name = prefix_to(s, k);
        let version = if k < n {
            VersionSpec::parse(suffix_from(s, k + 1).as_str())
        } else {
            assert(""@ =~= request_version(s@));
            VersionSpec::parse("")
        };
        PackageRequest { name, version }
    }
}

impl FromStr for PackageRequest {
    type Err = InvalidVersonSpec;

    /// Reads a request as [`PackageRequest::parse`] does; reading never fails.
    fn from_str(s: &str) -> (r: Result<Self, Self::Err>)
        ensures
            r matches Ok(q) && q@ == parse_request(s@),
    {
        Ok(PackageRequest::parse(s))
    }
}

/// Index of the newest version of `versions` that `spec` matches (the first of equally new
/// ones), or the number of versions when none matches.
fn newest_matching(spec: &VersionSpec, versions: &[String]) -> (r: usize)
    ensures
        r == newest_match(versions.deep_view(), spec@),
{
    let ghost vs = versions.deep_view();
    let mut best: usize = 0;
    assert(vs.take(0) =~= Seq::<Seq<char>>::empty());
    for i in 0..versions.len()
        invariant
            vs == versions.deep_view(),
            best == newest_match(vs.take(i as int), spec@),
    {
        proof {
            law_newest_match(vs.take(i as int), spec@);
        }
        assert(vs.take(i + 1).drop_last() =~= vs.take(i as int));
        assert(vs.take(i + 1)[i as int] == versions@[i as int]@);
        if spec.matches(versions[i].as_str()) {
            if best == i {
                best = i;
            } else {
                assert(vs.take(i + 1)[best as int] == versions@[best as int]@);
                if version_less(versions[best].as_str(), versions[i].as_str()) {
                    best = i;
                }
            }
        } else if best == i {
            best = i + 1;
        }
    }
    assert(vs.take(versions.len() as int) =~= vs);
    best
}

/// Index of the first request named `name` in `rs`, or `rs.len()`.
fn find_request(rs: &Vec<PackageRequest>, name: &String) -> (r: usize)
    ensures
        r == first_index_of(request_names(rs.deep_view()), name@),
{
    let ghost names = request_names(rs.deep_view());
    let mut i: usize = 0;
    while i < rs.len()
        invariant
            i <= rs.len(),
            names == request_names(rs.deep_view()),
            forall|j: int| 0 <= j < i ==> names[j] != name@,
        decreases rs.len() - i,
    {
        if str_eq(rs[i].name.as_str(), name.as_str()) {
            proof {
                lemma_first_index_of_is(names, name@, i as int);
            }
            return i;
        }
        i = i + 1;
    }
    proof {
        lemma_first_index_of_is(names, name@, i as int);
    }
    i
}

/// Attempts to merge a set of dependency requests in such a way that each dependency is only
/// present once, and the version spec for each dependency is the intersection of all the version
/// specs for that dependency.
pub fn merge_dependency_requests(requests: Vec<PackageRequest>) -> (r: Result<
    Vec<PackageRequest>,
    Conflicts,
>)
    ensures
        match r {
            Ok(v) => merge_requests(requests.deep_view()) == Ok::<_, Seq<(Seq<char>, Seq<VersionSpecView>)>>(v.deep_view()),
            Err(c) => merge_requests(requests.deep_view()) == Err::<Seq<RequestView>, _>(c@) && conflicts_wf(c@),
        },
{
    let mut rv: Vec<PackageRequest> = Vec::new();
    let mut conflicts = Conflicts::new();
    let ghost rs = requests.deep_view();
    assert(rs.take(0) =~= Seq::<RequestView>::empty());
    assert(rv.deep_view() =~= Seq::<RequestView>::empty());
    for idx in 0..requests.len()
        invariant
            rs == requests.deep_view(),
            rv.deep_view() == merge_all(rs.take(idx as int)).merged,
            conflicts@ == merge_all(rs.take(idx as int)).conflicts,
            conflicts_wf(conflicts@),
    {
        let request = &requests[idx];
        assert(rs.take(idx + 1).drop_last() =~= rs.take(idx as int));
        assert(rs.take(idx + 1).last() == request@);
        let i = find_request(&rv, &request.name);
        let ghost before = rv.deep_view();
        proof {
            crate::text::lemma_first_index_of(request_names(before), request.name@);
        }
        if i == rv.len() {
            rv.push(request.duplicate());
            assert(rv.deep_view() =~= before.push(request@));
        } else {
            assert(request_names(before)[i as int] == before[i as int].name);
            match rv[i].version.duplicate().intersect(request.version.duplicate()) {
                Some(merged) => {
                    let name = rv[i].name.clone();
                    let entry = PackageRequest { name, version: merged };
                    rv.set(i, entry);
                    assert(rv.deep_view() =~= before.update(i as int, entry@));
                },
                None => {
                    conflicts.add_conflict(
                        request.name.clone(),
                        rv[i].version.duplicate(),
                        request.version.duplicate(),
                    );
                },
            }
        }
    }
    assert(rs.take(requests.len() as int) =~= rs);
    if conflicts.is_empty() {
        Ok(rv)
    } else {
        Err(conflicts)
    }
}

} // verus!

verus! {

/// A package name with a version.
pub struct NameVersionView {
    pub name: Seq<char>,
    pub version: Seq<char>,
}

/// A package of a workspace: name, resolved version and requested version spec.
pub struct WorkspacePackageView {
    pub name: Seq<char>,
    pub version: Seq<char>,
    pub requested_version: VersionSpecView,
}

/// Why a request could not be resolved.
pub enum ResolveErrorView {
    NotKnown(Seq<char>),
    VersionNotKnown(Seq<char>, Seq<char>),
    NotInstalled(Seq<char>),
    VersionNotInstalled(Seq<char>, Seq<char>),
}

/// Why a request could not be resolved.
#[derive(Debug, Clone)]
pub enum ResolveError {
    /// No version of the package (named here) is known.
    NotKnown(String),
    /// The request (shown here) matches none of the known versions (listed here).
    VersionNotKnown(String, String),
    /// The package of the request (shown here) is not installed.
    NotInstalled(String),
    /// The request (shown here) does not match the installed version (given here).
    VersionNotInstalled(String, String),
}

impl View for ResolveError {
    type V = ResolveErrorView;

    open spec fn view(&self) -> ResolveErrorView {
        match self {
            ResolveError::NotKnown(n) => ResolveErrorView::NotKnown(n@),
            ResolveError::VersionNotKnown(r, v) => ResolveErrorView::VersionNotKnown(r@, v@),
            ResolveError::NotInstalled(r) => ResolveErrorView::NotInstalled(r@),
            ResolveError::VersionNotInstalled(r, v) => ResolveErrorView::VersionNotInstalled(
                r@,
                v@,
            ),
        }
    }
}

impl ResolveErrorView {
    /// The error message.
    pub open spec fn message(self) -> Seq<char> {
        match self {
            ResolveErrorView::NotKnown(n) => "package "@ + n + " is not known"@,
            ResolveErrorView::VersionNotKnown(r, v) => "package "@ + r
                + " is not known, but these versions are: "@ + v,
            ResolveErrorView::NotInstalled(r) => "package "@ + r + " is not installed"@,
            ResolveErrorView::VersionNotInstalled(r, v) => "package "@ + r
                + " is not in this workspace, but this versions is: "@ + v,
        }
    }
}

impl ResolveError {
    /// The error message.
    pub fn to_display_string(&self) -> (r: String)
        ensures
            r@ == self@.message(),
    {
        match self {
            ResolveError::NotKnown(n) => {
                let mut s = concat("package ", n.as_str());
                s.append(" is not known");
                s
            },
            ResolveError::VersionNotKnown(r, v) => {
                let mut s = concat("package ", r.as_str());
                s.append(" is not known, but these versions are: ");
                s.append(v.as_str());
                s
            },
            ResolveError::NotInstalled(r) => {
                let mut s = concat("package ", r.as_str());
                s.append(" is not installed");
                s
            },
            ResolveError::VersionNotInstalled(r, v) => {
                let mut s = concat("package ", r.as_str());
                s.append(" is not in this workspace, but this versions is: ");
                s.append(v.as_str());
                s
            },
        }
    }
}

/// A package specification that includes a name and a version.
pub trait PackageSpec {
    /// Return the name and version of this package.
    ///
    /// The version is a known good one, such as a resolved or installed one.
    fn name_and_version(&self) -> (String, String);
}

impl PackageSpec for PackageRequest {
    fn name_and_version(&self) -> (r: (String, String))
        ensures
            r.0@ == self@.name,
            r.1@ == self@.version.display(),
    {
        (self.name.clone(), self.version.to_display_string())
    }
}

/// A [`PackageRequest`] with a resolved version based on known packages.
#[derive(Clone, Debug)]
pub struct KnownPackage {
    /// The name of the package.
    pub name: String,
    /// The resolved version of the package.
    pub version: String,
}

impl View for KnownPackage {
    type V = NameVersionView;

    open spec fn view(&self) -> NameVersionView {
        NameVersionView { name: self.name@, version: self.version@ }
    }
}

impl KnownPackage {
    /// Creates a new spec from a [`crate::manifest::Package`].
    pub fn from_manifest_package(pkg: &Package) -> (r: Self)
        ensures
            r@ == (NameVersionView { name: pkg.name@, version: pkg.version@ }),
    {
        KnownPackage { name: pkg.name.clone(), version: pkg.version.clone() }
    }

    /// The known package that a request resolved to `version`.
    pub fn from_request(request: &PackageRequest, version: &str) -> (r: Self)
        ensures
            r@ == (NameVersionView { name: request.name@, version: version@ }),
    {
        KnownPackage { name: request.name.clone(), version: version.to_owned() }
    }

    /// `name@version`.
    pub fn to_display_string(&self) -> (r: String)
        ensures
            r@ == self.name@ + "@"@ + self.version@,
    {
        let mut s = concat(self.name.as_str(), "@");
        s.append(self.version.as_str());
        s
    }
}

impl PackageSpec for KnownPackage {
    fn name_and_version(&self) -> (r: (String, String))
        ensures
            r.0@ == self.name@,
            r.1@ == self.version@,
    {
        (self.name.clone(), self.version.clone())
    }
}

/// A [`PackageRequest`] with a resolved version based packages in a workspace.
#[derive(Clone, Debug)]
pub struct WorkspacePackage {
    /// The name of the package.
    pub name: String,
    /// The resolved version of the package.
    pub version: String,
    /// The unresolved version that was requested.
    pub requested_version: VersionSpec,
}

impl View for WorkspacePackage {
    type V = WorkspacePackageView;

    open spec fn view(&self) -> WorkspacePackageView {
        WorkspacePackageView {
            name: self.name@,
            version: self.version@,
            requested_version: self.requested_version@,
        }
    }
}

impl DeepView for WorkspacePackage {
    type V = WorkspacePackageView;

    open spec fn deep_view(&self) -> WorkspacePackageView {
        self@
    }
}

impl WorkspacePackage {
    /// The workspace package that a request resolved to `version`.
    pub fn from_request(request: &PackageRequest, version: &str) -> (r: Self)
        ensures
            r@ == (WorkspacePackageView {
                name: request.name@,
                version: version@,
                requested_version: request.version@,
            }),
    {
        WorkspacePackage {
            name: request.name.clone(),
            version: version.to_owned(),
            requested_version: request.version.duplicate(),
        }
    }

    /// Returns the newest known version that the requested spec matches, if it is newer
    /// than the installed one.
    pub fn available_update(&self, known_versions: &[String]) -> (r: Option<KnownPackage>)
        ensures
            ({
                let vs = known_versions.deep_view();
                let i = newest_match(vs, self@.requested_version);
                if i < vs.len() && version_lt(self.version@, vs[i]) {
                    r matches Some(k) && k@ == (NameVersionView { name: self.name@, version: vs[i] })
                } else {
                    r is None
                }
            }),
    {
        let i = newest_matching(&self.requested_version, known_versions);
        if i < known_versions.len() {
            assert(known_versions.deep_view()[i as int] == known_versions@[i as int]@);
            let latest = &known_versions[i];
            if version_less(self.version.as_str(), latest.as_str()) {
                return Some(KnownPackage { name: self.name.clone(), version: latest.clone() });
            }
        }
        None
    }

    /// An available update is a version that the requested spec matches, newer than the
    /// installed one, and no known version that the spec matches is newer than it.
    pub proof fn law_update_is_newer(self, known_versions: Seq<Seq<char>>)
        ensures
            ({
                let i = newest_match(known_versions, self@.requested_version);
                i < known_versions.len() && version_lt(self.version@, known_versions[i]) ==> {
                    &&& known_versions[i] != self.version@
                    &&& !version_lt(known_versions[i], self.version@)
                    &&& self@.requested_version.matches(known_versions[i])
                    &&& forall|j: int|
                        0 <= j < known_versions.len() && self@.requested_version.matches(
                            #[trigger] known_versions[j],
                        ) ==> !version_lt(known_versions[i], known_versions[j])
                }
            }),
    {
        let i = newest_match(known_versions, self@.requested_version);
        law_newest_match(known_versions, self@.requested_version);
        if i < known_versions.len() {
            law_version_order_is_strict(self.version@, known_versions[i], known_versions[i]);
        }
    }

    /// `name@version (resolved from spec)`.
    pub fn to_display_string(&self) -> (r: String)
        ensures
            r@ == self.name@ + "@"@ + self.version@ + " (resolved from "@
                + self.requested_version@.display() + ")"@,
    {
        let mut s = concat(self.name.as_str(), "@");
        s.append(self.version.as_str());
        s.append(" (resolved from ");
        let v = self.requested_version.to_display_string();
        s.append(v.as_str());
        s.append(")");
        s
    }
}

impl PackageSpec for WorkspacePackage {
    fn name_and_version(&self) -> (r: (String, String))
        ensures
            r.0@ == self.name@,
            r.1@ == self.version@,
    {
        (self.name.clone(), self.version.clone())
    }
}

/// An installed package.
///
/// This is mostly a shorter alias for [`crate::manifest::Package`], which only has the name and
/// version, as it is stored in the database.
#[derive(Clone, Debug)]
pub struct InstalledPackage {
    /// The name of the package.
    pub name: String,
    /// The version of the package.
    pub version: String,
}

impl View for InstalledPackage {
    type V = NameVersionView;

    open spec fn view(&self) -> NameVersionView {
        NameVersionView { name: self.name@, version: self.version@ }
    }
}

impl InstalledPackage {
    /// The installed package of a workspace package.
    pub fn from_workspace_package(spec: &WorkspacePackage) -> (r: Self)
        ensures
            r@ == (NameVersionView { name: spec.name@, version: spec.version@ }),
    {
        InstalledPackage { name: spec.name.clone(), version: spec.version.clone() }
    }

    /// The installed package of a manifest package.
    pub fn from_manifest_package(pkg: Package) -> (r: Self)
        ensures
            r@ == (NameVersionView { name: pkg.name@, version: pkg.version@ }),
    {
        InstalledPackage { name: pkg.name, version: pkg.version }
    }
}

impl InstalledPackage {
    /// Returns the directory of this package: its version, joined to its name, joined to
    /// the directory that holds the installed packages.
    pub fn directory(&self, package_root: &str) -> (r: String)
        ensures
            r@ == joined_path(joined_path(package_root@, self.name@), self.version@),
    {
        let by_name = path_join(package_root, self.name.as_str());
        path_join(by_name.as_str(), self.version.as_str())
    }
}

impl PackageSpec for InstalledPackage {
    fn name_and_version(&self) -> (r: (String, String))
        ensures
            r.0@ == self.name@,
            r.1@ == self.version@,
    {
        (self.name.clone(), self.version.clone())
    }
}

} // verus!

verus! {

impl WorkspacePackage {
    /// What the changeset logic reads of a workspace package.
    pub open spec fn installed_view(self) -> InstalledView {
        InstalledView { name: self.name@, version: self.version@, requested: self.requested_version@ }
    }
}

/// What the changeset logic reads of the packages of a workspace.
pub open spec fn installed_view_all(ws: Seq<WorkspacePackage>) -> Seq<InstalledView> {
    ws.map_values(|p: WorkspacePackage| p.installed_view())
}

/// A set of changes to workspace packages.
#[derive(Debug, Default)]
pub struct PackageChangeSet {
    /// Packages that need to be added.
    add: Vec<PackageRequest>,
    /// Packages that need to be upgraded or downgraded.
    change: Vec<PackageRequest>,
    /// Packages that need to be removed.
    remove: Vec<PackageRequest>,
}

impl View for PackageChangeSet {
    type V = ChangeSetView;

    closed spec fn view(&self) -> ChangeSetView {
        ChangeSetView {
            add: self.add.deep_view(),
            change: self.change.deep_view(),
            remove: self.remove.deep_view(),
        }
    }
}

/// Copies a slice of requests into a vector.
fn copy_requests(pkgs: &[PackageRequest]) -> (r: Vec<PackageRequest>)
    ensures
        r.deep_view() == pkgs.deep_view(),
{
    let mut r: Vec<PackageRequest> = Vec::new();
    for i in 0..pkgs.len()
        invariant
            r.deep_view() == pkgs.deep_view().take(i as int),
    {
        let ghost before = r.deep_view();
        r.push(pkgs[i].duplicate());
        assert(r.deep_view() =~= before.push(pkgs@[i as int]@));
        assert(pkgs.deep_view()[i as int] == pkgs@[i as int]@);
        assert(r.deep_view() =~= pkgs.deep_view().take(i + 1));
    }
    assert(pkgs.deep_view().take(pkgs.len() as int) =~= pkgs.deep_view());
    r
}

/// Index of the first workspace package named `name`, or the number of packages.
fn find_installed(ws: &[WorkspacePackage], name: &String) -> (r: usize)
    ensures
        r == first_index_of(installed_names(installed_view_all(ws@)), name@),
{
    let ghost names = installed_names(installed_view_all(ws@));
    let mut i: usize = 0;
    while i < ws.len()
        invariant
            i <= ws@.len(),
            names == installed_names(installed_view_all(ws@)),
            forall|j: int| 0 <= j < i ==> names[j] != name@,
        decreases ws@.len() - i,
    {
        if str_eq(ws[i].name.as_str(), name.as_str()) {
            proof {
                lemma_first_index_of_is(names, name@, i as int);
            }
            return i;
        }
        i = i + 1;
    }
    proof {
        lemma_first_index_of_is(names, name@, i as int);
    }
    i
}

impl PackageChangeSet {
    /// Creates a changeset that adds the given packages.
    pub fn add_packages(pkgs: &[PackageRequest], workspace_packages: &[WorkspacePackage]) -> (r: Result<Self, Conflicts>)
        ensures
            ({
                let start = ChangeSetView { add: pkgs.deep_view(), change: Seq::empty(), remove: Seq::empty() };
                match r {
                    Ok(cs) => resolve_changes(start, installed_view_all(workspace_packages@)) == Ok::<_, Seq<(Seq<char>, Seq<VersionSpecView>)>>(cs@),
                    Err(c) => resolve_changes(start, installed_view_all(workspace_packages@)) == Err::<ChangeSetView, _>(c@),
                }
            }),
    {
        let mut changeset = PackageChangeSet { add: copy_requests(pkgs), change: Vec::new(), remove: Vec::new() };
        assert(changeset.change.deep_view() =~= Seq::<RequestView>::empty());
        assert(changeset.remove.deep_view() =~= Seq::<RequestView>::empty());
        changeset.resolve(workspace_packages)?;
        Ok(changeset)
    }

    /// Creates a changeset that updates the given packages.
    pub fn update_packages(pkgs: &[PackageRequest], workspace_packages: &[WorkspacePackage]) -> (r: Result<Self, Conflicts>)
        ensures
            ({
                let start = ChangeSetView { add: Seq::empty(), change: pkgs.deep_view(), remove: Seq::empty() };
                match r {
                    Ok(cs) => resolve_changes(start, installed_view_all(workspace_packages@)) == Ok::<_, Seq<(Seq<char>, Seq<VersionSpecView>)>>(cs@),
                    Err(c) => resolve_changes(start, installed_view_all(workspace_packages@)) == Err::<ChangeSetView, _>(c@),
                }
            }),
    {
        let mut changeset = PackageChangeSet { add: Vec::new(), change: copy_requests(pkgs), remove: Vec::new() };
        assert(changeset.add.deep_view() =~= Seq::<RequestView>::empty());
        assert(changeset.remove.deep_view() =~= Seq::<RequestView>::empty());
        changeset.resolve(workspace_packages)?;
        Ok(changeset)
    }

    /// Creates a changeset that removes the given packages.
    pub fn remove_packages(pkgs: &[PackageRequest], workspace_packages: &[WorkspacePackage]) -> (r: Result<Self, Conflicts>)
        ensures
            ({
                let start = ChangeSetView { add: Seq::empty(), change: Seq::empty(), remove: pkgs.deep_view() };
                match r {
                    Ok(cs) => resolve_changes(start, installed_view_all(workspace_packages@)) == Ok::<_, Seq<(Seq<char>, Seq<VersionSpecView>)>>(cs@),
                    Err(c) => resolve_changes(start, installed_view_all(workspace_packages@)) == Err::<ChangeSetView, _>(c@),
                }
            }),
    {
        let mut changeset = PackageChangeSet { add: Vec::new(), change: Vec::new(), remove: copy_requests(pkgs) };
        assert(changeset.add.deep_view() =~= Seq::<RequestView>::empty());
        assert(changeset.change.deep_view() =~= Seq::<RequestView>::empty());
        changeset.resolve(workspace_packages)?;
        Ok(changeset)
    }

    /// Returns the packages that need to be added.
    pub fn added_packages(&self) -> (r: Vec<PackageRequest>)
        ensures
            r.deep_view() == self@.add,
    {
        copy_requests(self.add.as_slice())
    }

    /// Returns the packages that need to be upgraded or downgraded.
    pub fn changed_packages(&self) -> (r: Vec<PackageRequest>)
        ensures
            r.deep_view() == self@.change,
    {
        copy_requests(self.change.as_slice())
    }

    /// Returns the packages that need to be removed.
    pub fn removed_packages(&self) -> (r: Vec<PackageRequest>)
        ensures
            r.deep_view() == self@.remove,
    {
        copy_requests(self.remove.as_slice())
    }

    /// Resolves the changeset based on the current workflow packages.
    fn resolve(&mut self, current: &[WorkspacePackage]) -> (r: Result<(), Conflicts>)
        ensures
            match r {
                Ok(_) => resolve_changes(old(self)@, installed_view_all(current@)) == Ok::<_, Seq<(Seq<char>, Seq<VersionSpecView>)>>(final(self)@),
                Err(c) => resolve_changes(old(self)@, installed_view_all(current@)) == Err::<ChangeSetView, _>(c@)
                    && final(self)@ == (ChangeSetView { add: Seq::empty(), ..old(self)@ }),
            },
    {
        let ghost ws = installed_view_all(current@);
        let ghost start = self@;
        // Get all the requests currently in the workspace.
        let mut requests: Vec<PackageRequest> = Vec::new();
        for i in 0..current.len()
            invariant
                ws == installed_view_all(current@),
                requests.deep_view() == installed_requests(ws).take(i as int),
        {
            let ghost before = requests.deep_view();
            let entry = PackageRequest {
                name: current[i].name.clone(),
                version: current[i].requested_version.duplicate(),
            };
            assert(entry@ == installed_requests(ws)[i as int]);
            requests.push(entry);
            assert(requests.deep_view() =~= before.push(installed_requests(ws)[i as int]));
            assert(requests.deep_view() =~= installed_requests(ws).take(i + 1));
        }
        assert(installed_requests(ws).take(current.len() as int) =~= installed_requests(ws));
        // Merge the current requests with the new requests, removing the new requests from
        // self.add because they might not actually be needed. The ones that are needed are
        // re-added below.
        let mut adds: Vec<PackageRequest> = Vec::new();
        std::mem::swap(&mut adds, &mut self.add);
        let ghost before_append = requests.deep_view();
        let mut adds = adds;
        requests.append(&mut adds);
        assert(requests.deep_view() =~= installed_requests(ws) + start.add);
        assert(self.add.deep_view() =~= Seq::<RequestView>::empty());
        let merged = merge_dependency_requests(requests)?;
        let ghost m = merged.deep_view();
        assert(m.take(0) =~= Seq::<RequestView>::empty());
        for k in 0..merged.len()
            invariant
                m == merged.deep_view(),
                ws == installed_view_all(current@),
                self@ == resolve_all(ChangeSetView { add: Seq::empty(), ..start }, ws, m.take(k as int)),
        {
            let request = &merged[k];
            assert(m.take(k + 1).drop_last() =~= m.take(k as int));
            assert(m.take(k + 1).last() == request@);
            let i = find_installed(current, &request.name);
            proof {
                crate::text::lemma_first_index_of(installed_names(ws), request.name@);
            }
            if i < current.len() {
                assert(ws[i as int].version == current@[i as int].version@);
                // The request matches a currently included package.
                if request.version.matches(current[i].version.as_str()) {
                    // The currently included package satisfies the request, do nothing.
                } else {
                    // The currently included package does not satisfy the request, add it to the
                    // grade list to be upgraded or downgraded.
                    let ghost before = self.change.deep_view();
                    self.change.push(request.duplicate());
                    assert(self.change.deep_view() =~= before.push(request@));
                }
            } else {
                // The request does not match a currently included package, add it to the add list
                // to be installed.
                let j = find_request(&self.add, &request.name);
                proof {
                    crate::text::lemma_first_index_of(request_names(self.add.deep_view()), request.name@);
                }
                if j == self.add.len() {
                    assert(!request_names(self.add.deep_view()).contains(request.name@));
                    let ghost before = self.add.deep_view();
                    self.add.push(request.duplicate());
                    assert(self.add.deep_view() =~= before.push(request@));
                } else {
                    assert(request_names(self.add.deep_view())[j as int] == request.name@);
                }
            }
        }
        assert(m.take(merged.len() as int) =~= m);
        Ok(())
    }
}

} // verus!
