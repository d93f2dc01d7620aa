//! Registries: places that publish manifests of packages.
use vstd::prelude::*;

use crate::adapters::{joined_path, now_unix_nanos, path_join};
use crate::manifest::{tied_to, Manifest, ManifestView, Package, PackageView, with_registry_all};
use crate::package::{KnownPackage, NameVersionView};
use crate::text::{
    concat, first_where, has_prefix, lemma_first_where_is, starts_with, str_eq,
};
use crate::util::{is_file_system_safe, is_safe_name};

verus! {

/// How long a fetched registry stays fresh: 1440 seconds, in nanoseconds.
pub const UPDATE_AFTER_NANOS: i128 = 1_440_000_000_000;

/// What a registry URI holds.
pub enum UriView {
    File(Seq<char>),
    Http(Seq<char>),
    Https(Seq<char>),
}

impl UriView {
    /// The URI as it is shown and stored: the path or the URL.
    pub open spec fn display(self) -> Seq<char> {
        match self {
            UriView::File(p) => p,
            UriView::Http(u) => u,
            UriView::Https(u) => u,
        }
    }
}

/// Reads a registry URI: text that starts with `http://` or `https://` is a URL; anything
/// else is a path, made absolute by joining it to `cwd` when it does not start with `/`.
pub open spec fn parse_uri(s: Seq<char>, cwd: Seq<char>) -> UriView {
    if starts_with(s, "http://"@) {
        UriView::Http(s)
    } else if starts_with(s, "https://"@) {
        UriView::Https(s)
    } else if s.len() > 0 && s[0] == '/' {
        UriView::File(s)
    } else {
        UriView::File(joined_path(cwd, s))
    }
}

/// A registry URI.
#[derive(Debug, Clone, PartialEq, Eq)]
pub enum Uri {
    /// A local file path.
    File(String),
    /// An HTTP URI.
    Http(String),
    /// An HTTPS URI.
    Https(String),
}

impl View for Uri {
    type V = UriView;

    open spec fn view(&self) -> UriView {
        match self {
            Uri::File(p) => UriView::File(p@),
            Uri::Http(u) => UriView::Http(u@),
            Uri::Https(u) => UriView::Https(u@),
        }
    }
}

impl Uri {
    /// Reads a registry URI; a relative path is resolved against `cwd`, the directory
    /// that the program runs in.
    pub fn parse(s: &str, cwd: &str) -> (r: Self)
        ensures
            r@ == parse_uri(s@, cwd@),
            r@ is File && cwd@.len() > 0 && cwd@[0] == '/' ==> r@.display().len() > 0
                && r@.display()[0] == '/',
    {
        if has_prefix(s, "http://") {
            Uri::Http(s.to_owned())
        } else if has_prefix(s, "https://") {
            Uri::Https(s.to_owned())
        } else if s.unicode_len() > 0 && s.get_char(0) == '/' {
            Uri::File(s.to_owned())
        } else {
            Uri::File(path_join(cwd, s))
        }
    }

    /// The URI as it is shown and stored.
    pub fn to_display_string(&self) -> (r: String)
        ensures
            r@ == self@.display(),
    {
        match self {
            Uri::File(p) => p.clone(),
            Uri::Http(u) => u.clone(),
            Uri::Https(u) => u.clone(),
        }
    }
}

/// What a registry holds; the time of its last fetch is in nanoseconds since the Unix
/// epoch.
pub struct RegistryView {
    pub name: Option<Seq<char>>,
    pub uri: UriView,
    pub last_fetched: Option<i128>,
}

impl RegistryView {
    /// A registry should be fetched when it is a local file, when it was never fetched,
    /// or when its last fetch is at least [`UPDATE_AFTER_NANOS`] old at `now`.
    pub open spec fn should_update_at(self, now: int) -> bool {
        match self.uri {
            UriView::File(_) => true,
            _ => match self.last_fetched {
                None => true,
                Some(t) => now - t >= UPDATE_AFTER_NANOS,
            },
        }
    }

    /// The URI, then the name in brackets when it is known.
    pub open spec fn display(self) -> Seq<char> {
        self.uri.display() + match self.name {
            Some(n) => " ("@ + n + ")"@,
            None => Seq::empty(),
        }
    }
}

/// A registry is a place that has manifests.
#[derive(Debug)]
pub struct Registry {
    /// The name of the registry.
    ///
    /// Can be blank if we have never fetched it.
    pub name: Option<String>,
    /// The URI of the registry.
    pub uri: Uri,
    /// The last time this registry was fetched, in nanoseconds since the Unix epoch.
    pub last_fetched: Option<i128>,
}

impl View for Registry {
    type V = RegistryView;

    open spec fn view(&self) -> RegistryView {
        RegistryView {
            name: match self.name {
                Some(n) => Some(n@),
                None => None,
            },
            uri: self.uri@,
            last_fetched: self.last_fetched,
        }
    }
}

impl Registry {
    /// Creates a new registry, never fetched and without a name.
    pub fn new(uri: &str, cwd: &str) -> (r: Self)
        ensures
            r@ == (RegistryView { name: None, uri: parse_uri(uri@, cwd@), last_fetched: None }),
    {
        Registry { name: None, uri: Uri::parse(uri, cwd), last_fetched: None }
    }

    /// Returns if the registry is initialized, and can be written to the database.
    pub fn is_initialized(&self) -> (r: bool)
        ensures
            r == self@.name is Some,
    {
        self.name.is_some()
    }

    /// Ties the packages of a manifest fetched from this registry to it.
    pub fn tie_manifest(&self, manifest: &mut Manifest)
        ensures
            final(manifest)@ == (ManifestView {
                packages: with_registry_all(old(manifest)@.packages, self@.uri.display()),
                ..old(manifest)@
            }),
            final(manifest)@.packages.len() == old(manifest)@.packages.len(),
            forall|i: int|
                0 <= i < old(manifest)@.packages.len() ==> tied_to(
                    #[trigger] final(manifest)@.packages[i],
                    old(manifest)@.packages[i],
                    self@.uri.display(),
                ),
    {
        let uri = self.uri.to_display_string();
        manifest.set_registry_uri(uri.as_str());
    }

    /// Records the first fetch of the registry: it takes the name of its manifest.
    pub fn record_initialization(&mut self, manifest: &Manifest)
        ensures
            final(self)@ == (RegistryView { name: Some(manifest@.name), ..old(self)@ }),
    {
        self.name = Some(manifest.name.clone());
    }

    /// Records a fetch at `now`: the registry takes the name of its manifest, which may
    /// have changed.
    pub fn record_fetch(&mut self, manifest: &Manifest, now: i128)
        ensures
            final(self)@ == (RegistryView {
                name: Some(manifest@.name),
                last_fetched: Some(now),
                ..old(self)@
            }),
    {
        self.name = Some(manifest.name.clone());
        self.last_fetched = Some(now);
    }

    /// Returns if the registry should be fetched at `now`.
    pub fn should_update_at(&self, now: i128) -> (r: bool)
        ensures
            r == self@.should_update_at(now as int),
    {
        if let Uri::File(_) = self.uri {
            return true;
        }
        match self.last_fetched {
            None => true,
            Some(last) => {
                if last > i128::MAX - UPDATE_AFTER_NANOS {
                    false
                } else {
                    now >= last + UPDATE_AFTER_NANOS
                }
            },
        }
    }

    /// Returns if the registry should be fetched now. A local file, or a registry never
    /// fetched, always should; otherwise it depends on the clock.
    pub fn should_update(&self) -> (r: bool)
        ensures
            (self@.uri is File || self@.last_fetched is None) ==> r,
    {
        let now = now_unix_nanos();
        self.should_update_at(now)
    }

    /// Returns if the registry is to be fetched: always when `force` is set, else when it
    /// should be updated now.
    pub fn needs_fetch(&self, force: bool) -> (r: bool)
        ensures
            force ==> r,
            (self@.uri is File || self@.last_fetched is None) ==> r,
    {
        force || self.should_update()
    }

    /// The URI, then the name in brackets when it is known.
    pub fn to_display_string(&self) -> (r: String)
        ensures
            r@ == self@.display(),
    {
        let mut s = self.uri.to_display_string();
        match &self.name {
            Some(n) => {
                s.append(" (");
                s.append(n.as_str());
                s.append(")");
            },
            None => {
                assert(s@ + Seq::<char>::empty() =~= s@);
            },
        }
        s
    }
}

/// Why a registry, or what it published, is refused.
#[derive(Debug, Clone, PartialEq, Eq)]
pub enum RegistryError {
    /// The registry, shown by its URI, was never fetched, so it has no name.
    NotInitialized(String),
    /// A registry with this URI is already known.
    AlreadyExists(String),
    /// No registry has this URI.
    DoesNotExist(String),
    /// The manifest holds this package, whose name or version is not safe in a path.
    InvalidPackage(String),
    /// The manifest holds packages that other registries publish: the report.
    Collisions(String),
}

impl RegistryError {
    /// The error message.
    pub open spec fn message(self) -> Seq<char> {
        match self {
            RegistryError::NotInitialized(u) => "registry "@ + u@ + " is not initialized"@,
            RegistryError::AlreadyExists(n) => "registry "@ + n@ + " already exists"@,
            RegistryError::DoesNotExist(u) => "registry "@ + u@ + " does not exist"@,
            RegistryError::InvalidPackage(p) => "invalid package name or version: "@ + p@,
            RegistryError::Collisions(m) => m@,
        }
    }

    /// The error message.
    pub fn to_display_string(&self) -> (r: String)
        ensures
            r@ == self.message(),
    {
        match self {
            RegistryError::NotInitialized(u) => {
                let mut s = concat("registry ", u.as_str());
                s.append(" is not initialized");
                s
            },
            RegistryError::AlreadyExists(n) => {
                let mut s = concat("registry ", n.as_str());
                s.append(" already exists");
                s
            },
            RegistryError::DoesNotExist(u) => {
                let mut s = concat("registry ", u.as_str());
                s.append(" does not exist");
                s
            },
            RegistryError::InvalidPackage(p) => concat("invalid package name or version: ", p.as_str()),
            RegistryError::Collisions(m) => m.clone(),
        }
    }
}

/// A registry may be stored only once it has a name, and only when no registry with its
/// URI is stored (`exists`).
pub fn check_new_registry(registry: &Registry, exists: bool) -> (r: Result<(), RegistryError>)
    ensures
        match registry@.name {
            None => r matches Err(RegistryError::NotInitialized(u)) && u@ == registry@.uri.display(),
            Some(_) => if exists {
                r matches Err(RegistryError::AlreadyExists(u)) && u@ == registry@.uri.display()
            } else {
                r is Ok
            },
        },
{
    match &registry.name {
        None => Err(RegistryError::NotInitialized(registry.uri.to_display_string())),
        Some(_) => if exists {
            Err(RegistryError::AlreadyExists(registry.uri.to_display_string()))
        } else {
            Ok(())
        },
    }
}

/// A package whose name or version could not be used in a path.
pub open spec fn is_unsafe_package(p: PackageView) -> bool {
    !is_safe_name(p.name) || !is_safe_name(p.version)
}

/// The test for packages that cannot be used in a path.
pub open spec fn unsafe_package() -> spec_fn(PackageView) -> bool {
    |p: PackageView| is_unsafe_package(p)
}

/// Refuses a manifest with a package whose name or version is not safe in a path, naming
/// the first such package.
pub fn check_manifest_packages(pkgs: &[Package]) -> (r: Result<(), RegistryError>)
    ensures
        ({
            let k = first_where(pkgs.deep_view(), unsafe_package());
            if k < pkgs.len() {
                r matches Err(RegistryError::InvalidPackage(m)) && m@ == pkgs.deep_view()[k].display()
            } else {
                r is Ok
            }
        }),
{
    let ghost pv = pkgs.deep_view();
    for i in 0..pkgs.len()
        invariant
            pv == pkgs.deep_view(),
            forall|j: int| 0 <= j < i ==> !unsafe_package()(pv[j]),
    {
        assert(pv[i as int] == pkgs@[i as int]@);
        if !is_file_system_safe(pkgs[i].name.as_str()) || !is_file_system_safe(
            pkgs[i].version.as_str(),
        ) {
            proof {
                lemma_first_where_is(pv, unsafe_package(), i as int);
            }
            return Err(RegistryError::InvalidPackage(pkgs[i].to_display_string()));
        }
    }
    proof {
        lemma_first_where_is(pv, unsafe_package(), pv.len() as int);
    }
    Ok(())
}

/// A package of a manifest collides when the package of that name and version is already
/// known from a registry other than `uri`.
pub open spec fn collides(existing: Option<Seq<char>>, uri: Seq<char>) -> bool {
    existing matches Some(other) && other != uri
}

/// A package collides exactly when the package of its name and version is known from a
/// registry whose URI is not `uri`; a registry never collides with itself, and a package
/// not known at all collides with nothing.
pub proof fn law_collision_is_another_registry(existing: Option<Seq<char>>, uri: Seq<char>)
    ensures
        collides(existing, uri) <==> exists|other: Seq<char>|
            existing == Some(other) && other != uri,
        !collides(Some(uri), uri),
        !collides(None, uri),
{
    if let Some(other) = existing {
        if other != uri {
            assert(existing == Some(other) && other != uri);
        }
    }
}

/// The line of the report for a package that collides with one of `other`.
pub open spec fn collision_line(p: PackageView, other: Seq<char>) -> Seq<char> {
    p.registry + "'s package "@ + p.name + " collides with "@ + other + "'s"@
}

/// The lines of every colliding package, in order; `existing` holds, for each package,
/// the registry of the known package of its name and version, if one is known.
pub open spec fn collision_report(
    pkgs: Seq<PackageView>,
    existing: Seq<Option<Seq<char>>>,
    uri: Seq<char>,
) -> Seq<char>
    decreases pkgs.len(),
{
    if pkgs.len() == 0 || existing.len() == 0 {
        Seq::empty()
    } else {
        let rest = collision_report(pkgs.drop_last(), existing.drop_last(), uri);
        if collides(existing.last(), uri) {
            rest + collision_line(pkgs.last(), existing.last().unwrap())
        } else {
            rest
        }
    }
}

/// Refuses a manifest, fetched from the registry at `uri`, with packages that other
/// registries publish. `existing[i]` is the registry of the known package with the name
/// and version of `pkgs[i]`, if one is known.
pub fn check_collisions(pkgs: &[Package], existing: &[Option<String>], uri: &str) -> (r: Result<
    (),
    RegistryError,
>)
    requires
        pkgs.len() == existing.len(),
    ensures
        r is Ok <==> forall|i: int| 0 <= i < pkgs.len() ==> !collides(existing.deep_view()[i], uri@),
        r is Err <==> exists|i: int|
            0 <= i < pkgs.len() && ((#[trigger] existing@[i]) matches Some(other) && other@ != uri@),
        r is Err ==> (r matches Err(RegistryError::Collisions(m)) && m@ == collision_report(
            pkgs.deep_view(),
            existing.deep_view(),
            uri@,
        )),
{
    let ghost pv = pkgs.deep_view();
    let ghost ev = existing.deep_view();
    let mut msg = String::new();
    let mut found = false;
    for i in 0..pkgs.len()
        invariant
            pkgs.len() == existing.len(),
            pv == pkgs.deep_view(),
            ev == existing.deep_view(),
            msg@ == collision_report(pv.take(i as int), ev.take(i as int), uri@),
            found <==> exists|j: int| 0 <= j < i && collides(ev[j], uri@),
    {
        assert(pv.take(i + 1).drop_last() =~= pv.take(i as int));
        assert(ev.take(i + 1).drop_last() =~= ev.take(i as int));
        assert(pv[i as int] == pkgs@[i as int]@);
        match &existing[i] {
            Some(other) => {
                if !str_eq(other.as_str(), uri) {
                    msg.append(pkgs[i].registry.as_str());
                    msg.append("'s package ");
                    msg.append(pkgs[i].name.as_str());
                    msg.append(" collides with ");
                    msg.append(other.as_str());
                    msg.append("'s");
                    found = true;
                }
            },
            None => {},
        }
        assert(msg@ =~= collision_report(pv.take(i + 1), ev.take(i + 1), uri@));
    }
    assert(pv.take(pkgs.len() as int) =~= pv);
    assert(ev.take(pkgs.len() as int) =~= ev);
    assert forall|i: int| 0 <= i < pkgs.len() implies collides(ev[i], uri@) == ((
    #[trigger] existing@[i]) matches Some(other) && other@ != uri@) by {
        assert(ev[i] == existing@[i].deep_view());
    }
    if found {
        Err(RegistryError::Collisions(msg))
    } else {
        Ok(())
    }
}

/// The known packages of a registry that its manifest no longer holds, in order, by
/// name and version.
pub open spec fn stale_packages(known: Seq<PackageView>, manifest: Seq<PackageView>) -> Seq<
    NameVersionView,
>
    decreases known.len(),
{
    if known.len() == 0 {
        Seq::empty()
    } else {
        let rest = stale_packages(known.drop_last(), manifest);
        if manifest.contains(known.last()) {
            rest
        } else {
            rest.push(NameVersionView { name: known.last().name, version: known.last().version })
        }
    }
}

/// Returns true when `list` holds a package equal to `p` in every field.
fn holds_package(list: &[Package], p: &Package) -> (r: bool)
    ensures
        r == list.deep_view().contains(p@),
{
    let ghost lv = list.deep_view();
    for j in 0..list.len()
        invariant
            lv == list.deep_view(),
            forall|k: int| 0 <= k < j ==> lv[k] != p@,
    {
        assert(lv[j as int] == list@[j as int]@);
        if list[j].eq(p) {
            return true;
        }
    }
    false
}

/// The known packages of a registry, `known`, that the fetched manifest no longer holds:
/// they are to be forgotten.
pub fn stale_known_packages(known: &[Package], manifest: &[Package]) -> (r: Vec<KnownPackage>)
    ensures
        r@.map_values(|k: KnownPackage| k@) == stale_packages(known.deep_view(), manifest.deep_view()),
{
    let ghost kv = known.deep_view();
    let ghost mv = manifest.deep_view();
    let mut out: Vec<KnownPackage> = Vec::new();
    for i in 0..known.len()
        invariant
            kv == known.deep_view(),
            mv == manifest.deep_view(),
            out@.map_values(|k: KnownPackage| k@) == stale_packages(kv.take(i as int), mv),
    {
        assert(kv.take(i + 1).drop_last() =~= kv.take(i as int));
        assert(kv[i as int] == known@[i as int]@);
        if !holds_package(manifest, &known[i]) {
            let ghost before = out@;
            out.push(KnownPackage::from_manifest_package(&known[i]));
            assert(out@.map_values(|k: KnownPackage| k@) =~= before.map_values(
                |k: KnownPackage| k@,
            ).push(NameVersionView { name: kv[i as int].name, version: kv[i as int].version }));
        }
    }
    assert(kv.take(known.len() as int) =~= kv);
    out
}

/// A registry fetched at `t` that is not a local file needs no fetch until
/// [`UPDATE_AFTER_NANOS`] have passed, and needs one from then on.
pub proof fn law_fresh_after_fetch(r: RegistryView, name: Seq<char>, t: i128, now: int)
    requires
        !(r.uri is File),
    ensures
        (RegistryView { name: Some(name), last_fetched: Some(t), ..r }).should_update_at(now)
            <==> now >= t + UPDATE_AFTER_NANOS,
{
}

/// A local file, or a registry never fetched, needs a fetch at any time.
pub proof fn law_files_and_new_registries_always_update(r: RegistryView, now: int)
    requires
        r.uri is File || r.last_fetched is None,
    ensures
        r.should_update_at(now),
{
}

/// The stale packages are exactly the known packages that the manifest does not hold:
/// each one comes from a known package missing from the manifest, and each known package
/// missing from the manifest gives one.
pub proof fn law_stale_packages_are_the_missing_ones(
    known: Seq<PackageView>,
    manifest: Seq<PackageView>,
)
    ensures
        forall|x: NameVersionView|
            stale_packages(known, manifest).contains(x) <==> exists|i: int|
                0 <= i < known.len() && !manifest.contains(#[trigger] known[i]) && x == (
                NameVersionView { name: known[i].name, version: known[i].version }),
    decreases known.len(),
{
    if known.len() > 0 {
        let p = known.drop_last();
        let l = known.last();
        law_stale_packages_are_the_missing_ones(p, manifest);
        let rest = stale_packages(p, manifest);
        let lx = NameVersionView { name: l.name, version: l.version };
        assert forall|x: NameVersionView|
            stale_packages(known, manifest).contains(x) <==> exists|i: int|
                0 <= i < known.len() && !manifest.contains(#[trigger] known[i]) && x == (
                NameVersionView { name: known[i].name, version: known[i].version }) by {
            if stale_packages(known, manifest).contains(x) {
                if rest.contains(x) {
                    let i = choose|i: int|
                        0 <= i < p.len() && !manifest.contains(#[trigger] p[i]) && x == (
                        NameVersionView { name: p[i].name, version: p[i].version });
                    assert(known[i] == p[i]);
                } else {
                    let k = choose|k: int| 0 <= k < rest.push(lx).len() && rest.push(lx)[k] == x;
                    assert(k == rest.len());
                    assert(known[known.len() - 1] == l);
                }
            }
            if exists|i: int|
                0 <= i < known.len() && !manifest.contains(#[trigger] known[i]) && x == (
                NameVersionView { name: known[i].name, version: known[i].version }) {
                let i = choose|i: int|
                    0 <= i < known.len() && !manifest.contains(#[trigger] known[i]) && x == (
                    NameVersionView { name: known[i].name, version: known[i].version });
                if i < p.len() {
                    assert(p[i] == known[i]);
                    assert(rest.contains(x));
                    if !manifest.contains(l) {
                        let k = choose|k: int| 0 <= k < rest.len() && rest[k] == x;
                        assert(rest.push(lx)[k] == x);
                    }
                } else {
                    assert(known[i] == l);
                    assert(rest.push(lx)[rest.len() as int] == x);
                }
            }
        }
    }
}

/// The fetcher that reads manifests from the file system or over HTTP.
#[derive(Debug, Copy, Clone, Default)]
pub struct DefaultFetcher;

/// The manifest that a [`MockFetcher`] returns by default.
pub const MOCK_MANIFEST: &'static str = "
    schema_version = 1
    name = \"test\"
    uri = \"https://example.invalid/registry\"
    description = \"A test manifest\"

    [[packages]]
    name = \"test-package\"
    version = \"0.1.0\"

    [[packages]]
    name = \"test-package\"
    version = \"0.1.1\"

    [[packages]]
    name = \"another-package\"
    version = \"0.2.0\"

    [[packages]]
    name = \"failing-build\"
    version = \"0.1.0\"
    build = \"exit 1\"
";

/// A fetcher that returns a pre-defined manifest.
#[derive(Debug, Clone)]
pub struct MockFetcher {
    /// The manifest text it returns.
    pub manifest: String,
}

impl Default for MockFetcher {
    fn default() -> (r: Self)
        ensures
            r.manifest@ == MOCK_MANIFEST@,
    {
        MockFetcher { manifest: MOCK_MANIFEST.to_owned() }
    }
}

} // verus!
