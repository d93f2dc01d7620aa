//! Registry manifests and the packages they describe.
use vstd::prelude::*;

use crate::adapters::{url_path_segments, url_path_segments_of};
use crate::text::{concat, opt_str_clone, opt_str_eq, opt_view, str_eq};

verus! {

/// What a package of a manifest holds.
pub struct PackageView {
    pub name: Seq<char>,
    pub version: Seq<char>,
    pub description: Option<Seq<char>>,
    pub homepage: Option<Seq<char>>,
    pub license: Option<Seq<char>>,
    pub source: Option<Seq<char>>,
    pub build: Option<Seq<char>>,
    pub registry: Seq<char>,
}

/// A package, as described by a registry manifest.
#[derive(Clone, Debug)]
pub struct Package {
    /// The name of the package.
    pub name: String,
    /// The version of the package.
    pub version: String,
    /// The description of the package.
    pub description: Option<String>,
    /// The homepage of the package.
    pub homepage: Option<String>,
    /// The license of the package.
    pub license: Option<String>,
    /// The source of the package. Can be `None` for meta packages.
    pub source: Option<String>,
    /// The build command of the package.
    pub build: Option<String>,
    /// The registry this package is from.
    pub registry: String,
}

impl View for Package {
    type V = PackageView;

    open spec fn view(&self) -> PackageView {
        PackageView {
            name: self.name@,
            version: self.version@,
            description: opt_view(self.description),
            homepage: opt_view(self.homepage),
            license: opt_view(self.license),
            source: opt_view(self.source),
            build: opt_view(self.build),
            registry: self.registry@,
        }
    }
}

impl DeepView for Package {
    type V = PackageView;

    open spec fn deep_view(&self) -> PackageView {
        self@
    }
}

impl PartialEq for Package {
    fn eq(&self, other: &Self) -> (r: bool) {
        str_eq(self.name.as_str(), other.name.as_str()) && str_eq(
            self.version.as_str(),
            other.version.as_str(),
        ) && opt_str_eq(&self.description, &other.description) && opt_str_eq(
            &self.homepage,
            &other.homepage,
        ) && opt_str_eq(&self.license, &other.license) && opt_str_eq(&self.source, &other.source)
            && opt_str_eq(&self.build, &other.build) && str_eq(
            self.registry.as_str(),
            other.registry.as_str(),
        )
    }
}

impl vstd::std_specs::cmp::PartialEqSpecImpl for Package {
    open spec fn obeys_eq_spec() -> bool {
        true
    }

    open spec fn eq_spec(&self, other: &Self) -> bool {
        self@ == other@
    }
}

impl Default for Package {
    fn default() -> (r: Self)
        ensures
            r@ == (PackageView {
                name: Seq::empty(),
                version: Seq::empty(),
                description: None,
                homepage: None,
                license: None,
                source: None,
                build: None,
                registry: Seq::empty(),
            }),
    {
        Package {
            name: String::new(),
            version: String::new(),
            description: None,
            homepage: None,
            license: None,
            source: None,
            build: None,
            registry: String::new(),
        }
    }
}

/// Optional text shown between `open` and `close`, or nothing.
pub open spec fn optional_part(o: Option<Seq<char>>, open: Seq<char>, close: Seq<char>) -> Seq<
    char,
> {
    match o {
        Some(t) => open + t + close,
        None => Seq::empty(),
    }
}

impl PackageView {
    /// `name@version`, then ` - description`, ` (homepage)`, ` [license]` when present,
    /// then ` < registry`.
    pub open spec fn display(self) -> Seq<char> {
        self.name + "@"@ + self.version + optional_part(self.description, " - "@, Seq::empty())
            + optional_part(self.homepage, " ("@, ")"@) + optional_part(self.license, " ["@, "]"@)
            + " < "@ + self.registry
    }

    /// The same package, said to come from `registry`.
    pub open spec fn with_registry(self, registry: Seq<char>) -> PackageView {
        PackageView { registry, ..self }
    }
}

/// Appends `open`, the text and `close` to `s` when the text is present.
fn push_optional(s: &mut String, o: &Option<String>, open: &str, close: &str)
    ensures
        final(s)@ == old(s)@ + optional_part(opt_view(*o), open@, close@),
{
    match o {
        Some(t) => {
            s.append(open);
            s.append(t.as_str());
            s.append(close);
        },
        None => {
            assert(old(s)@ + Seq::<char>::empty() =~= old(s)@);
        },
    }
}

impl Package {
    /// Returns a copy of this package.
    pub fn duplicate(&self) -> (r: Self)
        ensures
            r@ == self@,
    {
        Package {
            name: self.name.clone(),
            version: self.version.clone(),
            description: opt_str_clone(&self.description),
            homepage: opt_str_clone(&self.homepage),
            license: opt_str_clone(&self.license),
            source: opt_str_clone(&self.source),
            build: opt_str_clone(&self.build),
            registry: self.registry.clone(),
        }
    }

    /// The one-line description of the package.
    pub fn to_display_string(&self) -> (r: String)
        ensures
            r@ == self@.display(),
    {
        let mut s = concat(self.name.as_str(), "@");
        s.append(self.version.as_str());
        push_optional(&mut s, &self.description, " - ", "");
        proof {
            reveal_strlit("");
            assert(""@ =~= Seq::<char>::empty());
        }
        push_optional(&mut s, &self.homepage, " (", ")");
        push_optional(&mut s, &self.license, " [", "]");
        s.append(" < ");
        s.append(self.registry.as_str());
        s
    }
}

/// Every package of `pkgs`, said to come from `registry`.
pub open spec fn with_registry_all(pkgs: Seq<PackageView>, registry: Seq<char>) -> Seq<
    PackageView,
> {
    pkgs.map_values(|p: PackageView| p.with_registry(registry))
}

/// `q` is `p`, said to come from `registry`: every field but the registry is kept.
pub open spec fn tied_to(q: PackageView, p: PackageView, registry: Seq<char>) -> bool {
    &&& q.registry == registry
    &&& q.name == p.name
    &&& q.version == p.version
    &&& q.description == p.description
    &&& q.homepage == p.homepage
    &&& q.license == p.license
    &&& q.source == p.source
    &&& q.build == p.build
}

/// Tying packages to a registry keeps every package, in order, and changes only the
/// registry that each one names.
pub proof fn law_with_registry_all(pkgs: Seq<PackageView>, registry: Seq<char>)
    ensures
        with_registry_all(pkgs, registry).len() == pkgs.len(),
        forall|i: int|
            #![trigger with_registry_all(pkgs, registry)[i]]
            0 <= i < pkgs.len() ==> tied_to(with_registry_all(pkgs, registry)[i], pkgs[i], registry),
{
}

/// Sets the registry of every package to `registry`.
fn set_registry_all(pkgs: &mut Vec<Package>, registry: &str)
    ensures
        final(pkgs).deep_view() == with_registry_all(old(pkgs).deep_view(), registry@),
{
    let ghost start = pkgs.deep_view();
    let n = pkgs.len();
    for i in 0..n
        invariant
            n == pkgs.len(),
            start.len() == n,
            forall|j: int| 0 <= j < i ==> pkgs.deep_view()[j] == start[j].with_registry(registry@),
            forall|j: int| i <= j < n ==> pkgs.deep_view()[j] == start[j],
    {
        let mut p = pkgs[i].duplicate();
        p.registry = registry.to_owned();
        assert(p@ == start[i as int].with_registry(registry@));
        let ghost before = pkgs.deep_view();
        pkgs.set(i, p);
        assert(pkgs.deep_view() =~= before.update(i as int, p@));
    }
    assert(pkgs.deep_view() =~= with_registry_all(start, registry@));
}

/// What a manifest holds.
pub struct ManifestView {
    pub schema_version: u32,
    pub name: Seq<char>,
    pub uri: Seq<char>,
    pub description: Option<Seq<char>>,
    pub packages: Seq<PackageView>,
}

/// Manifest metadata.
#[derive(Debug, Default)]
pub struct Manifest {
    /// The schema version of the manifest.
    pub schema_version: u32,
    /// The name of the manifest.
    pub name: String,
    /// The URI of the manifest.
    pub uri: String,
    /// The description of the manifest.
    pub description: Option<String>,
    /// Packages in this manifest.
    pub packages: Vec<Package>,
}

impl View for Manifest {
    type V = ManifestView;

    open spec fn view(&self) -> ManifestView {
        ManifestView {
            schema_version: self.schema_version,
            name: self.name@,
            uri: self.uri@,
            description: opt_view(self.description),
            packages: self.packages.deep_view(),
        }
    }
}

impl Manifest {
    /// Assembles a manifest as it is read: each package is tied to the registry that
    /// the manifest names, whatever registry it held before.
    pub fn from_parts(
        schema_version: u32,
        name: String,
        uri: String,
        description: Option<String>,
        packages: Vec<Package>,
    ) -> (r: Self)
        ensures
            r@ == (ManifestView {
                schema_version,
                name: name@,
                uri: uri@,
                description: opt_view(description),
                packages: with_registry_all(packages.deep_view(), name@),
            }),
            r@.packages.len() == packages.len(),
            forall|i: int|
                0 <= i < packages.len() ==> tied_to(#[trigger] r@.packages[i], packages@[i]@, name@),
    {
        let ghost given = packages.deep_view();
        let ghost orig = packages@;
        let mut packages = packages;
        set_registry_all(&mut packages, name.as_str());
        proof {
            law_with_registry_all(given, name@);
            assert forall|i: int| 0 <= i < given.len() implies given[i] == orig[i]@ by {}
        }
        Manifest { schema_version, name, uri, description, packages }
    }

    /// Ties every package of the manifest to the registry at `uri`.
    pub fn set_registry_uri(&mut self, uri: &str)
        ensures
            final(self)@ == (ManifestView {
                packages: with_registry_all(old(self)@.packages, uri@),
                ..old(self)@
            }),
            final(self)@.packages.len() == old(self)@.packages.len(),
            forall|i: int|
                0 <= i < old(self)@.packages.len() ==> tied_to(
                    #[trigger] final(self)@.packages[i],
                    old(self)@.packages[i],
                    uri@,
                ),
    {
        set_registry_all(&mut self.packages, uri);
        proof {
            law_with_registry_all(old(self)@.packages, uri@);
        }
    }
}

/// Why the source of a package cannot be downloaded.
#[derive(Debug, Clone, Copy, PartialEq, Eq)]
pub enum SourceError {
    /// The source is not a URL.
    InvalidSourceUrl,
    /// The source URL has no path to take a file name from.
    InvalidDownloadSource,
}

impl SourceError {
    /// The error message.
    pub open spec fn message(self) -> Seq<char> {
        match self {
            SourceError::InvalidSourceUrl => "invalid source URL"@,
            SourceError::InvalidDownloadSource => "invalid package download source"@,
        }
    }

    /// The error message.
    pub fn to_display_string(&self) -> (r: String)
        ensures
            r@ == self.message(),
    {
        match self {
            SourceError::InvalidSourceUrl => "invalid source URL".to_owned(),
            SourceError::InvalidDownloadSource => "invalid package download source".to_owned(),
        }
    }
}

/// The name that a download is saved under when its URL path gives none.
pub open spec fn fallback_file_name() -> Seq<char> {
    "matcha_download"@
}

/// The file name of a download, from the path segments of its URL: the last segment, or
/// the fallback name; an error when the URL has no path.
pub open spec fn file_name_of_segments(segments: Option<Seq<Seq<char>>>) -> Result<
    Seq<char>,
    SourceError,
> {
    match segments {
        None => Err(SourceError::InvalidDownloadSource),
        Some(s) => Ok(
            if s.len() > 0 {
                s.last()
            } else {
                fallback_file_name()
            },
        ),
    }
}

/// The name that the source of a package is saved under: empty when there is no source
/// (nothing is downloaded), an error when the source is not a URL or has no path, else
/// the name that its URL path gives.
pub open spec fn download_file_name_of(source: Option<Seq<char>>) -> Result<Seq<char>, SourceError> {
    match source {
        None => Ok(Seq::empty()),
        Some(s) => match url_path_segments_of(s) {
            None => Err(SourceError::InvalidSourceUrl),
            Some(segments) => file_name_of_segments(segments),
        },
    }
}

/// Picks the file name of a download from the path segments of its URL.
pub fn file_name_from_segments(segments: Option<Vec<String>>) -> (r: Result<String, SourceError>)
    ensures
        match r {
            Ok(name) => file_name_of_segments(segments.deep_view()) == Ok::<_, SourceError>(name@),
            Err(e) => file_name_of_segments(segments.deep_view()) == Err::<Seq<char>, _>(e),
        },
{
    match segments {
        None => Err(SourceError::InvalidDownloadSource),
        Some(mut s) => {
            let ghost sv = s.deep_view();
            match s.pop() {
                Some(last) => {
                    assert(sv.last() == last@);
                    Ok(last)
                },
                None => Ok("matcha_download".to_owned()),
            }
        },
    }
}

impl Package {
    /// The name that the source of this package is downloaded to.
    pub fn download_file_name(&self) -> (r: Result<String, SourceError>)
        ensures
            match r {
                Ok(name) => download_file_name_of(opt_view(self.source)) == Ok::<_, SourceError>(name@),
                Err(e) => download_file_name_of(opt_view(self.source)) == Err::<Seq<char>, _>(e),
            },
    {
        match &self.source {
            None => Ok(String::new()),
            Some(source) => match url_path_segments(source.as_str()) {
                Err(_) => Err(SourceError::InvalidSourceUrl),
                Ok(segments) => file_name_from_segments(segments),
            },
        }
    }

    /// The shell script that builds this package: its build command, run so that the first
    /// failing command stops it. `None` when the package has no build command.
    pub fn build_script(&self) -> (r: Option<String>)
        ensures
            match self.build {
                None => r is None,
                Some(b) => r matches Some(script) && script@ == "set -e\n"@ + b@,
            },
    {
        match &self.build {
            None => None,
            Some(b) => Some(concat("set -e\n", b.as_str())),
        }
    }
}

} // verus!
