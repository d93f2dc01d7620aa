//! Errors: invalid version specs and conflicts between dependency requests.
use vstd::prelude::*;

use crate::adapters::{debug_string, debug_text};
use crate::package::VersionSpec;
use crate::text::{concat, first_index_of, lemma_first_index_of, lemma_first_index_of_is, str_eq};
use crate::version::{
    add_conflict, conflict_names, conflicts_wf, law_add_conflict_wf, set_insert, ConflictsView,
    VersionSpecView,
};

verus! {

/// An invalid version spec was encountered.
#[derive(Debug, Clone)]
pub struct InvalidVersonSpec(pub String);

impl InvalidVersonSpec {
    /// The error message.
    pub fn to_display_string(&self) -> (r: String)
        ensures
            r@ == "invalid version spec: "@ + self.0@,
    {
        concat("invalid version spec: ", self.0.as_str())
    }
}

} // verus!

verus! {

/// Conflicts between dependency requests.
#[derive(Debug, Default)]
pub struct Conflicts {
    /// The conflicting dependency requests: each name with its set of conflicting specs,
    /// kept without repetitions.
    pub inner: Vec<(String, Vec<VersionSpec>)>,
}

impl View for Conflicts {
    type V = ConflictsView;

    open spec fn view(&self) -> ConflictsView {
        self.inner@.map_values(|e: (String, Vec<VersionSpec>)| (e.0@, e.1.deep_view()))
    }
}

/// Adds `x` to `set` unless an equal spec is already there.
pub fn insert_version(set: &mut Vec<VersionSpec>, x: VersionSpec)
    ensures
        final(set).deep_view() == set_insert(old(set).deep_view(), x@),
{
    let mut j: usize = 0;
    while j < set.len()
        invariant
            j <= set.len(),
            set.deep_view() == old(set).deep_view(),
            forall|k: int| 0 <= k < j ==> set.deep_view()[k] != x@,
        decreases set.len() - j,
    {
        if set[j].eq(&x) {
            assert(set.deep_view()[j as int] == x@);
            return;
        }
        j = j + 1;
    }
    assert(!set.deep_view().contains(x@));
    let ghost before = set.deep_view();
    set.push(x);
    assert(set.deep_view() =~= before.push(x@));
}

impl Conflicts {
    /// No conflicts at all.
    pub fn new() -> (r: Self)
        ensures
            r@ == Seq::<(Seq<char>, Seq<VersionSpecView>)>::empty(),
    {
        Conflicts { inner: Vec::new() }
    }

    /// Index of the first entry for `name`, or the number of entries.
    fn index_of(&self, name: &String) -> (r: usize)
        ensures
            r == first_index_of(conflict_names(self@), name@),
    {
        let mut i: usize = 0;
        while i < self.inner.len()
            invariant
                i <= self.inner.len(),
                forall|j: int| 0 <= j < i ==> conflict_names(self@)[j] != name@,
            decreases self.inner.len() - i,
        {
            if str_eq(self.inner[i].0.as_str(), name.as_str()) {
                proof {
                    lemma_first_index_of_is(conflict_names(self@), name@, i as int);
                }
                return i;
            }
            i = i + 1;
        }
        proof {
            lemma_first_index_of_is(conflict_names(self@), name@, i as int);
        }
        i
    }

    /// Adds a conflict.
    pub fn add_conflict(&mut self, name: String, a: VersionSpec, b: VersionSpec)
        ensures
            final(self)@ == add_conflict(old(self)@, name@, a@, b@),
            final(self)@.len() > 0,
            conflicts_wf(old(self)@) ==> conflicts_wf(final(self)@),
    {
        let ghost old_view = self@;
        let i = self.index_of(&name);
        proof {
            lemma_first_index_of(conflict_names(old_view), name@);
            if conflicts_wf(old_view) {
                law_add_conflict_wf(old_view, name@, a@, b@);
            }
        }
        let ghost old_inner = self.inner@;
        if i < self.inner.len() {
            let (_, mut versions) = self.inner.remove(i);
            assert(versions.deep_view() == old_view[i as int].1);
            insert_version(&mut versions, a);
            insert_version(&mut versions, b);
            let ghost entry = (name, versions);
            self.inner.insert(i, (name, versions));
            assert(self.inner@ =~= old_inner.update(i as int, entry));
            assert(self@ =~= old_view.update(i as int, (name@, entry.1.deep_view())));
            assert(self@ =~= add_conflict(old_view, name@, a@, b@));
        } else {
            let mut versions: Vec<VersionSpec> = Vec::new();
            assert(versions.deep_view() =~= Seq::<VersionSpecView>::empty());
            insert_version(&mut versions, a);
            insert_version(&mut versions, b);
            let ghost entry = (name, versions);
            self.inner.push((name, versions));
            assert(self.inner@ =~= old_inner.push(entry));
            assert(self@ =~= old_view.push((name@, entry.1.deep_view())));
            assert(self@ =~= add_conflict(old_view, name@, a@, b@));
        }
    }

    /// Returns true if there are no conflicts.
    pub fn is_empty(&self) -> (r: bool)
        ensures
            r == (self@.len() == 0),
    {
        self.inner.len() == 0
    }
}

/// How a version spec is shown in a conflict report: `Any`, `Partial("..")` or
/// `Exact("..")`.
pub open spec fn version_spec_debug(v: VersionSpecView) -> Seq<char> {
    match v {
        VersionSpecView::Any => "Any"@,
        VersionSpecView::Partial(p) => "Partial("@ + debug_text(p) + ")"@,
        VersionSpecView::Exact(e) => "Exact("@ + debug_text(e) + ")"@,
    }
}

/// One indented line per spec.
pub open spec fn specs_report(specs: Seq<VersionSpecView>) -> Seq<char>
    decreases specs.len(),
{
    if specs.len() == 0 {
        Seq::empty()
    } else {
        specs_report(specs.drop_last()) + "  "@ + version_spec_debug(specs.last()) + "\n"@
    }
}

/// The report of every conflicting dependency, in order: a heading line with its name,
/// then its specs.
pub open spec fn conflicts_report(c: ConflictsView) -> Seq<char>
    decreases c.len(),
{
    if c.len() == 0 {
        Seq::empty()
    } else {
        conflicts_report(c.drop_last()) + "conflicting requests for dependency '"@ + c.last().0
            + "':\n"@ + specs_report(c.last().1)
    }
}

impl VersionSpec {
    /// The text of this spec in a conflict report.
    pub fn to_debug_string(&self) -> (r: String)
        ensures
            r@ == version_spec_debug(self@),
    {
        match self {
            VersionSpec::Any => "Any".to_owned(),
            VersionSpec::Partial(p) => {
                let mut s = "Partial(".to_owned();
                s.append(debug_string(p.as_str()).as_str());
                s.append(")");
                s
            },
            VersionSpec::Exact(e) => {
                let mut s = "Exact(".to_owned();
                s.append(debug_string(e.as_str()).as_str());
                s.append(")");
                s
            },
        }
    }
}

impl Conflicts {
    /// The report of the conflicts, as the command line shows it.
    pub fn to_display_string(&self) -> (r: String)
        ensures
            r@ == conflicts_report(self@),
    {
        let mut out = String::new();
        for i in 0..self.inner.len()
            invariant
                out@ == conflicts_report(self@.take(i as int)),
        {
            assert(self@.take(i + 1).drop_last() =~= self@.take(i as int));
            let ghost before = out@;
            out.append("conflicting requests for dependency '");
            out.append(self.inner[i].0.as_str());
            out.append("':\n");
            let specs = &self.inner[i].1;
            let ghost sv = specs.deep_view();
            let ghost head = out@;
            assert(sv.take(0) =~= Seq::<VersionSpecView>::empty());
            for j in 0..specs.len()
                invariant
                    sv == specs.deep_view(),
                    out@ == head + specs_report(sv.take(j as int)),
            {
                assert(sv.take(j + 1).drop_last() =~= sv.take(j as int));
                assert(sv[j as int] == specs@[j as int]@);
                out.append("  ");
                out.append(specs[j].to_debug_string().as_str());
                out.append("\n");
                assert(out@ =~= head + specs_report(sv.take(j + 1)));
            }
            assert(sv.take(specs.len() as int) =~= sv);
            assert(self@[i as int].1 == sv);
            assert(out@ =~= conflicts_report(self@.take(i + 1)));
        }
        assert(self@.take(self.inner.len() as int) =~= self@);
        out
    }
}

} // verus!
