//! Dependency sets: joining fetched registry results back into manifest
//! order, filtering out up-to-date entries, and building the batch update
//! request.

use vstd::prelude::*;

verus! {

use crate::versions::{
    get_version_diff,
    spec_parse,
    spec_render_version,
    spec_version_diff,
    parse_version,
    version_plain_string,
    Version,
    VersionDiff,
    VersionView,
};

/// The mathematical value of a resolved dependency.
pub ghost struct DepView {
    pub name: Seq<char>,
    pub version: VersionView,
    pub latest: VersionView,
    pub diff: VersionDiff,
}

/// A dependency with its declared version, the latest version the registry
/// publishes, and the classification of the drift between the two.
#[derive(PartialEq, Eq, Debug)]
pub struct Dependency {
    name: String,
    version: Version,
    latest_version: Version,
    version_diff: VersionDiff,
}

impl View for Dependency {
    type V = DepView;

    closed spec fn view(&self) -> DepView {
        DepView {
            name: self.name@,
            version: self.version@,
            latest: self.latest_version@,
            diff: self.version_diff,
        }
    }
}

impl Clone for Dependency {
    /// A clone is equal to the original, field by field.
    fn clone(&self) -> (r: Self)
        ensures
            r == *self,
    {
        Dependency {
            name: self.name.clone(),
            version: self.version.clone(),
            latest_version: self.latest_version.clone(),
            version_diff: self.version_diff,
        }
    }
}

impl Dependency {
    /// Pair a declared version with the latest one the registry published
    /// and classify the drift between them.
    pub fn new(name: String, version: Version, latest_version: Version) -> (d: Dependency)
        ensures
            d@.name == name@,
            d@.version == version@,
            d@.latest == latest_version@,
            d@.diff == spec_version_diff(version@, latest_version@),
    {
        let version_diff = get_version_diff(&version, &latest_version);
        Dependency { name, version, latest_version, version_diff }
    }

    pub fn name(&self) -> (r: &String)
        ensures
            r@ == self@.name,
    {
        &self.name
    }

    pub fn version(&self) -> (r: &Version)
        ensures
            r@ == self@.version,
    {
        &self.version
    }

    pub fn latest_version(&self) -> (r: &Version)
        ensures
            r@ == self@.latest,
    {
        &self.latest_version
    }

    pub fn version_diff(&self) -> (r: VersionDiff)
        ensures
            r == self@.diff,
    {
        self.version_diff
    }
}

/// Why a registry fetch failed.
#[derive(Clone, Copy, PartialEq, Eq, Structural, Debug)]
pub enum RegistryError {
    /// The registry does not know the package.
    NotFound,
    /// The registry could not be reached.
    Transport,
    /// The registry's answer could not be understood.
    Parse,
}

/// The resolution failure surfaced for a whole run: the first fetch
/// failure in manifest order.
#[derive(Clone, Copy, PartialEq, Eq, Structural, Debug)]
pub struct ResolveError {
    pub index: usize,
    pub error: RegistryError,
}

/// A declared version text that did not parse, by manifest position.
#[derive(Clone, Copy, PartialEq, Eq, Structural, Debug)]
pub struct DeclaredError {
    pub index: usize,
}

/// Parse every declared version text, in manifest order, before any
/// resolution begins.  Fails on the first entry whose version text does
/// not match the version grammar.
pub fn parse_declared(entries: &Vec<(String, String)>) -> (r: Result<
    Vec<(String, Version)>,
    DeclaredError,
>)
    ensures
        match r {
            Ok(v) => {
                &&& v@.len() == entries@.len()
                &&& forall|i: int|
                    0 <= i < v@.len() ==> (#[trigger] v@[i]).0@ == entries@[i].0@ && spec_parse(
                        entries@[i].1@,
                    ) == Some(v@[i].1@)
            },
            Err(e) => {
                &&& e.index < entries@.len()
                &&& spec_parse(entries@[e.index as int].1@) is None
                &&& forall|j: int| 0 <= j < e.index ==> spec_parse((#[trigger] entries@[j]).1@) is Some
            },
        },
{
    let mut out: Vec<(String, Version)> = Vec::new();
    let mut i: usize = 0;
    while i < entries.len()
        invariant
            i <= entries@.len(),
            out@.len() == i,
            forall|j: int|
                0 <= j < i ==> out@[j].0@ == (#[trigger] entries@[j]).0@ && spec_parse(
                    entries@[j].1@,
                ) == Some(out@[j].1@),
        decreases entries@.len() - i,
    {
        match parse_version(entries[i].1.as_str()) {
            Ok(v) => {
                out.push((entries[i].0.clone(), v));
            },
            Err(_) => {
                return Err(DeclaredError { index: i });
            },
        }
        i = i + 1;
    }
    Ok(out)
}

/// An ordered set of resolved dependencies, fixed in manifest order.
#[derive(Debug)]
pub struct Dependencies {
    dependencies: Vec<Dependency>,
}

impl View for Dependencies {
    type V = Seq<DepView>;

    closed spec fn view(&self) -> Seq<DepView> {
        self.dependencies@.map_values(|d: Dependency| d@)
    }
}

/// The entries whose classification shows drift, in unchanged order.
pub open spec fn spec_outdated(deps: Seq<DepView>) -> Seq<DepView> {
    deps.filter(|d: DepView| d.diff != VersionDiff::Same)
}

impl Dependencies {
    /// Wrap an already-resolved list of dependencies.
    pub fn from_vec(dependencies: Vec<Dependency>) -> (r: Dependencies)
        ensures
            r@ == dependencies@.map_values(|d: Dependency| d@),
    {
        Dependencies { dependencies }
    }

    pub fn len(&self) -> (r: usize)
        ensures
            r == self@.len(),
    {
        self.dependencies.len()
    }

    pub fn get(&self, i: usize) -> (r: &Dependency)
        requires
            i < self@.len(),
        ensures
            r@ == self@[i as int],
    {
        &self.dependencies[i]
    }

    /// Join the per-dependency fetch results back into manifest order.
    /// All-or-nothing: succeeds only when every fetch succeeded, and then
    /// the result pairs each declared entry, in its original position, with
    /// its fetched latest version and the classified drift.  Otherwise it
    /// reports the first failure in manifest order and no partial result.
    pub fn resolve(
        declared: &Vec<(String, Version)>,
        fetched: &Vec<Result<Version, RegistryError>>,
    ) -> (r: Result<Dependencies, ResolveError>)
        requires
            declared@.len() == fetched@.len(),
        ensures
            match r {
                Ok(ds) => {
                    &&& forall|i: int| 0 <= i < fetched@.len() ==> (#[trigger] fetched@[i]) is Ok
                    &&& ds@.len() == declared@.len()
                    &&& forall|i: int|
                        0 <= i < ds@.len() ==> {
                            &&& (#[trigger] ds@[i]).name == declared@[i].0@
                            &&& ds@[i].version == declared@[i].1@
                            &&& ds@[i].latest == fetched@[i]->Ok_0@
                            &&& ds@[i].diff == spec_version_diff(
                                declared@[i].1@,
                                fetched@[i]->Ok_0@,
                            )
                        }
                },
                Err(e) => {
                    &&& e.index < fetched@.len()
                    &&& fetched@[e.index as int] is Err
                    &&& e.error == fetched@[e.index as int]->Err_0
                    &&& forall|j: int| 0 <= j < e.index ==> (#[trigger] fetched@[j]) is Ok
                },
            },
{
        let mut deps: Vec<Dependency> = Vec::new();
        let mut i: usize = 0;
        while i < declared.len()
            invariant
                declared@.len() == fetched@.len(),
                i <= declared@.len(),
                deps@.len() == i,
                forall|j: int| 0 <= j < i ==> (#[trigger] fetched@[j]) is Ok,
                forall|j: int|
                    0 <= j < i ==> {
                        &&& (#[trigger] deps@[j])@.name == declared@[j].0@
                        &&& deps@[j]@.version == declared@[j].1@
                        &&& deps@[j]@.latest == fetched@[j]->Ok_0@
                        &&& deps@[j]@.diff == spec_version_diff(
                            declared@[j].1@,
                            fetched@[j]->Ok_0@,
                        )
                    },
            decreases declared@.len() - i,
        {
            match &fetched[i] {
                Err(e) => {
                    return Err(ResolveError { index: i, error: *e });
                },
                Ok(latest) => {
                    let d = Dependency::new(
                        declared[i].0.clone(),
                        declared[i].1.clone(),
                        latest.clone(),
                    );
                    deps.push(d);
                },
            }
            i = i + 1;
        }
        Ok(Dependencies { dependencies: deps })
    }

    /// Keep only the outdated entries, in unchanged relative order:
    /// remove every dependency whose classification shows no drift.
    pub fn outdated(&mut self)
        ensures
            final(self)@ == spec_outdated(old(self)@),
    {
        let mut kept: Vec<Dependency> = Vec::new();
        let mut i: usize = 0;
        while i < self.dependencies.len()
            invariant
                *self == *old(self),
                i <= self.dependencies@.len(),
                kept@.map_values(|d: Dependency| d@) == spec_outdated(
                    old(self)@.subrange(0, i as int),
                ),
            decreases self.dependencies@.len() - i,
        {
            proof {
                reveal(Seq::filter);
                assert(old(self)@.subrange(0, i + 1).drop_last() =~= old(self)@.subrange(
                    0,
                    i as int,
                ));
                assert(old(self)@.subrange(0, i + 1).last() == old(self)@[i as int]);
            }
            let d = &self.dependencies[i];
            let keep = match d.version_diff() {
                VersionDiff::Same => false,
                _ => true,
            };
            if keep {
                kept.push(d.clone());
                assert(kept@.map_values(|d: Dependency| d@) =~= spec_outdated(
                    old(self)@.subrange(0, i + 1),
                ));
            } else {
                assert(kept@.map_values(|d: Dependency| d@) =~= spec_outdated(
                    old(self)@.subrange(0, i + 1),
                ));
            }
            i = i + 1;
        }
        proof {
            assert(old(self)@.subrange(0, old(self)@.len() as int) =~= old(self)@);
        }
        self.dependencies = kept;
    }

    /// The batch update request: one `name@latest` argument per entry, in
    /// set order.
    pub fn update_args(&self) -> (r: Vec<String>)
        ensures
            r@.len() == self@.len(),
            forall|i: int|
                0 <= i < r@.len() ==> (#[trigger] r@[i])@ == self@[i].name + seq!['@']
                    + spec_render_version(self@[i].latest),
    {
        proof {
            reveal_strlit("@");
        }
        let mut out: Vec<String> = Vec::new();
        let mut i: usize = 0;
        while i < self.dependencies.len()
            invariant
                i <= self@.len(),
                out@.len() == i,
                forall|j: int|
                    0 <= j < i ==> (#[trigger] out@[j])@ == self@[j].name + seq!['@']
                        + spec_render_version(self@[j].latest),
            decreases self@.len() - i,
        {
            proof {
                reveal_strlit("@");
            }
            let d = &self.dependencies[i];
            let mut arg = d.name.clone();
            arg.append("@");
            let latest_s = version_plain_string(&d.latest_version);
            arg.append(latest_s.as_str());
            assert(arg@ =~= self@[i as int].name + seq!['@'] + spec_render_version(
                self@[i as int].latest,
            ));
            out.push(arg);
            i = i + 1;
        }
        out
    }
}

/// Filtering is idempotent: everything kept already shows drift, so a
/// second pass keeps exactly the same entries.
pub proof fn lemma_outdated_idempotent(deps: Seq<DepView>)
    ensures
        spec_outdated(spec_outdated(deps)) == spec_outdated(deps),
{
    let pred = |d: DepView| d.diff != VersionDiff::Same;
    assert forall|i: int| 0 <= i < deps.filter(pred).len() implies pred(
        #[trigger] deps.filter(pred)[i],
    ) by {
        Seq::lemma_filter_pred(deps, pred, i);
    }
    lemma_filter_all(deps.filter(pred), pred);
    assert(spec_outdated(deps) == deps.filter(pred));
}

/// A filter keeps a sequence whose every element it accepts.
proof fn lemma_filter_all<A>(s: Seq<A>, pred: spec_fn(A) -> bool)
    requires
        forall|i: int| 0 <= i < s.len() ==> pred(#[trigger] s[i]),
    ensures
        s.filter(pred) == s,
    decreases s.len(),
{
    reveal(Seq::filter);
    if s.len() > 0 {
        assert(pred(s.last()));
        lemma_filter_all(s.drop_last(), pred);
        assert(s.drop_last().push(s.last()) =~= s);
    }
}

} // verus!
