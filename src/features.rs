use vstd::prelude::*;
use crate::options::texts;

verus! {

/// Kind of feature.
#[derive(Debug)]
pub enum Feature {
    /// Its activations are all declared dependencies.
    Dependency(String),
    /// It activates at least one token that is not a dependency: another feature.
    Meta(String),
    /// It activates nothing.
    Flag(String),
}

/// What the manifest loader reports of a package: each declared feature with
/// the tokens it activates, in the manifest's order, and the names of the
/// declared dependencies.
#[derive(Clone, Debug)]
pub struct Summary {
    pub features: Vec<(String, Vec<String>)>,
    pub dependencies: Vec<String>,
}

impl Feature {
    /// The feature's name.
    pub fn name(&self) -> (r: &String)
        ensures
            r == self.spec_name(),
    {
        match self {
            Feature::Dependency(n) => n,
            Feature::Meta(n) => n,
            Feature::Flag(n) => n,
        }
    }

    /// The feature's name, in specifications.
    pub open spec fn spec_name(&self) -> String {
        match self {
            Feature::Dependency(n) => *n,
            Feature::Meta(n) => *n,
            Feature::Flag(n) => *n,
        }
    }
}

/// Every activation token is a declared dependency.
pub open spec fn all_dependencies(acts: Seq<Seq<char>>, deps: Seq<Seq<char>>) -> bool {
    forall|j: int| 0 <= j < acts.len() ==> deps.contains(#[trigger] acts[j])
}

/// The classification of a feature named `name` that activates `acts`.
pub open spec fn classified(f: Feature, name: Seq<char>, acts: Seq<Seq<char>>, deps: Seq<Seq<char>>) -> bool {
    &&& f.spec_name()@ == name
    &&& if acts.len() == 0 {
        f is Flag
    } else if all_dependencies(acts, deps) {
        f is Dependency
    } else {
        f is Meta
    }
}

/// The classification of each declared feature, in the summary's order.
pub open spec fn classification(r: Seq<Feature>, summary: Summary) -> bool {
    &&& r.len() == summary.features@.len()
    &&& forall|i: int|
        0 <= i < r.len() ==> classified(
            #[trigger] r[i],
            summary.features@[i].0@,
            texts(summary.features@[i].1@),
            texts(summary.dependencies@),
        )
}

fn contains_name(names: &Vec<String>, x: &String) -> (r: bool)
    ensures
        r == texts(names@).contains(x@),
{
    let mut i: usize = 0;
    while i < names.len()
        invariant
            i <= names@.len(),
            forall|j: int| 0 <= j < i ==> names@[j]@ != x@,
        decreases names@.len() - i,
    {
        if names[i] == *x {
            assert(texts(names@)[i as int] == x@);
            return true;
        }
        i = i + 1;
    }
    assert forall|j: int| 0 <= j < texts(names@).len() implies texts(names@)[j] != x@ by {
        assert(texts(names@)[j] == names@[j]@);
    }
    false
}

fn all_declared(acts: &Vec<String>, deps: &Vec<String>) -> (r: bool)
    ensures
        r == all_dependencies(texts(acts@), texts(deps@)),
{
    let mut i: usize = 0;
    while i < acts.len()
        invariant
            i <= acts@.len(),
            forall|j: int| 0 <= j < i ==> texts(deps@).contains(#[trigger] texts(acts@)[j]),
        decreases acts@.len() - i,
    {
        if !contains_name(deps, &acts[i]) {
            assert(!texts(deps@).contains(texts(acts@)[i as int]));
            return false;
        }
        i = i + 1;
    }
    true
}

/// Classifies each declared feature: `Flag` when it activates nothing,
/// `Dependency` when every activation names a declared dependency, `Meta`
/// otherwise.
pub fn discriminate_features(summary: &Summary) -> (r: Vec<Feature>)
    ensures
        classification(r@, *summary),
{
    let mut r: Vec<Feature> = Vec::new();
    let mut i: usize = 0;
    while i < summary.features.len()
        invariant
            i <= summary.features@.len(),
            r@.len() == i,
            forall|j: int|
                0 <= j < i ==> classified(
                    #[trigger] r@[j],
                    summary.features@[j].0@,
                    texts(summary.features@[j].1@),
                    texts(summary.dependencies@),
                ),
        decreases summary.features@.len() - i,
    {
        let (name, acts) = &summary.features[i];
        let name = name.clone();
        let f = if acts.len() == 0 {
            Feature::Flag(name)
        } else if all_declared(acts, &summary.dependencies) {
            Feature::Dependency(name)
        } else {
            Feature::Meta(name)
        };
        r.push(f);
        i = i + 1;
    }
    r
}

/// Classification totality: each declared feature gets exactly one of the
/// three kinds, decided by its activations alone.
pub proof fn lemma_kinds_partition(r: Seq<Feature>, summary: Summary, i: int)
    requires
        classification(r, summary),
        0 <= i < summary.features@.len(),
    ensures
        r[i].spec_name()@ == summary.features@[i].0@,
        (r[i] is Flag) <==> summary.features@[i].1@.len() == 0,
        (r[i] is Dependency) <==> (summary.features@[i].1@.len() > 0 && all_dependencies(
            texts(summary.features@[i].1@),
            texts(summary.dependencies@),
        )),
        (r[i] is Meta) <==> (summary.features@[i].1@.len() > 0 && !all_dependencies(
            texts(summary.features@[i].1@),
            texts(summary.dependencies@),
        )),
{
    assert(classified(r[i], summary.features@[i].0@, texts(summary.features@[i].1@), texts(summary.dependencies@)));
}

} // verus!
