use vstd::prelude::*;

use crate::catalog::{lemma_push_contains, lemma_push_unique, paths_of};
use crate::measurement::{Measurement, Quaternion};
use crate::module::{FilterModule, LoadError, NativeModule};

verus! {

/// Every element of `sub` occurs in `full` in the same relative order.
pub open spec fn keeps_order(sub: Seq<Seq<char>>, full: Seq<Seq<char>>) -> bool {
    forall|a: int, b: int, x: int, y: int|
        #![trigger sub[a], sub[b], full[x], full[y]]
        0 <= a < b < sub.len() && 0 <= x < full.len() && 0 <= y < full.len() && sub[a] == full[x]
            && sub[b] == full[y] ==> x < y
}

proof fn lemma_keeps_order_push(sub: Seq<Seq<char>>, full: Seq<Seq<char>>, i: int)
    requires
        keeps_order(sub, full),
        full.no_duplicates(),
        0 <= i < full.len(),
        forall|q: Seq<char>| sub.contains(q) ==> full.subrange(0, i).contains(q),
    ensures
        keeps_order(sub.push(full[i]), full),
{
    let t = sub.push(full[i]);
    assert forall|a: int, b: int, x: int, y: int|
        #![trigger t[a], t[b], full[x], full[y]]
        0 <= a < b < t.len() && 0 <= x < full.len() && 0 <= y < full.len() && t[a] == full[x]
            && t[b] == full[y] implies x < y by {
        if b < sub.len() {
            assert(sub[a] == t[a] && sub[b] == t[b]);
        } else {
            assert(y == i);
            assert(sub[a] == t[a]);
            assert(sub.contains(sub[a]));
            let z = choose|z: int| 0 <= z < i && full.subrange(0, i)[z] == sub[a];
            assert(full[z] == full[x]);
        }
    }
}

/// A candidate path whose module could not be loaded, with the reason.
#[derive(Debug)]
pub struct LoadFailure {
    pub path: String,
    pub error: LoadError,
}

/// The paths of a list of load failures.
pub open spec fn failure_paths(f: Seq<LoadFailure>) -> Seq<Seq<char>> {
    f.map_values(|e: LoadFailure| e.path@)
}

/// One measurement and what each module of a bench gave for it, in the
/// bench's order.
#[derive(Debug)]
pub struct TestRun {
    pub measurement: Measurement,
    pub results: Vec<(String, Option<Quaternion>)>,
}

impl TestRun {
    /// Appends the outcome `outcome` of the module identified by `id`.
    pub fn record(&mut self, id: &String, outcome: Option<Quaternion>)
        ensures
            final(self).measurement == old(self).measurement,
            final(self).results@.len() == old(self).results@.len() + 1,
            forall|k: int|
                0 <= k < old(self).results@.len() ==> #[trigger] final(self).results@[k]
                    == old(self).results@[k],
            final(self).results@.last().0@ == id@,
            final(self).results@.last().1 == outcome,
    {
        self.results.push((id.clone(), outcome));
    }
}

/// The modules that loaded, each under a path no other module has.
pub struct TestBench<L> {
    modules: Vec<FilterModule<L>>,
}

impl<L: NativeModule> TestBench<L> {
    pub closed spec fn spec_modules(&self) -> Seq<FilterModule<L>> {
        self.modules@
    }

    /// The paths of the modules, in the bench's order.
    pub open spec fn module_paths(&self) -> Seq<Seq<char>> {
        self.spec_modules().map_values(|m: FilterModule<L>| m.spec_path())
    }

    /// No two modules share a path.
    pub open spec fn wf(&self) -> bool {
        self.module_paths().no_duplicates()
    }

    /// Loads the module at each of `paths`.
    ///
    /// Every path ends up either in the bench or among the returned failures,
    /// never both, so the bench holds exactly the modules that loaded and at
    /// most as many as there are paths.
    pub fn construct(paths: &Vec<String>) -> (r: (TestBench<L>, Vec<LoadFailure>))
        requires
            paths_of(paths@).no_duplicates(),
        ensures
            r.0.wf(),
            r.0.spec_modules().len() + r.1@.len() == paths@.len(),
            r.0.spec_modules().len() <= paths@.len(),
            forall|p: Seq<char>|
                paths_of(paths@).contains(p) <==> (r.0.module_paths().contains(p)
                    || failure_paths(r.1@).contains(p)),
            forall|p: Seq<char>|
                !(r.0.module_paths().contains(p) && failure_paths(r.1@).contains(p)),
            keeps_order(r.0.module_paths(), paths_of(paths@)),
            forall|k: int|
                0 <= k < r.0.spec_modules().len() ==> (#[trigger] r.0.spec_modules()[k]).spec_native().opened_from(
                    r.0.spec_modules()[k].spec_path(),
                ),
            forall|k: int|
                0 <= k < r.1@.len() ==> L::open_failed((#[trigger] r.1@[k]).path@, r.1@[k].error),
    {
        let mut bench: TestBench<L> = TestBench { modules: Vec::new() };
        let mut failures: Vec<LoadFailure> = Vec::new();
        let mut i: usize = 0;
        while i < paths.len()
            invariant
                i <= paths.len(),
                paths_of(paths@).no_duplicates(),
                bench.wf(),
                failure_paths(failures@).no_duplicates(),
                bench.spec_modules().len() + failures@.len() == i,
                forall|p: Seq<char>|
                    paths_of(paths@).subrange(0, i as int).contains(p) <==> (
                    bench.module_paths().contains(p) || failure_paths(failures@).contains(p)),
                forall|p: Seq<char>|
                    !(bench.module_paths().contains(p) && failure_paths(failures@).contains(p)),
                keeps_order(bench.module_paths(), paths_of(paths@)),
                forall|k: int|
                    0 <= k < bench.spec_modules().len() ==> (#[trigger] bench.spec_modules()[k]).spec_native().opened_from(
                        bench.spec_modules()[k].spec_path(),
                    ),
                forall|k: int|
                    0 <= k < failures@.len() ==> L::open_failed((#[trigger] failures@[k]).path@, failures@[k].error),
            decreases paths.len() - i,
        {
            let ghost done = paths_of(paths@).subrange(0, i as int);
            let ghost next = paths_of(paths@).subrange(0, i as int + 1);
            let ghost p = paths@[i as int]@;
            let ghost mods = bench.module_paths();
            let ghost fails = failure_paths(failures@);
            proof {
                assert(next =~= done.push(p));
                assert(!mods.contains(p) && !fails.contains(p)) by {
                    if done.contains(p) {
                        let m = choose|m: int| 0 <= m < done.len() && done[m] == p;
                        assert(paths_of(paths@)[m] == paths_of(paths@)[i as int]);
                    }
                }
                lemma_push_contains(done, p);
            }
            match FilterModule::<L>::load(&paths[i]) {
                Ok(m) => {
                    bench.modules.push(m);
                    proof {
                        lemma_push_unique(mods, p);
                        assert(bench.module_paths() =~= mods.push(p));
                        assert(paths_of(paths@)[i as int] == p);
                        lemma_keeps_order_push(mods, paths_of(paths@), i as int);
                        lemma_push_contains(mods, p);
                    }
                },
                Err(error) => {
                    failures.push(LoadFailure { path: paths[i].clone(), error });
                    proof {
                        lemma_push_unique(fails, p);
                        assert(failure_paths(failures@) =~= fails.push(p));
                        lemma_push_contains(fails, p);
                    }
                },
            }
            proof {
                assert forall|q: Seq<char>|
                    next.contains(q) <==> (bench.module_paths().contains(q)
                        || failure_paths(failures@).contains(q)) by {
                    assert(next.contains(q) <==> (done.contains(q) || q == p));
                    assert(done.contains(q) <==> (mods.contains(q) || fails.contains(q)));
                }
            }
            i = i + 1;
        }
        proof {
            assert(paths_of(paths@).subrange(0, i as int) =~= paths_of(paths@));
        }
        (bench, failures)
    }

    /// The loaded modules, in the bench's order.
    pub fn modules(&self) -> (r: &Vec<FilterModule<L>>)
        ensures
            r@ == self.spec_modules(),
    {
        &self.modules
    }

    /// Runs every module, one after another, on the same `measurement`.
    ///
    /// There is exactly one outcome per module, in the bench's order, under the
    /// module's path; it is present exactly when the module exports the filter
    /// entry point, and then it is what that module's filter step gave for the
    /// measurement's three axes.
    pub fn run(&self, measurement: Measurement) -> (r: TestRun)
        ensures
            r.measurement == measurement,
            r.results@.len() == self.spec_modules().len(),
            forall|i: int|
                0 <= i < r.results@.len() ==> (#[trigger] r.results@[i]).0@
                    == self.spec_modules()[i].spec_path() && r.results@[i].1.is_some()
                    == self.spec_modules()[i].spec_caps().filter,
            forall|i: int|
                0 <= i < r.results@.len() ==> ((#[trigger] r.results@[i]).1 matches Some(q)
                    ==> self.spec_modules()[i].spec_native().filter_gave(
                    measurement.acc,
                    measurement.gyro,
                    measurement.mag,
                    q,
                )),
    {
        let mut result = TestRun { measurement, results: Vec::new() };
        let mut i: usize = 0;
        while i < self.modules.len()
            invariant
                i <= self.modules@.len(),
                result.measurement == measurement,
                result.results@.len() == i,
                forall|k: int|
                    0 <= k < i ==> (#[trigger] result.results@[k]).0@
                        == self.modules@[k].spec_path() && result.results@[k].1.is_some()
                        == self.modules@[k].spec_caps().filter,
                forall|k: int|
                    0 <= k < i ==> ((#[trigger] result.results@[k]).1 matches Some(q)
                        ==> self.modules@[k].spec_native().filter_gave(
                        measurement.acc,
                        measurement.gyro,
                        measurement.mag,
                        q,
                    )),
            decreases self.modules@.len() - i,
        {
            let quat = self.modules[i].madgwick_filter(measurement);
            result.record(self.modules[i].path(), quat);
            i = i + 1;
        }
        result
    }
}

} // verus!
