use std::cell::Cell;

use madg_what_fuzzer::aggregate::{aggregate, id_le_exec};
use madg_what_fuzzer::catalog::{discover, discover_with_extension, ExplicitPath, ScannedEntry};
use madg_what_fuzzer::module::{EntryPoint, FilterModule, LoadError, NativeModule};
use madg_what_fuzzer::{Axis, Measurement, Quaternion, TestBench};

/// An in-process stand-in for a native module. Its behaviour is chosen by
/// its path: `missing` fails to open, `nofilter` lacks the filter step,
/// `nosetters` lacks both setters; the filter step sums the inputs plus the
/// last value set through `set_beta`.
struct FakeModule {
    path: String,
    beta: Cell<u32>,
    deltat: Cell<u32>,
}

impl NativeModule for FakeModule {
    fn open(path: &String) -> Result<Self, LoadError> {
        if path.contains("missing") {
            Err(LoadError::OpenFailed(format!("{}: cannot open", path)))
        } else {
            Ok(FakeModule { path: path.clone(), beta: Cell::new(0), deltat: Cell::new(0) })
        }
    }

    fn probe(&self, entry: EntryPoint) -> bool {
        match entry {
            EntryPoint::Filter => !self.path.contains("nofilter"),
            EntryPoint::SetBeta | EntryPoint::SetDeltat => !self.path.contains("nosetters"),
        }
    }

    fn call_filter(&self, acc: Axis, gyro: Axis, mag: Axis) -> Quaternion {
        let scale = if self.path.contains("double") { 2 } else { 1 };
        Quaternion {
            a: scale * (acc.x + gyro.x + mag.x) + self.beta.get(),
            b: scale * (acc.y + gyro.y + mag.y) + self.deltat.get(),
            c: scale * (acc.z + gyro.z + mag.z),
            d: scale,
        }
    }

    fn call_setter(&self, entry: EntryPoint, value: u32) {
        match entry {
            EntryPoint::SetBeta => self.beta.set(value),
            EntryPoint::SetDeltat => self.deltat.set(value),
            EntryPoint::Filter => panic!("not a setter"),
        }
    }
}

fn fixed_measurement() -> Measurement {
    Measurement {
        acc: Axis { x: 1, y: 2, z: 3 },
        gyro: Axis { x: 4, y: 5, z: 6 },
        mag: Axis { x: 7, y: 8, z: 9 },
    }
}

fn strings(v: &[&str]) -> Vec<String> {
    v.iter().map(|s| s.to_string()).collect()
}

#[test]
fn two_modules_give_sorted_known_outcomes() {
    let paths = strings(&["/mods/libz_double.so", "/mods/liba.so"]);
    let (bench, failures) = TestBench::<FakeModule>::construct(&paths);
    assert!(failures.is_empty());
    let run = bench.run(fixed_measurement());
    assert_eq!(run.measurement, fixed_measurement());
    assert_eq!(run.results.len(), 2);
    let sorted = aggregate(&run.results);
    assert_eq!(sorted.len(), 2);
    assert_eq!(sorted[0].0, "/mods/liba.so");
    assert_eq!(sorted[0].1, Some(Quaternion { a: 12, b: 15, c: 18, d: 1 }));
    assert_eq!(sorted[1].0, "/mods/libz_double.so");
    assert_eq!(sorted[1].1, Some(Quaternion { a: 24, b: 30, c: 36, d: 2 }));
}

#[test]
fn non_matching_extension_is_excluded_and_empty_bench_runs() {
    let scanned = vec![
        ScannedEntry { path: "/mods/notes.txt".to_string(), is_file: true },
        ScannedEntry { path: "/mods/sub.so".to_string(), is_file: false },
    ];
    let found = discover_with_extension(&Vec::new(), &scanned, &"so".to_string());
    assert!(found.is_empty());
    let (bench, failures) = TestBench::<FakeModule>::construct(&found);
    assert!(failures.is_empty());
    assert!(bench.modules().is_empty());
    let run = bench.run(fixed_measurement());
    assert!(run.results.is_empty());
    assert!(aggregate(&run.results).is_empty());
}

#[test]
fn nonexistent_explicit_path_is_dropped() {
    let explicit = vec![
        ExplicitPath { path: "/mods/gone.so".to_string(), exists: false },
        ExplicitPath { path: "/mods/liba.so".to_string(), exists: true },
    ];
    let found = discover_with_extension(&explicit, &Vec::new(), &"so".to_string());
    assert_eq!(found, strings(&["/mods/liba.so"]));
    let (bench, failures) = TestBench::<FakeModule>::construct(&found);
    assert!(failures.is_empty());
    let run = bench.run(fixed_measurement());
    assert_eq!(run.results.len(), 1);
    assert_eq!(run.results[0].0, "/mods/liba.so");
    assert_eq!(run.results[0].1, Some(Quaternion { a: 12, b: 15, c: 18, d: 1 }));
}

#[test]
fn path_given_and_scanned_is_listed_once() {
    let explicit = vec![ExplicitPath { path: "/mods/liba.so".to_string(), exists: true }];
    let scanned = vec![
        ScannedEntry { path: "/mods/liba.so".to_string(), is_file: true },
        ScannedEntry { path: "/mods/libb.so".to_string(), is_file: true },
        ScannedEntry { path: "/mods/libb.so".to_string(), is_file: true },
    ];
    let found = discover_with_extension(&explicit, &scanned, &"so".to_string());
    assert_eq!(found, strings(&["/mods/liba.so", "/mods/libb.so"]));
}

#[test]
fn extension_is_taken_from_the_file_name() {
    let scanned = vec![
        ScannedEntry { path: "/mods.so/plain".to_string(), is_file: true },
        ScannedEntry { path: "/mods/.so".to_string(), is_file: true },
        ScannedEntry { path: "/mods/lib.x.so".to_string(), is_file: true },
        ScannedEntry { path: "/mods/lib.so.1".to_string(), is_file: true },
        ScannedEntry { path: "/mods/lib.dll".to_string(), is_file: true },
    ];
    let found = discover_with_extension(&Vec::new(), &scanned, &"so".to_string());
    assert_eq!(found, strings(&["/mods/lib.x.so"]));
    let found = discover_with_extension(&Vec::new(), &scanned, &"dll".to_string());
    assert_eq!(found, strings(&["/mods/lib.dll"]));
}

#[test]
fn discover_uses_the_platform_extension() {
    let scanned = vec![
        ScannedEntry { path: "/mods/liba.so".to_string(), is_file: true },
        ScannedEntry { path: "/mods/liba.dylib".to_string(), is_file: true },
        ScannedEntry { path: "/mods/a.dll".to_string(), is_file: true },
    ];
    let found = discover(&Vec::new(), &scanned);
    assert_eq!(found.len(), 1);
    assert!(scanned.iter().any(|e| e.path == found[0]));
}

#[test]
fn bench_keeps_exactly_the_modules_that_load() {
    let paths = strings(&["/m/liba.so", "/m/missing1.so", "/m/libb.so", "/m/missing2.so"]);
    let (bench, failures) = TestBench::<FakeModule>::construct(&paths);
    let loaded: Vec<String> = bench.modules().iter().map(|m| m.path().clone()).collect();
    assert_eq!(loaded, strings(&["/m/liba.so", "/m/libb.so"]));
    assert_eq!(failures.len(), 2);
    assert_eq!(failures[0].path, "/m/missing1.so");
    assert_eq!(
        failures[1].error,
        LoadError::OpenFailed("/m/missing2.so: cannot open".to_string())
    );
    assert!(bench.modules().len() <= paths.len());
}

#[test]
fn module_without_filter_gives_none_and_run_goes_on() {
    let paths = strings(&["/m/libc.so", "/m/libnofilter.so", "/m/liba.so"]);
    let (bench, _) = TestBench::<FakeModule>::construct(&paths);
    let run = bench.run(fixed_measurement());
    assert_eq!(run.results.len(), 3);
    assert_eq!(run.results[0].0, "/m/libc.so");
    assert!(run.results[0].1.is_some());
    assert_eq!(run.results[1].0, "/m/libnofilter.so");
    assert_eq!(run.results[1].1, None);
    assert!(run.results[2].1.is_some());
    assert!(!bench.modules()[1].capabilities().filter);
}

#[test]
fn setters_apply_only_where_exported() {
    let with = FilterModule::<FakeModule>::load(&"/m/liba.so".to_string()).unwrap();
    assert!(with.set_beta(5));
    assert!(with.set_deltat(7));
    let q = with.madgwick_filter(fixed_measurement()).unwrap();
    assert_eq!(q, Quaternion { a: 17, b: 22, c: 18, d: 1 });

    let without = FilterModule::<FakeModule>::load(&"/m/libnosetters.so".to_string()).unwrap();
    let before = without.madgwick_filter(fixed_measurement());
    assert!(!without.set_beta(5));
    assert!(!without.set_deltat(7));
    let after = without.madgwick_filter(fixed_measurement());
    assert_eq!(before, after);
    assert_eq!(after, Some(Quaternion { a: 12, b: 15, c: 18, d: 1 }));
}

#[test]
fn load_failure_is_reported() {
    let r = FilterModule::<FakeModule>::load(&"/m/missing.so".to_string());
    assert!(matches!(r, Err(LoadError::OpenFailed(_))));
}

#[test]
fn aggregate_sorts_stably_and_is_idempotent() {
    let q = |a: u32| Some(Quaternion { a, b: 0, c: 0, d: 0 });
    let results = vec![
        ("b".to_string(), q(1)),
        ("a".to_string(), None),
        ("ab".to_string(), q(2)),
        ("b".to_string(), q(3)),
        ("".to_string(), q(4)),
    ];
    let sorted = aggregate(&results);
    let ids: Vec<&str> = sorted.iter().map(|e| e.0.as_str()).collect();
    assert_eq!(ids, vec!["", "a", "ab", "b", "b"]);
    assert_eq!(sorted[3].1, q(1));
    assert_eq!(sorted[4].1, q(3));
    assert_eq!(aggregate(&sorted), sorted);
}

#[test]
fn identifiers_compare_lexicographically() {
    let s = |x: &str| x.to_string();
    assert!(id_le_exec(&s("abc"), &s("abd")));
    assert!(!id_le_exec(&s("abd"), &s("abc")));
    assert!(id_le_exec(&s("ab"), &s("abc")));
    assert!(!id_le_exec(&s("abc"), &s("ab")));
    assert!(id_le_exec(&s("same"), &s("same")));
    assert!(id_le_exec(&s(""), &s("")));
    assert!(id_le_exec(&s("Z"), &s("a")));
    assert!(id_le_exec(&s("z"), &s("\u{e9}")));
}

#[test]
fn record_appends_one_outcome() {
    let mut run = madg_what_fuzzer::TestRun { measurement: fixed_measurement(), results: Vec::new() };
    run.record(&"/m/a.so".to_string(), Some(Quaternion { a: 1, b: 2, c: 3, d: 4 }));
    run.record(&"/m/b.so".to_string(), None);
    assert_eq!(run.measurement, fixed_measurement());
    assert_eq!(
        run.results,
        vec![
            ("/m/a.so".to_string(), Some(Quaternion { a: 1, b: 2, c: 3, d: 4 })),
            ("/m/b.so".to_string(), None),
        ]
    );
}

#[test]
fn module_uses_the_capabilities_it_was_given() {
    let native = FakeModule::open(&"/m/liba.so".to_string()).unwrap();
    let caps = madg_what_fuzzer::Capabilities { filter: false, set_beta: true, set_deltat: false };
    let m = FilterModule::new(&"/m/liba.so".to_string(), native, caps);
    assert_eq!(m.path(), "/m/liba.so");
    assert_eq!(m.capabilities(), caps);
    assert_eq!(m.madgwick_filter(fixed_measurement()), None);
    assert!(m.set_beta(3));
    assert!(!m.set_deltat(3));
}
