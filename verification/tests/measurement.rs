use fast_tree::clock::{Elapsed, Stopwatch};
use fast_tree::engine::{Engine, ForeignAdapter};
use fast_tree::measure::{measure, measure_engine, run_pass, warmup_count, WARMUP_LIMIT};
use fast_tree::metrics::MetricsRecord;
use fast_tree::ordered::MapAdapter;
use fast_tree::workload::generate;

#[test]
fn warmup_is_capped() {
    assert_eq!(WARMUP_LIMIT, 100_000);
    assert_eq!(warmup_count(0), 0);
    assert_eq!(warmup_count(5), 5);
    assert_eq!(warmup_count(100_000), 100_000);
    assert_eq!(warmup_count(5_000_000), 100_000);
}

#[test]
fn pass_adds_results_to_sink() {
    let (keys, queries) = generate(5, 8, 42).unwrap();
    let map = MapAdapter::new(&keys).unwrap();
    let lookup = |q: i32| map.lookup(q);
    assert_eq!(run_pass(&lookup, &queries, 8, 0), 7);
    assert_eq!(run_pass(&lookup, &queries, 3, 10), 11);
    assert_eq!(run_pass(&lookup, &queries, 0, -4), -4);
}

#[test]
fn pass_wraps_the_sink() {
    let lookup = |q: i32| q as i64;
    assert_eq!(run_pass(&lookup, &[1, 2], 2, i64::MAX), i64::MIN + 2);
    assert_eq!(run_pass(&lookup, &[-1], 1, i64::MIN), i64::MAX);
}

#[test]
fn measurement_of_both_engines() {
    let (keys, queries) = generate(5, 8, 42).unwrap();
    let foreign = ForeignAdapter::new(&keys).unwrap();
    let map = MapAdapter::new(&keys).unwrap();
    let a = measure_engine(&foreign, &queries);
    let b = measure_engine(&map, &queries);
    assert_eq!(a.sink, 14);
    assert_eq!(b.sink, 14);
    assert_eq!(a.num_queries, 8);
    assert_eq!(b.num_queries, 8);
}

#[test]
fn measurement_warms_up_at_most_the_limit() {
    let (keys, queries) = generate(1000, 200_000, 42).unwrap();
    let foreign = ForeignAdapter::new(&keys).unwrap();
    let m = measure_engine(&foreign, &queries);
    assert_eq!(m.sink, 149421192);
    assert_eq!(m.num_queries, 200_000);
    assert!(m.elapsed.as_nanos() > 0);
}

#[test]
fn measurement_of_a_closure() {
    let lookup = |q: i32| (q as i64) * 2;
    let m = measure(&lookup, &[1, 2, 3]);
    assert_eq!(m.sink, 24);
    assert_eq!(m.num_queries, 3);
}

#[test]
fn stopwatch_runs_forward() {
    let watch = Stopwatch::start();
    let first = watch.elapsed().as_nanos();
    let second = watch.elapsed().as_nanos();
    assert!(first <= second);
}

#[test]
fn elapsed_parts() {
    assert!(Elapsed::new(1, 1_000_000_000).is_none());
    assert_eq!(Elapsed::new(2, 5).unwrap().as_nanos(), 2_000_000_005);
    assert_eq!(Elapsed::from_nanos(3_000_000_007).as_nanos(), 3_000_000_007);
    assert_eq!(
        Elapsed::new(u64::MAX, 999_999_999).unwrap().as_nanos(),
        u64::MAX as u128 * 1_000_000_000 + 999_999_999
    );
}

#[test]
fn metrics_arithmetic() {
    let r = MetricsRecord::report("rust", "rustc", "fast_ffi", 1_000_000, 4_000_000, Elapsed::new(2, 0).unwrap());
    assert_eq!(r.total_sec_e4(), 20_000);
    assert_eq!(r.mqs_e2(), 200);
    assert_eq!(r.ns_per_query_e1(), 5000);
    assert_eq!(r.mqs_e2() as f64 / 100.0, 2.00);
    assert_eq!(r.ns_per_query_e1() as f64 / 10.0, 500.0);
}

#[test]
fn metrics_round_to_nearest() {
    let r = MetricsRecord::report("rust", "rustc", "BTreeMap", 10, 3, Elapsed::from_nanos(1_000_050_000));
    assert_eq!(r.total_sec_e4(), 10_001);
    assert_eq!(r.mqs_e2(), 0);
    assert_eq!(r.ns_per_query_e1(), 3_333_500_000);
    let s = MetricsRecord::report("rust", "rustc", "BTreeMap", 10, 7, Elapsed::from_nanos(1_000_049_999));
    assert_eq!(s.total_sec_e4(), 10_000);
    assert_eq!(s.ns_per_query_e1(), 1_428_642_856);
    let t = MetricsRecord::report("rust", "rustc", "BTreeMap", 10, 5_000_000, Elapsed::from_nanos(123_456_789));
    assert_eq!(t.total_sec_e4(), 1235);
    assert_eq!(t.mqs_e2(), 4050);
    assert_eq!(t.ns_per_query_e1(), 247);
}

#[test]
fn record_text_of_a_run() {
    let r = MetricsRecord::report("rust", "rustc", "fast_ffi", 1_000_000, 4_000_000, Elapsed::new(2, 0).unwrap());
    assert_eq!(
        r.to_json(),
        "{\"language\":\"rust\",\"compiler\":\"rustc\",\"method\":\"fast_ffi\",\"tree_size\":1000000,\"num_queries\":4000000,\"total_sec\":2.0000,\"mqs\":2.00,\"ns_per_query\":500.0}"
    );
}

#[test]
fn record_text_pads_fractions() {
    let r = MetricsRecord::report("rust", "rustc", "BTreeMap", 7, 5_000_000, Elapsed::from_nanos(123_456_789));
    assert_eq!(
        r.to_json(),
        "{\"language\":\"rust\",\"compiler\":\"rustc\",\"method\":\"BTreeMap\",\"tree_size\":7,\"num_queries\":5000000,\"total_sec\":0.1235,\"mqs\":40.50,\"ns_per_query\":24.7}"
    );
    let s = MetricsRecord::report("c", "gcc", "m", 1, 1, Elapsed::from_nanos(1_000_300_000));
    assert_eq!(
        s.to_json(),
        "{\"language\":\"c\",\"compiler\":\"gcc\",\"method\":\"m\",\"tree_size\":1,\"num_queries\":1,\"total_sec\":1.0003,\"mqs\":0.00,\"ns_per_query\":1000300000.0}"
    );
}

#[test]
fn record_of_a_measurement() {
    let (keys, queries) = generate(1000, 50_000, 42).unwrap();
    let map = MapAdapter::new(&keys).unwrap();
    let m = measure_engine(&map, &queries);
    let record = MetricsRecord::report_measurement("rust", "rustc", "BTreeMap", 1000, &m).unwrap();
    let text = record.to_json();
    assert!(text.starts_with("{\"language\":\"rust\",\"compiler\":\"rustc\",\"method\":\"BTreeMap\",\"tree_size\":1000,\"num_queries\":50000,\"total_sec\":"));
    assert!(text.ends_with('}'));
    assert!(!text.contains('\n'));
}

#[test]
fn record_fields() {
    let r = MetricsRecord::report("rust", "rustc", "fast_ffi", 9, 4, Elapsed::from_nanos(10));
    assert_eq!(r.language(), "rust");
    assert_eq!(r.compiler(), "rustc");
    assert_eq!(r.method(), "fast_ffi");
    assert_eq!(r.tree_size(), 9);
    assert_eq!(r.num_queries(), 4);
    assert_eq!(r.elapsed().as_nanos(), 10);
}

#[test]
fn no_record_without_queries() {
    let map = MapAdapter::new(&[1, 4]).unwrap();
    let m = measure_engine(&map, &[]);
    assert_eq!(m.sink, 0);
    assert!(MetricsRecord::report_measurement("rust", "rustc", "BTreeMap", 2, &m).is_none());
}
