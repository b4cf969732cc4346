use fast_tree::config::{to_count, Config, ConfigError, DEFAULT_NUM_QUERIES, DEFAULT_TREE_SIZE};
use fast_tree::workload::MAX_TREE_SIZE;

fn args(list: &[&str]) -> Vec<String> {
    list.iter().map(|s| s.to_string()).collect()
}

#[test]
fn defaults_without_arguments() {
    let c = Config::from_args(&args(&["bench"]));
    assert_eq!(c, Config { tree_size: 1_000_000, num_queries: 5_000_000 });
    assert_eq!(Config::from_args(&[]), c);
    assert_eq!(DEFAULT_TREE_SIZE, 1_000_000);
    assert_eq!(DEFAULT_NUM_QUERIES, 5_000_000);
}

#[test]
fn arguments_are_read_by_position() {
    let c = Config::from_args(&args(&["bench", "5", "7"]));
    assert_eq!(c, Config { tree_size: 5, num_queries: 7 });
    let d = Config::from_args(&args(&["bench", "1234"]));
    assert_eq!(d, Config { tree_size: 1234, num_queries: 5_000_000 });
    let e = Config::from_args(&args(&["bench", "10", "20", "30"]));
    assert_eq!(e, Config { tree_size: 10, num_queries: 20 });
}

#[test]
fn malformed_arguments_fall_back() {
    let c = Config::from_args(&args(&["bench", "many", "-3"]));
    assert_eq!(c, Config { tree_size: 1_000_000, num_queries: 5_000_000 });
    let d = Config::from_args(&args(&["bench", "", "12"]));
    assert_eq!(d, Config { tree_size: 1_000_000, num_queries: 12 });
    let e = Config::from_args(&args(&["bench", "99999999999999999999999", "1.5"]));
    assert_eq!(e, Config { tree_size: 1_000_000, num_queries: 5_000_000 });
}

#[test]
fn missing_values_take_defaults() {
    assert_eq!(Config::from_values(None, None), Config { tree_size: 1_000_000, num_queries: 5_000_000 });
    assert_eq!(Config::from_values(Some(3), None), Config { tree_size: 3, num_queries: 5_000_000 });
    assert_eq!(Config::from_values(None, Some(0)), Config { tree_size: 1_000_000, num_queries: 0 });
}

#[test]
fn counts_that_fit() {
    assert_eq!(to_count(None), None);
    assert_eq!(to_count(Some(17)), Some(17));
    assert_eq!(to_count(Some(usize::MAX as u64)), Some(usize::MAX));
}

#[test]
fn validation() {
    assert_eq!(Config { tree_size: 5, num_queries: 8 }.validate(), Ok(()));
    assert_eq!(Config { tree_size: 0, num_queries: 8 }.validate(), Err(ConfigError::InvalidConfig));
    assert_eq!(Config { tree_size: 0, num_queries: 0 }.validate(), Err(ConfigError::InvalidConfig));
    assert_eq!(
        Config { tree_size: MAX_TREE_SIZE + 1, num_queries: 8 }.validate(),
        Err(ConfigError::InvalidConfig)
    );
    assert_eq!(Config { tree_size: MAX_TREE_SIZE, num_queries: 1 }.validate(), Ok(()));
    assert_eq!(Config { tree_size: 5, num_queries: 0 }.validate(), Err(ConfigError::DivisionDegenerate));
}
