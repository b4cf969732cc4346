//! The configuration of a run: the tree size and the number of queries.

use crate::workload::valid_tree_size;
use crate::workload::MAX_TREE_SIZE;
use vstd::prelude::*;

verus! {

/// The tree size of a run that names none.
pub const DEFAULT_TREE_SIZE: usize = 1_000_000;

/// The number of queries of a run that names none.
pub const DEFAULT_NUM_QUERIES: usize = 5_000_000;

/// Why a configuration cannot be run.
#[derive(Clone, Copy, Debug, PartialEq, Eq, Structural)]
pub enum ConfigError {
    /// No key set has the tree size.
    InvalidConfig,
    /// There are no queries, so no mean over the queries.
    DivisionDegenerate,
}

/// The configuration of a run.
#[derive(Clone, Copy, Debug, PartialEq, Eq, Structural)]
pub struct Config {
    pub tree_size: usize,
    pub num_queries: usize,
}

/// What `str::parse` makes of a text as a `u64`: the number that the text
/// denotes, or `None` where it denotes none that fits in 64 bits.
pub uninterp spec fn parsed_u64(text: Seq<char>) -> Option<u64>;

/// `str::parse` for `u64`: the number that the text denotes, or `None` where
/// it denotes none.
#[verifier::external_body]
fn parse_u64(text: &str) -> (r: Option<u64>)
    ensures
        r == parsed_u64(text@),
{
    text.parse::<u64>().ok()
}

/// The value of a parsed argument as a count, where it is one that this
/// machine can hold.
pub open spec fn count_of(parsed: Option<u64>) -> Option<usize> {
    match parsed {
        Some(v) if v <= usize::MAX => Some(v as usize),
        _ => None,
    }
}

/// The count that the argument at `position` gives, where there is such an
/// argument and it is a count.
pub open spec fn count_at(args: Seq<String>, position: int) -> Option<usize> {
    if 0 <= position < args.len() {
        count_of(parsed_u64(args[position]@))
    } else {
        None
    }
}

/// The value of a parsed argument as a count.
pub fn to_count(parsed: Option<u64>) -> (r: Option<usize>)
    ensures
        r == count_of(parsed),
{
    match parsed {
        Some(v) => {
            if v <= usize::MAX as u64 {
                Some(v as usize)
            } else {
                None
            }
        },
        None => None,
    }
}

impl Config {
    /// The configuration of a run that names neither value.
    pub open spec fn defaults() -> Config {
        Config { tree_size: DEFAULT_TREE_SIZE, num_queries: DEFAULT_NUM_QUERIES }
    }

    /// The configuration that two optional values give: each value that is
    /// missing is replaced by its default.
    pub open spec fn of_values(tree_size: Option<usize>, num_queries: Option<usize>) -> Config {
        Config {
            tree_size: match tree_size {
                Some(n) => n,
                None => DEFAULT_TREE_SIZE,
            },
            num_queries: match num_queries {
                Some(n) => n,
                None => DEFAULT_NUM_QUERIES,
            },
        }
    }

    /// Whether the configuration can be run: a key set of its tree size
    /// exists, and there is at least one query.
    pub open spec fn runnable(&self) -> bool {
        valid_tree_size(self.tree_size) && self.num_queries > 0
    }

    /// The configuration that two optional values give: each value that is
    /// missing is replaced by its default.
    pub fn from_values(tree_size: Option<usize>, num_queries: Option<usize>) -> (c: Config)
        ensures
            c == Config::of_values(tree_size, num_queries),
    {
        let tree_size: usize = match tree_size {
            Some(n) => n,
            None => DEFAULT_TREE_SIZE,
        };
        let num_queries: usize = match num_queries {
            Some(n) => n,
            None => DEFAULT_NUM_QUERIES,
        };
        Config { tree_size, num_queries }
    }

    /// The configuration that the arguments of a process give. The argument
    /// at position 1 is the tree size and the one at position 2 the number
    /// of queries; one that is missing or is no count gives the default.
    pub fn from_args(args: &[String]) -> (c: Config)
        ensures
            c == Config::of_values(count_at(args@, 1), count_at(args@, 2)),
    {
        let tree_size: Option<usize> = if args.len() > 1 {
            to_count(parse_u64(args[1].as_str()))
        } else {
            None
        };
        let num_queries: Option<usize> = if args.len() > 2 {
            to_count(parse_u64(args[2].as_str()))
        } else {
            None
        };
        Config::from_values(tree_size, num_queries)
    }

    /// Checks that the configuration can be run. A tree size without a key
    /// set is reported first.
    pub fn validate(&self) -> (r: Result<(), ConfigError>)
        ensures
            r is Ok <==> self.runnable(),
            r == Err::<(), ConfigError>(ConfigError::InvalidConfig) <==> !valid_tree_size(
                self.tree_size,
            ),
            r == Err::<(), ConfigError>(ConfigError::DivisionDegenerate) <==> valid_tree_size(
                self.tree_size,
            ) && self.num_queries == 0,
    {
        if self.tree_size == 0 || self.tree_size > MAX_TREE_SIZE {
            Err(ConfigError::InvalidConfig)
        } else if self.num_queries == 0 {
            Err(ConfigError::DivisionDegenerate)
        } else {
            Ok(())
        }
    }
}

} // verus!
