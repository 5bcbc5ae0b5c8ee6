//! The command line interface.

use crate::parallel;
use vstd::prelude::*;

verus! {

/// A toy payments engine.
///
/// Reads a CSV transaction log, applies it to client accounts, and writes the resulting
/// balances to standard output. Rejected records are reported on standard error.
#[derive(Debug)]
pub struct Cli {
    /// CSV file of transactions to process. Reads from standard input if omitted or `-`.
    pub input: Option<String>,
    /// Number of shards to spread client accounts over.
    ///
    /// Defaults to two fewer than the available cores, floored at two, so that the reader
    /// and the writer each keep a core to themselves. `1` turns sharding off.
    pub shards: Option<u16>,
}

impl Cli {
    /// The file to read; without one, standard input is read.
    pub fn file(&self) -> (file: Option<&String>)
        ensures
            match self.input {
                Some(path) => if path@ == "-"@ {
                    file is None
                } else {
                    file == Some(&path)
                },
                None => file is None,
            },
    {
        match &self.input {
            Some(path) => if path.eq(&"-".to_owned()) {
                None
            } else {
                Some(path)
            },
            None => None,
        }
    }

    /// How many shards to run, on a machine that runs `parallelism` threads at once if that is
    /// known.
    ///
    /// The command line overrides the machine, which is what makes a benchmark comparable
    /// across machines and what lets a test pin the layout.
    pub fn shard_count(&self, parallelism: Option<usize>) -> (shards: usize)
        ensures
            shards == match (self.shards, parallelism) {
                (Some(shards), _) => shards as int,
                (None, Some(parallelism)) => parallel::suited_shards(parallelism as int),
                (None, None) => parallel::suited_shards(1),
            },
    {
        match self.shards {
            Some(shards) => shards as usize,
            None => match parallelism {
                Some(parallelism) => parallel::shards_for(parallelism),
                None => parallel::shards_for(1),
            },
        }
    }
}

} // verus!
