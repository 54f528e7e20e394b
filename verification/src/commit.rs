use vstd::prelude::*;

use crate::strmap::StrMap;

verus! {

/// How many times a commit is retried when another writer committed first.
pub const DEFAULT_RETRIES: usize = 15;

/// Properties of the commit that an operation makes.
#[derive(Debug)]
pub struct CommitProperties {
    /// Metadata recorded in the commit, each value as its JSON text.
    pub app_metadata: StrMap<String>,
    /// How many times the commit is retried on a conflict.
    pub max_retries: usize,
    /// Whether a checkpoint is written after the commit when one is due.
    pub create_checkpoint: bool,
    /// Whether expired log files are removed after the commit; unset leaves it to the
    /// table's configuration.
    pub cleanup_expired_logs: Option<bool>,
}

impl Default for CommitProperties {
    fn default() -> (r: Self)
        ensures
            r.app_metadata@ == Map::<Seq<char>, String>::empty(),
            r.max_retries == DEFAULT_RETRIES,
            r.create_checkpoint,
            r.cleanup_expired_logs is None,
    {
        CommitProperties {
            app_metadata: StrMap::new(),
            max_retries: DEFAULT_RETRIES,
            create_checkpoint: true,
            cleanup_expired_logs: None,
        }
    }
}

} // verus!
