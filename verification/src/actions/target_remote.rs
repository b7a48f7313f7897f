//! A target whose work is done by remote workers.

use vstd::prelude::*;

use crate::actions::{ActionError, TargetResult};
use crate::config::decode::{misshapen, shape_problem};
use crate::job::Job;
use crate::json::{lemma_member_trees, Json, Tree};

verus! {

/// Stands for work that an external worker pool does. It does nothing itself and must be paired
/// with the remote pool executor, which hands the job to a worker.
#[derive(Debug)]
pub struct RemoteTarget;

/// A remote target has no settings.
pub open spec fn no_settings(config: Tree) -> bool {
    config is Null || (config matches Tree::Obj(members) && members.len() == 0)
}

impl RemoteTarget {
    /// Makes the target that a configuration describes.
    pub fn from_config(config: &Json) -> (r: Result<RemoteTarget, String>)
        ensures
            match r {
                Ok(_) => no_settings(config@),
                Err(problem) => !no_settings(config@) && problem@ == shape_problem(
                    "RemoteTarget"@,
                    config@,
                ),
            },
    {
        match config {
            Json::Null => Ok(RemoteTarget),
            Json::Object(members) => {
                proof {
                    lemma_member_trees(members@);
                }
                if members.len() == 0 {
                    Ok(RemoteTarget)
                } else {
                    Err(misshapen("RemoteTarget", config))
                }
            },
            _ => Err(misshapen("RemoteTarget", config)),
        }
    }

    /// Refuses to do the work here.
    pub fn dispatch(&self, _job: &Job) -> (r: Result<TargetResult, ActionError>)
        ensures
            r matches Err(ActionError::ConfigError(m)) && m@
                == "'remote' target must be paired with 'executor: remote_pool'"@,
    {
        Err(
            ActionError::ConfigError(
                "'remote' target must be paired with 'executor: remote_pool'".to_owned(),
            ),
        )
    }
}

} // verus!
