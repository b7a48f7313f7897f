//! A check for a role in the metadata of a job.

use vstd::prelude::*;

use crate::actions::{ActionError, CheckResult};
use crate::config::decode::{
    fields, fields_of, misshapen, read_string, req_string, shape_problem, strs,
};
use crate::job::Job;
use crate::json::{find_member, lemma_trees, lookup, tree, trees, Json, Tree};
use crate::text::{cat3, text_eq};

verus! {

/// Checks that a job carries a role, as an authenticating layer in front of the broker sets it.
#[derive(Debug)]
pub struct HasRole {
    pub role: String,
}

/// The role that a configuration asks for.
pub open spec fn wanted_role(config: Tree) -> Option<Seq<char>> {
    match fields(config, seq!["role"@]) {
        Some(members) => req_string(lookup(members, "role"@)),
        None => None,
    }
}

/// Metadata lists roles.
pub open spec fn lists_roles(metadata: Tree) -> bool {
    metadata.get("roles"@) matches Some(roles) && roles is Arr
}

/// Metadata lists a role.
pub open spec fn lists_role(metadata: Tree, role: Seq<char>) -> bool {
    metadata.get("roles"@) matches Some(Tree::Arr(roles)) && roles.contains(Tree::Str(role))
}

/// What the check says of the metadata of a job.
pub open spec fn role_decided(
    metadata: Tree,
    role: Seq<char>,
    r: Result<CheckResult, ActionError>,
) -> bool {
    if lists_role(metadata, role) {
        r matches Ok(CheckResult::Pass)
    } else {
        r matches Ok(CheckResult::Reject { reason, silent }) && !silent && reason@ == if lists_roles(
            metadata,
        ) {
            "role '"@ + role + "' not found"@
        } else {
            "no roles field found"@
        }
    }
}

/// A job passes exactly where the roles in its metadata are a list with the very role. Any other
/// job is rejected aloud, in words that tell a missing list from a missing role.
pub proof fn law_roles_must_be_listed(
    metadata: Tree,
    role: Seq<char>,
    r: Result<CheckResult, ActionError>,
)
    requires
        role_decided(metadata, role, r),
    ensures
        r is Ok,
        r->Ok_0 is Pass <==> (metadata.get("roles"@) matches Some(Tree::Arr(list)) && exists|i: int|
            0 <= i < list.len() && #[trigger] list[i] == Tree::Str(role)),
        r->Ok_0 matches CheckResult::Reject { reason, silent } ==> !silent && reason@
            == match metadata.get("roles"@) {
            Some(Tree::Arr(_)) => "role '"@ + role + "' not found"@,
            _ => "no roles field found"@,
        },
{
}

impl HasRole {
    /// Makes the check that a configuration describes.
    pub fn from_config(config: &Json) -> (r: Result<HasRole, String>)
        ensures
            match r {
                Ok(check) => wanted_role(config@) == Some(check.role@),
                Err(problem) => wanted_role(config@) is None && problem@ == shape_problem(
                    "HasRole"@,
                    config@,
                ),
            },
    {
        let names: Vec<&str> = vec!["role"];
        assert(strs(names@) =~= seq!["role"@]);
        let role = match fields_of(config, &names) {
            Some(members) => read_string(find_member(&members, "role")),
            None => None,
        };
        match role {
            Some(role) => Ok(HasRole { role }),
            None => Err(misshapen("HasRole", config)),
        }
    }

    /// Passes a job whose metadata lists the role.
    pub fn evaluate(&self, job: &Job) -> (r: Result<CheckResult, ActionError>)
        ensures
            role_decided(job@.metadata, self.role@, r),
    {
        match job.metadata.get("roles") {
            Some(Json::Array(roles)) => {
                proof {
                    lemma_trees(roles@);
                }
                let mut i: usize = 0;
                while i < roles.len()
                    invariant
                        i <= roles@.len(),
                        trees(roles@).len() == roles@.len(),
                        forall|k: int|
                            0 <= k < roles@.len() ==> #[trigger] trees(roles@)[k] == tree(
                                roles@[k],
                            ),
                        job@.metadata.get("roles"@) == Some(Tree::Arr(trees(roles@))),
                        forall|k: int|
                            0 <= k < i ==> (#[trigger] trees(roles@)[k]) != Tree::Str(self.role@),
                    decreases roles@.len() - i,
                {
                    assert(trees(roles@)[i as int] == tree(roles@[i as int]));
                    match &roles[i] {
                        Json::Str(role) => {
                            if text_eq(role, &self.role) {
                                assert(trees(roles@)[i as int] == Tree::Str(self.role@));
                                return Ok(CheckResult::Pass);
                            }
                        },
                        _ => {},
                    }
                    i = i + 1;
                }
                Ok(
                    CheckResult::Reject {
                        reason: cat3("role '", &self.role, "' not found"),
                        silent: false,
                    },
                )
            },
            _ => Ok(
                CheckResult::Reject { reason: "no roles field found".to_owned(), silent: false },
            ),
        }
    }
}

/// The wanted role is the text of the `role` setting, and there is none without it.
pub proof fn law_wanted_role_is_the_setting(members: Seq<(Seq<char>, Tree)>, role: Seq<char>)
    ensures
        wanted_role(Tree::Obj(members)) == Some(role) <==> lookup(members, "role"@) == Some(
            Tree::Str(role),
        ),
{
}

} // verus!
