//! Expansion of request parameters.

use vstd::prelude::*;

use crate::actions::{ActionError, TransformResult};
use crate::config::decode::{fields, fields_of, misshapen, shape_problem, strs};
use crate::job::{Job, JobContents};
use crate::json::{
    find_member, lemma_member_trees, lookup, member_trees, tree, Json, Tree,
};
use crate::text::text_eq;

verus! {

/// Marks the metadata of jobs whose request parameters are to be expanded by Metkit conventions.
#[derive(Debug)]
pub struct MetkitExpansion {
    pub expand_parameters: bool,
}

/// Whether a configuration asks for expansion.
pub open spec fn expansion(config: Tree) -> Option<bool> {
    match fields(config, seq!["expand_parameters"@]) {
        None => None,
        Some(members) => match lookup(members, "expand_parameters"@) {
            Some(Tree::Bool(b)) => Some(b),
            _ => None,
        },
    }
}

/// Members with the value of a key set, at its place if it has one and at the end otherwise.
pub open spec fn with_member(members: Seq<(Seq<char>, Tree)>, key: Seq<char>, value: Tree) -> Seq<
    (Seq<char>, Tree),
>
    decreases members.len(),
{
    if members.len() == 0 {
        seq![(key, value)]
    } else if members[0].0 == key {
        members.update(0, (key, value))
    } else {
        seq![members[0]] + with_member(members.drop_first(), key, value)
    }
}

/// A value as an object: itself, or the empty object.
pub open spec fn as_object(value: Tree) -> Seq<(Seq<char>, Tree)> {
    match value {
        Tree::Obj(members) => members,
        _ => Seq::empty(),
    }
}

/// The value that was set is found again.
pub proof fn law_member_is_found(members: Seq<(Seq<char>, Tree)>, key: Seq<char>, value: Tree)
    ensures
        lookup(with_member(members, key, value), key) == Some(value),
        forall|other: Seq<char>|
            other != key ==> #[trigger] lookup(with_member(members, key, value), other) == lookup(
                members,
                other,
            ),
    decreases members.len(),
{
    let after = with_member(members, key, value);
    if members.len() == 0 {
        assert forall|other: Seq<char>| other != key implies #[trigger] lookup(after, other)
            == lookup(members, other) by {
            assert(after.drop_first() =~= members);
        }
    } else if members[0].0 == key {
        assert(after.drop_first() =~= members.drop_first());
    } else {
        law_member_is_found(members.drop_first(), key, value);
        let rest = with_member(members.drop_first(), key, value);
        assert(after.drop_first() =~= rest);
        assert forall|other: Seq<char>| other != key implies #[trigger] lookup(after, other)
            == lookup(members, other) by {
            assert(lookup(rest, other) == lookup(members.drop_first(), other));
        }
    }
}

/// Setting a value at the place where its key first stands.
proof fn lemma_with_member_at(members: Seq<(Seq<char>, Tree)>, key: Seq<char>, value: Tree, i: int)
    requires
        0 <= i <= members.len(),
        i < members.len() ==> members[i].0 == key,
        forall|k: int| 0 <= k < i ==> (#[trigger] members[k]).0 != key,
    ensures
        with_member(members, key, value) == if i < members.len() {
            members.update(i, (key, value))
        } else {
            members.push((key, value))
        },
    decreases members.len(),
{
    if members.len() == 0 {
        assert(members.push((key, value)) =~= seq![(key, value)]);
    } else if i > 0 {
        let rest = members.drop_first();
        assert(members[0].0 != key);
        lemma_with_member_at(rest, key, value, i - 1);
        if i < members.len() {
            assert(seq![members[0]] + rest.update(i - 1, (key, value)) =~= members.update(
                i,
                (key, value),
            ));
        } else {
            assert(seq![members[0]] + rest.push((key, value)) =~= members.push((key, value)));
        }
    }
}

/// Sets the value of a key.
pub fn set_member(members: &mut Vec<(String, Json)>, key: &str, value: Json)
    ensures
        member_trees(final(members)@) == with_member(member_trees(old(members)@), key@, value@),
{
    let ghost all = member_trees(members@);
    proof {
        lemma_member_trees(members@);
    }
    let mut i: usize = 0;
    while i < members.len() && !text_eq(&members[i].0, key)
        invariant
            i <= members@.len(),
            *members == *old(members),
            all == member_trees(members@),
            all.len() == members@.len(),
            forall|k: int|
                0 <= k < all.len() ==> (#[trigger] all[k]).0 == members@[k].0@ && all[k].1 == tree(
                    members@[k].1,
                ),
            forall|k: int| 0 <= k < i ==> (#[trigger] all[k]).0 != key@,
        decreases members@.len() - i,
    {
        i = i + 1;
    }
    proof {
        if i < members@.len() {
            assert(all[i as int].0 == key@);
        }
        lemma_with_member_at(all, key@, value@, i as int);
    }
    let ghost before = members@;
    let ghost added = value@;
    if i < members.len() {
        members.set(i, (key.to_owned(), value));
        proof {
            lemma_member_trees(members@);
            assert(member_trees(members@) =~= all.update(i as int, (key@, added)));
        }
    } else {
        members.push((key.to_owned(), value));
        proof {
            lemma_member_trees(members@);
            assert(member_trees(members@) =~= all.push((key@, added)));
        }
    }
}

/// What the transform makes of a job.
pub open spec fn expanded(expand: bool, before: JobContents, after: JobContents) -> bool {
    after == if expand {
        JobContents {
            metadata: Tree::Obj(
                with_member(as_object(before.metadata), "metkit_expanded"@, Tree::Bool(true)),
            ),
            ..before
        }
    } else {
        before
    }
}

/// A job that is to be expanded is marked in its metadata, where every other entry stays; nothing
/// else of it changes. A job that is not to be expanded does not change at all.
pub proof fn law_expansion_marks_the_metadata(
    expand: bool,
    before: JobContents,
    after: JobContents,
    key: Seq<char>,
)
    requires
        expanded(expand, before, after),
    ensures
        !expand ==> after == before,
        expand ==> after.metadata.get("metkit_expanded"@) == Some(Tree::Bool(true)),
        expand && key != "metkit_expanded"@ ==> after.metadata.get(key) == before.metadata.get(key),
        after.id == before.id && after.request == before.request && after.original_request
            == before.original_request && after.user == before.user && after.created_at
            == before.created_at,
{
    law_member_is_found(as_object(before.metadata), "metkit_expanded"@, Tree::Bool(true));
}

impl MetkitExpansion {
    /// Makes the transform that a configuration describes.
    pub fn from_config(config: &Json) -> (r: Result<MetkitExpansion, String>)
        ensures
            match r {
                Ok(transform) => expansion(config@) == Some(transform.expand_parameters),
                Err(problem) => expansion(config@) is None && problem@ == shape_problem(
                    "MetkitExpansion"@,
                    config@,
                ),
            },
    {
        let names: Vec<&str> = vec!["expand_parameters"];
        assert(strs(names@) =~= seq!["expand_parameters"@]);
        let members = match fields_of(config, &names) {
            Some(members) => members,
            None => return Err(misshapen("MetkitExpansion", config)),
        };
        match find_member(&members, "expand_parameters") {
            Some(Json::Bool(b)) => Ok(MetkitExpansion { expand_parameters: *b }),
            _ => Err(misshapen("MetkitExpansion", config)),
        }
    }

    /// Marks the metadata of a job, if it is to be expanded.
    pub fn execute(&self, job: &mut Job) -> (r: Result<TransformResult, ActionError>)
        ensures
            r matches Ok(TransformResult::Continue),
            expanded(self.expand_parameters, old(job)@, final(job)@),
            *final(job) == (Job { metadata: final(job).metadata, ..*old(job) }),
    {
        if self.expand_parameters {
            let mut members = match job.metadata.copy() {
                Json::Object(members) => members,
                _ => {
                    let none: Vec<(String, Json)> = Vec::new();
                    assert(member_trees(none@) =~= Seq::<(Seq<char>, Tree)>::empty());
                    none
                },
            };
            set_member(&mut members, "metkit_expanded", Json::Bool(true));
            job.metadata = Json::Object(members);
        }
        Ok(TransformResult::Continue)
    }
}

/// Whether parameters are expanded is what the setting says, and it must say so.
pub proof fn law_expansion_is_the_setting(members: Seq<(Seq<char>, Tree)>, b: bool)
    ensures
        expansion(Tree::Obj(members)) == Some(b) <==> lookup(members, "expand_parameters"@) == Some(
            Tree::Bool(b),
        ),
{
}

} // verus!
