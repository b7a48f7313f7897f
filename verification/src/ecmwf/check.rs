//! Checks on requests, licences, dates and roles.

use serde_json::Value;
use vstd::prelude::*;

use crate::actions::{ActionError, CheckResult};
use crate::config::decode::{
    fields, fields_of, misshapen, opt_string, read_opt_string, read_string, read_string_list,
    read_string_or, req_string, shape_problem, string_list, string_or, strs,
};
use crate::job::Job;
use crate::json::{
    find_member, json_text, law_equal_documents, law_lookup_finds_the_first, lemma_member_trees,
    lookup, member_trees, same, tree, tree_value, value_of, Json, Tree,
};
use crate::routing::opt_text;
use crate::text::{cat2, cat3, cat4, cat5, text_eq, texts};

verus! {

/// A check passes.
pub open spec fn passed(r: Result<CheckResult, ActionError>) -> bool {
    r matches Ok(CheckResult::Pass)
}

/// A check rejects a job.
pub open spec fn rejected(
    r: Result<CheckResult, ActionError>,
    words: Seq<char>,
    kept_silent: bool,
) -> bool {
    r matches Ok(CheckResult::Reject { reason, silent }) && reason@ == words && silent
        == kept_silent
}

// ---------------------------------------------------------------------------------------------
// Match
// ---------------------------------------------------------------------------------------------

/// Checks that a request holds given values.
#[derive(Debug)]
pub struct Match {
    pub fields: Vec<(String, Json)>,
}

/// A request holds the value of a field.
pub open spec fn holds(request: Tree, field: (Seq<char>, Tree)) -> bool {
    request.get(field.0) matches Some(actual) && same(actual, field.1)
}

/// Why a request does not hold the value of a field.
pub open spec fn mismatch(request: Tree, field: (Seq<char>, Tree)) -> Seq<char> {
    match request.get(field.0) {
        None => "request missing key '"@ + field.0 + "'"@,
        Some(actual) => field.0 + ": '"@ + json_text(actual) + "' does not match required '"@
            + json_text(field.1) + "'"@,
    }
}

/// The first field whose value a request does not hold.
pub open spec fn first_mismatch(request: Tree, fields: Seq<(Seq<char>, Tree)>) -> Option<int> {
    if exists|i: int| 0 <= i < fields.len() && !holds(request, #[trigger] fields[i]) {
        Some(
            choose|i: int|
                {
                    &&& 0 <= i < fields.len()
                    &&& !holds(request, #[trigger] fields[i])
                    &&& forall|k: int| 0 <= k < i ==> holds(request, #[trigger] fields[k])
                },
        )
    } else {
        None
    }
}

proof fn lemma_first_mismatch(request: Tree, fields: Seq<(Seq<char>, Tree)>, i: int)
    requires
        0 <= i < fields.len(),
        !holds(request, fields[i]),
        forall|k: int| 0 <= k < i ==> holds(request, #[trigger] fields[k]),
    ensures
        first_mismatch(request, fields) == Some(i),
{
    let c = first_mismatch(request, fields)->0;
    assert(holds(request, fields[c]) == false);
    if c < i {
        assert(holds(request, fields[c]));
    } else if i < c {
        assert(holds(request, fields[i]));
    }
}

/// What a match check says of a request.
pub open spec fn match_decided(
    request: Tree,
    fields: Seq<(Seq<char>, Tree)>,
    r: Result<CheckResult, ActionError>,
) -> bool {
    match first_mismatch(request, fields) {
        None => passed(r),
        Some(i) => rejected(r, mismatch(request, fields[i]), true),
    }
}

/// A match check passes exactly the requests that have an equal value under the key of every
/// field. For a value that is null, a truth value, a text or an integer, that is the value itself.
/// Any other request is rejected silently, in words that name the first field that it fails.
pub proof fn law_matches_need_equal_values(
    request: Tree,
    fields: Seq<(Seq<char>, Tree)>,
    r: Result<CheckResult, ActionError>,
)
    requires
        match_decided(request, fields, r),
    ensures
        r is Ok,
        r->Ok_0 is Pass <==> forall|i: int|
            0 <= i < fields.len() ==> (request.get((#[trigger] fields[i]).0) matches Some(actual)
                && same(actual, fields[i].1)),
        forall|i: int|
            r->Ok_0 is Pass && 0 <= i < fields.len() && (match (#[trigger] fields[i]).1 {
                Tree::Null => true,
                Tree::Bool(_) => true,
                Tree::Str(_) => true,
                Tree::Number(n) => n is Unsigned || n is Negative,
                _ => false,
            }) ==> request.get(fields[i].0) == Some(fields[i].1),
        r->Ok_0 matches CheckResult::Reject { reason, silent } ==> silent && exists|i: int|
            {
                &&& 0 <= i < fields.len()
                &&& !(request.get((#[trigger] fields[i]).0) matches Some(actual) && same(
                    actual,
                    fields[i].1,
                ))
                &&& forall|k: int|
                    0 <= k < i ==> (request.get((#[trigger] fields[k]).0) matches Some(actual)
                        && same(actual, fields[k].1))
                &&& reason@ == match request.get(fields[i].0) {
                    None => "request missing key '"@ + fields[i].0 + "'"@,
                    Some(actual) => fields[i].0 + ": '"@ + json_text(actual)
                        + "' does not match required '"@ + json_text(fields[i].1) + "'"@,
                }
            },
{
    assert forall|i: int| 0 <= i < fields.len() implies holds(request, #[trigger] fields[i]) == (
    request.get(fields[i].0) matches Some(actual) && same(actual, fields[i].1)) by {
    }
    match first_mismatch(request, fields) {
        None => {
            assert forall|i: int|
                0 <= i < fields.len() && (match (#[trigger] fields[i]).1 {
                    Tree::Null => true,
                    Tree::Bool(_) => true,
                    Tree::Str(_) => true,
                    Tree::Number(n) => n is Unsigned || n is Negative,
                    _ => false,
                }) implies request.get(fields[i].0) == Some(fields[i].1) by {
                assert(holds(request, fields[i]));
                law_equal_documents(request.get(fields[i].0)->0, fields[i].1);
            }
        },
        Some(_) => {
            let m = first_of(request, fields);
            lemma_first_mismatch(request, fields, m);
            assert(!holds(request, fields[m]));
        },
    }
}

/// The place of the first field that a request fails, where there is one.
proof fn first_of(request: Tree, fields: Seq<(Seq<char>, Tree)>) -> (m: int)
    requires
        exists|i: int| 0 <= i < fields.len() && !holds(request, #[trigger] fields[i]),
    ensures
        0 <= m < fields.len(),
        !holds(request, fields[m]),
        forall|k: int| 0 <= k < m ==> holds(request, #[trigger] fields[k]),
    decreases fields.len(),
{
    let front = fields.drop_last();
    if exists|i: int| 0 <= i < front.len() && !holds(request, #[trigger] front[i]) {
        let m = first_of(request, front);
        assert(front[m] == fields[m]);
        assert forall|k: int| 0 <= k < m implies holds(request, #[trigger] fields[k]) by {
            assert(front[k] == fields[k]);
        }
        m
    } else {
        let i = choose|i: int| 0 <= i < fields.len() && !holds(request, #[trigger] fields[i]);
        if i < front.len() {
            assert(front[i] == fields[i]);
        }
        assert forall|k: int| 0 <= k < fields.len() - 1 implies holds(
            request,
            #[trigger] fields[k],
        ) by {
            assert(front[k] == fields[k]);
        }
        fields.len() - 1
    }
}

impl Match {
    /// Makes the check that a configuration describes: every setting is a field.
    pub fn from_config(config: &Json) -> (r: Result<Match, String>)
        ensures
            match r {
                Ok(check) => config@ == Tree::Obj(member_trees(check.fields@)),
                Err(problem) => !(config@ is Obj) && problem@ == shape_problem("Match"@, config@),
            },
    {
        match config.copy() {
            Json::Object(members) => Ok(Match { fields: members }),
            _ => Err(misshapen("Match", config)),
        }
    }

    /// Passes a job whose request holds every field.
    pub fn evaluate(&self, job: &Job) -> (r: Result<CheckResult, ActionError>)
        ensures
            match_decided(job@.request, member_trees(self.fields@), r),
    {
        let ghost wanted = member_trees(self.fields@);
        proof {
            lemma_member_trees(self.fields@);
        }
        let mut i: usize = 0;
        while i < self.fields.len()
            invariant
                i <= self.fields@.len(),
                wanted == member_trees(self.fields@),
                wanted.len() == self.fields@.len(),
                forall|k: int|
                    0 <= k < wanted.len() ==> (#[trigger] wanted[k]).0 == self.fields@[k].0@
                        && wanted[k].1 == tree(self.fields@[k].1),
                forall|k: int| 0 <= k < i ==> holds(job@.request, #[trigger] wanted[k]),
            decreases self.fields@.len() - i,
        {
            let key = &self.fields[i].0;
            let expected = &self.fields[i].1;
            assert(wanted[i as int].0 == key@ && wanted[i as int].1 == expected@);
            match job.request.get(key) {
                None => {
                    proof {
                        lemma_first_mismatch(job@.request, wanted, i as int);
                    }
                    return Ok(
                        CheckResult::Reject {
                            reason: cat3("request missing key '", key, "'"),
                            silent: true,
                        },
                    );
                },
                Some(actual) => {
                    if !actual.same(expected) {
                        proof {
                            lemma_first_mismatch(job@.request, wanted, i as int);
                        }
                        let head = cat3(key, ": '", &actual.to_text());
                        return Ok(
                            CheckResult::Reject {
                                reason: cat4(
                                    &head,
                                    "' does not match required '",
                                    &expected.to_text(),
                                    "'",
                                ),
                                silent: true,
                            },
                        );
                    }
                },
            }
            i = i + 1;
        }
        Ok(CheckResult::Pass)
    }
}

// ---------------------------------------------------------------------------------------------
// HasLicense
// ---------------------------------------------------------------------------------------------

/// Checks that a job carries a data licence.
#[derive(Debug)]
pub struct HasLicense {
    pub license: String,
}

/// The one text that a configuration gives under a name.
pub open spec fn one_text(config: Tree, name: Seq<char>) -> Option<Seq<char>> {
    match fields(config, seq![name]) {
        Some(members) => req_string(lookup(members, name)),
        None => None,
    }
}

fn read_one_text(config: &Json, name: &str) -> (r: Option<String>)
    ensures
        crate::routing::opt_text(r) == one_text(config@, name@),
{
    let names: Vec<&str> = vec![name];
    assert(strs(names@) =~= seq![name@]);
    match fields_of(config, &names) {
        Some(members) => read_string(find_member(&members, name)),
        None => None,
    }
}

/// What a licence check says of the metadata of a job.
pub open spec fn license_decided(
    metadata: Tree,
    license: Seq<char>,
    r: Result<CheckResult, ActionError>,
) -> bool {
    match metadata.get("license"@) {
        Some(Tree::Str(held)) => if held == license {
            passed(r)
        } else {
            rejected(
                r,
                "license '"@ + held + "' does not match required '"@ + license + "'"@,
                true,
            )
        },
        _ => rejected(r, "no license field found"@, true),
    }
}

/// A licence check passes exactly the jobs whose metadata hold the very licence that is required.
/// Any other job is rejected silently, in words that tell a missing licence from another one.
pub proof fn law_licences_must_be_the_required_one(
    metadata: Tree,
    license: Seq<char>,
    r: Result<CheckResult, ActionError>,
)
    requires
        license_decided(metadata, license, r),
    ensures
        r is Ok,
        r->Ok_0 is Pass <==> metadata.get("license"@) == Some(Tree::Str(license)),
        r->Ok_0 matches CheckResult::Reject { reason, silent } ==> silent && reason@
            == match metadata.get("license"@) {
            Some(Tree::Str(held)) => "license '"@ + held + "' does not match required '"@ + license
                + "'"@,
            _ => "no license field found"@,
        },
{
}

impl HasLicense {
    /// Makes the check that a configuration describes.
    pub fn from_config(config: &Json) -> (r: Result<HasLicense, String>)
        ensures
            match r {
                Ok(check) => one_text(config@, "license"@) == Some(check.license@),
                Err(problem) => one_text(config@, "license"@) is None && problem@ == shape_problem(
                    "HasLicense"@,
                    config@,
                ),
            },
    {
        match read_one_text(config, "license") {
            Some(license) => Ok(HasLicense { license }),
            None => Err(misshapen("HasLicense", config)),
        }
    }

    /// Passes a job whose metadata names the licence.
    pub fn evaluate(&self, job: &Job) -> (r: Result<CheckResult, ActionError>)
        ensures
            license_decided(job@.metadata, self.license@, r),
    {
        match job.metadata.get("license") {
            Some(Json::Str(license)) => {
                if text_eq(license, &self.license) {
                    Ok(CheckResult::Pass)
                } else {
                    Ok(
                        CheckResult::Reject {
                            reason: cat5(
                                "license '",
                                license,
                                "' does not match required '",
                                &self.license,
                                "'",
                            ),
                            silent: true,
                        },
                    )
                }
            },
            _ => Ok(
                CheckResult::Reject { reason: "no license field found".to_owned(), silent: true },
            ),
        }
    }
}

// ---------------------------------------------------------------------------------------------
// DateChecker
// ---------------------------------------------------------------------------------------------

/// Checks that a date of a request is one of those that are allowed.
#[derive(Debug)]
pub struct DateChecker {
    pub key: String,
    pub allowed_values: Vec<String>,
}

/// The key and the rules that a configuration gives.
pub open spec fn date_rules(config: Tree) -> Option<(Seq<char>, Seq<Seq<char>>)> {
    match fields(config, seq!["key"@, "allowed_values"@]) {
        None => None,
        Some(members) => match (
            string_or(lookup(members, "key"@), "date"@),
            lookup(members, "allowed_values"@),
        ) {
            (Some(key), Some(values)) => match string_list(values) {
                Some(list) => Some((key, list)),
                None => None,
            },
            _ => None,
        },
    }
}

/// What a date check says after the value was held against the rules.
pub open spec fn date_decided(
    compared: Result<(), String>,
    r: Result<CheckResult, ActionError>,
) -> bool {
    match compared {
        Ok(()) => passed(r),
        Err(words) => rejected(r, words@, false),
    }
}

/// A date check passes exactly the dates that the rules allow, and rejects the others aloud, in the
/// words of the rules.
pub proof fn law_dates_follow_the_rules(
    compared: Result<(), String>,
    r: Result<CheckResult, ActionError>,
)
    requires
        date_decided(compared, r),
    ensures
        r is Ok,
        r->Ok_0 is Pass <==> compared is Ok,
        compared matches Err(words) ==> (r->Ok_0 matches CheckResult::Reject { reason, silent }
            && !silent && reason@ == words@),
{
}

impl DateChecker {
    /// Makes the check that a configuration describes.
    pub fn from_config(config: &Json) -> (r: Result<DateChecker, String>)
        ensures
            match r {
                Ok(check) => date_rules(config@) == Some((check.key@, texts(check.allowed_values@))),
                Err(problem) => date_rules(config@) is None && problem@ == shape_problem(
                    "DateChecker"@,
                    config@,
                ),
            },
    {
        let names: Vec<&str> = vec!["key", "allowed_values"];
        assert(strs(names@) =~= seq!["key"@, "allowed_values"@]);
        let members = match fields_of(config, &names) {
            Some(members) => members,
            None => return Err(misshapen("DateChecker", config)),
        };
        let key = match read_string_or(find_member(&members, "key"), "date") {
            Some(key) => key,
            None => return Err(misshapen("DateChecker", config)),
        };
        match find_member(&members, "allowed_values") {
            Some(values) => match read_string_list(values) {
                Some(allowed_values) => Ok(DateChecker { key, allowed_values }),
                None => Err(misshapen("DateChecker", config)),
            },
            None => Err(misshapen("DateChecker", config)),
        }
    }

    /// The value that is to be held against the rules, or the rejection of a request without one.
    pub fn subject<'a>(&self, job: &'a Job) -> (r: Result<&'a Json, CheckResult>)
        ensures
            match r {
                Ok(value) => job@.request.get(self.key@) == Some(value@),
                Err(e) => job@.request.get(self.key@) is None && rejected(
                    Ok(e),
                    "request does not contain expected key '"@ + self.key@ + "'"@,
                    false,
                ),
            },
    {
        match job.request.get(&self.key) {
            Some(value) => Ok(value),
            None => Err(
                CheckResult::Reject {
                    reason: cat3("request does not contain expected key '", &self.key, "'"),
                    silent: false,
                },
            ),
        }
    }

    /// Decides by what the comparison of the value with the rules said.
    pub fn decide(&self, compared: Result<(), String>) -> (r: Result<CheckResult, ActionError>)
        ensures
            date_decided(compared, r),
    {
        match compared {
            Ok(()) => Ok(CheckResult::Pass),
            Err(reason) => Ok(CheckResult::Reject { reason, silent: false }),
        }
    }
}

// ---------------------------------------------------------------------------------------------
// HasKey
// ---------------------------------------------------------------------------------------------

/// Checks that a request has a key.
#[derive(Debug)]
pub struct HasKey {
    pub key: String,
}

/// What a key check says of a request.
pub open spec fn key_decided(
    request: Tree,
    key: Seq<char>,
    r: Result<CheckResult, ActionError>,
) -> bool {
    if request.get(key) is Some {
        passed(r)
    } else {
        rejected(r, "request does not contain key '"@ + key + "'"@, true)
    }
}

/// A key check passes exactly the requests that have a member with the key, whatever its value, and
/// rejects any other silently.
pub proof fn law_keys_must_be_there(
    members: Seq<(Seq<char>, Tree)>,
    key: Seq<char>,
    r: Result<CheckResult, ActionError>,
)
    requires
        key_decided(Tree::Obj(members), key, r),
    ensures
        r is Ok,
        r->Ok_0 is Pass <==> exists|i: int| 0 <= i < members.len() && (#[trigger] members[i]).0 == key,
        r->Ok_0 matches CheckResult::Reject { reason, silent } ==> silent && reason@
            == "request does not contain key '"@ + key + "'"@,
{
    law_lookup_finds_the_first(members, key);
}

impl HasKey {
    /// Makes the check that a configuration describes.
    pub fn from_config(config: &Json) -> (r: Result<HasKey, String>)
        ensures
            match r {
                Ok(check) => one_text(config@, "key"@) == Some(check.key@),
                Err(problem) => one_text(config@, "key"@) is None && problem@ == shape_problem(
                    "HasKey"@,
                    config@,
                ),
            },
    {
        match read_one_text(config, "key") {
            Some(key) => Ok(HasKey { key }),
            None => Err(misshapen("HasKey", config)),
        }
    }

    /// Passes a job whose request has the key.
    pub fn evaluate(&self, job: &Job) -> (r: Result<CheckResult, ActionError>)
        ensures
            key_decided(job@.request, self.key@, r),
    {
        if job.request.get(&self.key).is_some() {
            Ok(CheckResult::Pass)
        } else {
            Ok(
                CheckResult::Reject {
                    reason: cat3("request does not contain key '", &self.key, "'"),
                    silent: true,
                },
            )
        }
    }
}

// ---------------------------------------------------------------------------------------------
// ScheduleReleased
// ---------------------------------------------------------------------------------------------

/// Checks that the data of a request have been released by a schedule.
#[derive(Debug)]
pub struct ScheduleReleased {
    /// Where the schedule is kept.
    pub path: String,
    /// The time that counts as the present one, if it is not that of the clock.
    pub now_rfc3339: Option<String>,
}

/// The schedule and the time that a configuration gives.
pub open spec fn schedule_of(config: Tree) -> Option<(Seq<char>, Option<Seq<char>>)> {
    match fields(config, seq!["path"@, "now_rfc3339"@]) {
        None => None,
        Some(members) => match (
            req_string(lookup(members, "path"@)),
            opt_string(lookup(members, "now_rfc3339"@)),
        ) {
            (Some(path), Some(now)) => Some((path, now)),
            _ => None,
        },
    }
}

/// What a schedule check says after the schedule was asked.
pub open spec fn schedule_decided(
    asked: Result<Result<(), ActionError>, ActionError>,
    r: Result<CheckResult, ActionError>,
) -> bool {
    match asked {
        Ok(Ok(())) => passed(r),
        Ok(Err(ActionError::ResourceError(words))) => rejected(r, words@, false),
        Ok(Err(ActionError::ConfigError(words))) => rejected(r, words@, false),
        Ok(Err(error)) => r == Err::<CheckResult, ActionError>(error),
        Err(error) => r == Err::<CheckResult, ActionError>(error),
    }
}

/// A schedule check passes exactly the data that the schedule has released. It rejects, aloud and
/// in the words of the schedule, only what the schedule itself refused, and fails with the error
/// where the schedule could not be asked.
pub proof fn law_unreleased_data_do_not_pass(
    asked: Result<Result<(), ActionError>, ActionError>,
    r: Result<CheckResult, ActionError>,
)
    requires
        schedule_decided(asked, r),
    ensures
        (r matches Ok(CheckResult::Pass)) <==> (asked matches Ok(Ok(()))),
        asked matches Err(e) ==> r == Err::<CheckResult, ActionError>(e),
        r matches Ok(CheckResult::Reject { reason, silent }) ==> !silent && match asked {
            Ok(Err(ActionError::ResourceError(words))) => reason@ == words@,
            Ok(Err(ActionError::ConfigError(words))) => reason@ == words@,
            _ => false,
        },
        asked matches Ok(Err(e)) ==> ((e is ResourceError || e is ConfigError) <==> r is Ok),
        asked matches Ok(Err(e)) ==> (r is Err ==> r == Err::<CheckResult, ActionError>(e)),
{
}

impl ScheduleReleased {
    /// Makes the check that a configuration describes.
    pub fn from_config(config: &Json) -> (r: Result<ScheduleReleased, String>)
        ensures
            match r {
                Ok(check) => schedule_of(config@) == Some((check.path@, opt_text(check.now_rfc3339))),
                Err(problem) => schedule_of(config@) is None && problem@ == shape_problem(
                    "ScheduleReleased"@,
                    config@,
                ),
            },
    {
        let names: Vec<&str> = vec!["path", "now_rfc3339"];
        assert(strs(names@) =~= seq!["path"@, "now_rfc3339"@]);
        let members = match fields_of(config, &names) {
            Some(members) => members,
            None => return Err(misshapen("ScheduleReleased", config)),
        };
        match (
            read_string(find_member(&members, "path")),
            read_opt_string(find_member(&members, "now_rfc3339")),
        ) {
            (Some(path), Some(now_rfc3339)) => Ok(ScheduleReleased { path, now_rfc3339 }),
            _ => Err(misshapen("ScheduleReleased", config)),
        }
    }

    /// Decides by what the schedule said of a request, if it could be asked at all. Data that are
    /// not released, and what the schedule cannot make out, are rejected; other errors are passed
    /// on, and so is why the schedule could not be asked.
    pub fn decide(&self, asked: Result<Result<(), ActionError>, ActionError>) -> (r: Result<
        CheckResult,
        ActionError,
    >)
        ensures
            schedule_decided(asked, r),
    {
        match asked {
            Ok(Ok(())) => Ok(CheckResult::Pass),
            Ok(Err(ActionError::ResourceError(reason))) => {
                Ok(CheckResult::Reject { reason, silent: false })
            },
            Ok(Err(ActionError::ConfigError(reason))) => {
                Ok(CheckResult::Reject { reason, silent: false })
            },
            Ok(Err(error)) => Err(error),
            Err(error) => Err(error),
        }
    }
}

// ---------------------------------------------------------------------------------------------
// HasRole
// ---------------------------------------------------------------------------------------------

/// What a user without a matching role is told.
pub const ACCESS_DENIED: &'static str = "insufficient permissions";

/// Checks that a user has one of the roles that their realm is admitted with.
#[derive(Debug)]
pub struct HasRole {
    /// Admitted roles by realm.
    pub roles: Vec<(String, Vec<String>)>,
}

/// The parts of an `authotron_types::User` that the check looks at.
#[derive(Debug)]
pub struct AuthUser {
    pub version: i32,
    pub realm: String,
    pub roles: Vec<String>,
}

/// What `serde_json::from_value` reads from a value as an `authotron_types::User`: the version, the
/// realm and the roles, or why it reads nothing.
pub uninterp spec fn auth_user(value: serde_json::Value) -> Result<
    (i32, Seq<char>, Seq<Seq<char>>),
    Seq<char>,
>;

/// Calls `serde_json::from_value` on a value, which reads it in the same way every time, and keeps
/// the words of its error.
#[verifier::external_body]
fn read_auth_user(value: Value) -> (r: Result<AuthUser, String>)
    ensures
        match r {
            Ok(user) => auth_user(value) == Ok::<(i32, Seq<char>, Seq<Seq<char>>), Seq<char>>(
                (user.version, user.realm@, texts(user.roles@)),
            ),
            Err(e) => auth_user(value) == Err::<(i32, Seq<char>, Seq<Seq<char>>), Seq<char>>(e@),
        },
{
    let user: authotron_types::User = serde_json::from_value(value).map_err(|e| e.to_string())?;
    Ok(AuthUser { version: user.version, realm: user.realm, roles: user.roles })
}

/// The roles of realms.
pub open spec fn realm_roles(roles: Seq<(String, Vec<String>)>) -> Seq<
    (Seq<char>, Seq<Seq<char>>),
> {
    Seq::new(roles.len(), |i: int| (roles[i].0@, texts(roles[i].1@)))
}

/// Every member is a list of texts.
pub open spec fn all_string_lists(members: Seq<(Seq<char>, Tree)>) -> bool {
    forall|i: int|
        0 <= i < members.len() ==> string_list((#[trigger] members[i]).1) is Some
}

/// The lists of texts under their keys.
pub open spec fn string_lists(members: Seq<(Seq<char>, Tree)>) -> Seq<
    (Seq<char>, Seq<Seq<char>>),
> {
    Seq::new(members.len(), |i: int| (members[i].0, string_list(members[i].1)->0))
}

/// The admitted roles that a configuration gives.
pub open spec fn admitted_roles(config: Tree) -> Option<Seq<(Seq<char>, Seq<Seq<char>>)>> {
    match fields(config, seq!["roles"@]) {
        None => None,
        Some(members) => match lookup(members, "roles"@) {
            Some(Tree::Obj(realms)) => if all_string_lists(realms) {
                Some(string_lists(realms))
            } else {
                None
            },
            _ => None,
        },
    }
}

/// The roles that the first entry of a realm admits.
pub open spec fn admits(
    roles: Seq<(Seq<char>, Seq<Seq<char>>)>,
    realm: Seq<char>,
    has: Seq<Seq<char>>,
) -> bool {
    exists|i: int|
        {
            &&& 0 <= i < roles.len()
            &&& (#[trigger] roles[i]).0 == realm
            &&& forall|k: int| 0 <= k < i ==> (#[trigger] roles[k]).0 != realm
            &&& exists|j: int|
                0 <= j < roles[i].1.len() && has.contains(#[trigger] roles[i].1[j])
        }
}

fn list_contains(list: &Vec<String>, text: &str) -> (r: bool)
    ensures
        r == texts(list@).contains(text@),
{
    let mut i: usize = 0;
    while i < list.len()
        invariant
            i <= list@.len(),
            forall|k: int| 0 <= k < i ==> (#[trigger] texts(list@)[k]) != text@,
        decreases list@.len() - i,
    {
        if text_eq(&list[i], text) {
            assert(texts(list@)[i as int] == text@);
            return true;
        }
        i = i + 1;
    }
    false
}

/// Some text of a list is in another.
fn share_text(list: &Vec<String>, other: &Vec<String>) -> (r: bool)
    ensures
        r == exists|j: int|
            0 <= j < texts(list@).len() && texts(other@).contains(#[trigger] texts(list@)[j]),
{
    let mut j: usize = 0;
    while j < list.len()
        invariant
            j <= list@.len(),
            forall|k: int| 0 <= k < j ==> !texts(other@).contains(#[trigger] texts(list@)[k]),
        decreases list@.len() - j,
    {
        assert(texts(list@)[j as int] == list@[j as int]@);
        if list_contains(other, &list[j]) {
            return true;
        }
        j = j + 1;
    }
    false
}

/// What a role check says of a user.
pub open spec fn user_decided(
    roles: Seq<(Seq<char>, Seq<Seq<char>>)>,
    user: Result<(i32, Seq<char>, Seq<Seq<char>>), Seq<char>>,
    r: Result<CheckResult, ActionError>,
) -> bool {
    match user {
        Err(words) => r matches Err(ActionError::AuthError(m)) && m@ == "invalid auth context: "@
            + words,
        Ok((version, realm, has)) => if version == 1 && admits(roles, realm, has) {
            passed(r)
        } else {
            rejected(r, ACCESS_DENIED@, false)
        },
    }
}

/// A role check passes a user only with the first version of the format, and only with a role that
/// the first entry of their realm lists. Any other user is rejected aloud, without details, and one
/// that cannot be read is an error.
pub proof fn law_roles_are_those_of_the_realm(
    roles: Seq<(Seq<char>, Seq<Seq<char>>)>,
    version: i32,
    realm: Seq<char>,
    has: Seq<Seq<char>>,
    entry: int,
    r: Result<CheckResult, ActionError>,
)
    requires
        user_decided(roles, Ok((version, realm, has)), r),
    ensures
        r is Ok,
        version != 1 ==> r->Ok_0 is Reject,
        (forall|k: int| 0 <= k < roles.len() ==> (#[trigger] roles[k]).0 != realm)
            ==> r->Ok_0 is Reject,
        version == 1 && 0 <= entry < roles.len() && roles[entry].0 == realm && (forall|k: int|
            0 <= k < entry ==> (#[trigger] roles[k]).0 != realm) ==> (r->Ok_0 is Pass
            <==> exists|role: Seq<char>| #[trigger]
            roles[entry].1.contains(role) && has.contains(role)),
        r->Ok_0 matches CheckResult::Reject { reason, silent } ==> !silent && reason@
            == "insufficient permissions"@,
{
    if version == 1 && 0 <= entry < roles.len() && roles[entry].0 == realm && (forall|k: int|
        0 <= k < entry ==> (#[trigger] roles[k]).0 != realm) {
        if admits(roles, realm, has) {
            let i = choose|i: int|
                {
                    &&& 0 <= i < roles.len()
                    &&& (#[trigger] roles[i]).0 == realm
                    &&& forall|k: int| 0 <= k < i ==> (#[trigger] roles[k]).0 != realm
                    &&& exists|j: int|
                        0 <= j < roles[i].1.len() && has.contains(#[trigger] roles[i].1[j])
                };
            assert(i == entry) by {
                if i < entry {
                    assert(roles[i].0 != realm);
                } else if entry < i {
                    assert(roles[entry].0 != realm);
                }
            }
            let j = choose|j: int|
                0 <= j < roles[entry].1.len() && has.contains(#[trigger] roles[entry].1[j]);
            assert(roles[entry].1.contains(roles[entry].1[j]));
        }
        if exists|role: Seq<char>| #[trigger]
            roles[entry].1.contains(role) && has.contains(role) {
            let role = choose|role: Seq<char>| #[trigger]
                roles[entry].1.contains(role) && has.contains(role);
            let j = choose|j: int| 0 <= j < roles[entry].1.len() && roles[entry].1[j] == role;
            assert(has.contains(roles[entry].1[j]));
            assert(admits(roles, realm, has));
        }
    }
}

/// A user that cannot be read fails the check with the reason.
pub proof fn law_unreadable_users_fail(
    roles: Seq<(Seq<char>, Seq<Seq<char>>)>,
    words: Seq<char>,
    r: Result<CheckResult, ActionError>,
)
    requires
        user_decided(roles, Err(words), r),
    ensures
        r matches Err(ActionError::AuthError(m)) && m@ == "invalid auth context: "@ + words,
{
}

impl HasRole {
    /// Makes the check that a configuration describes.
    pub fn from_config(config: &Json) -> (r: Result<HasRole, String>)
        ensures
            match r {
                Ok(check) => admitted_roles(config@) == Some(realm_roles(check.roles@)),
                Err(problem) => admitted_roles(config@) is None && problem@ == shape_problem(
                    "HasRole"@,
                    config@,
                ),
            },
    {
        let names: Vec<&str> = vec!["roles"];
        assert(strs(names@) =~= seq!["roles"@]);
        let members = match fields_of(config, &names) {
            Some(members) => members,
            None => return Err(misshapen("HasRole", config)),
        };
        match find_member(&members, "roles") {
            Some(Json::Object(realms)) => {
                let ghost all = member_trees(realms@);
                proof {
                    lemma_member_trees(realms@);
                }
                let mut roles: Vec<(String, Vec<String>)> = Vec::new();
                let mut i: usize = 0;
                while i < realms.len()
                    invariant
                        i <= realms@.len(),
                        roles@.len() == i,
                        all == member_trees(realms@),
                        all.len() == realms@.len(),
                        admitted_roles(config@) == if all_string_lists(all) {
                            Some(string_lists(all))
                        } else {
                            None
                        },
                        forall|k: int|
                            0 <= k < all.len() ==> (#[trigger] all[k]).0 == realms@[k].0@
                                && all[k].1 == tree(realms@[k].1),
                        forall|k: int|
                            0 <= k < i ==> string_list((#[trigger] all[k]).1) == Some(
                                texts(roles@[k].1@),
                            ) && roles@[k].0@ == all[k].0,
                    decreases realms@.len() - i,
                {
                    assert(all[i as int].1 == realms@[i as int].1@);
                    match read_string_list(&realms[i].1) {
                        Some(list) => {
                            roles.push((realms[i].0.clone(), list));
                        },
                        None => {
                            return Err(misshapen("HasRole", config));
                        },
                    }
                    i = i + 1;
                }
                assert(realm_roles(roles@) =~= string_lists(all));
                Ok(HasRole { roles })
            },
            _ => Err(misshapen("HasRole", config)),
        }
    }

    /// Whether a user has a role that their realm is admitted with.
    fn admits_user(&self, user: &AuthUser) -> (r: bool)
        ensures
            r == admits(realm_roles(self.roles@), user.realm@, texts(user.roles@)),
    {
        let ghost realms = realm_roles(self.roles@);
        let mut i: usize = 0;
        while i < self.roles.len()
            invariant
                i <= self.roles@.len(),
                realms == realm_roles(self.roles@),
                forall|k: int| 0 <= k < i ==> (#[trigger] realms[k]).0 != user.realm@,
            decreases self.roles@.len() - i,
        {
            assert(realms[i as int].0 == self.roles@[i as int].0@);
            if text_eq(&self.roles[i].0, &user.realm) {
                assert(realms[i as int].1 == texts(self.roles@[i as int].1@));
                return share_text(&self.roles[i].1, &user.roles);
            }
            i = i + 1;
        }
        false
    }

    /// Decides by the authenticated user.
    pub fn decide(&self, user: Result<AuthUser, String>) -> (r: Result<CheckResult, ActionError>)
        ensures
            user_decided(
                realm_roles(self.roles@),
                match user {
                    Ok(user) => Ok((user.version, user.realm@, texts(user.roles@))),
                    Err(words) => Err(words@),
                },
                r,
            ),
    {
        match user {
            Err(words) => Err(ActionError::AuthError(cat2("invalid auth context: ", &words))),
            Ok(user) => if user.version == 1 && self.admits_user(&user) {
                Ok(CheckResult::Pass)
            } else {
                Ok(CheckResult::Reject { reason: ACCESS_DENIED.to_owned(), silent: false })
            },
        }
    }

    /// Passes a job whose user is authenticated and has an admitted role.
    pub fn evaluate(&self, job: &Job) -> (r: Result<CheckResult, ActionError>)
        ensures
            match job@.user.get("auth"@) {
                None => rejected(r, ACCESS_DENIED@, false),
                Some(auth) => user_decided(
                    realm_roles(self.roles@),
                    auth_user(tree_value(auth)),
                    r,
                ),
            },
    {
        match job.user.get("auth") {
            None => Ok(CheckResult::Reject { reason: ACCESS_DENIED.to_owned(), silent: false }),
            Some(auth) => self.decide(read_auth_user(value_of(auth))),
        }
    }
}

/// The settings of checks are read from their members: a text must be there, the key of a date is
/// `date` unless said otherwise, the allowed values are a list of texts, and a pinned time may be
/// left out.
pub proof fn law_settings_of_checks(members: Seq<(Seq<char>, Tree)>, name: Seq<char>, text: Seq<char>)
    ensures
        one_text(Tree::Obj(members), name) == Some(text) <==> lookup(members, name) == Some(
            Tree::Str(text),
        ),
        date_rules(Tree::Obj(members)) matches Some((key, list)) ==> {
            &&& lookup(members, "key"@) is None ==> key == "date"@
            &&& lookup(members, "key"@) matches Some(value) ==> value == Tree::Str(key)
            &&& lookup(members, "allowed_values"@) matches Some(Tree::Arr(items)) && items.len()
                == list.len() && forall|i: int|
                0 <= i < items.len() ==> #[trigger] items[i] == Tree::Str(list[i])
        },
        schedule_of(Tree::Obj(members)) matches Some((path, now)) ==> {
            &&& lookup(members, "path"@) == Some(Tree::Str(path))
            &&& match now {
                None => lookup(members, "now_rfc3339"@) is None || lookup(members, "now_rfc3339"@)
                    == Some(Tree::Null),
                Some(text) => lookup(members, "now_rfc3339"@) == Some(Tree::Str(text)),
            }
        },
        admitted_roles(Tree::Obj(members)) matches Some(roles) ==> {
            &&& lookup(members, "roles"@) matches Some(Tree::Obj(realms)) && realms.len()
                == roles.len() && forall|i: int|
                0 <= i < realms.len() ==> {
                    &&& (#[trigger] realms[i]).0 == roles[i].0
                    &&& realms[i].1 matches Tree::Arr(items) && items.len() == roles[i].1.len()
                        && forall|k: int|
                        0 <= k < items.len() ==> #[trigger] items[k] == Tree::Str(roles[i].1[k])
                }
        },
{
    if date_rules(Tree::Obj(members)) is Some {
        let items = lookup(members, "allowed_values"@)->0->Arr_0;
        assert forall|i: int| 0 <= i < items.len() implies #[trigger] items[i] == Tree::Str(
            (date_rules(Tree::Obj(members))->0).1[i],
        ) by {
        }
    }
}

} // verus!
