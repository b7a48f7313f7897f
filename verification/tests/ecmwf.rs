//! Checks and transforms on requests.

use std::collections::HashMap;

use authotron_types::User;
use bits::actions::{ActionError, CheckResult, TransformResult};
use bits::ecmwf::check::{
    AuthUser, DateChecker, HasKey, HasLicense, HasRole, Match, ScheduleReleased, ACCESS_DENIED,
};
use bits::ecmwf::transform_metkit_expansion::{set_member, MetkitExpansion};
use bits::job::Job;
use bits::json::{parse_yaml, Json, Number};

fn json(text: &str) -> Json {
    parse_yaml(text).unwrap()
}

fn job(request: &str) -> Job {
    Job::new(json(request), 0)
}

fn job_with_auth(auth_user: &User) -> Job {
    let mut job = job("{}");
    job.user = Json::Object(vec![
        ("client_ip".into(), Json::Str("1.2.3.4".into())),
        (
            "auth".into(),
            json(&serde_json::to_string(auth_user).unwrap()),
        ),
    ]);
    job
}

fn test_user(roles: Vec<&str>, realm: &str) -> User {
    User {
        version: 1,
        username: "alice".to_string(),
        realm: realm.to_string(),
        roles: roles.into_iter().map(String::from).collect(),
        attributes: HashMap::new(),
        scopes: HashMap::new(),
    }
}

fn roles(entries: &[(&str, &[&str])]) -> Vec<(String, Vec<String>)> {
    entries
        .iter()
        .map(|(realm, roles)| {
            (
                realm.to_string(),
                roles.iter().map(|r| r.to_string()).collect(),
            )
        })
        .collect()
}

fn assert_reject(result: CheckResult) {
    match result {
        CheckResult::Reject { reason, silent } => {
            assert!(!silent, "HasRole rejections must be non-silent");
            assert_eq!(reason, ACCESS_DENIED);
        }
        _ => panic!("expected Reject, got Pass"),
    }
}

#[test]
fn single_realm_pass() {
    let user = test_user(vec!["data_access", "default"], "ecmwf");
    let job = job_with_auth(&user);
    let check = HasRole {
        roles: roles(&[("ecmwf", &["data_access"])]),
    };
    let result = check.evaluate(&job).unwrap();
    assert!(matches!(result, CheckResult::Pass));
}

#[test]
fn single_realm_wrong_role() {
    let user = test_user(vec!["default"], "ecmwf");
    let job = job_with_auth(&user);
    let check = HasRole {
        roles: roles(&[("ecmwf", &["admin"])]),
    };
    assert_reject(check.evaluate(&job).unwrap());
}

#[test]
fn single_realm_wrong_realm() {
    let user = test_user(vec!["admin"], "other");
    let job = job_with_auth(&user);
    let check = HasRole {
        roles: roles(&[("ecmwf", &["admin"])]),
    };
    assert_reject(check.evaluate(&job).unwrap());
}

#[test]
fn multi_realm_one_matches() {
    let user = test_user(vec!["data_access"], "cds");
    let job = job_with_auth(&user);
    let check = HasRole {
        roles: roles(&[("ecmwf", &["admin"]), ("cds", &["data_access"])]),
    };
    let result = check.evaluate(&job).unwrap();
    assert!(matches!(result, CheckResult::Pass));
}

#[test]
fn multi_realm_none_match() {
    let user = test_user(vec!["viewer"], "ecmwf");
    let job = job_with_auth(&user);
    let check = HasRole {
        roles: roles(&[("ecmwf", &["admin"]), ("cds", &["data_access"])]),
    };
    assert_reject(check.evaluate(&job).unwrap());
}

#[test]
fn multi_realm_role_in_wrong_realm() {
    let user = test_user(vec!["admin", "data_access"], "other");
    let job = job_with_auth(&user);
    let check = HasRole {
        roles: roles(&[("ecmwf", &["admin"]), ("cds", &["data_access"])]),
    };
    assert_reject(check.evaluate(&job).unwrap());
}

#[test]
fn same_realm_multiple_roles() {
    let user = test_user(vec!["viewer", "default"], "ecmwf");
    let job = job_with_auth(&user);
    let check = HasRole {
        roles: roles(&[("ecmwf", &["admin", "viewer"])]),
    };
    let result = check.evaluate(&job).unwrap();
    assert!(matches!(result, CheckResult::Pass));
}

#[test]
fn empty_roles_map_rejects() {
    let user = test_user(vec!["admin"], "ecmwf");
    let job = job_with_auth(&user);
    let check = HasRole { roles: Vec::new() };
    assert_reject(check.evaluate(&job).unwrap());
}

#[test]
fn realm_with_empty_allowed_roles_rejects() {
    let user = test_user(vec!["admin", "default"], "ecmwf");
    let job = job_with_auth(&user);
    let check = HasRole {
        roles: roles(&[("ecmwf", &[])]),
    };
    assert_reject(check.evaluate(&job).unwrap());
}

#[test]
fn user_with_no_roles_rejects() {
    let user = test_user(vec![], "ecmwf");
    let job = job_with_auth(&user);
    let check = HasRole {
        roles: roles(&[("ecmwf", &["data_access"])]),
    };
    assert_reject(check.evaluate(&job).unwrap());
}

#[test]
fn no_auth_context() {
    let mut job = job("{}");
    job.user = json(r#"{"client_ip": "1.2.3.4"}"#);
    let check = HasRole {
        roles: roles(&[("ecmwf", &["admin"])]),
    };
    assert_reject(check.evaluate(&job).unwrap());
}

#[test]
fn malformed_auth() {
    let mut job = job("{}");
    job.user = json(r#"{"auth": "not a valid User object"}"#);
    let check = HasRole {
        roles: roles(&[("ecmwf", &["admin"])]),
    };
    assert!(matches!(
        check.evaluate(&job),
        Err(ActionError::AuthError(_))
    ));
}

#[test]
fn malformed_roles_type_returns_auth_error() {
    let mut job = job("{}");
    job.user = json(
        r#"{"auth": {"version": 1, "username": "alice", "realm": "ecmwf", "roles": "admin"}}"#,
    );
    let check = HasRole {
        roles: roles(&[("ecmwf", &["admin"])]),
    };
    assert!(
        matches!(check.evaluate(&job), Err(ActionError::AuthError(_))),
        "string instead of array for roles should return AuthError"
    );
}

#[test]
fn unsupported_version() {
    let mut user = test_user(vec!["data_access"], "ecmwf");
    user.version = 2;
    let job = job_with_auth(&user);
    let check = HasRole {
        roles: roles(&[("ecmwf", &["data_access"])]),
    };
    assert_reject(check.evaluate(&job).unwrap());
}

#[test]
fn deserialize_from_yaml() {
    let yaml = r#"
roles:
  ecmwf:
    - admin
    - data_access
  cds:
    - viewer
"#;
    let check = HasRole::from_config(&json(yaml)).unwrap();
    assert_eq!(check.roles.len(), 2);
    let of = |realm: &str| {
        let entry = check.roles.iter().find(|entry| entry.0 == realm).unwrap();
        entry.1.clone()
    };
    assert_eq!(of("ecmwf"), vec!["admin", "data_access"]);
    assert_eq!(of("cds"), vec!["viewer"]);
}

#[test]
fn decisions_go_by_the_user_that_was_read() {
    let check = HasRole {
        roles: roles(&[("ecmwf", &["admin"])]),
    };
    let user = AuthUser {
        version: 1,
        realm: "ecmwf".into(),
        roles: vec!["viewer".into(), "admin".into()],
    };
    assert!(matches!(check.decide(Ok(user)), Ok(CheckResult::Pass)));
    assert_eq!(
        check.decide(Err("gone".into())).unwrap_err().to_text(),
        "Auth error: invalid auth context: gone"
    );
    let mut job = job("{}");
    job.user = json("{auth: {version: 1}}");
    let told = check.evaluate(&job).unwrap_err().to_text();
    assert!(told.starts_with("Auth error: invalid auth context: "), "{told}");
    assert!(told.contains("missing field"), "{told}");
}

#[test]
fn auth_values_may_be_deep() {
    let check = HasRole {
        roles: roles(&[("ecmwf", &["admin"])]),
    };
    let mut job = job_with_auth(&test_user(vec!["admin"], "ecmwf"));
    let mut deep = Json::Number(Number::Fraction("0.1".into()));
    for n in 0..300 {
        deep = if n % 2 == 0 {
            Json::Array(vec![Json::Null, Json::Bool(true), deep])
        } else {
            Json::Object(vec![("in".into(), deep)])
        };
    }
    if let Json::Object(members) = &mut job.user {
        if let Json::Object(auth) = &mut members[1].1 {
            auth.push(("more".into(), deep));
        }
    }
    assert!(matches!(check.evaluate(&job), Ok(CheckResult::Pass)));
}

#[test]
fn auth_values_are_told_apart() {
    let check = HasRole {
        roles: roles(&[("ecmwf", &["admin"])]),
    };
    for (version, words) in [
        ("-7", ACCESS_DENIED),
        ("2", ACCESS_DENIED),
        ("1.5", "floating point `1.5`"),
        ("true", "boolean `true`"),
        ("x", "string \"x\""),
        ("null", "null"),
        ("5000000000", "integer `5000000000`"),
    ] {
        let mut job = job("{}");
        job.user = json(&format!(
            "{{auth: {{version: {version}, username: u, realm: ecmwf, roles: [admin]}}}}"
        ));
        let said = match check.evaluate(&job) {
            Ok(CheckResult::Reject { reason, .. }) => reason,
            Err(e) => e.to_text(),
            Ok(CheckResult::Pass) => panic!("version {version} should not pass"),
        };
        assert!(said.contains(words), "{version}: {said}");
    }
}

#[test]
fn match_single_field() {
    let action = Match::from_config(&json(r#"{"class": "od"}"#)).unwrap();
    let pass = action
        .evaluate(&job(r#"{"class": "od", "stream": "oper"}"#))
        .unwrap();
    assert!(matches!(pass, CheckResult::Pass));

    let reject = action.evaluate(&job(r#"{"class": "ea"}"#)).unwrap();
    assert!(matches!(reject, CheckResult::Reject { .. }));
}

#[test]
fn match_multiple_fields() {
    let action = Match::from_config(&json(r#"{"class": "od", "stream": "oper"}"#)).unwrap();

    let pass = action
        .evaluate(&job(r#"{"class": "od", "stream": "oper", "type": "fc"}"#))
        .unwrap();
    assert!(matches!(pass, CheckResult::Pass));

    let reject = action
        .evaluate(&job(r#"{"class": "od", "stream": "enfo"}"#))
        .unwrap();
    assert!(matches!(reject, CheckResult::Reject { .. }));
}

#[test]
fn match_rejects_missing_key() {
    let action = Match::from_config(&json(r#"{"domain": "g"}"#)).unwrap();
    let reject = action.evaluate(&job(r#"{"class": "od"}"#)).unwrap();
    assert!(matches!(reject, CheckResult::Reject { .. }));
}

fn told(result: Result<CheckResult, ActionError>) -> (String, bool) {
    match result.unwrap() {
        CheckResult::Reject { reason, silent } => (reason, silent),
        CheckResult::Pass => panic!("expected a rejection"),
    }
}

#[test]
fn mismatches_quote_both_values() {
    let action = Match::from_config(&json("{class: od, step: [0, 6]}")).unwrap();
    assert_eq!(
        told(action.evaluate(&job("{class: ea, step: [0, 6]}"))),
        (
            r#"class: '"ea"' does not match required '"od"'"#.to_string(),
            true
        )
    );
    assert_eq!(
        told(action.evaluate(&job("{class: od, step: [0]}"))),
        (
            "step: '[0]' does not match required '[0,6]'".to_string(),
            true
        )
    );
    assert_eq!(
        told(action.evaluate(&job("{class: od}"))),
        ("request missing key 'step'".to_string(), true)
    );
    assert!(Match::from_config(&json("[1]")).is_err());
}

#[test]
fn licences_stand_in_the_metadata() {
    let check = HasLicense::from_config(&json("{license: cc-by}")).unwrap();
    let mut job = job("{}");
    assert_eq!(
        told(check.evaluate(&job)),
        ("no license field found".to_string(), true)
    );
    job.metadata = json("{license: mit}");
    assert_eq!(
        told(check.evaluate(&job)),
        (
            "license 'mit' does not match required 'cc-by'".to_string(),
            true
        )
    );
    job.metadata = json("{license: cc-by}");
    assert!(matches!(check.evaluate(&job), Ok(CheckResult::Pass)));
    assert!(HasLicense::from_config(&json("{license: 7}")).is_err());
}

#[test]
fn keys_are_looked_up_in_the_request() {
    let check = HasKey::from_config(&json("{key: date}")).unwrap();
    assert!(matches!(
        check.evaluate(&job("{date: null}")),
        Ok(CheckResult::Pass)
    ));
    assert_eq!(
        told(check.evaluate(&job("{time: 0}"))),
        ("request does not contain key 'date'".to_string(), true)
    );
}

#[test]
fn dates_are_checked_under_their_key() {
    let check = DateChecker::from_config(&json("{allowed_values: ['>7d']}")).unwrap();
    assert_eq!(check.key, "date");
    let with_date = job("{date: '20200101'}");
    assert_eq!(check.subject(&with_date).unwrap().to_text(), r#""20200101""#);
    assert_eq!(
        told(Ok(check.subject(&job("{}")).unwrap_err())),
        (
            "request does not contain expected key 'date'".to_string(),
            false
        )
    );
    assert!(matches!(check.decide(Ok(())), Ok(CheckResult::Pass)));
    assert_eq!(
        told(check.decide(Err("too recent".into()))),
        ("too recent".to_string(), false)
    );
    assert!(DateChecker::from_config(&json("{key: date}")).is_err());
}

#[test]
fn unreleased_data_are_rejected_aloud() {
    let check = ScheduleReleased::from_config(&json("{path: /schedule.xml}")).unwrap();
    assert_eq!(check.path, "/schedule.xml");
    assert!(check.now_rfc3339.is_none());
    assert!(matches!(check.decide(Ok(Ok(()))), Ok(CheckResult::Pass)));
    for error in [ActionError::ResourceError, ActionError::ConfigError] {
        assert_eq!(
            told(check.decide(Ok(Err(error("Data not released yet".into()))))),
            ("Data not released yet".to_string(), false)
        );
    }
    assert!(matches!(
        check.decide(Ok(Err(ActionError::Timeout("t".into())))),
        Err(ActionError::Timeout(_))
    ));
    // A schedule that cannot be asked is no rejection.
    assert!(matches!(
        check.decide(Err(ActionError::ResourceError("no such file".into()))),
        Err(ActionError::ResourceError(_))
    ));
    assert!(matches!(
        check.decide(Err(ActionError::ConfigError("no such time".into()))),
        Err(ActionError::ConfigError(_))
    ));
    let dated = json("{path: p, now_rfc3339: '2024-01-15T14:00:00Z'}");
    assert_eq!(
        ScheduleReleased::from_config(&dated).unwrap().now_rfc3339.unwrap(),
        "2024-01-15T14:00:00Z"
    );
    assert!(ScheduleReleased::from_config(&json("{now_rfc3339: x}")).is_err());
}

#[test]
fn expansion_marks_the_metadata() {
    let action = MetkitExpansion::from_config(&json("{expand_parameters: true}")).unwrap();
    let mut marked = job("{}");
    marked.metadata = json("{a: 1}");
    assert!(matches!(
        action.execute(&mut marked),
        Ok(TransformResult::Continue)
    ));
    assert_eq!(marked.metadata.to_text(), r#"{"a":1,"metkit_expanded":true}"#);
    let off = MetkitExpansion::from_config(&json("{expand_parameters: false}")).unwrap();
    let mut plain = job("{}");
    off.execute(&mut plain).unwrap();
    assert_eq!(plain.metadata.to_text(), "{}");
    assert!(MetkitExpansion::from_config(&json("{}")).is_err());
}

#[test]
fn members_that_were_set_are_found() {
    let mut members = vec![("a".to_string(), Json::Bool(true))];
    set_member(&mut members, "b", Json::Null);
    set_member(&mut members, "a", Json::Bool(false));
    assert_eq!(
        Json::Object(members).to_text(),
        r#"{"a":false,"b":null}"#
    );
}
