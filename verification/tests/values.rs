//! JSON values, texts, tables and times.

use bits::error::{BitsError, ConfigError, RoutingError, WorkerServerError};
use bits::json::{parse_yaml, Json, Number};
use bits::table::Table;
use bits::text::{decimal, join, parse_digits, parse_i64, signed_decimal, split, text_eq};
use bits::time::{double_span, end_of_lease, millis_fit, Span, Timestamp};

fn json(text: &str) -> Json {
    parse_yaml(text).unwrap()
}

#[test]
fn documents_read_and_print() {
    for text in [
        "null",
        "true",
        "7",
        "-7",
        "18446744073709551615",
        "1.5",
        r#""a\"b\\c\n\u0001é""#,
        "[1,[],{}]",
        r#"{"a":[true,null],"b":{"c":"d"}}"#,
    ] {
        assert_eq!(json(text).to_text(), text);
    }
    assert_eq!(json("a: 1\nb: [x]").to_text(), r#"{"a":1,"b":["x"]}"#);
    assert!(parse_yaml("a: [").is_err());
    assert_eq!(json("{a: 1, a: 2}").to_text(), r#"{"a":2}"#);
}

#[test]
fn values_are_looked_up() {
    let value = json(r#"{"a": {"b/c": [10, 20], "~": 1}, "": 2}"#);
    assert_eq!(value.pointer("/a/b~1c/1").unwrap().as_u64(), Some(20));
    assert_eq!(value.pointer("/a/~0").unwrap().as_u64(), Some(1));
    assert_eq!(value.pointer("/").unwrap().as_u64(), Some(2));
    assert!(value.pointer("").unwrap().is_object());
    for missing in ["a", "/a/b~1c/01", "/a/b~1c/2", "/a/b~1c/-", "/x"] {
        assert!(value.pointer(missing).is_none(), "{missing}");
    }
    assert!(value.get("a").unwrap().get("nothing").is_none());
    assert_eq!(json("yes: x").get("yes").unwrap().as_str(), Some("x"));
    assert_eq!(json("true").as_bool(), Some(true));
    assert_eq!(json("-1").as_u64(), None);
}

#[test]
fn values_are_the_same_whatever_the_order_of_members() {
    let a = Json::Object(vec![
        ("x".into(), Json::Bool(true)),
        ("y".into(), Json::Null),
    ]);
    let b = Json::Object(vec![
        ("y".into(), Json::Null),
        ("x".into(), Json::Bool(true)),
    ]);
    assert!(a.same(&b));
    assert!(a.same(&a.copy()));
    assert!(!a.same(&Json::Object(vec![("x".into(), Json::Bool(true))])));
    assert!(!json("[1, 2]").same(&json("[2, 1]")));
    assert!(!json("1").same(&json("'1'")));
}

#[test]
fn numbers_know_their_sign() {
    assert!(Number::Unsigned(1).is_positive());
    assert!(!Number::Unsigned(0).is_positive());
    assert!(!Number::Negative(-3).is_positive());
    for (text, positive) in [
        ("0.5", true),
        ("0.0", false),
        ("-0.5", false),
        ("1e-9", true),
        ("inf", false),
    ] {
        assert_eq!(Number::Fraction(text.into()).is_positive(), positive, "{text}");
    }
}

#[test]
fn texts_are_cut_and_joined() {
    assert_eq!(split("a,,b", ','), vec!["a", "", "b"]);
    assert_eq!(split("", ','), vec![""]);
    assert_eq!(join(&vec!["a".into(), "b".into()], "; "), "a; b");
    assert_eq!(join(&vec![], "; "), "");
    assert!(text_eq("é", "é"));
    assert!(!text_eq("a", "ab"));
    assert_eq!(decimal(u64::MAX), "18446744073709551615");
    assert_eq!(signed_decimal(i64::MIN), "-9223372036854775808");
    assert_eq!(parse_i64("-9223372036854775808"), Some(i64::MIN));
    assert_eq!(parse_i64("9223372036854775808"), None);
    assert_eq!(parse_i64("+5"), Some(5));
    assert_eq!(parse_i64("-"), None);
    assert_eq!(parse_digits("007", 10), Some(7));
    assert_eq!(parse_digits("11", 10), None);
}

#[test]
fn tables_keep_the_last_value_of_a_key() {
    let mut table: Table<u64> = Table::new();
    assert!(table.insert("a".into(), 1).is_none());
    assert_eq!(table.insert("a".into(), 2), Some(1));
    assert_eq!(table.get("a"), Some(&2));
    assert_eq!(table.remove("a"), Some(2));
    assert_eq!(table.remove("a"), None);
}

#[test]
fn lengths_of_time_stay_in_range() {
    assert_eq!(
        double_span(Span {
            secs: 1,
            nanos: 600_000_000
        }),
        Span {
            secs: 3,
            nanos: 200_000_000
        }
    );
    assert_eq!(
        double_span(Span::from_secs(u64::MAX)),
        Span {
            secs: u64::MAX,
            nanos: 999_999_999
        }
    );
    assert!(millis_fit(Span::from_secs(1)));
    assert!(!millis_fit(Span::from_secs(u64::MAX)));
    assert_eq!(
        end_of_lease(
            Timestamp {
                secs: 1,
                nanos: 900_000_000
            },
            Span {
                secs: 2,
                nanos: 200_000_000
            }
        ),
        Timestamp {
            secs: 4,
            nanos: 100_000_000
        }
    );
    assert!(Span::from_secs(0).is_zero());
    assert!(Timestamp { secs: 2, nanos: 1 }.is_after(&Timestamp { secs: 2, nanos: 0 }));
}

#[test]
fn errors_tell_where_they_come_from() {
    let words = |e: BitsError| e.to_text();
    assert_eq!(
        words(BitsError::Config(ConfigError::FeatureDisabled {
            path: "p".into(),
            feature: "nats".into()
        })),
        "config: p: feature 'nats' not enabled"
    );
    assert_eq!(
        words(BitsError::Config(ConfigError::PersistenceInit {
            path: "p".into(),
            backend: "nats".into(),
            reason: "down".into()
        })),
        "config: p: nats initialization failed: down"
    );
    assert_eq!(
        words(BitsError::Routing(RoutingError::InvalidAction {
            route: "r".into(),
            action: "a".into(),
            reason: "x".into()
        })),
        "routing: route 'r' action 'a': x"
    );
    assert_eq!(
        words(BitsError::WorkerServer(WorkerServerError::PoolRegistration {
            name: "n".into(),
            reason: "twice".into()
        })),
        "worker server: pool 'n': twice"
    );
    assert_eq!(
        WorkerServerError::Bind {
            address: "a".into(),
            reason: "in use".into()
        }
        .to_text(),
        "failed to bind to a: in use"
    );
}
