//! A target behind an HTTP endpoint.

use vstd::prelude::*;

use crate::actions::{ActionError, TargetResult};
use crate::config::decode::{
    all_known, fields, fields_of, misshapen, number_or, only_known, read_number_or, read_string,
    req_string, shape_problem, strs,
};
use crate::json::{find_member, is_positive, lookup, number_text, Json, Number, NumberValue, Tree};
use crate::result::{ByteStream, JobResult};
use crate::text::cat4;
use crate::time::{secs_span, span_from_secs, Span};

verus! {

/// Seconds that connecting to the endpoint, and waiting for more of its reply, may take.
pub const DEFAULT_TARGET_TIMEOUT_SECS: u64 = 30;

/// Posts the request of a job to an HTTP endpoint and streams the reply back.
#[derive(Debug)]
pub struct HttpTarget {
    pub url: String,
    pub connect_timeout_secs: Number,
    pub read_timeout_secs: Number,
}

/// The mathematical contents of an [`HttpTarget`].
pub struct HttpEndpoint {
    pub url: Seq<char>,
    pub connect_timeout_secs: NumberValue,
    pub read_timeout_secs: NumberValue,
}

impl View for HttpTarget {
    type V = HttpEndpoint;

    open spec fn view(&self) -> HttpEndpoint {
        HttpEndpoint {
            url: self.url@,
            connect_timeout_secs: self.connect_timeout_secs@,
            read_timeout_secs: self.read_timeout_secs@,
        }
    }
}

/// A number of seconds that is above zero and that a length of time can hold.
pub open spec fn positive_secs(n: NumberValue) -> bool {
    is_positive(n) && secs_span(number_text(n)) is Ok
}

/// The fields of an HTTP target.
pub open spec fn http_names() -> Seq<Seq<char>> {
    seq!["url"@, "connect_timeout_secs"@, "read_timeout_secs"@]
}

/// The HTTP target that a configuration describes.
pub open spec fn http_endpoint(config: Tree) -> Option<HttpEndpoint> {
    match fields(config, http_names()) {
        None => None,
        Some(members) => {
            let url = req_string(lookup(members, "url"@));
            let connect = number_or(
                lookup(members, "connect_timeout_secs"@),
                NumberValue::Unsigned(DEFAULT_TARGET_TIMEOUT_SECS),
            );
            let read = number_or(
                lookup(members, "read_timeout_secs"@),
                NumberValue::Unsigned(DEFAULT_TARGET_TIMEOUT_SECS),
            );
            if all_known(members, http_names()) && url is Some && connect is Some && read is Some
                && secs_accepted(lookup(members, "connect_timeout_secs"@), connect->0)
                && secs_accepted(lookup(members, "read_timeout_secs"@), read->0) {
                Some(
                    HttpEndpoint {
                        url: url->0,
                        connect_timeout_secs: connect->0,
                        read_timeout_secs: read->0,
                    },
                )
            } else {
                None
            }
        },
    }
}

/// A number of seconds is accepted as it stands if it is the default, and if it is positive
/// otherwise.
pub open spec fn secs_accepted(field: Option<Tree>, n: NumberValue) -> bool {
    field is None || positive_secs(n)
}

fn are_positive_secs(n: &Number) -> (r: bool)
    ensures
        r == positive_secs(n@),
{
    n.is_positive() && span_from_secs(&n.to_text()).is_ok()
}

impl HttpTarget {
    pub fn new(url: String) -> (target: HttpTarget)
        ensures
            target@ == (HttpEndpoint {
                url: url@,
                connect_timeout_secs: NumberValue::Unsigned(DEFAULT_TARGET_TIMEOUT_SECS),
                read_timeout_secs: NumberValue::Unsigned(DEFAULT_TARGET_TIMEOUT_SECS),
            }),
    {
        HttpTarget {
            url,
            connect_timeout_secs: Number::Unsigned(DEFAULT_TARGET_TIMEOUT_SECS),
            read_timeout_secs: Number::Unsigned(DEFAULT_TARGET_TIMEOUT_SECS),
        }
    }

    /// Makes the target that a configuration describes.
    pub fn from_config(config: &Json) -> (r: Result<HttpTarget, String>)
        ensures
            match r {
                Ok(target) => http_endpoint(config@) == Some(target@),
                Err(problem) => http_endpoint(config@) is None && problem@ == shape_problem(
                    "HttpTarget"@,
                    config@,
                ),
            },
    {
        match HttpTarget::read(config) {
            Some(target) => Ok(target),
            None => Err(misshapen("HttpTarget", config)),
        }
    }

    fn read(config: &Json) -> (r: Option<HttpTarget>)
        ensures
            match r {
                Some(target) => http_endpoint(config@) == Some(target@),
                None => http_endpoint(config@) is None,
            },
    {
        let names: Vec<&str> = vec!["url", "connect_timeout_secs", "read_timeout_secs"];
        assert(strs(names@) =~= http_names());
        let members = match fields_of(config, &names) {
            Some(members) => members,
            None => return None,
        };
        if !only_known(&members, &names) {
            return None;
        }
        let url = match read_string(find_member(&members, "url")) {
            Some(url) => url,
            None => return None,
        };
        let connect_field = find_member(&members, "connect_timeout_secs");
        let connect = match read_number_or(connect_field, DEFAULT_TARGET_TIMEOUT_SECS) {
            Some(n) => n,
            None => return None,
        };
        if connect_field.is_some() && !are_positive_secs(&connect) {
            return None;
        }
        let read_field = find_member(&members, "read_timeout_secs");
        let read = match read_number_or(read_field, DEFAULT_TARGET_TIMEOUT_SECS) {
            Some(n) => n,
            None => return None,
        };
        if read_field.is_some() && !are_positive_secs(&read) {
            return None;
        }
        Some(HttpTarget { url, connect_timeout_secs: connect, read_timeout_secs: read })
    }

    /// How long connecting to the endpoint may take.
    pub fn connect_timeout(&self) -> (r: Option<Span>)
        ensures
            match r {
                Some(span) => secs_span(number_text(self@.connect_timeout_secs)) == Ok::<
                    Span,
                    Seq<char>,
                >(span),
                None => secs_span(number_text(self@.connect_timeout_secs)) is Err,
            },
    {
        match span_from_secs(&self.connect_timeout_secs.to_text()) {
            Ok(span) => Some(span),
            Err(_) => None,
        }
    }

    /// How long waiting for more of the reply may take.
    pub fn read_timeout(&self) -> (r: Option<Span>)
        ensures
            match r {
                Some(span) => secs_span(number_text(self@.read_timeout_secs)) == Ok::<
                    Span,
                    Seq<char>,
                >(span),
                None => secs_span(number_text(self@.read_timeout_secs)) is Err,
            },
    {
        match span_from_secs(&self.read_timeout_secs.to_text()) {
            Ok(span) => Some(span),
            Err(_) => None,
        }
    }
}

// ---------------------------------------------------------------------------------------------
// Replies
// ---------------------------------------------------------------------------------------------

/// A status code as `reqwest::StatusCode` prints it, with its usual reason.
pub uninterp spec fn status_text(status: u16) -> Seq<char>;

/// Prints a status code with `to_string` of `reqwest::StatusCode`, which has three digits.
#[verifier::external_body]
fn format_status(status: u16) -> (text: String)
    requires
        100 <= status <= 999,
    ensures
        text@ == status_text(status),
{
    reqwest::StatusCode::from_u16(status).map(|status| status.to_string()).unwrap_or_default()
}

/// The endpoint did what it was asked to do.
pub open spec fn succeeded(status: u16) -> bool {
    200 <= status <= 299
}

/// The endpoint found fault with the request.
pub open spec fn request_refused(status: u16) -> bool {
    400 <= status <= 499
}

/// Whether a reply is to be read as a text, and not to be streamed.
pub fn wants_text(status: u16) -> (r: bool)
    ensures
        r == request_refused(status),
{
    400 <= status && status <= 499
}

/// What a reply comes to.
pub open spec fn replied(
    url: Seq<char>,
    status: u16,
    content_type: Option<String>,
    content_length: Option<u64>,
    stream: ByteStream,
    text: Option<String>,
    r: Result<TargetResult, ActionError>,
) -> bool {
    if succeeded(status) {
        r matches Ok(TargetResult::Complete(
            JobResult::Success { content_type: kind, size, stream: body },
        )) && kind@ == match content_type {
            Some(kind) => kind@,
            None => "application/octet-stream"@,
        } && size == match content_length {
            Some(n) => n as i64,
            None => -1i64,
        } && body == stream
    } else if request_refused(status) {
        r matches Ok(TargetResult::Reject { reason, silent }) && silent && reason@ == match text {
            Some(text) => text@,
            None => status_text(status),
        }
    } else {
        r matches Err(ActionError::NetworkError(m)) && m@ == "HTTP "@ + status_text(status)
            + " from "@ + url
    }
}

/// The status decides what a reply is. From 400 to 499 it is a rejection, always silent, in the
/// words of the body where it has any; from 200 to 299 it is the body itself, with the type and the
/// length that the endpoint gave; any other status is an error of the network that names the status
/// and the endpoint.
pub proof fn law_statuses_tell_rejections_from_failures(
    url: Seq<char>,
    status: u16,
    content_type: Option<String>,
    content_length: Option<u64>,
    stream: ByteStream,
    text: Option<String>,
    r: Result<TargetResult, ActionError>,
)
    requires
        replied(url, status, content_type, content_length, stream, text, r),
    ensures
        (r matches Ok(TargetResult::Reject { .. })) <==> 400 <= status <= 499,
        r matches Ok(TargetResult::Reject { reason, silent }) ==> silent && reason@ == match text {
            Some(words) => words@,
            None => status_text(status),
        },
        (r matches Ok(TargetResult::Complete(_))) <==> 200 <= status <= 299,
        r matches Ok(TargetResult::Complete(result)) ==> (result matches JobResult::Success {
            content_type: kind,
            size,
            stream: body,
        } && body == stream && kind@ == match content_type {
            Some(given) => given@,
            None => "application/octet-stream"@,
        } && match content_length {
            Some(n) => n <= i64::MAX ==> size == n,
            None => size == -1,
        }),
        r is Err <==> status < 200 || 300 <= status <= 399 || status > 499,
        r matches Err(e) ==> (e matches ActionError::NetworkError(m) && m@ == "HTTP "@
            + status_text(status) + " from "@ + url),
{
}

/// A reply is read as a text exactly where it is a rejection.
pub proof fn law_only_rejections_are_read(status: u16)
    ensures
        request_refused(status) <==> 400 <= status <= 499,
{
}

/// What a reply means: success streams the body, a fault with the request rejects it in the words
/// of the body or, where it cannot be read, of the status, and everything else is an error of the
/// network.
pub fn reply_result(
    url: &str,
    status: u16,
    content_type: Option<String>,
    content_length: Option<u64>,
    stream: ByteStream,
    text: Option<String>,
) -> (r: Result<TargetResult, ActionError>)
    requires
        100 <= status <= 999,
    ensures
        replied(url@, status, content_type, content_length, stream, text, r),
        400 <= status <= 499 ==> (r matches Ok(TargetResult::Reject { reason, silent }) && silent
            && (text matches Some(words) ==> reason@ == words@)),
        200 <= status <= 299 ==> (r matches Ok(TargetResult::Complete(JobResult::Success { .. }))),
        !(200 <= status <= 299) && !(400 <= status <= 499) ==> (r matches Err(
            ActionError::NetworkError(_),
        )),
{
    if 200 <= status && status <= 299 {
        let content_type = match content_type {
            Some(kind) => kind,
            None => "application/octet-stream".to_owned(),
        };
        let size: i64 = match content_length {
            Some(n) => n as i64,
            None => -1,
        };
        Ok(TargetResult::Complete(JobResult::Success { content_type, size, stream }))
    } else if wants_text(status) {
        let reason = match text {
            Some(text) => text,
            None => format_status(status),
        };
        Ok(TargetResult::Reject { reason, silent: true })
    } else {
        Err(ActionError::NetworkError(cat4("HTTP ", &format_status(status), " from ", url)))
    }
}

/// An HTTP target needs a text as its URL. A timeout that is given must be a number of seconds
/// above zero that a length of time can hold, one that is left out is thirty seconds, and no other
/// setting is known.
pub proof fn law_http_settings(members: Seq<(Seq<char>, Tree)>)
    ensures
        http_endpoint(Tree::Obj(members)) matches Some(target) ==> {
            &&& lookup(members, "url"@) == Some(Tree::Str(target.url))
            &&& match lookup(members, "connect_timeout_secs"@) {
                None => target.connect_timeout_secs == NumberValue::Unsigned(30),
                Some(value) => value == Tree::Number(target.connect_timeout_secs) && is_positive(
                    target.connect_timeout_secs,
                ) && secs_span(number_text(target.connect_timeout_secs)) is Ok,
            }
            &&& match lookup(members, "read_timeout_secs"@) {
                None => target.read_timeout_secs == NumberValue::Unsigned(30),
                Some(value) => value == Tree::Number(target.read_timeout_secs) && is_positive(
                    target.read_timeout_secs,
                ) && secs_span(number_text(target.read_timeout_secs)) is Ok,
            }
            &&& forall|i: int|
                0 <= i < members.len() ==> (#[trigger] members[i]).0 == "url"@ || members[i].0
                    == "connect_timeout_secs"@ || members[i].0 == "read_timeout_secs"@
        },
        (forall|i: int|
            0 <= i < members.len() ==> (#[trigger] members[i]).0 == "url"@ || members[i].0
                == "connect_timeout_secs"@ || members[i].0 == "read_timeout_secs"@) && (lookup(
            members,
            "url"@,
        ) matches Some(Tree::Str(_))) && lookup(members, "connect_timeout_secs"@) is None && lookup(
            members,
            "read_timeout_secs"@,
        ) is None ==> http_endpoint(Tree::Obj(members)) is Some,
{
    let names = http_names();
    assert(names[0] == "url"@ && names[1] == "connect_timeout_secs"@ && names[2]
        == "read_timeout_secs"@);
    assert(names.contains(names[0]) && names.contains(names[1]) && names.contains(names[2]));
    assert forall|k: Seq<char>| #[trigger] names.contains(k) implies k == names[0] || k == names[1]
        || k == names[2] by {
        let i = choose|i: int| 0 <= i < names.len() && names[i] == k;
        assert(i == 0 || i == 1 || i == 2);
    }
}

} // verus!
