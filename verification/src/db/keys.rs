//! Keys under which durable records are kept.

use vstd::prelude::*;

use crate::db::DbError;
use crate::request_id::{decode, decode_error_text, decoded_id, ID_LEN};
use crate::text::{cat2, cat4, decimal, decimal_text};

verus! {

/// A text as `std` prints it for debugging, quoted and escaped.
pub uninterp spec fn text_debug(text: Seq<char>) -> Seq<char>;

/// Prints a text with `format!` in its debug form.
#[verifier::external_body]
pub(crate) fn format_text_debug(text: &str) -> (r: String)
    ensures
        r@ == text_debug(text@),
{
    format!("{text:?}")
}

/// A text names a job: it is a request identifier.
pub open spec fn names_job(job_id: Seq<char>) -> bool {
    decoded_id(job_id) is Ok
}

/// Site, environment, slot and identifier of a job, with separators between them.
pub open spec fn job_path(job_id: Seq<char>, sep: Seq<char>) -> Seq<char> {
    let id = decoded_id(job_id)->Ok_0;
    id.site + sep + id.env + sep + decimal_text(id.broker_slot as nat) + sep + job_id
}

/// The message for a text that names no job.
pub open spec fn invalid_job_id(job_id: Seq<char>) -> Seq<char> {
    "invalid public job ID "@ + text_debug(job_id) + ": "@ + decode_error_text(
        decoded_id(job_id)->Err_0,
    )
}

/// The path of a job under a prefix, or the error for a text that names no job.
pub open spec fn keyed(
    job_id: Seq<char>,
    prefix: Seq<char>,
    sep: Seq<char>,
    r: Result<String, DbError>,
) -> bool {
    match r {
        Ok(key) => names_job(job_id) && key@ == prefix + job_path(job_id, sep),
        Err(e) => !names_job(job_id) && (e matches DbError::Backend(m) && m@ == invalid_job_id(
            job_id,
        )),
    }
}

/// Makes the key of a job.
pub fn job_key(job_id: &str, prefix: &str, sep: &str) -> (r: Result<String, DbError>)
    ensures
        keyed(job_id@, prefix@, sep@, r),
{
    match decode(job_id) {
        Ok(decoded) => {
            let head = cat4(&decoded.site, sep, &decoded.env, sep);
            let path = cat4(&head, &decimal(decoded.broker_slot as u64), sep, job_id);
            Ok(cat2(prefix, &path))
        },
        Err(e) => Err(
            DbError::Backend(
                cat4(
                    "invalid public job ID ",
                    &format_text_debug(job_id),
                    ": ",
                    &e.to_text(),
                ),
            ),
        ),
    }
}

/// Different jobs have different keys.
pub proof fn law_job_keys_are_distinct(
    a: Seq<char>,
    b: Seq<char>,
    prefix: Seq<char>,
    sep: Seq<char>,
)
    requires
        names_job(a),
        names_job(b),
        prefix + job_path(a, sep) == prefix + job_path(b, sep),
    ensures
        a == b,
{
    let ka = prefix + job_path(a, sep);
    let kb = prefix + job_path(b, sep);
    assert(a.len() == ID_LEN && b.len() == ID_LEN);
    assert(ka.skip(ka.len() - ID_LEN) =~= a);
    assert(kb.skip(kb.len() - ID_LEN) =~= b);
}

/// The key of a job is made of a prefix, its site, its environment, its slot and its identifier.
/// Only a text that is no request identifier has none.
pub proof fn law_keys_spell_the_job(
    job_id: Seq<char>,
    prefix: Seq<char>,
    sep: Seq<char>,
    r: Result<String, DbError>,
)
    requires
        keyed(job_id, prefix, sep, r),
    ensures
        r is Ok <==> decoded_id(job_id) is Ok,
        r matches Ok(key) ==> ({
            let id = decoded_id(job_id)->Ok_0;
            key@ == prefix + (id.site + sep + id.env + sep + decimal_text(id.broker_slot as nat)
                + sep + job_id)
        }),
        r matches Err(e) ==> e is Backend,
{
}

} // verus!
