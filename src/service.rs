//! The two requests that the correlation store bridges: a submission, which
//! grades and parks the result under a fresh token, and the identity callback,
//! which takes it back; and where a finished result is filed.
use vstd::prelude::*;

use crate::grading::{graded_as, resolve_submission, submission_ok, QuizResult, SubmitError, UserCookie};
use crate::oauth::{authorize_url_spec, DiscordConfig, OauthRedirectUrlParams};
use crate::digits::parse_unsigned_spec;
use crate::question::Question;
use crate::session::{redeem_outcome, CorrelationError, PendingEntry, SessionStore};
use crate::text::{chars_of, string_of};

verus! {

/// Why a callback does not lead to a result.
#[derive(Debug, Clone, Copy, PartialEq, Eq, Structural)]
pub enum CallbackError {
    /// The `state` parameter is not a hexadecimal token.
    BadRequest,
    /// The token is unknown, already used, or expired.
    Unauthorized,
}

/// Grades `cookie` against `bank`, parks the result under a fresh token
/// issued at `now`, and returns the authorization link that carries it.
pub fn begin_submission(
    config: &DiscordConfig,
    store: &mut SessionStore,
    bank: &[Question],
    cookie: &UserCookie,
    now: u64,
) -> (r: Result<String, SubmitError>)
    ensures
        !submission_ok(bank@, *cookie) ==> r == Err::<String, SubmitError>(
            SubmitError::MalformedSubmission,
        ) && final(store)@ == old(store)@,
        submission_ok(bank@, *cookie) ==> r is Ok || r == Err::<String, SubmitError>(
            SubmitError::TokenUnavailable,
        ),
        r is Err ==> final(store)@ == old(store)@,
        r matches Ok(url) ==> submission_ok(bank@, *cookie) && exists|t: u128, res: QuizResult|
            graded_as(bank@, *cookie, res) && final(store)@ == old(store)@.insert(
                t,
                PendingEntry { issued_at: now, result: res },
            ) && url@ == authorize_url_spec(config.client_id@, config.redirect_uri_encoded@, t),
{
    let result = match resolve_submission(bank, cookie) {
        Ok(res) => res,
        Err(e) => {
            return Err(e);
        },
    };
    let ghost res = result;
    match store.issue(now, result) {
        Some(token) => {
            let url = config.authorize_url(token);
            assert(final(store)@ == old(store)@.insert(token, PendingEntry { issued_at: now, result: res }));
            Ok(url)
        },
        None => Err(SubmitError::TokenUnavailable),
    }
}

/// Takes back the result that the callback's `state` token stands for, at `now`.
pub fn complete_callback(store: &mut SessionStore, params: &OauthRedirectUrlParams, now: u64) -> (r: Result<QuizResult, CallbackError>)
    ensures
        match parse_unsigned_spec(params.state@, 16, u128::MAX as nat) {
            None => r == Err::<QuizResult, CallbackError>(CallbackError::BadRequest) && final(store)@
                == old(store)@,
            Some(t) => {
                &&& final(store)@ == old(store)@.remove(t as u128)
                &&& r == match redeem_outcome(old(store)@, t as u128, now) {
                    Ok(res) => Ok::<QuizResult, CallbackError>(res),
                    Err(_) => Err(CallbackError::Unauthorized),
                }
            },
        },
{
    let token = match params.state_token() {
        Some(t) => t,
        None => {
            return Err(CallbackError::BadRequest);
        },
    };
    match store.redeem(token, now) {
        Ok(res) => Ok(res),
        Err(CorrelationError::Unauthorized) => Err(CallbackError::Unauthorized),
    }
}

/// Relies on `chrono::Local::now` formatted with `%Y-%m-%dT%H-%M-%S`: the
/// local time, which differs from call to call.
#[verifier::external_body]
fn local_stamp() -> (r: String) {
    chrono::Local::now().format("%Y-%m-%dT%H-%M-%S").to_string()
}

pub open spec fn record_dir_spec(identity: Seq<char>) -> Seq<char> {
    "submissions/"@ + identity
}

pub open spec fn record_file_spec(identity: Seq<char>, stamp: Seq<char>) -> Seq<char> {
    record_dir_spec(identity) + "/"@ + stamp + ".json"@
}

fn push_str(dst: &mut Vec<char>, src: &str)
    ensures
        final(dst)@ == old(dst)@ + src@,
{
    let v = chars_of(src);
    let mut i: usize = 0;
    while i < v.len()
        invariant
            i <= v.len(),
            dst@ == old(dst)@ + v@.subrange(0, i as int),
        decreases v.len() - i,
    {
        dst.push(v[i]);
        i += 1;
        assert(dst@ =~= old(dst)@ + v@.subrange(0, i as int));
    }
    assert(v@.subrange(0, v@.len() as int) =~= v@);
}

/// The directory that holds the records of `identity`.
pub fn record_dir(identity: &str) -> (r: String)
    ensures
        r@ == record_dir_spec(identity@),
{
    let mut v: Vec<char> = Vec::new();
    push_str(&mut v, "submissions/");
    push_str(&mut v, identity);
    string_of(v.as_slice())
}

/// The record file of `identity` for the time `stamp`.
pub fn record_file(identity: &str, stamp: &str) -> (r: String)
    ensures
        r@ == record_file_spec(identity@, stamp@),
{
    let mut v: Vec<char> = Vec::new();
    push_str(&mut v, "submissions/");
    push_str(&mut v, identity);
    push_str(&mut v, "/");
    push_str(&mut v, stamp);
    push_str(&mut v, ".json");
    assert(v@ =~= record_file_spec(identity@, stamp@));
    string_of(v.as_slice())
}

/// Where a new record of `identity` goes now: its directory and its file,
/// named after the local time.
pub fn new_record_location(identity: &str) -> (r: (String, String))
    ensures
        r.0@ == record_dir_spec(identity@),
        exists|stamp: Seq<char>| r.1@ == record_file_spec(identity@, stamp),
{
    let stamp = local_stamp();
    (record_dir(identity), record_file(identity, stamp.as_str()))
}

} // verus!
