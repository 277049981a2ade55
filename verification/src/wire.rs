use crate::error::Error;
use crate::models::Question;
use url::Url;
use vstd::prelude::*;

verus! {

/// The path, on the remote side, of the records: they are read from it with
/// `GET` and handed to it with `POST`.
pub const QUESTIONS_PATH: &'static str = "/v1/questions";

/// The method with which the records are read.
pub const READ_METHOD: &'static str = "GET";

/// The method with which records are handed over.
pub const WRITE_METHOD: &'static str = "POST";

/// The name of the header that says what the body of a request holds.
pub const CONTENT_TYPE: &'static str = "content-type";

/// What the body holds in which records are handed over: a JSON array of
/// objects with the members `content`, `id` and `time_created`.
pub const JSON: &'static str = "application/json";

/// What `reference` resolves to against the absolute URL `base`, as text;
/// `None` where `base` is no absolute URL or `reference` cannot be resolved
/// against it.
pub uninterp spec fn resolved(base: Seq<char>, reference: Seq<char>) -> Option<Seq<char>>;

/// `Url::join`, on a base that `Url::parse` made of `base`, with `Url::as_str`
/// of the outcome: the text of the URL that `reference` resolves to against
/// `base`. The contract gives that text its name and says no more of it.
#[verifier::external_body]
fn resolve(base: &str, reference: &str) -> (out: Option<String>)
    ensures
        out matches Some(text) ==> resolved(base@, reference@) == Some(text@),
        out is None ==> resolved(base@, reference@) is None,
{
    match Url::parse(base) {
        Ok(base) => match base.join(reference) {
            Ok(url) => Some(url.as_str().to_owned()),
            Err(_) => None,
        },
        Err(_) => None,
    }
}

/// The address of the records of the remote side whose address is `base`;
/// `None` where `base` is no address against which a path resolves.
pub fn questions_endpoint(base: &str) -> (out: Option<String>)
    ensures
        out matches Some(text) ==> resolved(base@, QUESTIONS_PATH@) == Some(text@),
        out is None ==> resolved(base@, QUESTIONS_PATH@) is None,
{
    resolve(base, QUESTIONS_PATH)
}

/// What reading the remote side gives, given what decoding its answer gave:
/// the records that were decoded, and an error for an answer that could not
/// be decoded.
pub fn decoded_or_error(decoded: Option<Vec<Question>>) -> (found: Result<Vec<Question>, Error>)
    ensures
        decoded matches Some(records) ==> found == Ok::<Vec<Question>, Error>(records),
        decoded is None ==> found == Err::<Vec<Question>, Error>(Error::StoreError),
{
    match decoded {
        Some(records) => Ok(records),
        None => Err(Error::StoreError),
    }
}

} // verus!
