//! JSON text, as far as the results need it: a string is quoted by
//! `serde_json`, and objects are put together around the quoted strings.

use vstd::prelude::*;
use crate::text::string_views;

verus! {

/// The error type of `serde_json`.
#[verifier::external_type_specification]
#[verifier::external_body]
pub struct ExJsonError(serde_json::Error);

/// The JSON string literal for `s`: `s` between double quotes, with the
/// characters that JSON does not take as they are written as escapes.
pub uninterp spec fn json_string(s: Seq<char>) -> Seq<char>;

/// A value could not be written as JSON.
#[derive(Clone, Copy, Debug, PartialEq, Eq, Structural)]
pub struct JsonError;

/// Calls `serde_json::to_string` on a string slice. Trusted: the call
/// succeeds, and its result depends on the characters of `s` alone and is
/// named `json_string`. It succeeds because a string is written without a
/// choice that could fail: the only errors on its way are those of the
/// writer, and `to_string` writes to a byte vector, which takes whatever it
/// is given.
#[verifier::external_body]
fn to_json_string(s: &str) -> (r: Result<String, serde_json::Error>)
    ensures
        r is Ok,
        r matches Ok(quoted) ==> quoted@ == json_string(s@),
{
    serde_json::to_string(s)
}

/// `s` as a JSON string literal. Every string has one.
pub fn quote(s: &str) -> (r: Result<String, JsonError>)
    ensures
        r matches Ok(quoted) && quoted@ == json_string(s@),
{
    match to_json_string(s) {
        Ok(quoted) => Ok(quoted),
        Err(_) => Err(JsonError {  }),
    }
}

/// Whether every one of `items` was written.
pub open spec fn all_written(items: Seq<Result<String, JsonError>>) -> bool {
    forall|i: int| 0 <= i < items.len() ==> (#[trigger] items[i]) is Ok
}

/// The texts that `items` hold.
pub open spec fn written(items: Seq<Result<String, JsonError>>) -> Seq<Seq<char>> {
    Seq::new(items.len(), |i: int| items[i]->Ok_0@)
}

/// The texts of `items`, in order, where every one of them was written. One
/// that was not makes the whole fail.
pub fn collect(items: &Vec<Result<String, JsonError>>) -> (r: Result<Vec<String>, JsonError>)
    ensures
        match r {
            Ok(texts) => all_written(items@) && string_views(texts@) == written(items@),
            Err(_) => !all_written(items@),
        },
{
    let mut texts: Vec<String> = Vec::new();
    let mut i: usize = 0;
    while i < items.len()
        invariant
            i <= items@.len(),
            texts@.len() == i,
            forall|j: int| 0 <= j < i ==> (#[trigger] items@[j]) is Ok,
            forall|j: int| 0 <= j < i ==> texts@[j]@ == items@[j]->Ok_0@,
        decreases items@.len() - i,
    {
        match &items[i] {
            Ok(text) => {
                texts.push(text.clone());
            },
            Err(error) => {
                return Err(*error);
            },
        }
        i += 1;
    }
    assert(string_views(texts@) =~= written(items@));
    Ok(texts)
}

} // verus!
