//! Reading the list of programs whose mutes were outstanding when WindowWarden
//! last stopped, so that they can be restored after a crash.
use vstd::prelude::*;
use crate::collections::{distinct, distinct_texts, in_text_order, sorted_texts, text_set, texts};

verus! {

#[verifier::external_type_specification]
#[verifier::external_body]
pub struct ExJsonError(serde_json::Error);

/// What `serde_json::from_slice::<Vec<String>>` makes of `bytes`: the strings of
/// a JSON array of strings (surrounded by nothing but white space), or `None`
/// when the bytes are not one.
pub uninterp spec fn json_string_list(bytes: Seq<u8>) -> Option<Seq<Seq<char>>>;

/// Calls `serde_json::from_slice` for a list of strings. On success the list is
/// the named `json_string_list` of the bytes; an error tells that the name has
/// no list for them.
#[verifier::external_body]
fn parse_string_list(bytes: &[u8]) -> (r: Result<Vec<String>, serde_json::Error>)
    ensures
        match r {
            Ok(v) => json_string_list(bytes@) == Some(texts(v@)),
            Err(_) => json_string_list(bytes@) is None,
        },
{
    serde_json::from_slice(bytes)
}

/// What `serde_json::to_vec_pretty` writes for a list of strings: a JSON array
/// of them, one per line, indented by two spaces.
pub uninterp spec fn json_pretty_string_list(list: Seq<Seq<char>>) -> Seq<u8>;

/// Calls `serde_json::to_vec_pretty` on a list of strings. It succeeds: it
/// fails only where a `Serialize` impl chooses to or a map has keys that are
/// not strings, and strings written into a `Vec<u8>` do neither. The bytes are
/// the named `json_pretty_string_list` of the texts, and they read back as the
/// same list (a JSON string holds any text, escaped as needed).
#[verifier::external_body]
fn write_string_list(list: &[String]) -> (r: Result<Vec<u8>, serde_json::Error>)
    ensures
        r is Ok,
        (r matches Ok(bytes) ==> bytes@ == json_pretty_string_list(texts(list@)) && json_string_list(
            bytes@,
        ) == Some(texts(list@))),
{
    serde_json::to_vec_pretty(list)
}

/// Calls `Display::to_string` on a JSON error: its message, of which nothing is
/// stated.
#[verifier::external_body]
fn json_error_message(error: &serde_json::Error) -> String {
    error.to_string()
}

/// A stored file that could not be read as what it should hold.
#[derive(Debug)]
pub struct LoadError {
    /// What went wrong, for the user.
    pub message: String,
}

/// The bytes of an optional byte slice.
pub open spec fn opt_bytes(contents: Option<&[u8]>) -> Option<Seq<u8>> {
    match contents {
        Some(b) => Some(b@),
        None => None,
    }
}

/// The owners a muted-owners file records: `contents` is the file's bytes, or
/// `None` when there is no such file, which records none. `None` when the
/// bytes are not a JSON array of strings.
pub open spec fn stored_owners(contents: Option<Seq<u8>>) -> Option<Set<Seq<char>>> {
    match contents {
        None => Some(Set::empty()),
        Some(bytes) => match json_string_list(bytes) {
            Some(list) => Some(list.to_set()),
            None => None,
        },
    }
}

/// Whether `bytes` record `owners` as the muted-owners file does: a JSON array
/// of their texts, each once, in increasing order.
pub open spec fn owners_file(owners: Seq<String>, bytes: Seq<u8>) -> bool {
    &&& json_string_list(bytes) matches Some(list)
    &&& bytes == json_pretty_string_list(list)
    &&& in_text_order(list)
    &&& list.to_set() == text_set(owners)
}

/// The owners recorded in the muted-owners file, each once, in increasing order; `contents` is the
/// file's bytes, or `None` when there is no such file, which records no owner.
pub fn load_muted_owners(contents: Option<&[u8]>) -> (r: Result<Vec<String>, LoadError>)
    ensures
        match stored_owners(opt_bytes(contents)) {
            Some(set) => r is Ok && distinct_texts(r->Ok_0@) && in_text_order(texts(r->Ok_0@))
                && text_set(r->Ok_0@) == set,
            None => r is Err,
        },
{
    match contents {
        None => Ok(Vec::new()),
        Some(bytes) => match parse_string_list(bytes) {
            Ok(list) => Ok(sorted_texts(distinct(&list))),
            Err(error) => Err(LoadError { message: json_error_message(&error) }),
        },
    }
}

/// What to write for the owners whose mutes are outstanding: nothing when
/// there are none, so that the file is removed; else the owners, each once, as
/// a JSON array in increasing order.
pub fn encode_muted_owners(owners: &Vec<String>) -> (r: Option<Vec<u8>>)
    ensures
        owners@.len() == 0 ==> r is None,
        owners@.len() > 0 ==> (r matches Some(bytes) && owners_file(owners@, bytes@)),
{
    if owners.len() == 0 {
        return None;
    }
    let list = sorted_texts(distinct(owners));
    match write_string_list(list.as_slice()) {
        Ok(bytes) => Some(bytes),
        Err(_) => None,
    }
}

/// Reading back the muted-owners file as it was written gives the same owners:
/// the written owners, or none when there were none and the file was removed.
pub proof fn law_saved_owners_read_back(owners: Seq<String>, written: Option<Seq<u8>>)
    requires
        match written {
            None => owners.len() == 0,
            Some(bytes) => owners_file(owners, bytes),
        },
    ensures
        stored_owners(written) == Some(text_set(owners)),
{
    if written is None {
        assert(text_set(owners) =~= Set::<Seq<char>>::empty());
    }
}

} // verus!
