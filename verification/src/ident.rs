//! Identifiers: the unique tokens embedded in a compiled binary.
//!
//! Inside the crate an identifier is its 128-bit value.  The canonical text
//! form that a caller supplies on the command line is parsed through the
//! `uuid` crate, behind trusted wrappers.

use vstd::prelude::*;

verus! {

/// What `uuid::Uuid::parse_str` makes of a string: the 128-bit value of a
/// canonically written identifier, or nothing for text the grammar rejects.
pub uninterp spec fn uuid_of_text(s: Seq<char>) -> Option<u128>;

/// The canonical hyphenated text of an identifier, as `uuid::Uuid`'s
/// display writes it.
pub uninterp spec fn text_of_uuid(u: u128) -> Seq<char>;

/// Relies on `uuid::Uuid::parse_str` and `uuid::Uuid::as_u128`: the parse
/// result depends on the characters of the string alone.
#[verifier::external_body]
fn parse_uuid_text(s: &str) -> (r: Option<u128>)
    ensures
        r == uuid_of_text(s@),
{
    match uuid::Uuid::parse_str(s) {
        Ok(u) => Some(u.as_u128()),
        Err(_) => None,
    }
}

/// Relies on `uuid::Uuid::from_u128` and the `ToString` impl of
/// `uuid::Uuid`: the hyphenated text depends on the value alone, and is
/// itself canonical, so parsing it yields the value back.
#[verifier::external_body]
fn uuid_text(u: u128) -> (r: String)
    ensures
        r@ == text_of_uuid(u),
        uuid_of_text(r@) == Some(u),
{
    uuid::Uuid::from_u128(u).to_string()
}

/// The position of the first target string that is not a canonical
/// identifier.
#[derive(Clone, Copy, Debug, PartialEq, Eq, Structural)]
pub struct InvalidIdentifier {
    pub index: usize,
}

/// Parses the caller-supplied target identifier strings, in order.  Every
/// string must be canonical; the first one that is not is rejected before
/// any traversal starts.
pub fn parse_targets(inputs: &Vec<String>) -> (r: Result<Vec<u128>, InvalidIdentifier>)
    ensures
        match r {
            Result::Ok(v) => v@.len() == inputs@.len() && (forall|i: int|
                0 <= i < v@.len() ==> uuid_of_text(inputs@[i]@) == Some(#[trigger] v@[i])),
            Result::Err(e) => e.index < inputs@.len() && uuid_of_text(inputs@[e.index as int]@)
                is None && (forall|j: int|
                0 <= j < e.index ==> uuid_of_text(#[trigger] inputs@[j]@) is Some),
        },
{
    let mut v: Vec<u128> = Vec::new();
    let mut k: usize = 0;
    while k < inputs.len()
        invariant
            k <= inputs@.len(),
            v@.len() == k,
            forall|i: int| 0 <= i < k ==> uuid_of_text(inputs@[i]@) == Some(#[trigger] v@[i]),
        decreases inputs@.len() - k,
    {
        match parse_uuid_text(inputs[k].as_str()) {
            Option::Some(u) => {
                v.push(u);
            },
            Option::None => {
                proof {
                    assert forall|j: int| 0 <= j < k implies uuid_of_text(
                        #[trigger] inputs@[j]@,
                    ) is Some by {
                        assert(uuid_of_text(inputs@[j]@) == Some(v@[j]));
                    }
                }
                return Result::Err(InvalidIdentifier { index: k });
            },
        }
        k = k + 1;
    }
    Result::Ok(v)
}

/// The canonical text of each identifier, in order: how a report lists the
/// targets that were never found.  The texts parse back to the identifiers
/// they were written from.
pub fn format_identifiers(ids: &Vec<u128>) -> (r: Vec<String>)
    ensures
        r@.len() == ids@.len(),
        forall|i: int| 0 <= i < r@.len() ==> (#[trigger] r@[i])@ == text_of_uuid(ids@[i]),
        forall|i: int|
            0 <= i < r@.len() ==> uuid_of_text((#[trigger] r@[i])@) == Some(ids@[i]),
{
    let mut r: Vec<String> = Vec::new();
    let mut k: usize = 0;
    while k < ids.len()
        invariant
            k <= ids@.len(),
            r@.len() == k,
            forall|i: int| 0 <= i < k ==> (#[trigger] r@[i])@ == text_of_uuid(ids@[i]),
            forall|i: int| 0 <= i < k ==> uuid_of_text((#[trigger] r@[i])@) == Some(ids@[i]),
        decreases ids@.len() - k,
    {
        r.push(uuid_text(ids[k]));
        k = k + 1;
    }
    r
}

} // verus!
