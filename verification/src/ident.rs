//! Names for the historical versions of a type: the name of the type, and
//! the version tag put through `sqids` so that it can stand in an
//! identifier.

use vstd::prelude::*;
use vstd::string::{StringExecFns, StringSliceAdditionalSpecFns};

verus! {

/// The text that `sqids` makes of a list of numbers, with its standard
/// alphabet and blocklist and the given minimal length; none where every
/// text that it tries for the numbers is blocked.
pub uninterp spec fn sqid_of(min_length: u8, numbers: Seq<u64>) -> Option<Seq<char>>;

/// `Sqids::builder().min_length(..).build()` and, on what it built,
/// `Sqids::encode`: the text for the numbers, or the error of either.
#[verifier::external_body]
fn sqids_encode(min_length: u8, numbers: &Vec<u64>) -> (r: Result<String, sqids::Error>)
    ensures
        match r {
            Ok(s) => sqid_of(min_length, numbers@) == Some(s@),
            Err(_) => sqid_of(min_length, numbers@) is None,
        },
{
    sqids::Sqids::builder().min_length(min_length).build()?.encode(numbers)
}

/// The minimal length of the encoded part of a name.
pub const MIN_LENGTH: u8 = 10;

/// The bytes of a text as numbers.
pub open spec fn byte_numbers(bytes: Seq<u8>) -> Seq<u64> {
    Seq::new(bytes.len(), |i: int| bytes[i] as u64)
}

/// The name made of a prefix and an encoded part.
pub open spec fn ident_of(prefix: Seq<char>, encoded: Seq<char>) -> Seq<char> {
    "_"@ + prefix + "_"@ + encoded
}

/// No name could be made: every encoding of the text is blocked.
#[derive(Clone, Copy, Debug, PartialEq, Eq, Structural)]
pub struct IdentError;

/// The bytes of a text, each as a number.
pub fn numbers_of(id: &str) -> (r: Vec<u64>)
    ensures
        r@ == byte_numbers(id.spec_bytes()),
{
    let bytes = id.as_bytes();
    let mut out: Vec<u64> = Vec::new();
    let mut i: usize = 0;
    while i < bytes.len()
        invariant
            i <= bytes.len(),
            bytes@ == id.spec_bytes(),
            out@.len() == i,
            forall|j: int| 0 <= j < i ==> out@[j] == bytes@[j] as u64,
        decreases bytes.len() - i,
    {
        out.push(bytes[i] as u64);
        i = i + 1;
    }
    assert(out@ =~= byte_numbers(id.spec_bytes()));
    out
}

/// Puts a prefix and an encoded part together: an underscore before each.
pub fn ident_text(prefix: &str, encoded: &str) -> (r: String)
    ensures
        r@ == ident_of(prefix@, encoded@),
{
    let mut s = String::from_str("_");
    s.append(prefix);
    s.append("_");
    s.append(encoded);
    s
}

/// The name for one version of a type: an underscore, the prefix, an
/// underscore, and the bytes of `id` encoded by `sqids` to at least ten
/// characters.
pub fn generate_ident(prefix: &str, id: &str) -> (r: Result<String, IdentError>)
    ensures
        match sqid_of(MIN_LENGTH, byte_numbers(id.spec_bytes())) {
            Some(encoded) => r matches Ok(name) && name@ == ident_of(prefix@, encoded),
            None => r is Err,
        },
{
    let numbers = numbers_of(id);
    match sqids_encode(MIN_LENGTH, &numbers) {
        Ok(encoded) => Ok(ident_text(prefix, encoded.as_str())),
        Err(_) => Err(IdentError),
    }
}

} // verus!
