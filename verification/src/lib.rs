//! Response-serialization core of a minimal HTTP/1.x server library.
//!
//! A [`response::Response`] owns a status code, an ordered header list, a
//! body source and an optional declared body length.  Serializing it emits
//! the status line, the headers and the body, framed either as-is under a
//! `Content-Length` (identity coding) or as chunked transfer coding,
//! depending on the outcome of [`negotiate::choose_transfer_encoding`].

use vstd::prelude::*;

pub mod chunks;
pub mod common;
pub mod httpdate;
pub mod negotiate;
pub mod numfmt;
pub mod response;
pub mod stream;

verus! {

use vstd::string::StringSliceAdditionalSpecFns;

/// ASCII lower-casing of a single byte: `A`..`Z` map to `a`..`z`,
/// every other byte is unchanged.
pub open spec fn lower_byte(b: u8) -> u8 {
    if 65 <= b && b <= 90 {
        (b + 32) as u8
    } else {
        b
    }
}

/// Case-insensitive equality of two ASCII byte strings, the equivalence
/// under which HTTP header field names are compared.
pub open spec fn field_eq(a: Seq<u8>, b: Seq<u8>) -> bool {
    a.map_values(|x: u8| lower_byte(x)) == b.map_values(|x: u8| lower_byte(x))
}

/// The bytes of an ASCII string, one byte per character.
pub open spec fn sbytes(s: Seq<char>) -> Seq<u8> {
    s.map_values(|c: char| c as u8)
}

/// Copies the bytes of an ASCII string slice into a vector.
pub fn ascii_bytes(s: &str) -> (r: Vec<u8>)
    requires
        vstd::string::is_ascii(s),
    ensures
        r@ == sbytes(s@),
{
    proof {
        vstd::string::is_ascii_spec_bytes(s);
        assert(s.spec_bytes() =~= sbytes(s@));
    }
    vstd::string::StrSliceExecFns::as_bytes_vec(s)
}

/// ASCII lower-casing of a single byte, executable form.
pub fn lower_byte_exec(b: u8) -> (r: u8)
    ensures
        r == lower_byte(b),
{
    if 65 <= b && b <= 90 {
        b + 32
    } else {
        b
    }
}

/// Case-insensitive comparison of two byte strings.
pub fn eq_ignore_case(a: &[u8], b: &[u8]) -> (r: bool)
    ensures
        r == field_eq(a@, b@),
{
    if a.len() != b.len() {
        proof {
            assert(a@.map_values(|x: u8| lower_byte(x)).len() == a@.len());
            assert(b@.map_values(|x: u8| lower_byte(x)).len() == b@.len());
        }
        return false;
    }
    let mut i: usize = 0;
    while i < a.len()
        invariant
            i <= a.len(),
            a.len() == b.len(),
            forall|k: int| 0 <= k < i ==> lower_byte(a@[k]) == lower_byte(b@[k]),
        decreases a.len() - i,
    {
        if lower_byte_exec(a[i]) != lower_byte_exec(b[i]) {
            proof {
                assert(a@.map_values(|x: u8| lower_byte(x))[i as int] != b@.map_values(
                    |x: u8| lower_byte(x),
                )[i as int]);
            }
            return false;
        }
        i += 1;
    }
    proof {
        assert(a@.map_values(|x: u8| lower_byte(x)) =~= b@.map_values(|x: u8| lower_byte(x)));
    }
    true
}

/// Whether the byte string `a` equals the ASCII string `name` up to case.
pub open spec fn named(a: Seq<u8>, name: Seq<char>) -> bool {
    field_eq(a, sbytes(name))
}

/// Case-insensitive comparison of a byte string against an ASCII literal.
pub fn is_named(a: &[u8], name: &str) -> (r: bool)
    requires
        vstd::string::is_ascii(name),
    ensures
        r == named(a@, name@),
{
    let nb = ascii_bytes(name);
    eq_ignore_case(a, nb.as_slice())
}

} // verus!
