//! Small trusted bridges to `std`'s string and character primitives, plus the
//! named results that the matcher's contracts are written over.
use vstd::prelude::*;

verus! {

/// What `str::to_lowercase` returns for a given character sequence.
/// The result depends on the characters alone.
pub uninterp spec fn lower_of(s: Seq<char>) -> Seq<char>;

/// Whether `char::is_alphanumeric` holds of the character; a fixed
/// property of the character alone.
pub uninterp spec fn is_alnum(c: char) -> bool;

/// Relies on `<str as PartialEq>::eq`: string slices are equal exactly
/// when their character sequences are.
#[verifier::external_body]
pub fn str_eq(a: &str, b: &str) -> (r: bool)
    ensures
        r == (a@ == b@),
{
    a == b
}

/// Relies on `str::chars`: the iterator yields exactly the characters of
/// the string, in order.
#[verifier::external_body]
pub fn chars_vec(s: &str) -> (r: Vec<char>)
    ensures
        r@ == s@,
{
    s.chars().collect()
}

/// Relies on `<String as FromIterator<char>>::from_iter`: the resulting
/// string holds exactly the characters handed in, in order.
#[verifier::external_body]
pub fn string_from_chars(v: &Vec<char>) -> (r: String)
    ensures
        r@ == v@,
{
    v.iter().collect()
}

/// Relies on `str::to_lowercase`: the result is a function of the
/// characters alone.
#[verifier::external_body]
pub fn lowercase(s: &str) -> (r: String)
    ensures
        r@ == lower_of(s@),
{
    s.to_lowercase()
}

/// Relies on `char::is_alphanumeric`: a pure classification of the
/// character by its Unicode general category.
#[verifier::external_body]
pub fn char_is_alnum(c: char) -> (r: bool)
    ensures
        r == is_alnum(c),
{
    c.is_alphanumeric()
}

/// Whether the scalar value is one that a `char` can hold.
pub open spec fn valid_scalar(v: u32) -> bool {
    v < 0xD800 || (0xE000 <= v && v < 0x11_0000)
}

/// Relies on `char::from_u32`: documented to return `Some` exactly for
/// values below 0x110000 that are not surrogates, and then the character
/// with that scalar value.
#[verifier::external_body]
pub fn char_from_u32(v: u32) -> (r: Option<char>)
    ensures
        match r {
            Some(c) => valid_scalar(v) && c == (v as char),
            None => !valid_scalar(v),
        },
{
    char::from_u32(v)
}

} // verus!
