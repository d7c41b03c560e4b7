use std::collections::hash_map::DefaultHasher;
use vstd::prelude::*;

use crate::hallorder_decision::{parse_decimal_u16, parse_elevator_id};

verus! {

/// What `std::hash::Hash::hash` of a string slice with the characters `s`
/// into a fresh `DefaultHasher` gives when the hasher finishes.
pub uninterp spec fn str_default_hash(s: Seq<char>) -> u64;

/// `std::hash::BuildHasher::hash_one` with a
/// `BuildHasherDefault<DefaultHasher>`: documented to give what hashing `s`
/// into the hasher the builder makes (`DefaultHasher::default()`, the same as
/// `DefaultHasher::new()`) and finishing gives. `DefaultHasher::new()` has
/// fixed keys, so the number depends on `s` alone; which number it is, is not
/// stated here.
#[verifier::external_body]
fn hash_str(s: &str) -> (h: u64)
    ensures
        h == str_default_hash(s@),
{
    std::hash::BuildHasher::hash_one(&std::hash::BuildHasherDefault::<DefaultHasher>::default(), s)
}

/// What `str::trim` leaves of a string with the characters `s`: the string
/// without its leading and trailing whitespace.
pub uninterp spec fn str_trimmed(s: Seq<char>) -> Seq<char>;

/// `str::trim`: documented to return the part of `s` left once leading and
/// trailing whitespace (the Unicode `White_Space` property) is removed. The
/// result is named, not stated: the Unicode property takes a table to say.
#[verifier::external_body]
fn trim_str(s: &str) -> (t: &str)
    ensures
        t@ == str_trimmed(s@),
{
    s.trim()
}

/// A 64-bit hash folded into 16 bits: the exclusive or of its four 16-bit
/// quarters.
pub open spec fn folded_id(hashed: u64) -> u16 {
    (hashed ^ (hashed >> 16u64) ^ (hashed >> 32u64) ^ (hashed >> 48u64)) as u16
}

/// A 64-bit hash folded into 16 bits, as `folded_id` says.
pub fn fold_hash(hashed: u64) -> (id: u16)
    ensures
        id == folded_id(hashed),
{
    (hashed ^ (hashed >> 16u64) ^ (hashed >> 32u64) ^ (hashed >> 48u64)) as u16
}

/// The elevator identifier derived from the contents of this machine's
/// machine-id file: the hash of the trimmed contents, folded into 16 bits.
pub fn generate_id_from_machine_id(machine_id: &str) -> (id: u16)
    ensures
        id == folded_id(str_default_hash(str_trimmed(machine_id@))),
{
    let trimmed = trim_str(machine_id);
    let hashed = hash_str(trimmed);
    fold_hash(hashed)
}

/// The elevator identifier given on the command line, if one was given and
/// it is a decimal number that fits in 16 bits (an optional `+`, then
/// digits); otherwise none, and the identifier comes from the machine.
pub fn id_from_argument(arg: Option<&str>) -> (id: Option<u16>)
    ensures
        id == (match arg {
            Some(a) => parse_decimal_u16(a@),
            None => None::<u16>,
        }),
{
    match arg {
        Some(a) => parse_elevator_id(a),
        None => None,
    }
}

} // verus!
