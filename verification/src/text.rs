//! Nul-terminated UTF-8 strings inside byte buffers.

use vstd::prelude::*;
use vstd::utf8::{decode_utf8, valid_utf8};

verus! {

/// `std::str::from_utf8`, the result made an owned `String`: `Some` exactly for
/// valid UTF-8, and then the characters that the bytes encode.
#[verifier::external_body]
pub(crate) fn from_utf8(bytes: &[u8]) -> (s: Option<String>)
    ensures
        s is Some <==> valid_utf8(bytes@),
        s matches Some(s) ==> s@ == decode_utf8(bytes@),
{
    match std::str::from_utf8(bytes) {
        Ok(s) => Some(s.to_string()),
        Err(_) => None,
    }
}

/// The position of the first nul byte of `data` in `from .. end`.
pub open spec fn nul_at(data: Seq<u8>, from: int, end: int) -> Option<int>
    decreases end - from,
{
    if from < 0 || from >= end || end > data.len() {
        None
    } else if data[from] == 0 {
        Some(from)
    } else {
        nul_at(data, from + 1, end)
    }
}

/// Where `nul_at` finds a position, it lies in `from .. end`, holds a nul byte,
/// and no byte before it from `from` on is nul.
pub proof fn lemma_nul_at_bounds(data: Seq<u8>, from: int, end: int)
    ensures
        nul_at(data, from, end) matches Some(j) ==> from <= j < end && data[j] == 0 && forall|
            i: int,
        | from <= i < j ==> data[i] != 0,
    decreases end - from,
{
    if 0 <= from < end && end <= data.len() && data[from] != 0 {
        lemma_nul_at_bounds(data, from + 1, end);
    }
}

/// The string that starts at `from` and ends before the first nul byte before `end`.
pub open spec fn spec_c_string(data: Seq<u8>, from: int, end: int) -> Option<Seq<char>> {
    match nul_at(data, from, end) {
        Some(j) => if valid_utf8(data.subrange(from, j)) {
            Some(decode_utf8(data.subrange(from, j)))
        } else {
            None
        },
        None => None,
    }
}

/// The bytes of the string that starts at `from`, up to the first nul byte before
/// `end`.
pub open spec fn c_string_bytes(data: Seq<u8>, from: int, end: int) -> Seq<u8> {
    data.subrange(from, nul_at(data, from, end).unwrap())
}

/// The position of the first nul byte in `from .. end`.
pub fn find_nul(data: &[u8], from: usize, end: usize) -> (j: Option<usize>)
    requires
        end <= data@.len(),
    ensures
        match j {
            Some(j) => nul_at(data@, from as int, end as int) == Some(j as int),
            None => nul_at(data@, from as int, end as int) is None,
        },
{
    let mut i = from;
    while i < end
        invariant
            from <= i,
            end <= data@.len(),
            nul_at(data@, from as int, end as int) == nul_at(data@, i as int, end as int),
        decreases end - i,
    {
        if data[i] == 0 {
            return Some(i);
        }
        i = i + 1;
    }
    None
}

/// Reads the nul-terminated UTF-8 string that starts at `from`, the nul before `end`;
/// `None` where there is no nul or the bytes are not UTF-8. Also gives the number of
/// bytes before the nul.
pub fn read_c_string(data: &[u8], from: usize, end: usize) -> (r: Option<(String, usize)>)
    requires
        end <= data@.len(),
    ensures
        match r {
            Some((s, n)) => spec_c_string(data@, from as int, end as int) == Some(s@)
                && nul_at(data@, from as int, end as int) == Some(from + n),
            None => spec_c_string(data@, from as int, end as int) is None,
        },
{
    let j = match find_nul(data, from, end) {
        Some(j) => j,
        None => return None,
    };
    proof {
        lemma_nul_at_bounds(data@, from as int, end as int);
    }
    let bytes = &data[from..j];
    match from_utf8(bytes) {
        Some(s) => Some((s, j - from)),
        None => None,
    }
}

} // verus!
