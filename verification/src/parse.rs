//! Parser for the paired command-line arguments: image bounds written as
//! `1000x750` and complex corner points written as `-1.20,0.35`.

use vstd::prelude::*;
use vstd::string::StrSliceExecFns;
use std::str::FromStr;

verus! {

/// Relies on `FromStr::from_str` to read one side of the pair. Which
/// strings parse, and to what value, is the implementing type's own affair,
/// so nothing is promised of the outcome; the error only reports that the
/// side did not parse, and is dropped.
#[verifier::external_body]
fn parse_side<T: FromStr>(s: &str) -> (r: Option<T>) {
    match T::from_str(s) {
        Ok(v) => Some(v),
        Err(_) => None,
    }
}

/// Position of the first occurrence of `separator` in `s`, if there is one.
fn find_char(s: &str, separator: char) -> (r: Option<usize>)
    ensures
        match r {
            Some(i) => i < s@.len() && s@[i as int] == separator && forall|j: int|
                0 <= j < i ==> s@[j] != separator,
            None => forall|j: int| 0 <= j < s@.len() ==> s@[j] != separator,
        },
{
    let len = s.unicode_len();
    let mut i: usize = 0;
    while i < len
        invariant
            len == s@.len(),
            i <= len,
            forall|j: int| 0 <= j < i ==> s@[j] != separator,
        decreases len - i,
    {
        if s.get_char(i) == separator {
            return Some(i);
        }
        i = i + 1;
    }
    None
}

/// Parse a string of the form `<left><separator><right>` into a pair of
/// values of `T`. The string is split at the first occurrence of
/// `separator`, and each side is handed to `T`'s parser on its own. There
/// is no pair when the separator is absent, and none when either side fails
/// to parse.
pub fn parse_pair<T: FromStr>(s: &str, separator: char) -> (r: Option<(T, T)>)
    ensures
        (forall|j: int| 0 <= j < s@.len() ==> s@[j] != separator) ==> r is None,
        r is Some ==> exists|j: int| 0 <= j < s@.len() && s@[j] == separator,
{
    let len = s.unicode_len();
    match find_char(s, separator) {
        None => None,
        Some(index) => {
            let left = s.substring_char(0, index);
            let right = s.substring_char(index + 1, len);
            match (parse_side::<T>(left), parse_side::<T>(right)) {
                (Some(l), Some(r)) => Some((l, r)),
                _ => None,
            }
        },
    }
}

} // verus!
