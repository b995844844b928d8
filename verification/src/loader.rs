//! What the loaders of table source files share: the errors of a line, and
//! reading the fields of a record.

use vstd::prelude::*;
use crate::fxy::{FxyParseError, FXY};
use crate::numbers::{clean, cleaned, parse_int, parsed_int};

verus! {

/// Why a line of a table source file was rejected.
#[derive(Clone, Copy, Debug, PartialEq, Eq, Structural)]
pub enum LoadError {
    /// The record has no field with this index, or the field is empty.
    MissingField(usize),
    /// The field with this index does not hold a number.
    BadNumber(usize),
    /// A descriptor key is not of the form `FFXXYY`.
    BadKey(FxyParseError),
    /// A continuation line stands before any sequence header.
    ContinuationWithoutHeader,
}

/// The texts of the fields of a record.
pub open spec fn texts(raw: Seq<String>) -> Seq<Seq<char>> {
    raw.map_values(|s: String| s@)
}

/// The number in a field. With `numeric` the characters of a numeric field
/// count; without it letters and digits alone count, and a field without
/// any is missing.
pub open spec fn number_in(raw: Seq<Seq<char>>, i: int, numeric: bool, min: int, max: int)
    -> Result<int, LoadError> {
    if i >= raw.len() {
        Err(LoadError::MissingField(i as usize))
    } else if !numeric && cleaned(raw[i], false).len() == 0 {
        Err(LoadError::MissingField(i as usize))
    } else {
        match parsed_int(cleaned(raw[i], numeric), min, max) {
            Some(v) => Ok(v),
            None => Err(LoadError::BadNumber(i as usize)),
        }
    }
}

/// The key in the three fields from `at` on: F, X and Y as numbers.
pub open spec fn key_in(raw: Seq<Seq<char>>, at: int, numeric: bool) -> Result<FXY, LoadError> {
    match number_in(raw, at, numeric, i32::MIN as int, i32::MAX as int) {
        Err(e) => Err(e),
        Ok(f) => match number_in(raw, at + 1, numeric, i32::MIN as int, i32::MAX as int) {
            Err(e) => Err(e),
            Ok(x) => match number_in(raw, at + 2, numeric, i32::MIN as int, i32::MAX as int) {
                Err(e) => Err(e),
                Ok(y) => Ok(FXY { f: f as i32, x: x as i32, y: y as i32 }),
            },
        },
    }
}

/// Reads the number in a field.
pub fn read_number(raw: &Vec<String>, i: usize, numeric: bool, min: i64, max: i64) -> (r: Result<
    i64,
    LoadError,
>)
    ensures
        match number_in(texts(raw@), i as int, numeric, min as int, max as int) {
            Ok(v) => r == Ok::<i64, LoadError>(v as i64) && v == v as i64,
            Err(e) => r == Err::<i64, LoadError>(e),
        },
{
    if i >= raw.len() {
        return Err(LoadError::MissingField(i));
    }
    let chars = clean(raw[i].as_str(), numeric);
    if !numeric && chars.len() == 0 {
        return Err(LoadError::MissingField(i));
    }
    match parse_int(&chars, min, max) {
        Some(v) => Ok(v),
        None => Err(LoadError::BadNumber(i)),
    }
}

/// Reads the key in the three fields from `at` on.
pub fn read_key(raw: &Vec<String>, at: usize, numeric: bool) -> (r: Result<FXY, LoadError>)
    requires
        at + 2 <= usize::MAX,
    ensures
        r == key_in(texts(raw@), at as int, numeric),
{
    let f = match read_number(raw, at, numeric, -0x8000_0000, 0x7fff_ffff) {
        Ok(v) => v as i32,
        Err(e) => {
            return Err(e);
        },
    };
    let x = match read_number(raw, at + 1, numeric, -0x8000_0000, 0x7fff_ffff) {
        Ok(v) => v as i32,
        Err(e) => {
            return Err(e);
        },
    };
    let y = match read_number(raw, at + 2, numeric, -0x8000_0000, 0x7fff_ffff) {
        Ok(v) => v as i32,
        Err(e) => {
            return Err(e);
        },
    };
    Ok(FXY::new(f, x, y))
}

} // verus!
