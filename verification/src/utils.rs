//! Keys written as `CC-EE`.

use vstd::prelude::*;
use vstd::string::StringSliceAdditionalSpecFns;
use crate::fxy::digit_value;

verus! {

/// The number that a key of the form `CC-EE` stands for: the class `CC`
/// times 1000, plus the element digits `EE` read as hundreds and tens.
pub open spec fn class_element_number(s: Seq<u8>) -> Option<u32> {
    if s.len() != 5 || s[2] != 45 {
        None
    } else {
        match (digit_value(s[0]), digit_value(s[1]), digit_value(s[3]), digit_value(s[4])) {
            (Some(a), Some(b), Some(c), Some(d)) => Some(
                ((a * 10 + b) * 1000 + c * 100 + d * 10) as u32,
            ),
            _ => None,
        }
    }
}

fn digit(b: u8) -> (r: Option<u32>)
    ensures
        r is Some <==> digit_value(b) is Some,
        r is Some ==> r->0 == digit_value(b)->0,
{
    if 48 <= b && b <= 57 {
        Some((b - 48) as u32)
    } else {
        None
    }
}

/// Reads a key of the form `CC-EE`.
pub fn fxy_str_to_u32(fxy: &str) -> (r: Option<u32>)
    ensures
        r == class_element_number(fxy.spec_bytes()),
{
    let bytes = fxy.as_bytes();
    if bytes.len() != 5 || bytes[2] != 45 {
        return None;
    }
    let a = match digit(bytes[0]) {
        Some(v) => v,
        None => {
            return None;
        },
    };
    let b = match digit(bytes[1]) {
        Some(v) => v,
        None => {
            return None;
        },
    };
    let c = match digit(bytes[3]) {
        Some(v) => v,
        None => {
            return None;
        },
    };
    let d = match digit(bytes[4]) {
        Some(v) => v,
        None => {
            return None;
        },
    };
    let class_no = a * 10 + b;
    let element_no = c * 100 + d * 10;
    Some(class_no * 1000 + element_no)
}

} // verus!
