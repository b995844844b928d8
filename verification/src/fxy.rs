//! The descriptor key: a 16-bit identifier split into F (2 bits), X (6 bits)
//! and Y (8 bits).

use vstd::prelude::*;
use vstd::string::StringSliceAdditionalSpecFns;

verus! {

/// A descriptor key. `f` selects the kind (0 element, 1 replication,
/// 2 operator, 3 sequence); `x` and `y` identify the descriptor within it.
#[derive(Clone, Copy, Debug, PartialEq, Eq, Structural, Hash)]
pub struct FXY {
    pub f: i32,
    pub x: i32,
    pub y: i32,
}

/// Why a six-byte key string was rejected.
#[derive(Clone, Copy, Debug, PartialEq, Eq, Structural)]
pub enum FxyParseError {
    /// The string is not exactly six bytes long.
    Length,
    /// The first two bytes are not a decimal number.
    FieldF,
    /// The middle two bytes are not a decimal number.
    FieldX,
    /// The last two bytes are not a decimal number.
    FieldY,
}

/// Value of an ASCII decimal digit, if the byte is one.
pub open spec fn digit_value(b: u8) -> Option<int> {
    if 48 <= b <= 57 {
        Some(b - 48)
    } else {
        None
    }
}

/// The number written by a two-byte field: two digits, or a sign and one
/// digit.
pub open spec fn two_byte_number(a: u8, b: u8) -> Option<int> {
    match digit_value(b) {
        None => None,
        Some(low) => match digit_value(a) {
            Some(high) => Some(10 * high + low),
            None => if a == 43 {
                Some(low)
            } else if a == 45 {
                Some(-low)
            } else {
                None
            },
        },
    }
}

/// What parsing the bytes of a key string gives.
pub open spec fn fxy_from_bytes(s: Seq<u8>) -> Result<FXY, FxyParseError> {
    if s.len() != 6 {
        Err(FxyParseError::Length)
    } else {
        match two_byte_number(s[0], s[1]) {
            None => Err(FxyParseError::FieldF),
            Some(f) => match two_byte_number(s[2], s[3]) {
                None => Err(FxyParseError::FieldX),
                Some(x) => match two_byte_number(s[4], s[5]) {
                    None => Err(FxyParseError::FieldY),
                    Some(y) => Ok(FXY { f: f as i32, x: x as i32, y: y as i32 }),
                },
            },
        }
    }
}

/// The six ASCII digits `FFXXYY` that write three numbers below 100.
pub open spec fn fxy_digits(f: int, x: int, y: int) -> Seq<u8> {
    seq![
        (48 + f / 10) as u8,
        (48 + f % 10) as u8,
        (48 + x / 10) as u8,
        (48 + x % 10) as u8,
        (48 + y / 10) as u8,
        (48 + y % 10) as u8,
    ]
}

/// The packed 16-bit form of a key whose fields are in range.
pub open spec fn packed_key(f: int, x: int, y: int) -> int {
    f * 16384 + x * 256 + y
}

fn parse_two(a: u8, b: u8) -> (r: Option<i32>)
    ensures
        r is Some <==> two_byte_number(a, b) is Some,
        r is Some ==> r->0 == two_byte_number(a, b)->0,
{
    if b < 48 || b > 57 {
        return None;
    }
    let low: i32 = (b - 48) as i32;
    if 48 <= a && a <= 57 {
        let high: i32 = (a - 48) as i32;
        Some(10 * high + low)
    } else if a == 43 {
        Some(low)
    } else if a == 45 {
        Some(-low)
    } else {
        None
    }
}

impl FXY {
    pub open spec fn in_range(self) -> bool {
        0 <= self.f <= 3 && 0 <= self.x <= 63 && 0 <= self.y <= 255
    }

    pub fn new(f: i32, x: i32, y: i32) -> (r: FXY)
        ensures
            r == (FXY { f, x, y }),
    {
        FXY { f, x, y }
    }

    /// Parses the six-byte form: three fields of two bytes each.
    pub fn from_str(fxy_str: &str) -> (r: Result<FXY, FxyParseError>)
        ensures
            r == fxy_from_bytes(fxy_str.spec_bytes()),
    {
        let bytes = fxy_str.as_bytes();
        if bytes.len() != 6 {
            return Err(FxyParseError::Length);
        }
        let f = match parse_two(bytes[0], bytes[1]) {
            Some(v) => v,
            None => { return Err(FxyParseError::FieldF); },
        };
        let x = match parse_two(bytes[2], bytes[3]) {
            Some(v) => v,
            None => { return Err(FxyParseError::FieldX); },
        };
        let y = match parse_two(bytes[4], bytes[5]) {
            Some(v) => v,
            None => { return Err(FxyParseError::FieldY); },
        };
        Ok(FXY { f, x, y })
    }

    /// Packs the key into 16 bits: F in the top two, X in the next six, Y in
    /// the low eight.
    pub fn to_u32(&self) -> (r: u32)
        ensures
            r == ((self.f as u32) << 14) | ((self.x as u32) << 8) | (self.y as u32),
            self.in_range() ==> r == packed_key(self.f as int, self.x as int, self.y as int),
    {
        let f = self.f as u32;
        let x = self.x as u32;
        let y = self.y as u32;
        assert(f <= 3 && x <= 63 && y <= 255 ==> ((f << 14) | (x << 8) | y) == f * 16384 + x * 256
            + y) by (bit_vector);
        (f << 14) | (x << 8) | y
    }
}

/// What the walker asks of a descriptor key: its three fields.
pub trait BUFRKey {
    /// The key itself.
    spec fn key(&self) -> FXY;

    fn f(&self) -> (r: i32)
        ensures
            r == self.key().f,
    ;

    fn x(&self) -> (r: i32)
        ensures
            r == self.key().x,
    ;

    fn y(&self) -> (r: i32)
        ensures
            r == self.key().y,
    ;
}

impl BUFRKey for FXY {
    open spec fn key(&self) -> FXY {
        *self
    }

    fn f(&self) -> (r: i32) {
        self.f
    }

    fn x(&self) -> (r: i32) {
        self.x
    }

    fn y(&self) -> (r: i32) {
        self.y
    }
}

/// Packing is positional: for fields in range the packed key is
/// `f * 2^14 + x * 2^8 + y`, which is the bitwise form `(f<<14) | (x<<8) | y`,
/// and distinct keys pack to distinct numbers.
pub proof fn lemma_packing_is_injective(a: FXY, b: FXY)
    requires
        a.in_range(),
        b.in_range(),
        packed_key(a.f as int, a.x as int, a.y as int) == packed_key(
            b.f as int,
            b.x as int,
            b.y as int,
        ),
    ensures
        a == b,
{
}

/// Writing a key as six decimal digits `FFXXYY` and parsing them back gives
/// the key again.
pub proof fn lemma_string_round_trip(f: i32, x: i32, y: i32)
    requires
        0 <= f < 100,
        0 <= x < 100,
        0 <= y < 100,
    ensures
        fxy_from_bytes(fxy_digits(f as int, x as int, y as int)) == Ok::<FXY, FxyParseError>(
            FXY { f, x, y },
        ),
{
}

} // verus!
