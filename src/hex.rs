use vstd::prelude::*;
use vstd::utf8::{encode_utf8, valid_utf8};

verus! {

#[verifier::external_type_specification]
#[verifier::external_body]
pub struct ExIoError(std::io::Error);

/// Relies on `std::io::Error::new`: an error of kind `InvalidData` carrying `msg`.
#[verifier::external_body]
pub(crate) fn invalid_data(msg: &str) -> std::io::Error {
    std::io::Error::new(std::io::ErrorKind::InvalidData, msg)
}

/// Relies on `String::from_utf8`: it succeeds exactly where the bytes are valid
/// UTF-8, and the string then encodes to those bytes.
#[verifier::external_body]
pub(crate) fn utf8_string(bytes: &[u8]) -> (r: Option<String>)
    ensures
        r is Some <==> valid_utf8(bytes@),
        r matches Some(s) ==> encode_utf8(s@) == bytes@,
{
    String::from_utf8(bytes.to_vec()).ok()
}

pub open spec fn is_hex_digit(b: u8) -> bool {
    (48 <= b <= 57) || (97 <= b <= 102) || (65 <= b <= 70)
}

/// The value of a hexadecimal digit; zero for any other byte.
pub open spec fn spec_unhex(b: u8) -> u8 {
    if 48 <= b <= 57 {
        (b - 48) as u8
    } else if 97 <= b <= 102 {
        (b - 97 + 10) as u8
    } else if 65 <= b <= 70 {
        (b - 65 + 10) as u8
    } else {
        0
    }
}

/// The value of four hexadecimal digits, most significant first.
pub open spec fn hex4(d: Seq<u8>) -> nat {
    spec_unhex(d[0]) as nat * 4096 + spec_unhex(d[1]) as nat * 256 + spec_unhex(d[2]) as nat * 16
        + spec_unhex(d[3]) as nat
}

pub open spec fn all_hex(d: Seq<u8>) -> bool {
    forall|i: int| 0 <= i < d.len() ==> is_hex_digit(#[trigger] d[i])
}

/// The value of a hexadecimal digit, upper or lower case; zero for any other byte.
pub fn unhex(b: u8) -> (r: u8)
    ensures
        r == spec_unhex(b),
        r < 16,
{
    if 48 <= b && b <= 57 {
        b - 48
    } else if 97 <= b && b <= 102 {
        b - 97 + 10
    } else if 65 <= b && b <= 70 {
        b - 65 + 10
    } else {
        0
    }
}

/// Reads four hexadecimal digits as a 16-bit number; `None` if a byte is not a
/// hexadecimal digit.
pub fn hex_to_u16(data: &[u8; 4]) -> (r: Option<u16>)
    ensures
        all_hex(data@) ==> r == Some(hex4(data@) as u16) && hex4(data@) <= u16::MAX,
        !all_hex(data@) ==> r is None,
{
    let mut i: usize = 0;
    while i < 4
        invariant
            i <= 4,
            data@.len() == 4,
            forall|j: int| 0 <= j < i ==> is_hex_digit(#[trigger] data@[j]),
        decreases 4 - i,
    {
        let b = data[i];
        if !((48 <= b && b <= 57) || (97 <= b && b <= 102) || (65 <= b && b <= 70)) {
            return None;
        }
        i = i + 1;
    }
    let high = (unhex(data[0]) as u16) * 16 + unhex(data[1]) as u16;
    let low = (unhex(data[2]) as u16) * 16 + unhex(data[3]) as u16;
    Some(high * 256 + low)
}

/// As [`hex_to_u16`], with an `InvalidData` error where a byte is not a
/// hexadecimal digit.
pub fn hex_to_u16_ioerr(data: &[u8; 4]) -> (r: Result<u16, std::io::Error>)
    ensures
        all_hex(data@) ==> (r matches Ok(v) && v == hex4(data@)),
        !all_hex(data@) ==> r is Err,
{
    match hex_to_u16(data) {
        Some(v) => Ok(v),
        None => Err(invalid_data("Failed to parse subvendor ID")),
    }
}

} // verus!
