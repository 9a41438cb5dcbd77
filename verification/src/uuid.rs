use vstd::prelude::*;

use crate::digits::digit_char;
use crate::string_ops::string_from_chars;

verus! {

/// Relies on `rand::fill` over the thread's generator: sixteen
/// random bytes. Nothing but the length can be promised of a random
/// value.
#[verifier::external_body]
fn random_bytes_16() -> (r: Vec<u8>)
    ensures
        r@.len() == 16,
{
    let mut b = [0u8; 16];
    rand::fill(&mut b);
    b.to_vec()
}

/// The lowercase hexadecimal digit for a value below sixteen.
pub open spec fn hex_char(n: int) -> char
    recommends
        0 <= n < 16,
{
    if n < 10 {
        digit_char(n)
    } else {
        ((87 + n) as u8) as char
    }
}

/// Appends the two hexadecimal digits of one byte.
fn push_hex(v: &mut Vec<char>, b: u8)
    ensures
        final (v)@ =~= old(v)@.push(hex_char(b as int / 16)).push(hex_char(b as int % 16)),
{
    let hi: u8 = b / 16;
    let lo: u8 = b % 16;
    let hic: u8 = if hi < 10 {
        48 + hi
    } else {
        87 + hi
    };
    let loc: u8 = if lo < 10 {
        48 + lo
    } else {
        87 + lo
    };
    v.push(hic as char);
    v.push(loc as char);
}

/// A fresh random identifier in the usual 8-4-4-4-12 form, with the
/// version marker of a random identifier and the variant bits the
/// wire format asks for. Freshness is the point: the identifier
/// names one signing operation in the revocation store.
pub fn uuid_v4() -> (r: String)
    ensures
        r@.len() == 36,
        r@[8] == '-',
        r@[13] == '-',
        r@[18] == '-',
        r@[23] == '-',
        r@[14] == '4',
        r@[19] == '8' || r@[19] == '9' || r@[19] == 'a' || r@[19] == 'b',
{
    let b = random_bytes_16();
    let x6: u8 = b[6];
    let x8: u8 = b[8];
    let b6: u8 = (x6 & 0x0f) | 0x40;
    let b8: u8 = (x8 & 0x3f) | 0x80;
    proof {
        assert(b6 / 16 == 4 && (b8 / 16 == 8 || b8 / 16 == 9 || b8 / 16 == 10 || b8 / 16 == 11))
            by (bit_vector)
            requires
                b6 == (x6 & 0x0f) | 0x40 && b8 == (x8 & 0x3f) | 0x80,
        ;
        assert(hex_char(4) == '4');
        assert(hex_char(8) == '8');
        assert(hex_char(9) == '9');
        assert(hex_char(10) == 'a');
        assert(hex_char(11) == 'b');
    }
    let mut v: Vec<char> = Vec::new();
    push_hex(&mut v, b[0]);
    push_hex(&mut v, b[1]);
    push_hex(&mut v, b[2]);
    push_hex(&mut v, b[3]);
    v.push('-');
    push_hex(&mut v, b[4]);
    push_hex(&mut v, b[5]);
    v.push('-');
    push_hex(&mut v, b6);
    push_hex(&mut v, b[7]);
    v.push('-');
    push_hex(&mut v, b8);
    push_hex(&mut v, b[9]);
    v.push('-');
    push_hex(&mut v, b[10]);
    push_hex(&mut v, b[11]);
    push_hex(&mut v, b[12]);
    push_hex(&mut v, b[13]);
    push_hex(&mut v, b[14]);
    push_hex(&mut v, b[15]);
    string_from_chars(&v)
}

} // verus!
