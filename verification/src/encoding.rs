//! Bytes as text.
use base64::Engine;
use vstd::prelude::*;

verus! {

/// The standard base64 form of some bytes, as the `base64` crate writes it.
pub uninterp spec fn base64_of(bytes: Seq<u8>) -> Seq<char>;

/// The bytes that a standard base64 text stands for, as the `base64` crate reads
/// it, or the error it reports where it is no such text.
pub uninterp spec fn base64_read(text: Seq<char>) -> Result<Seq<u8>, Seq<char>>;

/// `base64::engine::general_purpose::STANDARD.encode`.
#[verifier::external_body]
pub(crate) fn encode(bytes: &[u8]) -> (out: String)
    ensures
        out@ == base64_of(bytes@),
{
    base64::engine::general_purpose::STANDARD.encode(bytes)
}

/// `base64::engine::general_purpose::STANDARD.decode`; the error is its display text.
#[verifier::external_body]
pub(crate) fn decode(text: &str) -> (r: Result<Vec<u8>, String>)
    ensures
        match r {
            Ok(bytes) => base64_read(text@) == Ok::<Seq<u8>, Seq<char>>(bytes@),
            Err(e) => base64_read(text@) == Err::<Seq<u8>, Seq<char>>(e@),
        },
{
    base64::engine::general_purpose::STANDARD.decode(text).map_err(|error| error.to_string())
}

/// The text of some bytes, with what is no UTF-8 replaced, as
/// `String::from_utf8_lossy` has it.
pub uninterp spec fn utf8_lossy(bytes: Seq<u8>) -> Seq<char>;

/// `String::from_utf8_lossy`: the text of some bytes, with what is no UTF-8 replaced.
#[verifier::external_body]
pub(crate) fn lossy(bytes: &[u8]) -> (out: String)
    ensures
        out@ == utf8_lossy(bytes@),
{
    String::from_utf8_lossy(bytes).into_owned()
}

/// The lower-case hexadecimal digit of `n`.
pub open spec fn hex(n: int) -> char {
    if n < 10 {
        (0x30 + n) as char
    } else {
        (0x57 + n) as char
    }
}

/// Whether a character is a lower-case hexadecimal digit.
pub open spec fn hex_digit(c: char) -> bool {
    '0' <= c <= '9' || 'a' <= c <= 'f'
}

/// The lower-case hexadecimal form of some bytes, two digits to each.
pub open spec fn hex_of(bytes: Seq<u8>) -> Seq<char>
    decreases bytes.len(),
{
    if bytes.len() == 0 {
        seq![]
    } else {
        hex_of(bytes.drop_last()).push(hex(bytes.last() as int / 16)).push(
            hex(bytes.last() as int % 16),
        )
    }
}

fn hex_char(n: u8) -> (c: char)
    requires
        n < 16,
    ensures
        c == hex(n as int),
{
    if n < 10 {
        (0x30u8 + n) as char
    } else {
        (0x57u8 + n) as char
    }
}

/// The lower-case hexadecimal form of some bytes.
pub fn to_hex(bytes: &[u8]) -> (out: String)
    ensures
        out@ == hex_of(bytes@),
        out@.len() == 2 * bytes@.len(),
{
    let mut out = String::new();
    let mut i: usize = 0;
    assert(bytes@.take(0) =~= seq![]);
    while i < bytes.len()
        invariant
            i <= bytes@.len(),
            out@ == hex_of(bytes@.take(i as int)),
            out@.len() == 2 * i,
        decreases bytes.len() - i,
    {
        let ghost next = bytes@.take(i + 1);
        assert(next.drop_last() =~= bytes@.take(i as int));
        assert(next.last() == bytes@[i as int]);
        let b: u8 = bytes[i];
        out.push(hex_char(b / 16));
        out.push(hex_char(b % 16));
        i += 1;
    }
    assert(bytes@.take(bytes@.len() as int) =~= bytes@);
    out
}

/// Each byte is two digits, the higher half first.
pub proof fn each_byte_is_two_digits(bytes: Seq<u8>, i: int)
    requires
        0 <= i < bytes.len(),
    ensures
        hex_of(bytes).len() == 2 * bytes.len(),
        hex_of(bytes)[2 * i] == hex(bytes[i] as int / 16),
        hex_of(bytes)[2 * i + 1] == hex(bytes[i] as int % 16),
    decreases bytes.len(),
{
    let front = bytes.drop_last();
    hex_length(front);
    if i < front.len() {
        each_byte_is_two_digits(front, i);
    }
}

proof fn hex_length(bytes: Seq<u8>)
    ensures
        hex_of(bytes).len() == 2 * bytes.len(),
    decreases bytes.len(),
{
    if bytes.len() > 0 {
        hex_length(bytes.drop_last());
    }
}

/// Each of the sixteen digits is another.
pub proof fn digits_differ(a: int, b: int)
    requires
        0 <= a < b < 16,
    ensures
        hex(a) != hex(b),
        hex_digit(hex(a)),
        hex(0) == '0',
        hex(9) == '9',
        hex(10) == 'a',
        hex(15) == 'f',
{
}

/// Different bytes are written differently.
pub proof fn different_bytes_are_written_differently(a: Seq<u8>, b: Seq<u8>)
    requires
        hex_of(a) == hex_of(b),
    ensures
        a == b,
{
    hex_length(a);
    hex_length(b);
    assert(a.len() == b.len());
    assert forall|i: int| 0 <= i < a.len() implies a[i] == b[i] by {
        each_byte_is_two_digits(a, i);
        each_byte_is_two_digits(b, i);
        let x = a[i] as int;
        let y = b[i] as int;
        assert(0 <= x / 16 < 16 && 0 <= y / 16 < 16);
        if x / 16 < y / 16 {
            digits_differ(x / 16, y / 16);
        } else if y / 16 < x / 16 {
            digits_differ(y / 16, x / 16);
        }
        if x % 16 < y % 16 {
            digits_differ(x % 16, y % 16);
        } else if y % 16 < x % 16 {
            digits_differ(y % 16, x % 16);
        }
    }
    assert(a =~= b);
}

} // verus!
