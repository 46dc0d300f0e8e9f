//! Length prefixes and record headers.
use vstd::prelude::*;
use vstd::string::*;

verus! {

/// The shortest body that a record header announces: one byte and a tag.
pub const MIN_BODY: usize = 17;

/// The longest body that a record header announces, as in TLS 1.3.
pub const MAX_BODY: usize = 16640;

/// The low sixteen bits of `l` as two big-endian bytes.
pub open spec fn length_bytes(l: nat) -> Seq<u8> {
    seq![(l / 0x100 % 0x100) as u8, (l % 0x100) as u8]
}

/// The number in the first two bytes of `b`, big-endian.
pub open spec fn length_value(b: Seq<u8>) -> nat {
    (0x100 * b[0] + b[1]) as nat
}

/// The header of a TLS 1.3 application-data record with a body of `l` bytes.
pub open spec fn header_bytes(l: nat) -> Seq<u8> {
    seq![23u8, 3u8, 3u8] + length_bytes(l)
}

/// The body length that a header announces, if it is a record header and the
/// length is one that a record can have.
pub open spec fn header_value(h: Seq<u8>) -> Option<nat> {
    let l = length_value(h.skip(3));
    if h[0] == 23 && h[1] == 3 && h[2] == 3 && MIN_BODY <= l <= MAX_BODY {
        Some(l)
    } else {
        None
    }
}

/// The number `n` in decimal.
pub open spec fn decimal(n: nat) -> Seq<char>
    decreases n,
{
    if n < 10 {
        seq![('0' as int + n) as char]
    } else {
        decimal(n / 10).push(('0' as int + n % 10) as char)
    }
}

/// The bytes of a header as a list of decimal numbers.
pub open spec fn header_list(h: Seq<u8>) -> Seq<char> {
    "["@ + decimal(h[0] as nat) + ", "@ + decimal(h[1] as nat) + ", "@ + decimal(h[2] as nat)
        + ", "@ + decimal(h[3] as nat) + ", "@ + decimal(h[4] as nat) + "]"@
}

/// The low sixteen bits of `l` as two big-endian bytes.
pub fn encode_length(l: usize) -> (b: [u8; 2])
    ensures
        b@ == length_bytes(l as nat),
        b@[0] == l / 256 % 256,
        b@[1] == l % 256,
{
    let b: [u8; 2] = [(l / 0x100 % 0x100) as u8, (l % 0x100) as u8];
    assert(b@ =~= length_bytes(l as nat));
    b
}

/// The number in the first two bytes of `b`, big-endian.
pub fn decode_length(b: &[u8]) -> (l: usize)
    requires
        b@.len() >= 2,
    ensures
        l == length_value(b@),
        l == 256 * b@[0] + b@[1],
{
    0x100 * b[0] as usize + b[1] as usize
}

/// A record header that looks like TLS 1.3 application data.
pub fn encode_header(l: usize) -> (h: [u8; 5])
    ensures
        h@ == header_bytes(l as nat),
        h@[0] == 23,
        h@[1] == 3,
        h@[2] == 3,
        h@[3] == l / 256 % 256,
        h@[4] == l % 256,
{
    let h: [u8; 5] = [23, 3, 3, (l / 0x100 % 0x100) as u8, (l % 0x100) as u8];
    assert(h@ =~= header_bytes(l as nat));
    h
}

/// A record header that cannot be read: wrong prefix, or a body length that no
/// record has.
#[derive(Debug, Clone, Copy, PartialEq, Eq)]
pub struct InvalidHeader {
    pub header: [u8; 5],
}

/// The decimal digit `d` as text.
fn digit(d: u8) -> (text: &'static str)
    requires
        d < 10,
    ensures
        text@ == decimal(d as nat),
{
    proof {
        reveal_strlit("0");
        reveal_strlit("1");
        reveal_strlit("2");
        reveal_strlit("3");
        reveal_strlit("4");
        reveal_strlit("5");
        reveal_strlit("6");
        reveal_strlit("7");
        reveal_strlit("8");
        reveal_strlit("9");
    }
    let text = match d {
        0 => "0",
        1 => "1",
        2 => "2",
        3 => "3",
        4 => "4",
        5 => "5",
        6 => "6",
        7 => "7",
        8 => "8",
        _ => "9",
    };
    assert(text@ =~= decimal(d as nat));
    text
}

/// Appends `n` in decimal to `text`.
fn append_decimal(text: &mut String, n: u8)
    ensures
        final(text)@ == old(text)@ + decimal(n as nat),
    decreases n,
{
    let ghost before = text@;
    if n >= 10 {
        append_decimal(text, n / 10);
    }
    text.append(digit(n % 10));
    assert(text@ =~= before + decimal(n as nat));
}

impl InvalidHeader {
    /// The error in words, with the bytes of the header.
    pub fn message(&self) -> (text: String)
        ensures
            text@ == "vless-encryption: invalid record header: "@ + header_list(self.header@),
            text@ == "vless-encryption: invalid record header: "@ + "["@ + decimal(
                self.header@[0] as nat,
            ) + ", "@ + decimal(self.header@[1] as nat) + ", "@ + decimal(self.header@[2] as nat)
                + ", "@ + decimal(self.header@[3] as nat) + ", "@ + decimal(self.header@[4] as nat)
                + "]"@,
    {
        let mut text = "vless-encryption: invalid record header: ".to_owned();
        text.append("[");
        append_decimal(&mut text, self.header[0]);
        text.append(", ");
        append_decimal(&mut text, self.header[1]);
        text.append(", ");
        append_decimal(&mut text, self.header[2]);
        text.append(", ");
        append_decimal(&mut text, self.header[3]);
        text.append(", ");
        append_decimal(&mut text, self.header[4]);
        text.append("]");
        assert(text@ =~= "vless-encryption: invalid record header: "@ + header_list(self.header@));
        assert(text@ =~= "vless-encryption: invalid record header: "@ + "["@ + decimal(
            self.header@[0] as nat,
        ) + ", "@ + decimal(self.header@[1] as nat) + ", "@ + decimal(self.header@[2] as nat)
            + ", "@ + decimal(self.header@[3] as nat) + ", "@ + decimal(self.header@[4] as nat)
            + "]"@);
        text
    }
}

/// The body length that a record header announces.
pub fn decode_header(h: &[u8; 5]) -> (l: Result<usize, InvalidHeader>)
    ensures
        match l {
            Ok(l) => header_value(h@) == Some(l as nat),
            Err(e) => header_value(h@) is None && e.header == *h,
        },
        match l {
            Ok(l) => l == 256 * h@[3] + h@[4],
            Err(e) => e.header@ == h@,
        },
        l is Ok <==> h@[0] == 23 && h@[1] == 3 && h@[2] == 3 && 17 <= 256 * h@[3] + h@[4] <= 16640,
{
    let l: usize = 0x100 * h[3] as usize + h[4] as usize;
    if h[0] != 23 || h[1] != 3 || h[2] != 3 || l < MIN_BODY || l > MAX_BODY {
        return Err(InvalidHeader { header: *h });
    }
    Ok(l)
}

/// A length prefix is two bytes: how many times 256 goes into the length, as far as
/// a byte holds it, and what is left over.
pub proof fn law_length_is_big_endian(l: nat)
    ensures
        length_bytes(l).len() == 2,
        length_bytes(l)[0] == l / 256 % 256,
        length_bytes(l)[1] == l % 256,
{
}

/// The first byte of a length prefix counts 256 times as much as the second, and
/// what follows the two does not matter.
pub proof fn law_length_is_read_big_endian(b: Seq<u8>)
    requires
        b.len() >= 2,
    ensures
        length_value(b) == 256 * b[0] + b[1],
{
}

/// A header is the bytes 23, 3 and 3, then the length with the larger part first.
pub proof fn law_header_layout(l: nat)
    ensures
        header_bytes(l).len() == 5,
        header_bytes(l)[0] == 23,
        header_bytes(l)[1] == 3,
        header_bytes(l)[2] == 3,
        header_bytes(l)[3] == l / 256 % 256,
        header_bytes(l)[4] == l % 256,
{
}

/// A header is accepted exactly where it starts with 23, 3 and 3 and announces
/// 17 to 16640 bytes, the fourth byte counting 256 times as much as the fifth.
pub proof fn law_header_acceptance(h: Seq<u8>)
    requires
        h.len() == 5,
    ensures
        header_value(h) is Some <==> h[0] == 23 && h[1] == 3 && h[2] == 3 && 17 <= 256 * h[3] + h[4]
            <= 16640,
        header_value(h) is Some ==> header_value(h)->0 == 256 * h[3] + h[4],
{
}

/// Writing a number in decimal gives its digits, the last one its remainder by
/// ten, without leading zeros, and reading the digits gives the number.
pub proof fn law_decimal_digits(n: nat)
    ensures
        decimal(n).len() > 0,
        forall|i: int| 0 <= i < decimal(n).len() ==> '0' <= #[trigger] decimal(n)[i] <= '9',
        decimal(n)[0] == '0' ==> n == 0 && decimal(n).len() == 1,
        decimal(n).last() as int - '0' as int == n % 10,
        n >= 10 ==> decimal(n).drop_last() == decimal(n / 10),
        n < 10 ==> decimal(n).len() == 1,
        crate::number::digits_value(decimal(n)) == n,
    decreases n,
{
    if n >= 10 {
        law_decimal_digits(n / 10);
        assert(decimal(n).drop_last() =~= decimal(n / 10));
    } else {
        reveal_with_fuel(crate::number::digits_value, 2);
    }
}

/// A length prefix reads back as the length, up to sixteen bits.
pub proof fn law_length_round_trip(l: nat)
    ensures
        length_value(length_bytes(l)) == l % 0x1_0000,
        l < 0x1_0000 ==> length_value(length_bytes(l)) == l,
{
}

/// Two bytes are the prefix of the length that they read as.
pub proof fn law_length_is_canonical(b: Seq<u8>)
    requires
        b.len() == 2,
    ensures
        length_bytes(length_value(b)) == b,
{
    assert(length_bytes(length_value(b)) =~= b);
}

/// A header reads back as the low sixteen bits of the length where a record can
/// have such a body, and is rejected elsewhere.
pub proof fn law_header_round_trip(l: nat)
    ensures
        header_value(header_bytes(l)) == if MIN_BODY <= l % 0x1_0000 <= MAX_BODY {
            Some((l % 0x1_0000) as nat)
        } else {
            None
        },
        MIN_BODY <= l <= MAX_BODY ==> header_value(header_bytes(l)) == Some(l),
{
    assert(header_bytes(l).skip(3) =~= length_bytes(l));
}

/// The only header that reads as a given length is the one written for it.
pub proof fn law_header_is_canonical(h: Seq<u8>)
    requires
        h.len() == 5,
        header_value(h) is Some,
    ensures
        header_bytes(header_value(h)->0) == h,
{
    law_length_is_canonical(h.skip(3));
    assert(header_bytes(header_value(h)->0) =~= h);
}

} // verus!
