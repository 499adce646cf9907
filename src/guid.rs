//! Globally unique identifiers, in their wire form and in their canonical text form.
use vstd::prelude::*;
use vstd::string::*;

use crate::bytes::{u16_le, u32_le};
use crate::Error;

verus! {

/// A 16-byte identifier: a `u32`, two `u16` and eight raw bytes.
#[derive(Debug, Clone, Copy, Eq, Hash)]
pub struct Guid {
    pub data_1: u32,
    pub data_2: u16,
    pub data_3: u16,
    pub data_4: [u8; 8],
}

impl PartialEq for Guid {
    fn eq(&self, o: &Guid) -> (r: bool) {
        let same_tail = self.data_4[0] == o.data_4[0] && self.data_4[1] == o.data_4[1]
            && self.data_4[2] == o.data_4[2] && self.data_4[3] == o.data_4[3] && self.data_4[4]
            == o.data_4[4] && self.data_4[5] == o.data_4[5] && self.data_4[6] == o.data_4[6]
            && self.data_4[7] == o.data_4[7];
        proof {
            if same_tail {
                assert(self.data_4@ =~= o.data_4@);
            }
        }
        self.data_1 == o.data_1 && self.data_2 == o.data_2 && self.data_3 == o.data_3 && same_tail
    }
}

impl vstd::std_specs::cmp::PartialEqSpecImpl for Guid {
    open spec fn obeys_eq_spec() -> bool {
        true
    }

    open spec fn eq_spec(&self, o: &Guid) -> bool {
        self.same(*o)
    }
}

/// Whether `i` is one of the hyphen positions of the canonical text.
pub open spec fn is_hyphen_pos(i: int) -> bool {
    i == 8 || i == 13 || i == 18 || i == 23
}

/// The value of a hexadecimal digit given by its code, or -1 for a code that is no digit.
pub open spec fn hex_value(v: u32) -> int {
    if 48 <= v <= 57 {
        v - 48
    } else if 65 <= v <= 70 {
        v - 55
    } else if 97 <= v <= 102 {
        v - 87
    } else {
        -1
    }
}

/// The upper-case digit that stands for `n < 16`.
pub open spec fn hex_digit(n: int) -> u8 {
    if n < 10 {
        (48 + n) as u8
    } else {
        (55 + n) as u8
    }
}

/// Whether `s` is a GUID in canonical text form: 36 characters, hyphens at
/// positions 8, 13, 18 and 23, and hexadecimal digits elsewhere.
pub open spec fn is_guid_text(s: Seq<char>) -> bool {
    &&& s.len() == 36
    &&& forall|i: int|
        0 <= i < 36 ==> if is_hyphen_pos(i) {
            #[trigger] s[i] == '-'
        } else {
            hex_value(s[i] as u32) >= 0
        }
}

/// How many hyphens come before text position `i`.
pub open spec fn hyphens_before(i: int) -> int {
    (if i > 8 {
        1int
    } else {
        0
    }) + (if i > 13 {
        1int
    } else {
        0
    }) + (if i > 18 {
        1int
    } else {
        0
    }) + (if i > 23 {
        1int
    } else {
        0
    })
}

/// The text position of the first digit of byte `k` in display order.
pub open spec fn digit_pos(k: int) -> int {
    2 * k + (if k >= 4 {
        1int
    } else {
        0
    }) + (if k >= 6 {
        1int
    } else {
        0
    }) + (if k >= 8 {
        1int
    } else {
        0
    }) + (if k >= 10 {
        1int
    } else {
        0
    })
}

/// Byte `k` (in display order) that the canonical text `s` spells.
pub open spec fn text_byte(s: Seq<char>, k: int) -> u8 {
    (hex_value(s[digit_pos(k)] as u32) * 16 + hex_value(s[digit_pos(k) + 1] as u32)) as u8
}

/// The sixteen bytes that the canonical text `s` spells, in display order.
pub open spec fn text_bytes(s: Seq<char>) -> Seq<u8> {
    Seq::new(16, |k: int| text_byte(s, k))
}

/// An upper-case copy of a character, for the letters of hexadecimal digits.
pub open spec fn upper_hex(c: char) -> char {
    if c == 'a' {
        'A'
    } else if c == 'b' {
        'B'
    } else if c == 'c' {
        'C'
    } else if c == 'd' {
        'D'
    } else if c == 'e' {
        'E'
    } else if c == 'f' {
        'F'
    } else {
        c
    }
}

pub open spec fn upper(s: Seq<char>) -> Seq<char> {
    s.map_values(|c: char| upper_hex(c))
}

pub open spec fn ascii_chars(b: Seq<u8>) -> Seq<char> {
    b.map_values(|x: u8| x as char)
}

impl Guid {
    /// Equality of all four fields.
    pub open spec fn same(self, o: Guid) -> bool {
        &&& self.data_1 == o.data_1
        &&& self.data_2 == o.data_2
        &&& self.data_3 == o.data_3
        &&& self.data_4@ == o.data_4@
    }

    /// The 16 bytes of the wire form: the first three fields little-endian,
    /// then the eight raw bytes.
    pub open spec fn wire(self) -> Seq<u8> {
        seq![
            self.data_1 as u8,
            (self.data_1 >> 8u32) as u8,
            (self.data_1 >> 16u32) as u8,
            (self.data_1 >> 24u32) as u8,
            self.data_2 as u8,
            (self.data_2 >> 8u16) as u8,
            self.data_3 as u8,
            (self.data_3 >> 8u16) as u8,
        ] + self.data_4@
    }

    /// Whether this GUID is the one whose wire form is `b`, field by field.
    pub open spec fn decodes(self, b: Seq<u8>) -> bool {
        &&& self.data_1 == u32_le(b, 0)
        &&& self.data_2 == u16_le(b, 4)
        &&& self.data_3 == u16_le(b, 6)
        &&& self.data_4@ == b.subrange(8, 16)
    }

    /// The 16 bytes in display order: the first three fields big-endian, then
    /// the eight raw bytes.
    pub open spec fn canonical(self) -> Seq<u8> {
        seq![
            (self.data_1 >> 24u32) as u8,
            (self.data_1 >> 16u32) as u8,
            (self.data_1 >> 8u32) as u8,
            self.data_1 as u8,
            (self.data_2 >> 8u16) as u8,
            self.data_2 as u8,
            (self.data_3 >> 8u16) as u8,
            self.data_3 as u8,
        ] + self.data_4@
    }

    /// The canonical text, as ASCII codes: upper-case digits with hyphens.
    pub open spec fn text(self) -> Seq<u8> {
        Seq::new(
            36,
            |i: int|
                if is_hyphen_pos(i) {
                    45u8
                } else {
                    let j = i - hyphens_before(i);
                    let b = self.canonical()[j / 2];
                    if j % 2 == 0 {
                        hex_digit(b as int / 16)
                    } else {
                        hex_digit(b as int % 16)
                    }
                },
        )
    }

    /// Whether this GUID has the given four fields.
    pub open spec fn has_fields(self, d1: u32, d2: u16, d3: u16, d4: Seq<u8>) -> bool {
        &&& self.data_1 == d1
        &&& self.data_2 == d2
        &&& self.data_3 == d3
        &&& self.data_4@ == d4
    }

    pub open spec fn is_zero(self) -> bool {
        self.has_fields(0, 0, 0, seq![0u8; 8])
    }

    pub fn new(data_1: u32, data_2: u16, data_3: u16, data_4: [u8; 8]) -> (r: Self)
        ensures
            r.data_1 == data_1,
            r.data_2 == data_2,
            r.data_3 == data_3,
            r.data_4 == data_4,
    {
        Self { data_1, data_2, data_3, data_4 }
    }

    /// The all-zero GUID.
    pub fn zero() -> (r: Self)
        ensures
            r.is_zero(),
    {
        let r = Self { data_1: 0, data_2: 0, data_3: 0, data_4: [0u8; 8] };
        assert(r.data_4@ =~= seq![0u8; 8]);
        r
    }

    /// Decodes the wire form.
    pub fn from_bytes(bytes: [u8; 16]) -> (r: Self)
        ensures
            r.decodes(bytes@),
    {
        let r = Self {
            data_1: (bytes[0] as u32) | ((bytes[1] as u32) << 8u32) | ((bytes[2] as u32) << 16u32)
                | ((bytes[3] as u32) << 24u32),
            data_2: (bytes[4] as u16) | ((bytes[5] as u16) << 8u16),
            data_3: (bytes[6] as u16) | ((bytes[7] as u16) << 8u16),
            data_4: [
                bytes[8],
                bytes[9],
                bytes[10],
                bytes[11],
                bytes[12],
                bytes[13],
                bytes[14],
                bytes[15],
            ],
        };
        assert(r.data_4@ =~= bytes@.subrange(8, 16));
        r
    }

    /// Decodes the wire form at `s[i..i + 16]`.
    pub fn read(s: &[u8], i: usize) -> (r: Self)
        requires
            i + 16 <= s@.len(),
        ensures
            r.decodes(s@.subrange(i as int, i + 16)),
    {
        let b = [
            s[i],
            s[i + 1],
            s[i + 2],
            s[i + 3],
            s[i + 4],
            s[i + 5],
            s[i + 6],
            s[i + 7],
            s[i + 8],
            s[i + 9],
            s[i + 10],
            s[i + 11],
            s[i + 12],
            s[i + 13],
            s[i + 14],
            s[i + 15],
        ];
        assert(b@ =~= s@.subrange(i as int, i + 16));
        Self::from_bytes(b)
    }

    /// Parses the canonical text form `XXXXXXXX-XXXX-XXXX-XXXX-XXXXXXXXXXXX`,
    /// in upper or lower case; the first three fields are written big-endian.
    pub fn from_str(value: &str) -> (r: Result<Self, Error>)
        ensures
            r is Ok <==> is_guid_text(value@),
            r matches Ok(g) ==> g.canonical() == text_bytes(value@),
            r is Err ==> r == Err::<Self, Error>(Error::BadFormat),
    {
        if value.unicode_len() != 36 {
            return Err(Error::BadFormat);
        }
        let mut i: usize = 0;
        while i < 36
            invariant
                value@.len() == 36,
                i <= 36,
                forall|j: int|
                    0 <= j < i ==> if is_hyphen_pos(j) {
                        #[trigger] value@[j] == '-'
                    } else {
                        hex_value(value@[j] as u32) >= 0
                    },
            decreases 36 - i,
        {
            let c = value.get_char(i);
            if i == 8 || i == 13 || i == 18 || i == 23 {
                if c != '-' {
                    return Err(Error::BadFormat);
                }
            } else if (c as u32) >= 128 || hex_digit_to_nibble(c as u8).is_none() {
                return Err(Error::BadFormat);
            }
            i += 1;
        }
        let b0 = hex_pair(value, 0);
        let b1 = hex_pair(value, 2);
        let b2 = hex_pair(value, 4);
        let b3 = hex_pair(value, 6);
        let b4 = hex_pair(value, 9);
        let b5 = hex_pair(value, 11);
        let b6 = hex_pair(value, 14);
        let b7 = hex_pair(value, 16);
        let g = Self {
            data_1: ((b0 as u32) << 24u32) | ((b1 as u32) << 16u32) | ((b2 as u32) << 8u32) | (
            b3 as u32),
            data_2: ((b4 as u16) << 8u16) | (b5 as u16),
            data_3: ((b6 as u16) << 8u16) | (b7 as u16),
            data_4: [
                hex_pair(value, 19),
                hex_pair(value, 21),
                hex_pair(value, 24),
                hex_pair(value, 26),
                hex_pair(value, 28),
                hex_pair(value, 30),
                hex_pair(value, 32),
                hex_pair(value, 34),
            ],
        };
        proof {
            lemma_be32(b0, b1, b2, b3);
            lemma_be16(b4, b5);
            lemma_be16(b6, b7);
            assert(g.canonical() =~= text_bytes(value@));
        }
        Ok(g)
    }

    /// The bytes in display order.
    fn canonical_bytes(&self) -> (r: [u8; 16])
        ensures
            r@ == self.canonical(),
    {
        let d = self.data_4;
        let r = [
            (self.data_1 >> 24u32) as u8,
            (self.data_1 >> 16u32) as u8,
            (self.data_1 >> 8u32) as u8,
            self.data_1 as u8,
            (self.data_2 >> 8u16) as u8,
            self.data_2 as u8,
            (self.data_3 >> 8u16) as u8,
            self.data_3 as u8,
            d[0],
            d[1],
            d[2],
            d[3],
            d[4],
            d[5],
            d[6],
            d[7],
        ];
        assert(r@ =~= self.canonical());
        r
    }

    /// The canonical text as ASCII codes.
    pub fn to_ascii(&self) -> (r: Vec<u8>)
        ensures
            r@ == self.text(),
    {
        let c = self.canonical_bytes();
        let mut v: Vec<u8> = Vec::new();
        let mut i: usize = 0;
        while i < 36
            invariant
                i <= 36,
                c@ == self.canonical(),
                v@ == self.text().subrange(0, i as int),
            decreases 36 - i,
        {
            if i == 8 || i == 13 || i == 18 || i == 23 {
                v.push(45u8);
            } else {
                let h: usize = if i > 23 {
                    4
                } else if i > 18 {
                    3
                } else if i > 13 {
                    2
                } else if i > 8 {
                    1
                } else {
                    0
                };
                let j = i - h;
                let b = c[j / 2];
                let d = if j % 2 == 0 {
                    b / 16
                } else {
                    b % 16
                };
                let digit = if d < 10 {
                    48 + d
                } else {
                    55 + d
                };
                v.push(digit);
            }
            proof {
                assert(v@ =~= self.text().subrange(0, i + 1));
            }
            i += 1;
        }
        v
    }

    /// The canonical text: upper-case digits with hyphens.
    pub fn to_text(&self) -> (r: String)
        ensures
            r@ == ascii_chars(self.text()),
    {
        let v = self.to_ascii();
        proof {
            assert forall|i: int| 0 <= i < v@.len() implies v@[i] < 128 by {
                if !is_hyphen_pos(i) {
                    let j = i - hyphens_before(i);
                    let b = self.canonical()[j / 2];
                    assert(b as int / 16 < 16);
                }
            }
        }
        string_from_ascii(v)
    }

    /// Encodes the wire form.
    pub fn to_bytes(&self) -> (r: [u8; 16])
        ensures
            r@ == self.wire(),
    {
        let d = self.data_4;
        let r = [
            self.data_1 as u8,
            (self.data_1 >> 8u32) as u8,
            (self.data_1 >> 16u32) as u8,
            (self.data_1 >> 24u32) as u8,
            self.data_2 as u8,
            (self.data_2 >> 8u16) as u8,
            self.data_3 as u8,
            (self.data_3 >> 8u16) as u8,
            d[0],
            d[1],
            d[2],
            d[3],
            d[4],
            d[5],
            d[6],
            d[7],
        ];
        assert(r@ =~= self.wire());
        r
    }
}

/// Relies on `String::from_utf8`: ASCII bytes are valid UTF-8, one character each.
#[verifier::external_body]
fn string_from_ascii(b: Vec<u8>) -> (r: String)
    requires
        forall|i: int| 0 <= i < b@.len() ==> b@[i] < 128,
    ensures
        r@ == ascii_chars(b@),
{
    match String::from_utf8(b) {
        Ok(s) => s,
        Err(_) => String::new(),
    }
}

/// The value of a hexadecimal digit, upper or lower case.
pub fn hex_digit_to_nibble(input: u8) -> (r: Option<u8>)
    ensures
        r is Some <==> hex_value(input as u32) >= 0,
        r matches Some(n) ==> n as int == hex_value(input as u32),
{
    if 48u8 <= input && input <= 57u8 {
        Some(input - 48u8)
    } else if 97u8 <= input && input <= 102u8 {
        Some(input - 87u8)
    } else if 65u8 <= input && input <= 70u8 {
        Some(input - 55u8)
    } else {
        None
    }
}

/// The byte spelled by the two hexadecimal digits at `s[p]` and `s[p + 1]`.
fn hex_pair(s: &str, p: usize) -> (r: u8)
    requires
        p < 35,
        s@.len() == 36,
        hex_value(s@[p as int] as u32) >= 0,
        hex_value(s@[p + 1] as u32) >= 0,
    ensures
        r == (hex_value(s@[p as int] as u32) * 16 + hex_value(s@[p + 1] as u32)) as u8,
{
    let hi = hex_digit_to_nibble(s.get_char(p) as u8);
    let lo = hex_digit_to_nibble(s.get_char(p + 1) as u8);
    match (hi, lo) {
        (Some(h), Some(l)) => h * 16 + l,
        _ => 0,
    }
}

proof fn lemma_be32(b0: u8, b1: u8, b2: u8, b3: u8)
    ensures
        ({
            let x = ((b0 as u32) << 24u32) | ((b1 as u32) << 16u32) | ((b2 as u32) << 8u32) | (
            b3 as u32);
            &&& (x >> 24u32) as u8 == b0
            &&& (x >> 16u32) as u8 == b1
            &&& (x >> 8u32) as u8 == b2
            &&& x as u8 == b3
        }),
{
    assert(({
        let x = ((b0 as u32) << 24u32) | ((b1 as u32) << 16u32) | ((b2 as u32) << 8u32) | (
        b3 as u32);
        &&& (x >> 24u32) as u8 == b0
        &&& (x >> 16u32) as u8 == b1
        &&& (x >> 8u32) as u8 == b2
        &&& x as u8 == b3
    })) by (bit_vector);
}

proof fn lemma_be16(b0: u8, b1: u8)
    ensures
        ({
            let x = ((b0 as u16) << 8u16) | (b1 as u16);
            (x >> 8u16) as u8 == b0 && x as u8 == b1
        }),
{
    assert(({
        let x = ((b0 as u16) << 8u16) | (b1 as u16);
        (x >> 8u16) as u8 == b0 && x as u8 == b1
    })) by (bit_vector);
}

proof fn lemma_le32(b0: u8, b1: u8, b2: u8, b3: u8)
    ensures
        ({
            let x = (b0 as u32) | ((b1 as u32) << 8u32) | ((b2 as u32) << 16u32) | ((b3 as u32)
                << 24u32);
            &&& x as u8 == b0
            &&& (x >> 8u32) as u8 == b1
            &&& (x >> 16u32) as u8 == b2
            &&& (x >> 24u32) as u8 == b3
        }),
{
    assert(({
        let x = (b0 as u32) | ((b1 as u32) << 8u32) | ((b2 as u32) << 16u32) | ((b3 as u32)
            << 24u32);
        &&& x as u8 == b0
        &&& (x >> 8u32) as u8 == b1
        &&& (x >> 16u32) as u8 == b2
        &&& (x >> 24u32) as u8 == b3
    })) by (bit_vector);
}

proof fn lemma_le16(b0: u8, b1: u8)
    ensures
        ({
            let x = (b0 as u16) | ((b1 as u16) << 8u16);
            x as u8 == b0 && (x >> 8u16) as u8 == b1
        }),
{
    assert(({
        let x = (b0 as u16) | ((b1 as u16) << 8u16);
        x as u8 == b0 && (x >> 8u16) as u8 == b1
    })) by (bit_vector);
}

/// Decoding 16 bytes of wire form and encoding the result gives the same 16 bytes.
pub proof fn lemma_wire_round_trip(b: Seq<u8>, g: Guid)
    requires
        b.len() == 16,
        g.decodes(b),
    ensures
        g.wire() == b,
{
    lemma_le32(b[0], b[1], b[2], b[3]);
    lemma_le16(b[4], b[5]);
    lemma_le16(b[6], b[7]);
    assert(g.wire() =~= b);
}

/// Encoding a GUID and decoding the bytes gives the GUID's fields back.
pub proof fn lemma_wire_decodes(g: Guid)
    ensures
        g.decodes(g.wire()),
{
    let x = g.data_1;
    let y = g.data_2;
    let z = g.data_3;
    assert(x == ((x as u8) as u32) | (((x >> 8u32) as u8) as u32) << 8u32 | (((x >> 16u32) as u8)
        as u32) << 16u32 | (((x >> 24u32) as u8) as u32) << 24u32) by (bit_vector);
    assert(y == ((y as u8) as u16) | (((y >> 8u16) as u8) as u16) << 8u16) by (bit_vector);
    assert(z == ((z as u8) as u16) | (((z >> 8u16) as u8) as u16) << 8u16) by (bit_vector);
    assert(g.wire().subrange(8, 16) =~= g.data_4@);
}

/// Two GUIDs have the same wire form exactly when their fields agree.
pub proof fn lemma_wire_same(g: Guid, h: Guid)
    ensures
        g.same(h) <==> g.wire() == h.wire(),
{
    if g.wire() == h.wire() {
        lemma_wire_decodes(g);
        lemma_wire_decodes(h);
    }
}

/// A hexadecimal digit read and written again comes out in upper case.
proof fn lemma_hex_digit_char(c: char)
    requires
        hex_value(c as u32) >= 0,
    ensures
        hex_digit(hex_value(c as u32)) as char == upper_hex(c),
{
}

/// Parsing a canonical text and displaying the result gives the text in upper case.
pub proof fn lemma_text_round_trip(s: Seq<char>, g: Guid)
    requires
        is_guid_text(s),
        g.canonical() == text_bytes(s),
    ensures
        ascii_chars(g.text()) == upper(s),
{
    assert forall|i: int| 0 <= i < 36 implies ascii_chars(g.text())[i] == upper(s)[i] by {
        if is_hyphen_pos(i) {
            assert(s[i] == '-');
        } else {
            let j = i - hyphens_before(i);
            let k = j / 2;
            assert(digit_pos(k) == i - j % 2);
            assert(hex_value(s[i] as u32) >= 0);
            let hv = hex_value(s[digit_pos(k)] as u32);
            let lv = hex_value(s[digit_pos(k) + 1] as u32);
            assert(hex_value(s[digit_pos(k)] as u32) >= 0);
            assert(hex_value(s[digit_pos(k) + 1] as u32) >= 0);
            assert(g.canonical()[k] == text_byte(s, k));
            assert((hv * 16 + lv) as u8 as int == hv * 16 + lv);
            assert((hv * 16 + lv) / 16 == hv);
            assert((hv * 16 + lv) % 16 == lv);
            lemma_hex_digit_char(s[i]);
        }
    }
    assert(ascii_chars(g.text()) =~= upper(s));
}

} // verus!
