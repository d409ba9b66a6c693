//! The identifier generator: a globally-unique identity value in canonical
//! 8-4-4-4-12 grouped lowercase-hex form, with the version nibble forced to
//! `4` and the variant nibble forced to `8`, `9`, `a` or `b`.

use vstd::prelude::*;

use crate::text::ascii_string;

verus! {

/// A lowercase hexadecimal digit.
pub open spec fn is_hex_digit(c: char) -> bool {
    ('0' <= c && c <= '9') || ('a' <= c && c <= 'f')
}

/// The canonical identifier format: 36 characters, hyphens at positions
/// 8, 13, 18 and 23, lowercase hex digits everywhere else, the version
/// nibble pinned to `4` and the variant nibble to `8`, `9`, `a` or `b`.
pub open spec fn uuid_wf(s: Seq<char>) -> bool {
    &&& s.len() == 36
    &&& forall|i: int|
        0 <= i < 36 ==> if i == 8 || i == 13 || i == 18 || i == 23 {
            s[i] == '-'
        } else {
            is_hex_digit(#[trigger] s[i])
        }
    &&& s[14] == '4'
    &&& (s[19] == '8' || s[19] == '9' || s[19] == 'a' || s[19] == 'b')
}

/// The ASCII byte of the lowercase hex digit for a nibble.
pub open spec fn hex_digit_byte(n: u8) -> u8 {
    if n < 10 {
        (48 + n) as u8
    } else {
        (87 + n) as u8
    }
}

/// The four lowercase hex digit bytes of a 16-bit group, most significant
/// nibble first, zero-padded.
pub open spec fn hex4_bytes(w: u16) -> Seq<u8> {
    seq![
        hex_digit_byte(((w >> 12) & 0xf) as u8),
        hex_digit_byte(((w >> 8) & 0xf) as u8),
        hex_digit_byte(((w >> 4) & 0xf) as u8),
        hex_digit_byte((w & 0xf) as u8),
    ]
}

/// A byte that encodes a lowercase hex digit.
pub open spec fn is_hex_digit_byte(b: u8) -> bool {
    (48 <= b && b <= 57) || (97 <= b && b <= 102)
}

proof fn lemma_hex4_bytes_hex(w: u16)
    ensures
        forall|k: int| 0 <= k < 4 ==> is_hex_digit_byte(#[trigger] hex4_bytes(w)[k]),
        forall|k: int| 0 <= k < 4 ==> #[trigger] hex4_bytes(w)[k] < 128,
{
    assert((w >> 12) & 0xf < 16) by (bit_vector);
    assert((w >> 8) & 0xf < 16) by (bit_vector);
    assert((w >> 4) & 0xf < 16) by (bit_vector);
    assert(w & 0xf < 16) by (bit_vector);
}

/// Relies on `rand::random`: a fresh 16-bit value from the process-wide
/// random source. Nothing is promised of the value itself.
#[verifier::external_body]
fn random_u16() -> u16 {
    rand::random::<u16>()
}

/// Appends the four hex digit bytes of `w` to `out`.
fn push_hex4(out: &mut Vec<u8>, w: u16)
    ensures
        final(out)@ == old(out)@ + hex4_bytes(w),
{
    proof {
        assert((w >> 12) & 0xf < 16) by (bit_vector);
        assert((w >> 8) & 0xf < 16) by (bit_vector);
        assert((w >> 4) & 0xf < 16) by (bit_vector);
        assert(w & 0xf < 16) by (bit_vector);
    }
    let n0 = ((w >> 12) & 0xf) as u8;
    let n1 = ((w >> 8) & 0xf) as u8;
    let n2 = ((w >> 4) & 0xf) as u8;
    let n3 = (w & 0xf) as u8;
    out.push(hex_digit(n0));
    out.push(hex_digit(n1));
    out.push(hex_digit(n2));
    out.push(hex_digit(n3));
    assert(final(out)@ =~= old(out)@ + hex4_bytes(w));
}

fn hex_digit(n: u8) -> (r: u8)
    requires
        n < 16,
    ensures
        r == hex_digit_byte(n),
{
    if n < 10 {
        48 + n
    } else {
        87 + n
    }
}

/// A generated unique identity value, in canonical grouped-hex form.
///
/// Equality is by string value; once constructed the value is immutable.
/// A value can also be reconstructed verbatim from a stored string, with
/// no re-validation: the system only reconstructs what it itself stored.
#[derive(Debug, Clone)]
pub struct Uuid {
    pub uuid: String,
}

impl View for Uuid {
    type V = Seq<char>;

    open spec fn view(&self) -> Seq<char> {
        self.uuid@
    }
}

impl Uuid {
    /// Generates a fresh random identifier: eight random 16-bit groups,
    /// the version group's top nibble forced to `4` and the variant
    /// group's top two bits forced to `10`, formatted as five
    /// hyphen-separated lowercase-hex groups of lengths 8-4-4-4-12.
    pub fn new() -> (r: Self)
        ensures
            uuid_wf(r@),
    {
        let w0 = random_u16();
        let w1 = random_u16();
        let w2 = random_u16();
        let r3 = random_u16();
        let r4 = random_u16();
        let w3 = (r3 & 0x0fff) | 0x4000;
        let w4 = (r4 & 0x3fff) | 0x8000;
        proof {
            assert(((r3 & 0x0fff) | 0x4000) & 0xf000 == 0x4000) by (bit_vector);
            assert(((r4 & 0x3fff) | 0x8000) & 0xc000 == 0x8000) by (bit_vector);
        }
        let w5 = random_u16();
        let w6 = random_u16();
        let w7 = random_u16();
        let mut b: Vec<u8> = Vec::new();
        push_hex4(&mut b, w0);
        push_hex4(&mut b, w1);
        b.push(45);
        push_hex4(&mut b, w2);
        b.push(45);
        push_hex4(&mut b, w3);
        b.push(45);
        push_hex4(&mut b, w4);
        b.push(45);
        push_hex4(&mut b, w5);
        push_hex4(&mut b, w6);
        push_hex4(&mut b, w7);
        let ghost bs = b@;
        proof {
            assert(bs =~= hex4_bytes(w0) + hex4_bytes(w1) + seq![45u8] + hex4_bytes(w2)
                + seq![45u8] + hex4_bytes(w3) + seq![45u8] + hex4_bytes(w4) + seq![45u8]
                + hex4_bytes(w5) + hex4_bytes(w6) + hex4_bytes(w7));
            lemma_uuid_bytes(bs, w0, w1, w2, w3, w4, w5, w6, w7);
        }
        let s = ascii_string(b);
        let r = Uuid { uuid: s };
        proof {
            lemma_uuid_chars(bs, r@);
        }
        r
    }
}

impl Default for Uuid {
    /// A freshly generated random identifier.
    fn default() -> (r: Self)
        ensures
            uuid_wf(r@),
    {
        Uuid::new()
    }
}

impl From<String> for Uuid {
    /// Wraps a stored identifier string verbatim, with no re-validation.
    fn from(value: String) -> (r: Self) {
        Uuid { uuid: value }
    }
}

impl vstd::std_specs::convert::FromSpecImpl<String> for Uuid {
    open spec fn obeys_from_spec() -> bool {
        true
    }

    open spec fn from_spec(value: String) -> Self {
        Uuid { uuid: value }
    }
}

spec fn uuid_bytes_wf(bs: Seq<u8>) -> bool {
    &&& bs.len() == 36
    &&& forall|i: int|
        0 <= i < 36 ==> if i == 8 || i == 13 || i == 18 || i == 23 {
            bs[i] == 45
        } else {
            is_hex_digit_byte(#[trigger] bs[i])
        }
    &&& bs[14] == 52
    &&& (bs[19] == 56 || bs[19] == 57 || bs[19] == 97 || bs[19] == 98)
}

proof fn lemma_uuid_bytes(bs: Seq<u8>, w0: u16, w1: u16, w2: u16, w3: u16, w4: u16, w5: u16, w6: u16, w7: u16)
    requires
        bs =~= hex4_bytes(w0) + hex4_bytes(w1) + seq![45u8] + hex4_bytes(w2) + seq![45u8]
            + hex4_bytes(w3) + seq![45u8] + hex4_bytes(w4) + seq![45u8] + hex4_bytes(w5)
            + hex4_bytes(w6) + hex4_bytes(w7),
        w3 & 0xf000 == 0x4000,
        w4 & 0xc000 == 0x8000,
    ensures
        uuid_bytes_wf(bs),
        forall|k: int| 0 <= k < bs.len() ==> #[trigger] bs[k] < 128,
{
    lemma_hex4_bytes_hex(w0);
    lemma_hex4_bytes_hex(w1);
    lemma_hex4_bytes_hex(w2);
    lemma_hex4_bytes_hex(w3);
    lemma_hex4_bytes_hex(w4);
    lemma_hex4_bytes_hex(w5);
    lemma_hex4_bytes_hex(w6);
    lemma_hex4_bytes_hex(w7);
    assert(w3 & 0xf000 == 0x4000 ==> (w3 >> 12) & 0xf == 4) by (bit_vector);
    assert(w4 & 0xc000 == 0x8000 ==> {
        let n = (w4 >> 12) & 0xf;
        n == 8 || n == 9 || n == 10 || n == 11
    }) by (bit_vector);
    assert(bs[8] == 45 && bs[13] == 45 && bs[18] == 45 && bs[23] == 45);
    assert(bs[14] == hex4_bytes(w3)[0]);
    assert(bs[19] == hex4_bytes(w4)[0]);
    assert forall|i: int| 0 <= i < 36 && i != 8 && i != 13 && i != 18 && i != 23
        implies is_hex_digit_byte(#[trigger] bs[i]) by {
        if i < 8 {
            if i < 4 {
                assert(bs[i] == hex4_bytes(w0)[i]);
            } else {
                assert(bs[i] == hex4_bytes(w1)[i - 4]);
            }
        } else if i < 13 {
            assert(bs[i] == hex4_bytes(w2)[i - 9]);
        } else if i < 18 {
            assert(bs[i] == hex4_bytes(w3)[i - 14]);
        } else if i < 23 {
            assert(bs[i] == hex4_bytes(w4)[i - 19]);
        } else if i < 28 {
            assert(bs[i] == hex4_bytes(w5)[i - 24]);
        } else if i < 32 {
            assert(bs[i] == hex4_bytes(w6)[i - 28]);
        } else {
            assert(bs[i] == hex4_bytes(w7)[i - 32]);
        }
    }
    assert forall|k: int| 0 <= k < bs.len() implies #[trigger] bs[k] < 128 by {
        if k == 8 || k == 13 || k == 18 || k == 23 {
            assert(bs[k] == 45);
        } else {
            assert(is_hex_digit_byte(bs[k]));
        }
    }
}

proof fn lemma_uuid_chars(bs: Seq<u8>, s: Seq<char>)
    requires
        uuid_bytes_wf(bs),
        s == bs.map(|k: int, b: u8| b as char),
        forall|k: int| 0 <= k < bs.len() ==> #[trigger] bs[k] < 128,
    ensures
        uuid_wf(s),
{
    assert forall|i: int| 0 <= i < 36 implies (if i == 8 || i == 13 || i == 18 || i == 23 {
        s[i] == '-'
    } else {
        is_hex_digit(#[trigger] s[i])
    }) by {
        assert(s[i] == bs[i] as char);
        assert(bs[i] < 128);
    }
}

} // verus!
