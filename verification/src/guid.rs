//! 128-bit GUIDs and the mixed-endian on-disk encoding that GPT uses.
//!
//! A [`Guid`] holds its sixteen bytes in the order of the RFC 4122 textual
//! form.  On disk, GPT stores the first three fields little-endian and the
//! last two big-endian (the UEFI convention), which amounts to reversing
//! the first three field groups; [`spec_me_swap`] is that permutation.

use vstd::prelude::*;
use crate::Error;
use vstd::string::StringSliceAdditionalSpecFns;

verus! {

/// A 128-bit globally unique identifier, stored in RFC 4122 byte order.
#[derive(Clone, Copy, Debug, PartialEq, Eq)]
pub struct Guid {
    bytes: [u8; 16],
}

impl View for Guid {
    type V = Seq<u8>;

    closed spec fn view(&self) -> Seq<u8> {
        self.bytes@
    }
}

/// The all-zero GUID, which marks a partition entry as unused.
pub open spec fn spec_zero_guid() -> Seq<u8> {
    Seq::new(16, |i: int| 0u8)
}

/// The mixed-endian byte permutation: the three little-endian field groups
/// (4, 2 and 2 bytes) are reversed, the final 8 bytes stay in place.
pub open spec fn spec_me_swap(s: Seq<u8>) -> Seq<u8>
    recommends
        s.len() == 16,
{
    seq![
        s[3], s[2], s[1], s[0],
        s[5], s[4],
        s[7], s[6],
        s[8], s[9], s[10], s[11], s[12], s[13], s[14], s[15],
    ]
}

/// Applying the mixed-endian permutation twice gives the bytes back:
/// the wire encoding of GUIDs is an involution, hence a bijection on
/// 16-byte sequences.
pub proof fn lemma_me_swap_involution(s: Seq<u8>)
    requires
        s.len() == 16,
    ensures
        spec_me_swap(spec_me_swap(s)) == s,
{
    assert(spec_me_swap(spec_me_swap(s)) =~= s);
}

/// Every GUID views as exactly sixteen bytes.
pub broadcast proof fn lemma_guid_view_len(g: Guid)
    ensures
        #[trigger] g@.len() == 16,
{
}

/// The mixed-endian permutation is injective on 16-byte sequences.
pub proof fn lemma_me_swap_injective(a: Seq<u8>, b: Seq<u8>)
    requires
        a.len() == 16,
        b.len() == 16,
        spec_me_swap(a) == spec_me_swap(b),
    ensures
        a == b,
{
    lemma_me_swap_involution(a);
    lemma_me_swap_involution(b);
}

impl Guid {
    /// The all-zero GUID.
    pub fn zero() -> (r: Guid)
        ensures
            r@ == spec_zero_guid(),
    {
        let g = Guid { bytes: [0u8; 16] };
        proof {
            assert(g@ =~= spec_zero_guid());
        }
        g
    }

    /// A GUID from sixteen bytes in RFC 4122 order.
    pub fn from_bytes(b: &[u8]) -> (r: Guid)
        requires
            b@.len() == 16,
        ensures
            r@ == b@,
    {
        let bytes: [u8; 16] = [
            b[0], b[1], b[2], b[3], b[4], b[5], b[6], b[7],
            b[8], b[9], b[10], b[11], b[12], b[13], b[14], b[15],
        ];
        proof {
            assert(bytes@ =~= b@);
        }
        Guid { bytes }
    }

    /// Decode a GUID from its sixteen mixed-endian on-disk bytes.
    pub fn from_gpt_bytes(b: &[u8]) -> (r: Guid)
        requires
            b@.len() == 16,
        ensures
            r@ == spec_me_swap(b@),
    {
        let bytes: [u8; 16] = [
            b[3], b[2], b[1], b[0], b[5], b[4], b[7], b[6],
            b[8], b[9], b[10], b[11], b[12], b[13], b[14], b[15],
        ];
        proof {
            assert(bytes@ =~= spec_me_swap(b@));
        }
        Guid { bytes }
    }

    /// Append the sixteen mixed-endian on-disk bytes of this GUID to `out`.
    pub fn push_gpt_bytes(&self, out: &mut Vec<u8>)
        ensures
            final(out)@ == old(out)@ + spec_me_swap(self@),
    {
        let b = &self.bytes;
        out.push(b[3]);
        out.push(b[2]);
        out.push(b[1]);
        out.push(b[0]);
        out.push(b[5]);
        out.push(b[4]);
        out.push(b[7]);
        out.push(b[6]);
        out.push(b[8]);
        out.push(b[9]);
        out.push(b[10]);
        out.push(b[11]);
        out.push(b[12]);
        out.push(b[13]);
        out.push(b[14]);
        out.push(b[15]);
        proof {
            assert(out@ =~= old(out)@ + spec_me_swap(self@));
        }
    }

    /// Whether this is the all-zero GUID.
    pub fn is_zero(&self) -> (r: bool)
        ensures
            r == (self@ == spec_zero_guid()),
    {
        let b = &self.bytes;
        let r = b[0] == 0 && b[1] == 0 && b[2] == 0 && b[3] == 0 && b[4] == 0 && b[5] == 0
            && b[6] == 0 && b[7] == 0 && b[8] == 0 && b[9] == 0 && b[10] == 0 && b[11] == 0
            && b[12] == 0 && b[13] == 0 && b[14] == 0 && b[15] == 0;
        proof {
            if r {
                assert(self@ =~= spec_zero_guid());
            }
            if self@ == spec_zero_guid() {
                assert(forall|i: int| 0 <= i < 16 ==> self@[i] == 0u8);
                assert(r);
            }
        }
        r
    }

    /// Whether two GUIDs hold the same bytes.
    pub fn same_as(&self, other: &Guid) -> (r: bool)
        ensures
            r == (self@ == other@),
    {
        let a = &self.bytes;
        let b = &other.bytes;
        let r = a[0] == b[0] && a[1] == b[1] && a[2] == b[2] && a[3] == b[3] && a[4] == b[4]
            && a[5] == b[5] && a[6] == b[6] && a[7] == b[7] && a[8] == b[8] && a[9] == b[9]
            && a[10] == b[10] && a[11] == b[11] && a[12] == b[12] && a[13] == b[13]
            && a[14] == b[14] && a[15] == b[15];
        proof {
            if r {
                assert(self@ =~= other@);
            }
            if self@ == other@ {
                assert(forall|i: int| 0 <= i < 16 ==> self@[i] == other@[i]);
                assert(r);
            }
        }
        r
    }

    /// A random version-4 GUID.
    ///
    /// Relies on `uuid::Uuid::new_v4`: it draws random bytes and then forces
    /// the version nibble of byte 6 to `4` and the two variant bits of
    /// byte 8 to `10`, so those two bytes always lie in the stated ranges.
    #[verifier::external_body]
    pub fn new_v4() -> (r: Guid)
        ensures
            r@.len() == 16,
            0x40 <= r@[6] <= 0x4f,
            0x80 <= r@[8] <= 0xbf,
    {
        Guid { bytes: uuid::Uuid::new_v4().into_bytes() }
    }
}

/// Whether an ASCII byte is a hex digit.
pub open spec fn spec_is_hex_digit(c: u8) -> bool {
    (0x30 <= c <= 0x39) || (0x41 <= c <= 0x46) || (0x61 <= c <= 0x66)
}

/// The value of a hex digit byte.
pub open spec fn spec_hex_val(c: u8) -> u8
    recommends
        spec_is_hex_digit(c),
{
    if 0x30 <= c <= 0x39 {
        (c - 0x30) as u8
    } else if 0x41 <= c <= 0x46 {
        (c - 0x41 + 10) as u8
    } else {
        (c - 0x61 + 10) as u8
    }
}

/// The uppercase hex digit byte of a value below 16.
pub open spec fn spec_hex_digit(v: u8) -> u8
    recommends
        v < 16,
{
    if v < 10 {
        (0x30 + v) as u8
    } else {
        (0x41 + v - 10) as u8
    }
}

/// The text position of hex digit `i` of a GUID rendering, skipping
/// the four dashes.
pub open spec fn spec_hex_pos(i: int) -> int {
    if i < 8 {
        i
    } else if i < 12 {
        i + 1
    } else if i < 16 {
        i + 2
    } else if i < 20 {
        i + 3
    } else {
        i + 4
    }
}

/// Whether 36 ASCII bytes form a canonical RFC 4122 GUID rendering:
/// five dash-separated groups of 8, 4, 4, 4 and 12 hex digits.
pub open spec fn spec_valid_guid_text(t: Seq<u8>) -> bool {
    &&& t.len() == 36
    &&& t[8] == 0x2du8
    &&& t[13] == 0x2du8
    &&& t[18] == 0x2du8
    &&& t[23] == 0x2du8
    &&& forall|i: int| 0 <= i < 32 ==> spec_is_hex_digit(#[trigger] t[spec_hex_pos(i)])
}

/// The sixteen GUID bytes a valid rendering denotes.
pub open spec fn spec_parse_guid_text(t: Seq<u8>) -> Seq<u8> {
    Seq::new(
        16,
        |k: int|
            (spec_hex_val(t[spec_hex_pos(2 * k)]) * 16 + spec_hex_val(
                t[spec_hex_pos(2 * k + 1)],
            )) as u8,
    )
}

/// The 36 ASCII bytes of the canonical uppercase rendering of GUID
/// bytes, from hex digit `k` of byte `k2` on.
pub open spec fn spec_guid_text_from(g: Seq<u8>, k: int) -> Seq<u8>
    decreases 16 - k,
{
    if k < 0 || k >= 16 {
        Seq::<u8>::empty()
    } else {
        (if k == 4 || k == 6 || k == 8 || k == 10 {
            seq![0x2du8]
        } else {
            Seq::<u8>::empty()
        }) + seq![
            spec_hex_digit((g[k] / 16) as u8),
            spec_hex_digit((g[k] % 16) as u8),
        ] + spec_guid_text_from(g, k + 1)
    }
}

/// The 36 ASCII bytes of the canonical uppercase rendering of GUID
/// bytes.
pub open spec fn spec_guid_text(g: Seq<u8>) -> Seq<u8> {
    spec_guid_text_from(g, 0)
}

/// The value of one hex digit byte.
fn hex_val(c: u8) -> (r: u8)
    requires
        spec_is_hex_digit(c),
    ensures
        r == spec_hex_val(c),
        r < 16,
{
    if 0x30 <= c && c <= 0x39 {
        c - 0x30
    } else if 0x41 <= c && c <= 0x46 {
        c - 0x41 + 10
    } else {
        c - 0x61 + 10
    }
}

/// Whether a byte is an ASCII hex digit.
fn is_hex_digit(c: u8) -> (r: bool)
    ensures
        r == spec_is_hex_digit(c),
{
    (0x30 <= c && c <= 0x39) || (0x41 <= c && c <= 0x46) || (0x61 <= c && c <= 0x66)
}

/// The uppercase hex digit byte of a value below 16.
fn hex_digit(v: u8) -> (r: u8)
    requires
        v < 16,
    ensures
        r == spec_hex_digit(v),
{
    if v < 10 {
        0x30 + v
    } else {
        0x41 + v - 10
    }
}

/// Relies on `String::from_utf8`: bytes below 128 decode to exactly the
/// same sequence of characters.
#[verifier::external_body]
fn ascii_to_string(bytes: &Vec<u8>) -> (r: String)
    requires
        forall|i: int| 0 <= i < bytes@.len() ==> bytes@[i] < 128,
    ensures
        r@ == bytes@.map_values(|b: u8| b as char),
{
    String::from_utf8(bytes.clone()).unwrap_or_default()
}

impl Guid {
    /// Parse the canonical RFC 4122 textual form,
    /// `xxxxxxxx-xxxx-xxxx-xxxx-xxxxxxxxxxxx`, case-insensitively.
    pub fn from_rfc4122_string(s: &str) -> (r: Result<Guid, Error>)
        ensures
            r is Ok <==> spec_valid_guid_text(s.spec_bytes()),
            r matches Ok(g) ==> g@ == spec_parse_guid_text(s.spec_bytes()),
            r matches Err(e) ==> e == Error::InvalidGuid,
    {
        let b = s.as_bytes();
        let ghost t = s.spec_bytes();
        if b.len() != 36 {
            return Err(Error::InvalidGuid);
        }
        if !(b[8] == 0x2d && b[13] == 0x2d && b[18] == 0x2d && b[23] == 0x2d) {
            return Err(Error::InvalidGuid);
        }
        let mut i: usize = 0;
        while i < 32
            invariant
                i <= 32,
                b@ == t,
                t == s.spec_bytes(),
                t.len() == 36,
                forall|j: int| 0 <= j < i ==> spec_is_hex_digit(#[trigger] t[spec_hex_pos(j)]),
            decreases 32 - i,
        {
            let p: usize = if i < 8 {
                i
            } else if i < 12 {
                i + 1
            } else if i < 16 {
                i + 2
            } else if i < 20 {
                i + 3
            } else {
                i + 4
            };
            proof {
                assert(p as int == spec_hex_pos(i as int));
            }
            if !is_hex_digit(b[p]) {
                proof {
                    assert(!spec_is_hex_digit(t[spec_hex_pos(i as int)]));
                    assert(!spec_valid_guid_text(t));
                }
                return Err(Error::InvalidGuid);
            }
            i = i + 1;
        }
        let mut bytes: Vec<u8> = Vec::new();
        let mut k: usize = 0;
        while k < 16
            invariant
                k <= 16,
                b@ == t,
                t == s.spec_bytes(),
                t.len() == 36,
                spec_valid_guid_text(t),
                bytes@.len() == k,
                forall|j: int| 0 <= j < k ==> bytes@[j] == spec_parse_guid_text(t)[j],
            decreases 16 - k,
        {
            let phi: usize = if 2 * k < 8 {
                2 * k
            } else if 2 * k < 12 {
                2 * k + 1
            } else if 2 * k < 16 {
                2 * k + 2
            } else if 2 * k < 20 {
                2 * k + 3
            } else {
                2 * k + 4
            };
            let plo: usize = phi + 1;
            proof {
                assert(phi as int == spec_hex_pos(2 * k as int));
                assert(plo as int == spec_hex_pos(2 * k as int + 1));
            }
            let hi = hex_val(b[phi]);
            let lo = hex_val(b[plo]);
            bytes.push(hi * 16 + lo);
            k = k + 1;
        }
        proof {
            assert(bytes@ =~= spec_parse_guid_text(t));
        }
        Ok(Guid::from_bytes(bytes.as_slice()))
    }

    /// The canonical uppercase RFC 4122 textual form.
    pub fn to_rfc4122_string(&self) -> (r: String)
        ensures
            r@ == spec_guid_text(self@).map_values(|b: u8| b as char),
    {
        let ghost g = self@;
        let mut out: Vec<u8> = Vec::new();
        let mut k: usize = 0;
        while k < 16
            invariant
                k <= 16,
                g == self@,
                g.len() == 16,
                spec_guid_text(g) == out@ + spec_guid_text_from(g, k as int),
                forall|i: int| 0 <= i < out@.len() ==> out@[i] < 128,
            decreases 16 - k,
        {
            if k == 4 || k == 6 || k == 8 || k == 10 {
                out.push(0x2d);
            }
            let byte = self.byte_at(k);
            out.push(hex_digit(byte / 16));
            out.push(hex_digit(byte % 16));
            proof {
                assert(spec_hex_digit((g[k as int] / 16) as u8) < 128
                    && spec_hex_digit((g[k as int] % 16) as u8) < 128);
                assert(spec_guid_text(g) =~= out@ + spec_guid_text_from(g, k + 1));
            }
            k = k + 1;
        }
        proof {
            assert(spec_guid_text_from(g, 16) == Seq::<u8>::empty());
            assert(spec_guid_text(g) =~= out@);
        }
        ascii_to_string(&out)
    }

    /// Byte `k` of this GUID, in RFC 4122 order.
    pub fn byte_at(&self, k: usize) -> (r: u8)
        requires
            k < 16,
        ensures
            r == self@[k as int],
    {
        self.bytes[k]
    }
}

} // verus!
