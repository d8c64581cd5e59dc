//! Encodings of bytes into visual properties of HTML elements.

use vstd::prelude::*;
use crate::crypto::truncated_rem;
use crate::text::{decimal, decimal_chars, push_str, string_of};

verus! {

/// `(b % 100, b / 100)` for every byte.
pub fn encode_position(data: &[u8]) -> (r: Vec<(i32, i32)>)
    ensures
        r@.len() == data@.len(),
        forall|i: int| 0 <= i < data@.len() ==> #[trigger] r@[i] == ((data@[i] % 100) as i32, (data@[i] / 100) as i32),
{
    let mut out: Vec<(i32, i32)> = Vec::new();
    let mut i: usize = 0;
    while i < data.len()
        invariant
            i <= data@.len(),
            out@.len() == i,
            forall|q: int| 0 <= q < i ==> #[trigger] out@[q] == ((data@[q] % 100) as i32, (data@[q] / 100) as i32),
        decreases data@.len() - i,
    {
        let b = data[i] as i32;
        out.push((b % 100, b / 100));
        i = i + 1;
    }
    out
}

/// `x % 100 + 100 * y` stays within 32-bit arithmetic.
pub open spec fn position_decodable(p: (i32, i32)) -> bool {
    i32::MIN <= p.1 * 100 <= i32::MAX && i32::MIN <= truncated_rem(p.0 as int, 100) + p.1 * 100 <= i32::MAX
}

/// `(x % 100 + 100 * y)` truncated to a byte, for every position.
pub fn decode_position(positions: &[(i32, i32)]) -> (r: Vec<u8>)
    requires
        forall|i: int| 0 <= i < positions@.len() ==> position_decodable(#[trigger] positions@[i]),
    ensures
        r@.len() == positions@.len(),
        forall|i: int| 0 <= i < positions@.len() ==> #[trigger] r@[i] == #[verifier::truncate] (
            (truncated_rem(positions@[i].0 as int, 100) + positions@[i].1 * 100) as u8),
{
    let mut out: Vec<u8> = Vec::new();
    let mut i: usize = 0;
    while i < positions.len()
        invariant
            i <= positions@.len(),
            forall|q: int| 0 <= q < positions@.len() ==> position_decodable(#[trigger] positions@[q]),
            out@.len() == i,
            forall|q: int| 0 <= q < i ==> #[trigger] out@[q] == #[verifier::truncate] (
                (truncated_rem(positions@[q].0 as int, 100) + positions@[q].1 * 100) as u8),
        decreases positions@.len() - i,
    {
        let (x, y) = positions[i];
        assert(position_decodable(positions@[i as int]));
        let rem = match x.checked_rem(100) {
            Some(v) => v,
            None => 0,
        };
        let v = rem + y * 100;
        out.push(#[verifier::truncate] (v as u8));
        i = i + 1;
    }
    out
}

/// `(i + b) % 256` for byte `b` at index `i`.
pub fn encode_ordering(data: &[u8]) -> (r: Vec<usize>)
    ensures
        r@.len() == data@.len(),
        forall|i: int| 0 <= i < data@.len() ==> #[trigger] r@[i] == (i + data@[i]) % 256,
{
    let mut out: Vec<usize> = Vec::new();
    let mut i: usize = 0;
    while i < data.len()
        invariant
            i <= data@.len(),
            out@.len() == i,
            forall|q: int| 0 <= q < i ==> #[trigger] out@[q] == (q + data@[q]) % 256,
        decreases data@.len() - i,
    {
        let v = (i % 256 + data[i] as usize) % 256;
        proof {
            vstd::arithmetic::div_mod::lemma_add_mod_noop(i as int, data@[i as int] as int, 256);
            vstd::arithmetic::div_mod::lemma_mod_twice(i as int, 256);
            vstd::arithmetic::div_mod::lemma_small_mod(data@[i as int] as nat, 256);
            vstd::arithmetic::div_mod::lemma_add_mod_noop(i as int % 256, data@[i as int] as int, 256);
        }
        out.push(v);
        i = i + 1;
    }
    out
}

/// The byte at `i`, or 0 past the end.
pub open spec fn byte_or_zero(data: Seq<u8>, i: int) -> u8 {
    if 0 <= i < data.len() {
        data[i]
    } else {
        0
    }
}

/// Groups of three bytes as colours, the last one padded with zeros.
pub open spec fn colors_of(data: Seq<u8>) -> Seq<(u8, u8, u8)> {
    Seq::new(
        ((data.len() + 2) / 3) as nat,
        |j: int| (byte_or_zero(data, 3 * j), byte_or_zero(data, 3 * j + 1), byte_or_zero(data, 3 * j + 2)),
    )
}

/// Every three bytes as one colour.
pub fn encode_color(data: &[u8]) -> (r: Vec<(u8, u8, u8)>)
    ensures
        r@ == colors_of(data@),
{
    let mut out: Vec<(u8, u8, u8)> = Vec::new();
    let mut j: usize = 0;
    let n = data.len();
    while j < n
        invariant
            n == data@.len(),
            j <= n + 2,
            j % 3 == 0,
            out@.len() == j / 3,
            forall|q: int| 0 <= q < j / 3 ==> #[trigger] out@[q] == colors_of(data@)[q],
        decreases n + 2 - j,
    {
        let r = data[j];
        let g = if j + 1 < n { data[j + 1] } else { 0 };
        let b = if j + 2 < n { data[j + 2] } else { 0 };
        out.push((r, g, b));
        j = j + 3;
    }
    assert(out@ =~= colors_of(data@));
    out
}

/// The colour components in order.
pub fn decode_color(colors: &[(u8, u8, u8)]) -> (r: Vec<u8>)
    ensures
        r@.len() == 3 * colors@.len(),
        forall|j: int| 0 <= j < colors@.len() ==> {
            &&& #[trigger] r@[3 * j] == colors@[j].0
            &&& r@[3 * j + 1] == colors@[j].1
            &&& r@[3 * j + 2] == colors@[j].2
        },
{
    let mut out: Vec<u8> = Vec::new();
    let mut j: usize = 0;
    while j < colors.len()
        invariant
            j <= colors@.len(),
            out@.len() == 3 * j,
            forall|q: int| 0 <= q < j ==> {
                &&& #[trigger] out@[3 * q] == colors@[q].0
                &&& out@[3 * q + 1] == colors@[q].1
                &&& out@[3 * q + 2] == colors@[q].2
            },
        decreases colors@.len() - j,
    {
        let (r, g, b) = colors[j];
        let ghost prev = out@;
        out.push(r);
        out.push(g);
        out.push(b);
        assert forall|q: int| 0 <= q <= j implies {
            &&& #[trigger] out@[3 * q] == colors@[q].0
            &&& out@[3 * q + 1] == colors@[q].1
            &&& out@[3 * q + 2] == colors@[q].2
        } by {
            if q < j {
                assert(out@[3 * q] == prev[3 * q]);
                assert(out@[3 * q + 1] == prev[3 * q + 1]);
                assert(out@[3 * q + 2] == prev[3 * q + 2]);
            }
        }
        j = j + 1;
    }
    out
}

/// `"<b>px"` for every byte `b`.
pub fn encode_css(data: &[u8]) -> (r: Vec<String>)
    ensures
        r@.len() == data@.len(),
        forall|i: int| 0 <= i < data@.len() ==> #[trigger] r@[i]@ == decimal(data@[i] as nat) + "px"@,
{
    let mut out: Vec<String> = Vec::new();
    let mut i: usize = 0;
    while i < data.len()
        invariant
            i <= data@.len(),
            out@.len() == i,
            forall|q: int| 0 <= q < i ==> #[trigger] out@[q]@ == decimal(data@[q] as nat) + "px"@,
        decreases data@.len() - i,
    {
        let mut cs = decimal_chars(data[i] as u64);
        push_str(&mut cs, "px");
        out.push(string_of(&cs));
        i = i + 1;
    }
    out
}

/// `"<8 + b % 16>pt"` for every byte `b`.
pub fn encode_font_size(data: &[u8]) -> (r: Vec<String>)
    ensures
        r@.len() == data@.len(),
        forall|i: int| 0 <= i < data@.len() ==> #[trigger] r@[i]@ == decimal((8 + data@[i] % 16) as nat) + "pt"@,
{
    let mut out: Vec<String> = Vec::new();
    let mut i: usize = 0;
    while i < data.len()
        invariant
            i <= data@.len(),
            out@.len() == i,
            forall|q: int| 0 <= q < i ==> #[trigger] out@[q]@ == decimal((8 + data@[q] % 16) as nat) + "pt"@,
        decreases data@.len() - i,
    {
        let mut cs = decimal_chars(8 + (data[i] % 16) as u64);
        push_str(&mut cs, "pt");
        out.push(string_of(&cs));
        i = i + 1;
    }
    out
}

/// Carrier byte `idx` after embedding: its lowest bit replaced by bit `idx % 8` of data byte
/// `idx / 8`, for the positions that data covers.
pub open spec fn lsb_embedded(data: Seq<u8>, carrier: Seq<u8>, idx: int) -> u8 {
    if idx < 8 * data.len() {
        (carrier[idx] & 0xFE) | ((data[idx / 8] >> ((idx % 8) as u8)) & 1)
    } else {
        carrier[idx]
    }
}

/// Writes the bits of `data`, lowest first, into the lowest bits of `carrier`, as far as
/// the carrier reaches.
pub fn encode_bitmap_lsb(data: &[u8], carrier: &mut [u8])
    requires
        8 * data@.len() <= usize::MAX,
    ensures
        final(carrier)@.len() == old(carrier)@.len(),
        forall|idx: int| 0 <= idx < old(carrier)@.len() ==> #[trigger] final(carrier)@[idx] == lsb_embedded(
            data@,
            old(carrier)@,
            idx,
        ),
{
    let ghost orig = carrier@;
    let mut i: usize = 0;
    while i < data.len()
        invariant
            8 * data@.len() <= usize::MAX,
            i <= data@.len(),
            carrier@.len() == orig.len(),
            forall|idx: int| 0 <= idx < orig.len() ==> #[trigger] carrier@[idx] == if idx < 8 * i {
                lsb_embedded(data@, orig, idx)
            } else {
                orig[idx]
            },
        decreases data@.len() - i,
    {
        let byte = data[i];
        let mut bit: usize = 0;
        while bit < 8
            invariant
                8 * data@.len() <= usize::MAX,
                i < data@.len(),
                byte == data@[i as int],
                bit <= 8,
                carrier@.len() == orig.len(),
                forall|idx: int| 0 <= idx < orig.len() ==> #[trigger] carrier@[idx] == if idx < 8 * i + bit {
                    lsb_embedded(data@, orig, idx)
                } else {
                    orig[idx]
                },
            decreases 8 - bit,
        {
            let idx = i * 8 + bit;
            if idx < carrier.len() {
                let v = (carrier[idx] & 0xFE) | ((byte >> (bit as u8)) & 1);
                carrier[idx] = v;
                assert(idx as int / 8 == i && idx as int % 8 == bit);
            }
            bit = bit + 1;
        }
        i = i + 1;
    }
}

/// Bit `b` of a byte as the value it contributes: `(c & 1) * 2^b`.
pub open spec fn lsb_value(carrier: Seq<u8>, i: int, k: int) -> int
    decreases k,
{
    if k <= 0 {
        0
    } else {
        lsb_value(carrier, i, k - 1) + (carrier[8 * i + k - 1] & 1) * vstd::arithmetic::power2::pow2((k - 1) as nat)
    }
}

/// Reads `length` bytes back from the lowest bits of `carrier`.
pub fn decode_bitmap_lsb(carrier: &[u8], length: usize) -> (r: Vec<u8>)
    requires
        8 * length <= carrier@.len(),
    ensures
        r@.len() == length,
        forall|i: int| 0 <= i < length ==> #[trigger] r@[i] as int == lsb_value(carrier@, i, 8),
{
    let mut out: Vec<u8> = Vec::new();
    let clen = carrier.len();
    let mut i: usize = 0;
    while i < length
        invariant
            clen == carrier@.len(),
            8 * length <= carrier@.len(),
            i <= length,
            out@.len() == i,
            forall|q: int| 0 <= q < i ==> #[trigger] out@[q] as int == lsb_value(carrier@, q, 8),
        decreases length - i,
    {
        let mut acc: u16 = 0;
        let mut weight: u16 = 1;
        let mut bit: usize = 0;
        proof {
            vstd::arithmetic::power2::lemma2_to64();
        }
        while bit < 8
            invariant
                clen == carrier@.len(),
                8 * length <= carrier@.len(),
                i < length,
                bit <= 8,
                weight as nat == vstd::arithmetic::power2::pow2(bit as nat),
                acc as int == lsb_value(carrier@, i as int, bit as int),
                acc < weight,
            decreases 8 - bit,
        {
            let c = carrier[i * 8 + bit];
            let low = c & 1;
            assert(low <= 1) by (bit_vector)
                requires
                    low == c & 1,
            ;
            proof {
                vstd::arithmetic::power2::lemma2_to64();
                vstd::arithmetic::power2::lemma_pow2_unfold((bit + 1) as nat);
            }
            assert(carrier@[8 * i + bit] == c);
            assert(lsb_value(carrier@, i as int, bit as int + 1) == lsb_value(carrier@, i as int, bit as int) + (low as int)
                * (weight as int));
            let ghost before = acc;
            if low == 1 {
                acc = acc + weight;
            } else {
                assert(low == 0);
            }
            assert(acc as int == before as int + (low as int) * (weight as int)) by (nonlinear_arith)
                requires
                    low == 1 ==> acc == before + weight,
                    low == 0 ==> acc == before,
                    low <= 1,
            ;
            weight = weight * 2;
            bit = bit + 1;
        }
        out.push(acc as u8);
        i = i + 1;
    }
    out
}

/// An SVG data URL that carries `data` in a comment.
pub fn encode_qr_code(data: &str) -> (r: String)
    ensures
        r@ == "data:image/svg+xml,<svg><!-- "@ + data@ + " --></svg>"@,
{
    let mut out = String::from_str("data:image/svg+xml,<svg><!-- ");
    out.append(data);
    out.append(" --></svg>");
    out
}

} // verus!
