//! Integrity witnesses and a pipeline of redundancy, lattice encryption and channel
//! spreading for steganographic transport.

use vstd::prelude::*;

verus! {

/// The 32-byte XOR fold of `data`: byte `i` of the input is folded into slot `i % 32`.
pub open spec fn fold_digest(data: Seq<u8>) -> Seq<u8>
    decreases data.len(),
{
    if data.len() == 0 {
        Seq::new(32, |i: int| 0u8)
    } else {
        let prev = fold_digest(data.drop_last());
        let slot = (data.len() - 1) % 32;
        prev.update(slot, prev[slot] ^ data.last())
    }
}

pub proof fn lemma_fold_digest_len(data: Seq<u8>)
    ensures
        fold_digest(data).len() == 32,
    decreases data.len(),
{
    if data.len() > 0 {
        lemma_fold_digest_len(data.drop_last());
    }
}

/// Folds `data` into a 32-byte digest (see `fold_digest`).
pub fn xor_digest(data: &[u8]) -> (r: [u8; 32])
    ensures
        r@ == fold_digest(data@),
{
    let mut hash = [0u8; 32];
    let mut i: usize = 0;
    assert(hash@ =~= fold_digest(data@.take(0)));
    while i < data.len()
        invariant
            i <= data@.len(),
            hash@ == fold_digest(data@.take(i as int)),
        decreases data@.len() - i,
    {
        proof {
            lemma_fold_digest_len(data@.take(i as int));
            assert(data@.take(i as int + 1).drop_last() =~= data@.take(i as int));
        }
        let slot = i % 32;
        let b = hash[slot] ^ data[i];
        hash[slot] = b;
        i = i + 1;
    }
    assert(data@.take(data@.len() as int) =~= data@);
    hash
}

} // verus!

verus! {

/// `b` rotated left by `r % 8` bits.
pub open spec fn rotate_byte(b: u8, r: nat) -> u8 {
    let s = (r % 8) as u8;
    if s == 0 {
        b
    } else {
        (b << s) | (b >> ((8 - s) as u8))
    }
}

/// Parity symbol `i`: the XOR of every data byte rotated left by `i`.
pub open spec fn parity_symbol(data: Seq<u8>, i: nat) -> u8
    decreases data.len(),
{
    if data.len() == 0 {
        0
    } else {
        parity_symbol(data.drop_last(), i) ^ rotate_byte(data.last(), i)
    }
}

/// `data` followed by `redundancy` parity symbols.
pub open spec fn rs_encode_spec(data: Seq<u8>, redundancy: nat) -> Seq<u8> {
    data + Seq::new(redundancy, |i: int| parity_symbol(data, i as nat))
}

fn rotate_left_byte(b: u8, r: usize) -> (out: u8)
    ensures
        out == rotate_byte(b, r as nat),
{
    let s = (r % 8) as u8;
    if s == 0 {
        b
    } else {
        (b << s) | (b >> (8 - s))
    }
}

} // verus!

verus! {

/// Systematic redundancy encoder: `n` symbols in all, of which `k` carry data.
pub struct ReedSolomonEncoder {
    n: usize,
    k: usize,
}

impl ReedSolomonEncoder {
    pub closed spec fn total_symbols(&self) -> nat {
        self.n as nat
    }

    pub closed spec fn data_symbols(&self) -> nat {
        self.k as nat
    }

    pub fn new(n: usize, k: usize) -> (r: ReedSolomonEncoder)
        requires
            n > k,
        ensures
            r.total_symbols() == n,
            r.data_symbols() == k,
            r.total_symbols() > r.data_symbols(),
    {
        ReedSolomonEncoder { n, k }
    }

    /// The data followed by `n - k` parity symbols.
    pub fn encode(&self, data: &[u8]) -> (r: Vec<u8>)
        requires
            self.total_symbols() > self.data_symbols(),
        ensures
            r@ == rs_encode_spec(data@, (self.total_symbols() - self.data_symbols()) as nat),
    {
        let redundancy = self.n - self.k;
        let mut encoded: Vec<u8> = Vec::new();
        let mut j: usize = 0;
        while j < data.len()
            invariant
                j <= data@.len(),
                encoded@ == data@.take(j as int),
            decreases data@.len() - j,
        {
            encoded.push(data[j]);
            j = j + 1;
            assert(encoded@ =~= data@.take(j as int));
        }
        assert(data@.take(data@.len() as int) =~= data@);
        let mut i: usize = 0;
        while i < redundancy
            invariant
                i <= redundancy,
                encoded@ == data@ + Seq::new(i as nat, |q: int| parity_symbol(data@, q as nat)),
            decreases redundancy - i,
        {
            let mut parity: u8 = 0;
            let mut t: usize = 0;
            while t < data.len()
                invariant
                    t <= data@.len(),
                    parity == parity_symbol(data@.take(t as int), i as nat),
                decreases data@.len() - t,
            {
                assert(data@.take(t as int + 1).drop_last() =~= data@.take(t as int));
                parity = parity ^ rotate_left_byte(data[t], i);
                t = t + 1;
            }
            assert(data@.take(t as int) =~= data@);
            encoded.push(parity);
            i = i + 1;
            assert(encoded@ =~= data@ + Seq::new(i as nat, |q: int| parity_symbol(data@, q as nat)));
        }
        encoded
    }

    /// The first `k` symbols, or `None` when fewer are available.
    pub fn decode(&self, symbols: &[u8]) -> (r: Option<Vec<u8>>)
        ensures
            symbols@.len() < self.data_symbols() ==> r is None,
            symbols@.len() >= self.data_symbols() ==> r is Some && r->0@ == symbols@.take(
                self.data_symbols() as int,
            ),
    {
        if symbols.len() < self.k {
            return None;
        }
        let mut out: Vec<u8> = Vec::new();
        let mut j: usize = 0;
        while j < self.k
            invariant
                self.k <= symbols@.len(),
                j <= self.k,
                out@ == symbols@.take(j as int),
            decreases self.k - j,
        {
            out.push(symbols[j]);
            j = j + 1;
            assert(out@ =~= symbols@.take(j as int));
        }
        Some(out)
    }

    pub fn can_recover(&self, available_symbols: usize) -> (r: bool)
        ensures
            r == (available_symbols >= self.data_symbols()),
    {
        available_symbols >= self.k
    }
}

/// Rust's `%` on integers: the remainder takes the sign of the dividend.
pub open spec fn truncated_rem(x: int, d: int) -> int {
    if x == 0 {
        0
    } else if x > 0 && d > 0 {
        x % d
    } else if x < 0 && d < 0 {
        ((x * -1) % (d * -1)) * -1
    } else if x < 0 {
        ((x * -1) % d) * -1
    } else {
        x % (d * -1)
    }
}

/// `sum_{i < k} (b + i) * secret[i]`.
pub open spec fn lattice_partial(b: u8, secret: Seq<i64>, k: int) -> int
    decreases k,
{
    if k <= 0 {
        0
    } else {
        lattice_partial(b, secret, k - 1) + (b + (k - 1)) * secret[k - 1]
    }
}

/// The value a byte encodes to before reduction: the inner product plus a small noise term.
pub open spec fn lattice_value(b: u8, secret: Seq<i64>) -> int {
    lattice_partial(b, secret, secret.len() as int) + (b % 3)
}

pub open spec fn fits_i64(x: int) -> bool {
    i64::MIN <= x <= i64::MAX
}

/// Encoding `b` under `secret` and `modulus` stays within 64-bit arithmetic.
pub open spec fn lattice_byte_encodable(b: u8, secret: Seq<i64>, modulus: i64) -> bool {
    &&& secret.len() <= i64::MAX
    &&& forall|i: int| 0 <= i < secret.len() ==> fits_i64(b + i) && fits_i64((b + i) * #[trigger] secret[i])
        && fits_i64(lattice_partial(b, secret, i + 1))
    &&& fits_i64(lattice_value(b, secret))
    &&& modulus != 0
    &&& !(lattice_value(b, secret) == i64::MIN && modulus == -1)
}

/// The running sums of `secret` stay within 64-bit arithmetic.
pub open spec fn sum_i64(secret: Seq<i64>) -> int
    decreases secret.len(),
{
    if secret.len() == 0 {
        0
    } else {
        sum_i64(secret.drop_last()) + secret.last()
    }
}

pub open spec fn prefix_sums_fit(secret: Seq<i64>) -> bool {
    forall|k: int| 0 <= k <= secret.len() ==> fits_i64(#[trigger] sum_i64(secret.take(k)))
}

/// Decoding `c` under `secret` and `modulus` stays within 64-bit arithmetic.
pub open spec fn lattice_cipher_decodable(c: i64, secret: Seq<i64>, modulus: i64) -> bool {
    &&& fits_i64(c - sum_i64(secret))
    &&& modulus != 0
    &&& !(c - sum_i64(secret) == i64::MIN && modulus == -1)
}

/// Simplified learning-with-errors encoder.
pub struct LatticeEncoder {
    dimension: usize,
    modulus: i64,
}

impl LatticeEncoder {
    pub closed spec fn spec_dimension(&self) -> nat {
        self.dimension as nat
    }

    pub closed spec fn spec_modulus(&self) -> i64 {
        self.modulus
    }

    pub fn new(dimension: usize, modulus: i64) -> (r: LatticeEncoder)
        ensures
            r.spec_dimension() == dimension,
            r.spec_modulus() == modulus,
    {
        LatticeEncoder { dimension, modulus }
    }

    /// Each byte `b` becomes `(sum_i (b + i) * secret[i] + b % 3) % modulus`.
    pub fn encode(&self, data: &[u8], secret: &[i64]) -> (r: Vec<i64>)
        requires
            secret@.len() == self.spec_dimension(),
            forall|j: int| 0 <= j < data@.len() ==> lattice_byte_encodable(#[trigger] data@[j], secret@, self.spec_modulus()),
        ensures
            r@.len() == data@.len(),
            forall|j: int| 0 <= j < data@.len() ==> #[trigger] r@[j] as int == truncated_rem(
                lattice_value(data@[j], secret@),
                self.spec_modulus() as int,
            ),
    {
        let mut ciphertext: Vec<i64> = Vec::new();
        let mut j: usize = 0;
        while j < data.len()
            invariant
                j <= data@.len(),
                forall|q: int| 0 <= q < data@.len() ==> lattice_byte_encodable(#[trigger] data@[q], secret@, self.modulus),
                ciphertext@.len() == j,
                forall|q: int| 0 <= q < j ==> #[trigger] ciphertext@[q] as int == truncated_rem(
                    lattice_value(data@[q], secret@),
                    self.modulus as int,
                ),
            decreases data@.len() - j,
        {
            let byte = data[j];
            assert(lattice_byte_encodable(byte, secret@, self.modulus));
            let mut c: i64 = 0;
            let mut i: usize = 0;
            while i < secret.len()
                invariant
                    lattice_byte_encodable(byte, secret@, self.modulus),
                    i <= secret@.len(),
                    c as int == lattice_partial(byte, secret@, i as int),
                decreases secret@.len() - i,
            {
                assert(fits_i64((byte + i) * secret@[i as int]));
                assert(fits_i64(lattice_partial(byte, secret@, i + 1)));
                let term = (byte as i64 + i as i64) * secret[i];
                c = c + term;
                i = i + 1;
            }
            c = c + (byte % 3) as i64;
            let reduced = match c.checked_rem(self.modulus) {
                Some(v) => v,
                None => 0,
            };
            ciphertext.push(reduced);
            j = j + 1;
        }
        ciphertext
    }

    /// Each value `c` becomes `((c - sum(secret)) rem_euclid modulus) % 256`.
    pub fn decode(&self, ciphertext: &[i64], secret: &[i64]) -> (r: Vec<u8>)
        requires
            prefix_sums_fit(secret@),
            forall|j: int| 0 <= j < ciphertext@.len() ==> lattice_cipher_decodable(#[trigger] ciphertext@[j], secret@, self.spec_modulus()),
        ensures
            r@.len() == ciphertext@.len(),
            forall|j: int| 0 <= j < ciphertext@.len() ==> #[trigger] r@[j] as int == ((ciphertext@[j] - sum_i64(secret@)) % (self.spec_modulus() as int)) % 256,
    {
        let mut out: Vec<u8> = Vec::new();
        let mut j: usize = 0;
        while j < ciphertext.len()
            invariant
                j <= ciphertext@.len(),
                prefix_sums_fit(secret@),
                forall|q: int| 0 <= q < ciphertext@.len() ==> lattice_cipher_decodable(#[trigger] ciphertext@[q], secret@, self.modulus),
                out@.len() == j,
                forall|q: int| 0 <= q < j ==> #[trigger] out@[q] as int == ((ciphertext@[q] - sum_i64(secret@)) % (self.modulus as int)) % 256,
            decreases ciphertext@.len() - j,
        {
            let sum = sum_all(secret);
            let c = ciphertext[j];
            assert(lattice_cipher_decodable(c, secret@, self.modulus));
            let diff = c - sum;
            let reduced = match diff.checked_rem_euclid(self.modulus) {
                Some(v) => v,
                None => 0,
            };
            proof {
                vstd::arithmetic::div_mod::lemma_mod_bound(diff as int, if self.modulus > 0 { self.modulus as int } else { -(self.modulus as int) });
            }
            assert(reduced >= 0);
            let b = ((reduced as u64) % 256) as u8;
            out.push(b);
            j = j + 1;
        }
        out
    }
}

fn sum_all(secret: &[i64]) -> (r: i64)
    requires
        prefix_sums_fit(secret@),
    ensures
        r == sum_i64(secret@),
{
    let mut acc: i64 = 0;
    let mut i: usize = 0;
    assert(secret@.take(0) =~= Seq::<i64>::empty());
    while i < secret.len()
        invariant
            i <= secret@.len(),
            prefix_sums_fit(secret@),
            acc == sum_i64(secret@.take(i as int)),
        decreases secret@.len() - i,
    {
        assert(secret@.take(i as int + 1).drop_last() =~= secret@.take(i as int));
        assert(fits_i64(sum_i64(secret@.take(i as int + 1))));
        acc = acc + secret[i];
        i = i + 1;
    }
    assert(secret@.take(i as int) =~= secret@);
    acc
}

} // verus!

verus! {

/// Byte-wise XOR of `data` and `channels`, as long as the shorter of the two.
pub open spec fn proof_bytes(data: Seq<u8>, channels: Seq<u8>) -> Seq<u8> {
    let n = if data.len() < channels.len() { data.len() } else { channels.len() };
    Seq::new(n, |i: int| data[i] ^ channels[i])
}

/// Commitment to a buffer, with the channels it travelled on and a proof string.
#[derive(Debug, Clone)]
pub struct ExtractionWitness {
    pub commitment: [u8; 32],
    pub channels_used: Vec<u8>,
    pub proof: Vec<u8>,
}

pub(crate) fn copy_slice(s: &[u8]) -> (r: Vec<u8>)
    ensures
        r@ == s@,
{
    let mut out: Vec<u8> = Vec::new();
    let mut i: usize = 0;
    while i < s.len()
        invariant
            i <= s@.len(),
            out@ == s@.take(i as int),
        decreases s@.len() - i,
    {
        out.push(s[i]);
        i = i + 1;
        assert(out@ =~= s@.take(i as int));
    }
    assert(s@.take(i as int) =~= s@);
    out
}

impl ExtractionWitness {
    pub fn generate(data: &[u8], channels: &[u8]) -> (r: ExtractionWitness)
        ensures
            r.commitment@ == fold_digest(data@),
            r.channels_used@ == channels@,
            r.proof@ == proof_bytes(data@, channels@),
    {
        let commitment = xor_digest(data);
        let mut proof: Vec<u8> = Vec::new();
        let mut i: usize = 0;
        while i < data.len() && i < channels.len()
            invariant
                i <= data@.len(),
                i <= channels@.len(),
                proof@.len() == i,
                forall|q: int| 0 <= q < i ==> #[trigger] proof@[q] == data@[q] ^ channels@[q],
            decreases data@.len() - i,
        {
            proof.push(data[i] ^ channels[i]);
            i = i + 1;
        }
        assert(proof@ =~= proof_bytes(data@, channels@));
        ExtractionWitness { commitment, channels_used: copy_slice(channels), proof }
    }

    /// The commitment matches the digest of `public_data`.
    pub fn verify(&self, public_data: &[u8]) -> (r: bool)
        ensures
            r == (self.commitment@ == fold_digest(public_data@)),
    {
        let expected = xor_digest(public_data);
        proof {
            lemma_fold_digest_len(public_data@);
        }
        let mut i: usize = 0;
        while i < 32
            invariant
                i <= 32,
                expected@ == fold_digest(public_data@),
                forall|q: int| 0 <= q < i ==> self.commitment@[q] == expected@[q],
            decreases 32 - i,
        {
            if self.commitment[i] != expected[i] {
                return false;
            }
            i = i + 1;
        }
        assert(self.commitment@ =~= expected@);
        true
    }
}

/// `data` after appending symbol `i` of `symbols` to channel `i % channels`, for every `i`.
pub open spec fn distributed(data: Seq<Seq<u8>>, symbols: Seq<u8>, channels: nat) -> Seq<Seq<u8>>
    decreases symbols.len(),
{
    if symbols.len() == 0 {
        data
    } else {
        let prev = distributed(data, symbols.drop_last(), channels);
        let c = (symbols.len() - 1) % (channels as int);
        prev.update(c, prev[c].push(symbols.last()))
    }
}

/// The concatenated contents of the listed channels, skipping indices out of range.
pub open spec fn extracted(data: Seq<Seq<u8>>, channels: nat, indices: Seq<usize>) -> Seq<u8>
    decreases indices.len(),
{
    if indices.len() == 0 {
        Seq::empty()
    } else {
        let prev = extracted(data, channels, indices.drop_last());
        if indices.last() < channels {
            prev + data[indices.last() as int]
        } else {
            prev
        }
    }
}

proof fn lemma_distributed_len(data: Seq<Seq<u8>>, symbols: Seq<u8>, channels: nat)
    requires
        channels > 0,
        data.len() == channels,
    ensures
        distributed(data, symbols, channels).len() == data.len(),
    decreases symbols.len(),
{
    if symbols.len() > 0 {
        lemma_distributed_len(data, symbols.drop_last(), channels);
        vstd::arithmetic::div_mod::lemma_mod_bound(symbols.len() - 1, channels as int);
    }
}

/// Symbols spread round-robin over a number of channels.
#[derive(Debug, Clone)]
pub struct ChannelMatrix {
    pub channels: usize,
    pub data: Vec<Vec<u8>>,
}

impl ChannelMatrix {
    /// One buffer per channel.
    pub open spec fn wf(&self) -> bool {
        self.data@.len() == self.channels
    }

    pub open spec fn contents(&self) -> Seq<Seq<u8>> {
        byte_vecs(self.data@)
    }

    pub fn new(channels: usize) -> (r: ChannelMatrix)
        ensures
            r.wf(),
            r.channels == channels,
            forall|c: int| 0 <= c < channels ==> #[trigger] r.data@[c]@.len() == 0,
    {
        let mut data: Vec<Vec<u8>> = Vec::new();
        let mut i: usize = 0;
        while i < channels
            invariant
                i <= channels,
                data@.len() == i,
                forall|c: int| 0 <= c < i ==> #[trigger] data@[c]@.len() == 0,
            decreases channels - i,
        {
            data.push(Vec::new());
            i = i + 1;
        }
        ChannelMatrix { channels, data }
    }

    /// Appends symbol `i` to channel `i % channels`.
    pub fn distribute(&mut self, symbols: &[u8])
        requires
            old(self).wf(),
            old(self).channels > 0 || symbols@.len() == 0,
        ensures
            final(self).wf(),
            final(self).channels == old(self).channels,
            final(self).contents() == distributed(old(self).contents(), symbols@, old(self).channels as nat),
    {
        if symbols.len() == 0 {
            return;
        }
        let ghost start = self.contents();
        let mut i: usize = 0;
        assert(symbols@.take(0) =~= Seq::<u8>::empty());
        while i < symbols.len()
            invariant
                self.wf(),
                self.channels == old(self).channels,
                self.channels > 0,
                start == old(self).contents(),
                start.len() == self.channels,
                i <= symbols@.len(),
                self.contents() == distributed(start, symbols@.take(i as int), self.channels as nat),
            decreases symbols@.len() - i,
        {
            let channel = i % self.channels;
            proof {
                assert(symbols@.take(i as int + 1).drop_last() =~= symbols@.take(i as int));
                lemma_distributed_len(start, symbols@.take(i as int), self.channels as nat);
            }
            let mut buf: Vec<u8> = Vec::new();
            core::mem::swap(&mut buf, &mut self.data[channel]);
            buf.push(symbols[i]);
            core::mem::swap(&mut buf, &mut self.data[channel]);
            i = i + 1;
            assert(self.contents() =~= distributed(start, symbols@.take(i as int), self.channels as nat));
        }
        assert(symbols@.take(i as int) =~= symbols@);
    }

    /// The contents of the listed channels, in the order listed.
    pub fn extract(&self, channel_indices: &[usize]) -> (r: Vec<u8>)
        requires
            self.wf(),
        ensures
            r@ == extracted(self.contents(), self.channels as nat, channel_indices@),
    {
        let mut out: Vec<u8> = Vec::new();
        let mut i: usize = 0;
        assert(channel_indices@.take(0) =~= Seq::<usize>::empty());
        while i < channel_indices.len()
            invariant
                self.wf(),
                i <= channel_indices@.len(),
                out@ == extracted(self.contents(), self.channels as nat, channel_indices@.take(i as int)),
            decreases channel_indices@.len() - i,
        {
            assert(channel_indices@.take(i as int + 1).drop_last() =~= channel_indices@.take(i as int));
            let idx = channel_indices[i];
            if idx < self.channels {
                let chunk = &self.data[idx];
                let mut t: usize = 0;
                let ghost before = out@;
                while t < chunk.len()
                    invariant
                        t <= chunk@.len(),
                        out@ == before + chunk@.take(t as int),
                    decreases chunk@.len() - t,
                {
                    out.push(chunk[t]);
                    t = t + 1;
                    assert(out@ =~= before + chunk@.take(t as int));
                }
                assert(chunk@.take(t as int) =~= chunk@);
            }
            i = i + 1;
        }
        assert(channel_indices@.take(i as int) =~= channel_indices@);
        out
    }

    /// `2^channels`: the number of channel subsets.
    pub fn total_capacity(&self) -> (r: usize)
        requires
            vstd::arithmetic::power2::pow2(self.channels as nat) <= usize::MAX,
        ensures
            r == vstd::arithmetic::power2::pow2(self.channels as nat),
    {
        power_of_two(self.channels)
    }
}

/// The contents of a list of byte buffers.
pub open spec fn byte_vecs(v: Seq<Vec<u8>>) -> Seq<Seq<u8>> {
    v.map_values(|b: Vec<u8>| b@)
}

fn power_of_two(n: usize) -> (r: usize)
    requires
        vstd::arithmetic::power2::pow2(n as nat) <= usize::MAX,
    ensures
        r == vstd::arithmetic::power2::pow2(n as nat),
{
    let mut r: usize = 1;
    let mut i: usize = 0;
    proof {
        vstd::arithmetic::power::lemma_pow0(2);
    }
    while i < n
        invariant
            i <= n,
            r == vstd::arithmetic::power2::pow2(i as nat),
            vstd::arithmetic::power2::pow2(n as nat) <= usize::MAX,
        decreases n - i,
    {
        proof {
            vstd::arithmetic::power2::lemma_pow2_unfold((i + 1) as nat);
            if i + 1 < n {
                vstd::arithmetic::power2::lemma_pow2_strictly_increases((i + 1) as nat, n as nat);
            }
        }
        r = r * 2;
        i = i + 1;
    }
    r
}

} // verus!

verus! {

/// The ciphertext of `data` under `secret` and `modulus`, each value truncated to a byte.
pub open spec fn cipher_bytes(data: Seq<u8>, secret: Seq<i64>, modulus: int) -> Seq<u8> {
    Seq::new(
        data.len(),
        |j: int| #[verifier::truncate] ((truncated_rem(lattice_value(data[j], secret), modulus) as i64) as u8),
    )
}

/// Channel identifiers `0, 1, ...` below `channels` taken as a byte.
pub open spec fn channel_ids(channels: usize) -> Seq<u8> {
    Seq::new((#[verifier::truncate] (channels as u8)) as nat, |i: int| i as u8)
}

/// `channels` empty buffers.
pub open spec fn empty_channels(channels: nat) -> Seq<Seq<u8>> {
    Seq::new(channels, |i: int| Seq::<u8>::empty())
}

/// What a decoder reads back from `contents` over the witness's channels with `secret`.
pub open spec fn stego_decode_spec(
    contents: Seq<Seq<u8>>,
    channels: nat,
    channels_used: Seq<u8>,
    secret: Seq<i64>,
    data_symbols: nat,
    commitment: Seq<u8>,
) -> Option<Seq<u8>> {
    let ext = extracted(contents, channels, channels_used.map_values(|b: u8| b as usize));
    let dec = Seq::new(ext.len(), |j: int| (((ext[j] as int - sum_i64(secret)) % 256) % 256) as u8);
    if dec.len() < data_symbols {
        None
    } else if commitment == fold_digest(dec.take(data_symbols as int)) {
        Some(dec.take(data_symbols as int))
    } else {
        None
    }
}

/// Redundancy, lattice encryption and channel spreading in one pipeline.
pub struct CryptoStegoSystem {
    reed_solomon: ReedSolomonEncoder,
    lattice: LatticeEncoder,
    channels: usize,
}

impl CryptoStegoSystem {
    pub closed spec fn wf(&self) -> bool {
        &&& self.reed_solomon.total_symbols() > self.reed_solomon.data_symbols()
        &&& self.lattice.spec_modulus() == 256
    }

    pub closed spec fn spec_channels(&self) -> usize {
        self.channels
    }

    pub closed spec fn spec_redundancy(&self) -> nat {
        (self.reed_solomon.total_symbols() - self.reed_solomon.data_symbols()) as nat
    }

    pub closed spec fn spec_data_symbols(&self) -> nat {
        self.reed_solomon.data_symbols()
    }

    pub closed spec fn spec_dimension(&self) -> nat {
        self.lattice.spec_dimension()
    }

    pub fn new(n: usize, k: usize, lattice_dim: usize, channels: usize) -> (r: CryptoStegoSystem)
        requires
            n > k,
        ensures
            r.wf(),
            r.spec_channels() == channels,
            r.spec_redundancy() == n - k,
            r.spec_data_symbols() == k,
            r.spec_dimension() == lattice_dim,
    {
        CryptoStegoSystem {
            reed_solomon: ReedSolomonEncoder::new(n, k),
            lattice: LatticeEncoder::new(lattice_dim, 256),
            channels,
        }
    }

    /// Encodes with redundancy, encrypts, spreads the bytes over the channels, and returns
    /// the channels with a witness over the plain data.
    pub fn encode(&self, data: &[u8], secret: &[i64]) -> (r: (ChannelMatrix, ExtractionWitness))
        requires
            self.wf(),
            self.spec_channels() > 0,
            secret@.len() == self.spec_dimension(),
            forall|j: int| 0 <= j < rs_encode_spec(data@, self.spec_redundancy()).len()
                ==> lattice_byte_encodable(#[trigger] rs_encode_spec(data@, self.spec_redundancy())[j], secret@, 256),
        ensures
            r.0.wf(),
            r.0.channels == self.spec_channels(),
            r.0.contents() == distributed(
                empty_channels(self.spec_channels() as nat),
                cipher_bytes(rs_encode_spec(data@, self.spec_redundancy()), secret@, 256),
                self.spec_channels() as nat,
            ),
            r.1.commitment@ == fold_digest(data@),
            r.1.channels_used@ == channel_ids(self.spec_channels()),
            r.1.proof@ == proof_bytes(data@, channel_ids(self.spec_channels())),
    {
        let rs_encoded = self.reed_solomon.encode(data);
        assert forall|j: int| 0 <= j < rs_encoded@.len() implies lattice_byte_encodable(
            #[trigger] rs_encoded@[j],
            secret@,
            self.lattice.spec_modulus(),
        ) by {
            assert(rs_encoded@[j] == rs_encode_spec(data@, self.spec_redundancy())[j]);
        }
        let encrypted = self.lattice.encode(rs_encoded.as_slice(), secret);
        let mut symbols: Vec<u8> = Vec::new();
        let mut i: usize = 0;
        while i < encrypted.len()
            invariant
                i <= encrypted@.len(),
                symbols@.len() == i,
                forall|q: int| 0 <= q < i ==> #[trigger] symbols@[q] == #[verifier::truncate] (encrypted@[q] as u8),
            decreases encrypted@.len() - i,
        {
            symbols.push(#[verifier::truncate] (encrypted[i] as u8));
            i = i + 1;
        }
        let ghost want = cipher_bytes(rs_encode_spec(data@, self.spec_redundancy()), secret@, 256);
        assert(symbols@ =~= want);
        let mut matrix = ChannelMatrix::new(self.channels);
        assert forall|q: int| 0 <= q < self.channels implies #[trigger] matrix.contents()[q] =~= empty_channels(
            self.channels as nat,
        )[q] by {
            assert(matrix.data@[q]@.len() == 0);
        }
        assert(matrix.contents() =~= empty_channels(self.channels as nat));
        matrix.distribute(symbols.as_slice());
        let limit = #[verifier::truncate] (self.channels as u8);
        let mut ids: Vec<u8> = Vec::new();
        let mut c: u8 = 0;
        while c < limit
            invariant
                c <= limit,
                limit == #[verifier::truncate] (self.channels as u8),
                ids@ == Seq::new(c as nat, |q: int| q as u8),
            decreases limit - c,
        {
            ids.push(c);
            c = c + 1;
            assert(ids@ =~= Seq::new(c as nat, |q: int| q as u8));
        }
        let witness = ExtractionWitness::generate(data, ids.as_slice());
        (matrix, witness)
    }

    /// Reads back the data over the witness's channels; `None` when too few symbols come
    /// back or the witness does not match them.
    pub fn decode(&self, matrix: &ChannelMatrix, secret: &[i64], witness: &ExtractionWitness) -> (r: Option<Vec<u8>>)
        requires
            self.wf(),
            matrix.wf(),
            prefix_sums_fit(secret@),
            fits_i64(0 - sum_i64(secret@)),
            fits_i64(255 - sum_i64(secret@)),
        ensures
            match r {
                Some(v) => stego_decode_spec(matrix.contents(), matrix.channels as nat, witness.channels_used@,
                    secret@, self.spec_data_symbols(), witness.commitment@) == Some(v@),
                None => stego_decode_spec(matrix.contents(), matrix.channels as nat, witness.channels_used@,
                    secret@, self.spec_data_symbols(), witness.commitment@) is None,
            },
    {
        let mut indices: Vec<usize> = Vec::new();
        let mut i: usize = 0;
        while i < witness.channels_used.len()
            invariant
                i <= witness.channels_used@.len(),
                indices@ == witness.channels_used@.take(i as int).map_values(|b: u8| b as usize),
            decreases witness.channels_used@.len() - i,
        {
            indices.push(witness.channels_used[i] as usize);
            i = i + 1;
            assert(indices@ =~= witness.channels_used@.take(i as int).map_values(|b: u8| b as usize));
        }
        assert(witness.channels_used@.take(i as int) =~= witness.channels_used@);
        let extracted = matrix.extract(indices.as_slice());
        let mut encrypted: Vec<i64> = Vec::new();
        let mut j: usize = 0;
        while j < extracted.len()
            invariant
                j <= extracted@.len(),
                encrypted@.len() == j,
                forall|q: int| 0 <= q < j ==> #[trigger] encrypted@[q] == extracted@[q] as i64,
            decreases extracted@.len() - j,
        {
            encrypted.push(extracted[j] as i64);
            j = j + 1;
        }
        let rs_encoded = self.lattice.decode(encrypted.as_slice(), secret);
        let ghost ext = extracted@;
        let ghost dec = Seq::new(ext.len(), |q: int| (((ext[q] as int - sum_i64(secret@)) % 256) % 256) as u8);
        assert(rs_encoded@ =~= dec);
        let data = match self.reed_solomon.decode(rs_encoded.as_slice()) {
            Some(d) => d,
            None => {
                return None;
            },
        };
        if witness.verify(data.as_slice()) {
            Some(data)
        } else {
            None
        }
    }

    /// `2^channels`.
    pub fn channel_capacity(&self) -> (r: usize)
        requires
            vstd::arithmetic::power2::pow2(self.spec_channels() as nat) <= usize::MAX,
        ensures
            r == vstd::arithmetic::power2::pow2(self.spec_channels() as nat),
    {
        power_of_two(self.channels)
    }
}

} // verus!
