//! Stake-weighted custody of confidential documents: offset secret sharing, a ranked
//! registry of coin holders, and sharding of documents across the top holders.

use vstd::prelude::*;
use crate::crypto::copy_slice;

verus! {

/// Number of shards that each data category is split into.
#[derive(Clone, Copy, Debug, PartialEq, Eq, Structural)]
pub enum DataType {
    Boolean,
    Quaternion,
    Octonion,
    MathieuM24,
    Genetic,
    RDFa,
    IPv6,
    Byte,
    Monster,
}

impl DataType {
    pub open spec fn spec_shard_count(self) -> nat {
        match self {
            DataType::Boolean => 2,
            DataType::Quaternion => 4,
            DataType::Octonion => 8,
            DataType::MathieuM24 => 24,
            DataType::Genetic => 64,
            DataType::RDFa => 71,
            DataType::IPv6 => 128,
            DataType::Byte => 256,
            DataType::Monster => 196883,
        }
    }

    pub fn shard_count(&self) -> (r: usize)
        ensures
            r == self.spec_shard_count(),
    {
        match self {
            DataType::Boolean => 2,
            DataType::Quaternion => 4,
            DataType::Octonion => 8,
            DataType::MathieuM24 => 24,
            DataType::Genetic => 64,
            DataType::RDFa => 71,
            DataType::IPv6 => 128,
            DataType::Byte => 256,
            DataType::Monster => 196883,
        }
    }

    /// The structure each category's split is named after.
    pub open spec fn spec_mathematical_structure(self) -> Seq<char> {
        match self {
            DataType::Boolean => "XOR secret sharing"@,
            DataType::Quaternion => "Quaternion decomposition"@,
            DataType::Octonion => "Octonion decomposition"@,
            DataType::MathieuM24 => "Golay code"@,
            DataType::Genetic => "Codon-based splitting"@,
            DataType::RDFa => "Sporadic group threshold"@,
            DataType::IPv6 => "Bit-level decomposition"@,
            DataType::Byte => "Byte-level splitting"@,
            DataType::Monster => "Minimal representation"@,
        }
    }

    pub fn mathematical_structure(&self) -> (r: &'static str)
        ensures
            r@ == self.spec_mathematical_structure(),
    {
        match self {
            DataType::Boolean => "XOR secret sharing",
            DataType::Quaternion => "Quaternion decomposition",
            DataType::Octonion => "Octonion decomposition",
            DataType::MathieuM24 => "Golay code",
            DataType::Genetic => "Codon-based splitting",
            DataType::RDFa => "Sporadic group threshold",
            DataType::IPv6 => "Bit-level decomposition",
            DataType::Byte => "Byte-level splitting",
            DataType::Monster => "Minimal representation",
        }
    }
}

} // verus!

verus! {

/// A registered coin holder, as recorded at a block height.
#[derive(Debug, Clone)]
pub struct CoinHolder {
    pub address: Vec<u8>,
    pub balance: u64,
    pub rank: usize,
    pub block_height: u64,
}

/// One share of a document, assigned to a holder.
#[derive(Debug, Clone)]
pub struct DocumentShard {
    pub shard_id: usize,
    pub data: Vec<u8>,
    pub holder_address: Vec<u8>,
    pub signature: Vec<u8>,
    pub block_height: u64,
    pub coin_type: String,
    pub data_type: DataType,
}

/// A document split into shards across the top holders.
#[derive(Debug, Clone)]
pub struct ShardedDocument {
    pub document_id: Vec<u8>,
    pub data_type: DataType,
    pub total_shards: usize,
    pub required_shards: usize,
    pub shards: Vec<DocumentShard>,
    pub block_height: u64,
    pub coin_type: String,
}

/// Share `index` (counted from 1) of `secret`: every byte offset by `index`, modulo 256.
pub open spec fn share_bytes(secret: Seq<u8>, index: int) -> Seq<u8> {
    Seq::new(secret.len(), |j: int| ((secret[j] + index) % 256) as u8)
}

/// `sum_{j < k} shares[j][i] * (j + 1)`.
pub open spec fn weighted_sum(shares: Seq<Seq<u8>>, i: int, k: int) -> int
    decreases k,
{
    if k <= 0 {
        0
    } else {
        weighted_sum(shares, i, k - 1) + shares[k - 1][i] * k
    }
}

/// The byte-wise weighted average of `shares`, as `reconstruct` computes it.
pub open spec fn combine_shares(shares: Seq<Seq<u8>>) -> Seq<u8> {
    Seq::new(
        shares[0].len(),
        |i: int| ((weighted_sum(shares, i, shares.len() as int) / (shares.len() as int)) % 256) as u8,
    )
}

/// The contents of a list of byte vectors.
pub open spec fn byte_views(v: Seq<Vec<u8>>) -> Seq<Seq<u8>> {
    v.map_values(|b: Vec<u8>| b@)
}

/// What `reconstruct` returns for a splitter with `threshold` on `shares`.
pub open spec fn reconstruct_spec(threshold: nat, shares: Seq<Seq<u8>>) -> Option<Seq<u8>> {
    if shares.len() < threshold {
        None
    } else {
        Some(combine_shares(shares.take(threshold as int)))
    }
}

/// Additive offset secret sharing.
pub struct ShamirSharing {
    pub threshold: usize,
    pub total_shares: usize,
}

proof fn lemma_reduced_average(w: int, t: int)
    requires
        w >= 0,
        t > 0,
    ensures
        (w % (t * 256)) / t == (w / t) % 256,
{
    vstd::arithmetic::div_mod::lemma_breakdown(w, t, 256);
    let q = (w / t) % 256;
    let r = w % t;
    vstd::arithmetic::div_mod::lemma_mod_bound(w, t);
    assert(w % (t * 256) == q * t + r) by (nonlinear_arith)
        requires
            w % (t * 256) == t * q + r,
    ;
    vstd::arithmetic::div_mod::lemma_fundamental_div_mod_converse(w % (t * 256), t, q, r);
}

impl ShamirSharing {
    pub fn new(threshold: usize, total: usize) -> (r: ShamirSharing)
        ensures
            r.threshold == threshold,
            r.total_shares == total,
    {
        ShamirSharing { threshold, total_shares: total }
    }

    /// Shares `1..=total_shares` of `secret`.
    pub fn split(&self, secret: &[u8]) -> (r: Vec<Vec<u8>>)
        ensures
            r@.len() == self.total_shares,
            forall|i: int| 0 <= i < r@.len() ==> #[trigger] r@[i]@ == share_bytes(secret@, i + 1),
    {
        let mut out: Vec<Vec<u8>> = Vec::new();
        let mut i: usize = 0;
        while i < self.total_shares
            invariant
                i <= self.total_shares,
                out@.len() == i,
                forall|k: int| 0 <= k < i ==> #[trigger] out@[k]@ == share_bytes(secret@, k + 1),
            decreases self.total_shares - i,
        {
            let share = self.generate_share(secret, i + 1);
            out.push(share);
            i = i + 1;
        }
        out
    }

    fn generate_share(&self, secret: &[u8], index: usize) -> (r: Vec<u8>)
        ensures
            r@ == share_bytes(secret@, index as int),
    {
        let offset = index % 256;
        let mut out: Vec<u8> = Vec::new();
        let mut j: usize = 0;
        while j < secret.len()
            invariant
                j <= secret@.len(),
                offset == index % 256,
                out@.len() == j,
                forall|k: int| 0 <= k < j ==> out@[k] == ((secret@[k] + index) % 256) as u8,
            decreases secret@.len() - j,
        {
            let b = ((secret[j] as usize + offset) % 256) as u8;
            proof {
                vstd::arithmetic::div_mod::lemma_add_mod_noop_right(secret@[j as int] as int, index as int, 256);
            }
            out.push(b);
            j = j + 1;
        }
        assert(out@ =~= share_bytes(secret@, index as int));
        out
    }

    /// Recovers a secret from the first `threshold` shares, or `None` when fewer are given.
    pub fn reconstruct(&self, shares: &[Vec<u8>]) -> (r: Option<Vec<u8>>)
        requires
            self.threshold > 0,
            shares@.len() >= self.threshold ==> forall|j: int|
                0 <= j < self.threshold ==> #[trigger] shares@[j]@.len() >= shares@[0]@.len(),
        ensures
            match r {
                Some(v) => reconstruct_spec(self.threshold as nat, byte_views(shares@)) == Some(v@),
                None => reconstruct_spec(self.threshold as nat, byte_views(shares@)) is None,
            },
    {
        if shares.len() < self.threshold {
            return None;
        }
        let v = self.weighted_average(shares);
        assert(byte_views(shares@).take(self.threshold as int) =~= byte_views(shares@.take(self.threshold as int)));
        Some(v)
    }

    fn weighted_average(&self, shares: &[Vec<u8>]) -> (r: Vec<u8>)
        requires
            0 < self.threshold <= shares@.len(),
            forall|j: int| 0 <= j < self.threshold ==> #[trigger] shares@[j]@.len() >= shares@[0]@.len(),
        ensures
            r@ == combine_shares(byte_views(shares@.take(self.threshold as int))),
    {
        let t = self.threshold;
        let ghost ss = byte_views(shares@.take(t as int));
        let len = shares[0].len();
        let m: u128 = 256 * (t as u128);
        let mut out: Vec<u8> = Vec::new();
        let mut i: usize = 0;
        while i < len
            invariant
                0 < t <= shares@.len(),
                t == self.threshold,
                len == shares@[0]@.len(),
                m == 256 * t,
                ss == byte_views(shares@.take(t as int)),
                forall|j: int| 0 <= j < t ==> #[trigger] shares@[j]@.len() >= shares@[0]@.len(),
                i <= len,
                out@.len() == i,
                forall|k: int| 0 <= k < i ==> out@[k] == ((weighted_sum(ss, k, t as int) / (t as int)) % 256) as u8,
            decreases len - i,
        {
            let mut acc: u128 = 0;
            let mut j: usize = 0;
            proof {
                vstd::arithmetic::div_mod::lemma_small_mod(0, m as nat);
            }
            while j < t
                invariant
                    0 < t <= shares@.len(),
                    len == shares@[0]@.len(),
                    m == 256 * t,
                    ss == byte_views(shares@.take(t as int)),
                    forall|q: int| 0 <= q < t ==> #[trigger] shares@[q]@.len() >= shares@[0]@.len(),
                    i < len,
                    j <= t,
                    acc == weighted_sum(ss, i as int, j as int) % (m as int),
                decreases t - j,
            {
                let byte = shares[j][i] as u128;
                let weight = (j + 1) as u128;
                assert(byte * weight <= 255 * 0x1_0000_0000_0000_0000) by (nonlinear_arith)
                    requires
                        byte <= 255,
                        weight <= 0x1_0000_0000_0000_0000,
                ;
                let term: u128 = byte * weight;
                proof {
                    assert(ss[j as int] == shares@[j as int]@);
                    vstd::arithmetic::div_mod::lemma_mod_bound(weighted_sum(ss, i as int, j as int), m as int);
                    vstd::arithmetic::div_mod::lemma_add_mod_noop(
                        weighted_sum(ss, i as int, j as int), term as int, m as int);
                    vstd::arithmetic::div_mod::lemma_mod_bound(term as int, m as int);
                    vstd::arithmetic::div_mod::lemma_mod_bound(weighted_sum(ss, i as int, j as int) + term, m as int);
                    assert(term <= 255 * t) by (nonlinear_arith)
                        requires
                            term == byte * weight,
                            byte <= 255,
                            weight <= t,
                    ;
                    vstd::arithmetic::div_mod::lemma_small_mod(term as nat, m as nat);
                }
                acc = (acc + term) % m;
                j = j + 1;
            }
            proof {
                assert(weighted_sum(ss, i as int, t as int) >= 0) by {
                    lemma_weighted_sum_nonneg(ss, i as int, t as int);
                }
                assert((t as int) * 256 == m as int);
                lemma_reduced_average(weighted_sum(ss, i as int, t as int), t as int);
            }
            let b = (acc / (t as u128)) as u8;
            out.push(b);
            i = i + 1;
        }
        assert(out@ =~= combine_shares(ss));
        out
    }
}

proof fn lemma_weighted_sum_nonneg(shares: Seq<Seq<u8>>, i: int, k: int)
    ensures
        weighted_sum(shares, i, k) >= 0,
    decreases k,
{
    if k > 0 {
        lemma_weighted_sum_nonneg(shares, i, k - 1);
        assert(shares[k - 1][i] * k >= 0) by (nonlinear_arith)
            requires k > 0;
    }
}

} // verus!

verus! {

/// Where a holder with balance `b` goes in `s`: after the leading run of holders whose
/// balance is at least `b`.
pub open spec fn insertion_point(s: Seq<CoinHolder>, b: u64) -> nat
    decreases s.len(),
{
    if s.len() == 0 {
        0
    } else if s[0].balance < b {
        0
    } else {
        1 + insertion_point(s.drop_first(), b)
    }
}

/// `s` sorted by descending balance; holders of equal balance keep their order.
pub open spec fn sort_by_balance(s: Seq<CoinHolder>) -> Seq<CoinHolder>
    decreases s.len(),
{
    if s.len() == 0 {
        s
    } else {
        let sorted = sort_by_balance(s.drop_last());
        sorted.insert(insertion_point(sorted, s.last().balance) as int, s.last())
    }
}

/// Holders in descending order of balance.
pub open spec fn balance_descending(s: Seq<CoinHolder>) -> bool {
    forall|i: int, j: int| 0 <= i < j < s.len() ==> s[i].balance >= s[j].balance
}

/// The holders of `s` whose balance is `b`, in order.
pub open spec fn with_balance(s: Seq<CoinHolder>, b: u64) -> Seq<CoinHolder> {
    s.filter(balance_is(b))
}

/// Holds of the holders whose balance is `b`.
pub open spec fn balance_is(b: u64) -> spec_fn(CoinHolder) -> bool {
    |h: CoinHolder| h.balance == b
}

/// A holder's record matches an address and a block height.
pub open spec fn holder_matches(h: CoinHolder, address: Seq<u8>, block_height: u64) -> bool {
    h.address@ == address && h.block_height == block_height
}

/// The same record, field by field.
pub open spec fn same_holder(a: CoinHolder, b: CoinHolder) -> bool {
    a.address@ == b.address@ && a.balance == b.balance && a.rank == b.rank && a.block_height
        == b.block_height
}

proof fn lemma_insertion_point_bounds(s: Seq<CoinHolder>, b: u64)
    ensures
        insertion_point(s, b) <= s.len(),
        forall|i: int| 0 <= i < insertion_point(s, b) ==> #[trigger] s[i].balance >= b,
        insertion_point(s, b) < s.len() ==> s[insertion_point(s, b) as int].balance < b,
    decreases s.len(),
{
    if s.len() > 0 && s[0].balance >= b {
        lemma_insertion_point_bounds(s.drop_first(), b);
        assert forall|i: int| 0 <= i < insertion_point(s, b) implies #[trigger] s[i].balance >= b by {
            if i > 0 {
                assert(s[i] == s.drop_first()[i - 1]);
            }
        }
    }
}

proof fn lemma_sort_len(s: Seq<CoinHolder>)
    ensures
        sort_by_balance(s).len() == s.len(),
    decreases s.len(),
{
    if s.len() > 0 {
        lemma_sort_len(s.drop_last());
        lemma_insertion_point_bounds(sort_by_balance(s.drop_last()), s.last().balance);
    }
}

/// Ranking is a stable sort: the result is in descending order of balance, and for every
/// balance the holders with that balance appear in the same order as in `s`.
pub proof fn lemma_sort_by_balance_stable(s: Seq<CoinHolder>)
    ensures
        sort_by_balance(s).len() == s.len(),
        balance_descending(sort_by_balance(s)),
        forall|b: u64| #[trigger] with_balance(sort_by_balance(s), b) == with_balance(s, b),
    decreases s.len(),
{
    lemma_sort_len(s);
    if s.len() > 0 {
        let rest = s.drop_last();
        let x = s.last();
        let sorted = sort_by_balance(rest);
        lemma_sort_by_balance_stable(rest);
        let k = insertion_point(sorted, x.balance) as int;
        lemma_insertion_point_bounds(sorted, x.balance);
        let out = sorted.insert(k, x);
        lemma_insert_keeps_descending(sorted, k, x);
        assert forall|i: int| k <= i < sorted.len() implies #[trigger] sorted[i].balance < x.balance by {
            assert(sorted[k].balance >= sorted[i].balance);
        }
        assert(s =~= rest.push(x));
        assert forall|b: u64| #[trigger] with_balance(out, b) == with_balance(s, b) by {
            lemma_filter_insert(sorted, k, x, b);
            rest.lemma_filter_push(x, balance_is(b));
        }
    }
}

proof fn lemma_insert_keeps_descending(sorted: Seq<CoinHolder>, k: int, x: CoinHolder)
    requires
        0 <= k <= sorted.len(),
        balance_descending(sorted),
        forall|i: int| 0 <= i < k ==> #[trigger] sorted[i].balance >= x.balance,
        k < sorted.len() ==> sorted[k].balance < x.balance,
    ensures
        balance_descending(sorted.insert(k, x)),
{
    let out = sorted.insert(k, x);
    assert forall|i: int, j: int| 0 <= i < j < out.len() implies out[i].balance >= out[j].balance by {
        if j < k {
            assert(out[i] == sorted[i] && out[j] == sorted[j]);
        } else if j == k {
            assert(out[i] == sorted[i]);
        } else if i < k {
            assert(out[i] == sorted[i] && out[j] == sorted[j - 1]);
        } else if i == k {
            assert(out[j] == sorted[j - 1]);
            if k < sorted.len() {
                assert(sorted[k].balance < x.balance);
                assert(sorted[k].balance >= sorted[j - 1].balance);
            }
        } else {
            assert(out[i] == sorted[i - 1] && out[j] == sorted[j - 1]);
        }
    }
}

proof fn lemma_filter_insert(sorted: Seq<CoinHolder>, k: int, x: CoinHolder, b: u64)
    requires
        0 <= k <= sorted.len(),
        forall|i: int| k <= i < sorted.len() ==> #[trigger] sorted[i].balance < x.balance,
    ensures
        with_balance(sorted.insert(k, x), b) == if x.balance == b {
            with_balance(sorted, b).push(x)
        } else {
            with_balance(sorted, b)
        },
{
    let p = balance_is(b);
    let a = sorted.take(k);
    let c = sorted.skip(k);
    let one = Seq::<CoinHolder>::empty().push(x);
    assert(sorted.insert(k, x) =~= (a + one) + c);
    assert(sorted =~= a + c);
    Seq::filter_distributes_over_add(a + one, c, p);
    Seq::filter_distributes_over_add(a, one, p);
    Seq::filter_distributes_over_add(a, c, p);
    Seq::<CoinHolder>::empty().lemma_filter_push(x, p);
    reveal(Seq::filter);
    assert(Seq::<CoinHolder>::empty().filter(p) =~= Seq::<CoinHolder>::empty());
    if x.balance == b {
        assert forall|i: int| 0 <= i < c.len() implies !p(#[trigger] c[i]) by {
            assert(c[i] == sorted[k + i]);
        }
        c.lemma_all_neg_filter_empty(p);
        assert(c.filter(p) =~= Seq::<CoinHolder>::empty());
        assert(a.filter(p) + one =~= a.filter(p).push(x));
    } else {
        assert(one.filter(p) =~= Seq::<CoinHolder>::empty());
    }
}

/// The ledger of holders of one coin.
pub struct CoinHolderRegistry {
    pub coin_type: String,
    pub holders: Vec<CoinHolder>,
}

impl CoinHolderRegistry {
    pub fn new(coin_type: String) -> (r: CoinHolderRegistry)
        ensures
            r.coin_type@ == coin_type@,
            r.holders@.len() == 0,
    {
        CoinHolderRegistry { coin_type, holders: Vec::new() }
    }

    /// Appends a holder record with rank 0.
    pub fn add_holder(&mut self, address: Vec<u8>, balance: u64, block_height: u64)
        ensures
            final(self).coin_type == old(self).coin_type,
            final(self).holders@ == old(self).holders@.push(
                (CoinHolder { address, balance, rank: 0, block_height }),
            ),
    {
        self.holders.push(CoinHolder { address, balance, rank: 0, block_height });
    }

    /// Sorts the holders by descending balance (stable), then returns copies of the first
    /// `n`, ranked from 1 and stamped with `block_height`.
    pub fn get_top_n_at_block(&mut self, n: usize, block_height: u64) -> (r: Vec<CoinHolder>)
        ensures
            final(self).coin_type == old(self).coin_type,
            final(self).holders@ == sort_by_balance(old(self).holders@),
            r@.len() == if n < old(self).holders@.len() {
                n as int
            } else {
                old(self).holders@.len() as int
            },
            balance_descending(r@),
            forall|i: int|
                #![trigger r@[i]]
                0 <= i < r@.len() ==> {
                    &&& r@[i].address@ == final(self).holders@[i].address@
                    &&& r@[i].balance == final(self).holders@[i].balance
                    &&& r@[i].rank == i + 1
                    &&& r@[i].block_height == block_height
                },
    {
        self.sort_holders();
        proof {
            lemma_sort_by_balance_stable(old(self).holders@);
        }
        let mut out: Vec<CoinHolder> = Vec::new();
        let mut i: usize = 0;
        while i < n && i < self.holders.len()
            invariant
                i <= n,
                i <= self.holders@.len(),
                balance_descending(self.holders@),
                out@.len() == i,
                forall|k: int|
                    #![trigger out@[k]]
                    0 <= k < i ==> {
                        &&& out@[k].address@ == self.holders@[k].address@
                        &&& out@[k].balance == self.holders@[k].balance
                        &&& out@[k].rank == k + 1
                        &&& out@[k].block_height == block_height
                    },
            decreases n - i,
        {
            let h = &self.holders[i];
            out.push(CoinHolder {
                address: copy_slice(h.address.as_slice()),
                balance: h.balance,
                rank: i + 1,
                block_height,
            });
            i = i + 1;
        }
        assert forall|a: int, c: int| 0 <= a < c < out@.len() implies out@[a].balance >= out@[c].balance by {
            assert(out@[a].balance == self.holders@[a].balance);
            assert(out@[c].balance == self.holders@[c].balance);
        }
        out
    }

    fn sort_holders(&mut self)
        ensures
            final(self).coin_type == old(self).coin_type,
            final(self).holders@ == sort_by_balance(old(self).holders@),
    {
        let ghost orig = self.holders@;
        let total = self.holders.len();
        let mut rest: Vec<CoinHolder> = Vec::new();
        core::mem::swap(&mut rest, &mut self.holders);
        let mut sorted: Vec<CoinHolder> = Vec::new();
        let mut i: usize = 0;
        assert(orig.take(0) =~= Seq::<CoinHolder>::empty());
        while rest.len() > 0
            invariant
                i + rest@.len() == orig.len(),
                rest@ == orig.skip(i as int),
                sorted@ == sort_by_balance(orig.take(i as int)),
                self.coin_type == old(self).coin_type,
                orig.len() == total,
            decreases rest@.len(),
        {
            let x = rest.remove(0);
            proof {
                assert(orig.take(i as int + 1).drop_last() =~= orig.take(i as int));
                assert(orig.skip(i as int + 1) =~= orig.skip(i as int).drop_first());
                lemma_sort_len(orig.take(i as int));
            }
            let k = Self::insertion_index(&sorted, x.balance);
            proof {
                lemma_insertion_point_bounds(sorted@, x.balance);
            }
            sorted.insert(k, x);
            i = i + 1;
        }
        assert(orig.take(i as int) =~= orig);
        self.holders = sorted;
    }

    fn insertion_index(v: &Vec<CoinHolder>, b: u64) -> (k: usize)
        ensures
            k == insertion_point(v@, b),
    {
        let mut k: usize = 0;
        assert(v@.skip(0) =~= v@);
        while k < v.len() && v[k].balance >= b
            invariant
                k <= v@.len(),
                insertion_point(v@, b) == k + insertion_point(v@.skip(k as int), b),
            decreases v@.len() - k,
        {
            assert(v@.skip(k as int).drop_first() =~= v@.skip(k as int + 1));
            k = k + 1;
        }
        k
    }

    /// The first holder recorded with this address at this block height.
    pub fn verify_holder_at_block(&self, address: &[u8], block_height: u64) -> (r: Option<CoinHolder>)
        ensures
            match r {
                Some(h) => exists|i: int|
                    0 <= i < self.holders@.len() && holder_matches(self.holders@[i], address@, block_height)
                        && (forall|j: int| 0 <= j < i ==> !holder_matches(#[trigger] self.holders@[j], address@, block_height))
                        && same_holder(h, self.holders@[i]),
                None => forall|i: int|
                    0 <= i < self.holders@.len() ==> !holder_matches(#[trigger] self.holders@[i], address@, block_height),
            },
    {
        let mut i: usize = 0;
        while i < self.holders.len()
            invariant
                i <= self.holders@.len(),
                forall|j: int| 0 <= j < i ==> !holder_matches(#[trigger] self.holders@[j], address@, block_height),
            decreases self.holders@.len() - i,
        {
            let h = &self.holders[i];
            if h.block_height == block_height && bytes_equal(h.address.as_slice(), address) {
                return Some(CoinHolder {
                    address: copy_slice(h.address.as_slice()),
                    balance: h.balance,
                    rank: h.rank,
                    block_height: h.block_height,
                });
            }
            i = i + 1;
        }
        None
    }
}

/// Byte-wise equality of two buffers.
pub fn bytes_equal(a: &[u8], b: &[u8]) -> (r: bool)
    ensures
        r == (a@ == b@),
{
    if a.len() != b.len() {
        return false;
    }
    let mut i: usize = 0;
    while i < a.len()
        invariant
            a@.len() == b@.len(),
            i <= a@.len(),
            forall|j: int| 0 <= j < i ==> a@[j] == b@[j],
        decreases a@.len() - i,
    {
        if a[i] != b[i] {
            return false;
        }
        i = i + 1;
    }
    assert(a@ =~= b@);
    true
}

} // verus!

verus! {

/// XOR of all bytes of `s`.
pub open spec fn xor_fold(s: Seq<u8>) -> u8
    decreases s.len(),
{
    if s.len() == 0 {
        0
    } else {
        xor_fold(s.drop_last()) ^ s.last()
    }
}

/// The toy signature check: a non-empty signature whose XOR fold, combined with the key's,
/// equals the data's.
pub open spec fn signature_valid(data: Seq<u8>, signature: Seq<u8>, public_key: Seq<u8>) -> bool {
    signature.len() > 0 && xor_fold(data) == xor_fold(signature) ^ xor_fold(public_key)
}

/// A collected shard is accepted: its holder is registered at `block_height` and its
/// signature checks.
pub open spec fn shard_accepted(holders: Seq<CoinHolder>, shard: DocumentShard, block_height: u64) -> bool {
    &&& exists|i: int| 0 <= i < holders.len() && holder_matches(holders[i], shard.holder_address@, block_height)
    &&& signature_valid(shard.data@, shard.signature@, shard.holder_address@)
}

/// The data of each shard.
pub open spec fn shard_data(shards: Seq<DocumentShard>) -> Seq<Seq<u8>> {
    shards.map_values(|s: DocumentShard| s.data@)
}

/// Shards documents across the top holders of a coin.
pub struct ShardingSystem {
    pub shamir: ShamirSharing,
    pub registry: CoinHolderRegistry,
    pub data_type: DataType,
}

/// Threshold of the sharding used for the data category behind the number of Gandalf shards.
pub const GANDALF_SHARDS: usize = 71;

fn fold_bytes(s: &[u8]) -> (r: u8)
    ensures
        r == xor_fold(s@),
{
    let mut acc: u8 = 0;
    let mut i: usize = 0;
    while i < s.len()
        invariant
            i <= s@.len(),
            acc == xor_fold(s@.take(i as int)),
        decreases s@.len() - i,
    {
        assert(s@.take(i as int + 1).drop_last() =~= s@.take(i as int));
        acc = acc ^ s[i];
        i = i + 1;
    }
    assert(s@.take(i as int) =~= s@);
    acc
}

fn verify_signature(data: &[u8], signature: &[u8], public_key: &[u8]) -> (r: bool)
    ensures
        r == signature_valid(data@, signature@, public_key@),
{
    if signature.len() == 0 {
        return false;
    }
    let expected = fold_bytes(data);
    let sig_check = fold_bytes(signature);
    let key_check = fold_bytes(public_key);
    expected == (sig_check ^ key_check)
}

fn hash_document(data: &[u8]) -> (r: Vec<u8>)
    ensures
        r@ == crate::crypto::fold_digest(data@),
{
    let digest = crate::crypto::xor_digest(data);
    let mut out: Vec<u8> = Vec::new();
    let mut i: usize = 0;
    proof {
        crate::crypto::lemma_fold_digest_len(data@);
    }
    while i < 32
        invariant
            i <= 32,
            digest@ == crate::crypto::fold_digest(data@),
            digest@.len() == 32,
            out@ == digest@.take(i as int),
        decreases 32 - i,
    {
        out.push(digest[i]);
        i = i + 1;
        assert(out@ =~= digest@.take(i as int));
    }
    assert(digest@.take(32) =~= digest@);
    out
}

impl ShardingSystem {
    /// The sharding is n-of-n: threshold and total both equal the data type's shard count.
    pub open spec fn wf(&self) -> bool {
        &&& self.shamir.threshold == self.data_type.spec_shard_count()
        &&& self.shamir.total_shares == self.data_type.spec_shard_count()
    }

    pub fn new(data_type: DataType, coin_type: String) -> (r: ShardingSystem)
        ensures
            r.wf(),
            r.data_type == data_type,
            r.registry.coin_type@ == coin_type@,
            r.registry.holders@.len() == 0,
    {
        let n = data_type.shard_count();
        ShardingSystem {
            shamir: ShamirSharing::new(n, n),
            registry: CoinHolderRegistry::new(coin_type),
            data_type,
        }
    }

    pub fn add_holder(&mut self, address: Vec<u8>, balance: u64, block_height: u64)
        ensures
            final(self).shamir == old(self).shamir,
            final(self).data_type == old(self).data_type,
            final(self).registry.coin_type == old(self).registry.coin_type,
            final(self).registry.holders@ == old(self).registry.holders@.push(
                (CoinHolder { address, balance, rank: 0, block_height }),
            ),
    {
        self.registry.add_holder(address, balance, block_height);
    }

    /// Splits `document` into shares and assigns share `i` to the holder ranked `i + 1`.
    /// The shards are unsigned.
    pub fn shard_document(&mut self, document: &[u8], block_height: u64) -> (r: ShardedDocument)
        ensures
            final(self).shamir == old(self).shamir,
            final(self).data_type == old(self).data_type,
            final(self).registry.coin_type == old(self).registry.coin_type,
            final(self).registry.holders@ == sort_by_balance(old(self).registry.holders@),
            r.document_id@ == crate::crypto::fold_digest(document@),
            r.data_type == old(self).data_type,
            r.total_shards == old(self).shamir.total_shares,
            r.required_shards == old(self).shamir.threshold,
            old(self).wf() ==> r.total_shards == old(self).data_type.spec_shard_count()
                && r.required_shards == r.total_shards,
            r.block_height == block_height,
            r.coin_type@ == old(self).registry.coin_type@,
            r.shards@.len() == if old(self).shamir.total_shares < old(self).registry.holders@.len() {
                old(self).shamir.total_shares as int
            } else {
                old(self).registry.holders@.len() as int
            },
            forall|i: int|
                #![trigger r.shards@[i]]
                0 <= i < r.shards@.len() ==> {
                    &&& r.shards@[i].shard_id == i
                    &&& r.shards@[i].data@ == share_bytes(document@, i + 1)
                    &&& r.shards@[i].holder_address@ == final(self).registry.holders@[i].address@
                    &&& r.shards@[i].signature@.len() == 0
                    &&& r.shards@[i].block_height == block_height
                    &&& r.shards@[i].coin_type@ == old(self).registry.coin_type@
                    &&& r.shards@[i].data_type == old(self).data_type
                },
    {
        let holders = self.registry.get_top_n_at_block(self.shamir.total_shares, block_height);
        let shares = self.shamir.split(document);
        proof {
            lemma_sort_by_balance_stable(old(self).registry.holders@);
        }
        let mut shards: Vec<DocumentShard> = Vec::new();
        let mut i: usize = 0;
        while i < shares.len() && i < holders.len()
            invariant
                i <= shares@.len(),
                i <= holders@.len(),
                shares@.len() == self.shamir.total_shares,
                forall|k: int| 0 <= k < shares@.len() ==> #[trigger] shares@[k]@ == share_bytes(document@, k + 1),
                forall|k: int| 0 <= k < holders@.len() ==> #[trigger] holders@[k].address@ == self.registry.holders@[k].address@,
                shards@.len() == i,
                holders@.len() <= self.registry.holders@.len(),
                forall|k: int|
                    #![trigger shards@[k]]
                    0 <= k < i ==> {
                        &&& shards@[k].shard_id == k
                        &&& shards@[k].data@ == share_bytes(document@, k + 1)
                        &&& shards@[k].holder_address@ == self.registry.holders@[k].address@
                        &&& shards@[k].signature@.len() == 0
                        &&& shards@[k].block_height == block_height
                        &&& shards@[k].coin_type@ == self.registry.coin_type@
                        &&& shards@[k].data_type == self.data_type
                    },
            decreases shares@.len() - i,
        {
            let coin_type = self.registry.coin_type.clone();
            shards.push(DocumentShard {
                shard_id: i,
                data: copy_slice(shares[i].as_slice()),
                holder_address: copy_slice(holders[i].address.as_slice()),
                signature: Vec::new(),
                block_height,
                coin_type,
                data_type: self.data_type,
            });
            i = i + 1;
        }
        ShardedDocument {
            document_id: hash_document(document),
            data_type: self.data_type,
            total_shards: self.shamir.total_shares,
            required_shards: self.shamir.threshold,
            shards,
            block_height,
            coin_type: self.registry.coin_type.clone(),
        }
    }

    /// Reconstructs a document from collected shards. Fails when fewer than the required
    /// number are given, or when any one of them is not accepted.
    pub fn reconstruct_document(&self, sharded: &ShardedDocument, collected_shards: Vec<DocumentShard>) -> (r: Option<Vec<u8>>)
        requires
            self.shamir.threshold > 0,
            collected_shards@.len() >= self.shamir.threshold ==> forall|j: int|
                0 <= j < self.shamir.threshold ==> #[trigger] collected_shards@[j].data@.len()
                    >= collected_shards@[0].data@.len(),
        ensures
            collected_shards@.len() < sharded.required_shards ==> r is None,
            (exists|i: int| 0 <= i < collected_shards@.len()
                && !shard_accepted(self.registry.holders@, #[trigger] collected_shards@[i], sharded.block_height))
                ==> r is None,
            collected_shards@.len() >= sharded.required_shards
                && (forall|i: int| 0 <= i < collected_shards@.len()
                    ==> shard_accepted(self.registry.holders@, #[trigger] collected_shards@[i], sharded.block_height))
                ==> match r {
                    Some(v) => reconstruct_spec(self.shamir.threshold as nat, shard_data(collected_shards@)) == Some(v@),
                    None => reconstruct_spec(self.shamir.threshold as nat, shard_data(collected_shards@)) is None,
                },
    {
        if collected_shards.len() < sharded.required_shards {
            return None;
        }
        let mut i: usize = 0;
        while i < collected_shards.len()
            invariant
                i <= collected_shards@.len(),
                forall|k: int| 0 <= k < i ==> shard_accepted(self.registry.holders@, #[trigger] collected_shards@[k], sharded.block_height),
            decreases collected_shards@.len() - i,
        {
            if !self.verify_shard_signature(&collected_shards[i], sharded.block_height) {
                return None;
            }
            i = i + 1;
        }
        let mut shares: Vec<Vec<u8>> = Vec::new();
        let mut j: usize = 0;
        while j < collected_shards.len()
            invariant
                j <= collected_shards@.len(),
                shares@.len() == j,
                forall|k: int| 0 <= k < j ==> #[trigger] shares@[k]@ == collected_shards@[k].data@,
            decreases collected_shards@.len() - j,
        {
            shares.push(copy_slice(collected_shards[j].data.as_slice()));
            j = j + 1;
        }
        assert(byte_views(shares@) =~= shard_data(collected_shards@));
        self.shamir.reconstruct(shares.as_slice())
    }

    fn verify_shard_signature(&self, shard: &DocumentShard, block_height: u64) -> (r: bool)
        ensures
            r == shard_accepted(self.registry.holders@, *shard, block_height),
    {
        let holder = self.registry.verify_holder_at_block(shard.holder_address.as_slice(), block_height);
        if holder.is_none() {
            return false;
        }
        verify_signature(shard.data.as_slice(), shard.signature.as_slice(), shard.holder_address.as_slice())
    }
}

} // verus!

verus! {

/// The byte that three shares `s + 1`, `s + 2`, `s + 3` (mod 256) reconstruct to.
pub open spec fn three_share_byte(s: u8) -> u8 {
    ((((s + 1) % 256) * 1 + ((s + 2) % 256) * 2 + ((s + 3) % 256) * 3) / 3 % 256) as u8
}

proof fn lemma_three_share_byte(s: u8)
    ensures
        three_share_byte(s) == s <==> s == 252,
{
    if s <= 252 {
        vstd::arithmetic::div_mod::lemma_small_mod((s + 1) as nat, 256);
        vstd::arithmetic::div_mod::lemma_small_mod((s + 2) as nat, 256);
        vstd::arithmetic::div_mod::lemma_small_mod((s + 3) as nat, 256);
        let w = (s + 1) * 1 + (s + 2) * 2 + (s + 3) * 3;
        assert(w == (2 * s + 4) * 3 + 2);
        vstd::arithmetic::div_mod::lemma_fundamental_div_mod_converse_div(w, 3, 2 * s + 4, 2);
        if 2 * s + 4 < 256 {
            vstd::arithmetic::div_mod::lemma_small_mod((2 * s + 4) as nat, 256);
        } else {
            vstd::arithmetic::div_mod::lemma_fundamental_div_mod_converse_mod(2 * s + 4, 256, 1, 2 * s - 252);
        }
    } else if s == 253 {
        assert(three_share_byte(s) == 254);
    } else if s == 254 {
        assert(three_share_byte(s) == 86);
    } else {
        assert(three_share_byte(s) == 2);
    }
}

/// Splitting with five shares and reconstructing from the first three gives the secret back
/// exactly when every byte of the secret is 252 (in particular for the empty secret): the
/// weighted average inverts the offsets on no other byte.
pub proof fn lemma_three_of_five_round_trip(secret: Seq<u8>)
    ensures
        reconstruct_spec(3, Seq::new(5, |i: int| share_bytes(secret, i + 1))) == Some(secret)
            <==> forall|j: int| 0 <= j < secret.len() ==> #[trigger] secret[j] == 252u8,
{
    let shares = Seq::new(5, |i: int| share_bytes(secret, i + 1));
    let ss = shares.take(3);
    let out = combine_shares(ss);
    assert(out.len() == secret.len());
    assert forall|j: int| 0 <= j < secret.len() implies #[trigger] out[j] == three_share_byte(secret[j]) by {
        assert(ss[0][j] == ((secret[j] + 1) % 256) as u8);
        assert(ss[1][j] == ((secret[j] + 2) % 256) as u8);
        assert(ss[2][j] == ((secret[j] + 3) % 256) as u8);
        assert(weighted_sum(ss, j, 1) == weighted_sum(ss, j, 0) + ss[0][j] * 1);
        assert(weighted_sum(ss, j, 2) == weighted_sum(ss, j, 1) + ss[1][j] * 2);
        assert(weighted_sum(ss, j, 3) == weighted_sum(ss, j, 2) + ss[2][j] * 3);
    }
    if forall|j: int| 0 <= j < secret.len() ==> #[trigger] secret[j] == 252u8 {
        assert forall|j: int| 0 <= j < secret.len() implies out[j] == secret[j] by {
            lemma_three_share_byte(secret[j]);
        }
        assert(out =~= secret);
    }
    if out == secret {
        assert forall|j: int| 0 <= j < secret.len() implies #[trigger] secret[j] == 252u8 by {
            lemma_three_share_byte(secret[j]);
            assert(out[j] == secret[j]);
        }
    }
}

} // verus!

verus! {

/// A sharding system is n-of-n for its data type: shards of its documents number the type's
/// shard count, and every one of them is required.
pub proof fn lemma_sharding_is_n_of_n(system: ShardingSystem, data_type: DataType)
    requires
        system.wf(),
        system.data_type == data_type,
    ensures
        system.shamir.total_shares == data_type.spec_shard_count(),
        system.shamir.threshold == system.shamir.total_shares,
{
}

} // verus!
