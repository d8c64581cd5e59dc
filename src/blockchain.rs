//! A ledger of semantic transactions, mined into blocks.

use vstd::prelude::*;
use crate::crypto::{ChannelMatrix, ExtractionWitness, copy_slice, fold_digest, xor_digest};
use crate::text::{chars_of, starts_with_at};

verus! {

/// A transaction carrying RDFa data with its witness and channel layout.
#[derive(Debug, Clone)]
pub struct SemanticTransaction {
    pub rdfa_data: Vec<u8>,
    pub witness: ExtractionWitness,
    pub channel_matrix: ChannelMatrix,
    pub fee: u64,
    pub timestamp: u64,
    pub signature: Vec<u8>,
}

#[derive(Debug, Clone, Copy)]
pub struct BlockHeader {
    pub previous_hash: [u8; 32],
    pub timestamp: u64,
    pub nonce: u64,
    pub difficulty: u64,
}

#[derive(Debug, Clone)]
pub struct SemanticBlock {
    pub header: BlockHeader,
    pub transactions: Vec<SemanticTransaction>,
    pub merkle_root: [u8; 32],
    pub semantic_proof: Vec<u8>,
    pub miner_address: Vec<u8>,
    pub reward: u64,
}

/// Fees charged for a transaction.
pub struct FeeSchedule {
    pub base_fee: u64,
    pub per_byte_fee: u64,
    pub per_channel_fee: u64,
    pub verification_fee: u64,
}

/// The fee for `tx`: base, plus per byte of data, plus per channel, plus verification.
pub open spec fn fee_spec(s: &FeeSchedule, tx: &SemanticTransaction) -> int {
    s.base_fee + tx.rdfa_data@.len() * s.per_byte_fee + tx.channel_matrix.channels * s.per_channel_fee
        + s.verification_fee
}

impl FeeSchedule {
    pub fn calculate_fee(&self, tx: &SemanticTransaction) -> (r: u64)
        requires
            fee_spec(self, tx) <= u64::MAX,
        ensures
            r == fee_spec(self, tx),
    {
        let len = tx.rdfa_data.len() as u64;
        let channels = tx.channel_matrix.channels as u64;
        assert(len * self.per_byte_fee <= u64::MAX && channels * self.per_channel_fee <= u64::MAX) by (nonlinear_arith)
            requires
                self.base_fee + len * self.per_byte_fee + channels * self.per_channel_fee + self.verification_fee
                    <= u64::MAX,
                self.base_fee >= 0,
                self.verification_fee >= 0,
                len * self.per_byte_fee >= 0,
                channels * self.per_channel_fee >= 0,
        ;
        self.base_fee + len * self.per_byte_fee + channels * self.per_channel_fee + self.verification_fee
    }
}

/// The parts of a miner's reward.
pub struct MinerReward {
    pub block_reward: u64,
    pub transaction_fees: u64,
    pub storage_bonus: u64,
    pub verification_bonus: u64,
}

impl MinerReward {
    pub fn total(&self) -> (r: u64)
        requires
            self.block_reward + self.transaction_fees + self.storage_bonus + self.verification_bonus <= u64::MAX,
        ensures
            r == self.block_reward + self.transaction_fees + self.storage_bonus + self.verification_bonus,
    {
        self.block_reward + self.transaction_fees + self.storage_bonus + self.verification_bonus
    }
}

/// Byte-wise XOR of two 32-byte digests.
pub open spec fn xor32(a: Seq<u8>, b: Seq<u8>) -> Seq<u8> {
    Seq::new(32, |k: int| a[k] ^ b[k])
}

/// The XOR of the digests of the transactions' data.
pub open spec fn merkle_spec(txs: Seq<SemanticTransaction>) -> Seq<u8>
    decreases txs.len(),
{
    if txs.len() == 0 {
        Seq::new(32, |k: int| 0u8)
    } else {
        xor32(merkle_spec(txs.drop_last()), fold_digest(txs.last().rdfa_data@))
    }
}

/// The sum of the transactions' fees.
pub open spec fn fees_spec(txs: Seq<SemanticTransaction>) -> int
    decreases txs.len(),
{
    if txs.len() == 0 {
        0
    } else {
        fees_spec(txs.drop_last()) + txs.last().fee
    }
}

/// All transactions of the chain, block by block.
pub open spec fn chain_transactions(chain: Seq<SemanticBlock>) -> Seq<SemanticTransaction>
    decreases chain.len(),
{
    if chain.len() == 0 {
        Seq::empty()
    } else {
        chain_transactions(chain.drop_last()) + chain.last().transactions@
    }
}

/// The hash a new block links to: the last block's merkle root, or zeros.
pub open spec fn last_hash_spec(chain: Seq<SemanticBlock>) -> Seq<u8> {
    if chain.len() == 0 {
        Seq::new(32, |k: int| 0u8)
    } else {
        chain.last().merkle_root@
    }
}

/// Two transactions with the same contents.
pub open spec fn same_transaction(a: SemanticTransaction, b: SemanticTransaction) -> bool {
    &&& a.rdfa_data@ == b.rdfa_data@
    &&& a.witness.commitment == b.witness.commitment
    &&& a.witness.channels_used@ == b.witness.channels_used@
    &&& a.witness.proof@ == b.witness.proof@
    &&& a.channel_matrix.channels == b.channel_matrix.channels
    &&& a.channel_matrix.contents() == b.channel_matrix.contents()
    &&& a.fee == b.fee
    &&& a.timestamp == b.timestamp
    &&& a.signature@ == b.signature@
}

/// Two blocks with the same contents.
pub open spec fn same_block(a: SemanticBlock, b: SemanticBlock) -> bool {
    &&& a.header == b.header
    &&& a.merkle_root == b.merkle_root
    &&& a.semantic_proof@ == b.semantic_proof@
    &&& a.miner_address@ == b.miner_address@
    &&& a.reward == b.reward
    &&& a.transactions@.len() == b.transactions@.len()
    &&& forall|i: int| 0 <= i < a.transactions@.len() ==> same_transaction(#[trigger] a.transactions@[i], b.transactions@[i])
}

fn copy_witness(w: &ExtractionWitness) -> (r: ExtractionWitness)
    ensures
        r.commitment == w.commitment,
        r.channels_used@ == w.channels_used@,
        r.proof@ == w.proof@,
{
    ExtractionWitness {
        commitment: w.commitment,
        channels_used: copy_slice(w.channels_used.as_slice()),
        proof: copy_slice(w.proof.as_slice()),
    }
}

fn copy_matrix(m: &ChannelMatrix) -> (r: ChannelMatrix)
    ensures
        r.channels == m.channels,
        r.contents() == m.contents(),
{
    let mut data: Vec<Vec<u8>> = Vec::new();
    let mut i: usize = 0;
    while i < m.data.len()
        invariant
            i <= m.data@.len(),
            data@.len() == i,
            forall|q: int| 0 <= q < i ==> #[trigger] data@[q]@ == m.data@[q]@,
        decreases m.data@.len() - i,
    {
        data.push(copy_slice(m.data[i].as_slice()));
        i = i + 1;
    }
    let r = ChannelMatrix { channels: m.channels, data };
    assert(r.contents() =~= m.contents());
    r
}

fn copy_transaction(t: &SemanticTransaction) -> (r: SemanticTransaction)
    ensures
        same_transaction(r, *t),
{
    SemanticTransaction {
        rdfa_data: copy_slice(t.rdfa_data.as_slice()),
        witness: copy_witness(&t.witness),
        channel_matrix: copy_matrix(&t.channel_matrix),
        fee: t.fee,
        timestamp: t.timestamp,
        signature: copy_slice(t.signature.as_slice()),
    }
}

fn copy_block(b: &SemanticBlock) -> (r: SemanticBlock)
    ensures
        same_block(r, *b),
{
    let mut txs: Vec<SemanticTransaction> = Vec::new();
    let mut i: usize = 0;
    while i < b.transactions.len()
        invariant
            i <= b.transactions@.len(),
            txs@.len() == i,
            forall|q: int| 0 <= q < i ==> same_transaction(#[trigger] txs@[q], b.transactions@[q]),
        decreases b.transactions@.len() - i,
    {
        txs.push(copy_transaction(&b.transactions[i]));
        i = i + 1;
    }
    SemanticBlock {
        header: b.header,
        transactions: txs,
        merkle_root: b.merkle_root,
        semantic_proof: copy_slice(b.semantic_proof.as_slice()),
        miner_address: copy_slice(b.miner_address.as_slice()),
        reward: b.reward,
    }
}

/// Relies on `SystemTime::now` and `duration_since(UNIX_EPOCH)`: seconds since the epoch,
/// or `None` for a clock set before it. Nothing is known of the value.
#[verifier::external_body]
fn now_secs() -> (r: Option<u64>) {
    std::time::SystemTime::now().duration_since(std::time::UNIX_EPOCH).ok().map(|d| d.as_secs())
}

/// Relies on `String::from_utf8_lossy`: its text depends on the bytes alone, and is their
/// decoding when they are UTF-8.
#[verifier::external_body]
fn lossy_string(bytes: &[u8]) -> (r: String)
    ensures
        r@ == lossy_text(bytes@),
        vstd::utf8::valid_utf8(bytes@) ==> r@ == vstd::utf8::decode_utf8(bytes@),
{
    String::from_utf8_lossy(bytes).to_string()
}

/// The text `String::from_utf8_lossy` makes of some bytes.
pub uninterp spec fn lossy_text(bytes: Seq<u8>) -> Seq<char>;

/// `needle` occurs in `hay`.
pub open spec fn contains_text(hay: Seq<char>, needle: Seq<char>) -> bool {
    exists|i: int| 0 <= i <= hay.len() - needle.len() && #[trigger] hay.subrange(i, i + needle.len()) == needle
}

/// Whether `predicate` occurs in `text`.
pub fn matches_predicate(text: &str, predicate: &str) -> (r: bool)
    ensures
        r == contains_text(text@, predicate@),
{
    let hay = chars_of(text);
    let needle = chars_of(predicate);
    if needle.len() > hay.len() {
        return false;
    }
    let last = hay.len() - needle.len();
    let mut i: usize = 0;
    loop
        invariant_except_break
            i <= last,
            forall|q: int| 0 <= q < i ==> #[trigger] hay@.subrange(q, q + needle@.len()) != needle@,
        invariant
            last == hay@.len() - needle@.len(),
            hay@ == text@,
            needle@ == predicate@,
        ensures
            forall|q: int| 0 <= q <= last ==> #[trigger] hay@.subrange(q, q + needle@.len()) != needle@,
        decreases last - i,
    {
        assert(hay@.skip(i as int).take(needle@.len() as int) =~= hay@.subrange(i as int, i + needle@.len()));
        if starts_with_at(&hay, i, &needle) {
            return true;
        }
        if i == last {
            break;
        }
        i = i + 1;
    }
    false
}

} // verus!

verus! {

/// A transaction is accepted when its witness matches its data and its fee covers the
/// schedule.
pub open spec fn transaction_valid(s: &FeeSchedule, tx: &SemanticTransaction) -> bool {
    tx.witness.commitment@ == fold_digest(tx.rdfa_data@) && tx.fee >= fee_spec(s, tx)
}

/// Checking `tx` stays within 64-bit fees: the fee is only computed once the witness matches.
pub open spec fn fee_computable(s: &FeeSchedule, tx: &SemanticTransaction) -> bool {
    tx.witness.commitment@ == fold_digest(tx.rdfa_data@) ==> fee_spec(s, tx) <= u64::MAX
}

/// The texts of the transactions whose data, read as text, contains `predicate`.
pub open spec fn query_spec(txs: Seq<SemanticTransaction>, predicate: Seq<char>) -> Seq<Seq<char>>
    decreases txs.len(),
{
    if txs.len() == 0 {
        Seq::empty()
    } else {
        let prev = query_spec(txs.drop_last(), predicate);
        let text = lossy_text(txs.last().rdfa_data@);
        if contains_text(text, predicate) {
            prev.push(text)
        } else {
            prev
        }
    }
}

/// The total number of transactions in the blocks.
pub open spec fn transaction_count(chain: Seq<SemanticBlock>) -> int
    decreases chain.len(),
{
    if chain.len() == 0 {
        0
    } else {
        transaction_count(chain.drop_last()) + chain.last().transactions@.len()
    }
}

/// A chain of blocks with a pool of pending transactions.
pub struct SemanticBlockchain {
    pub chain: Vec<SemanticBlock>,
    pub mempool: Vec<SemanticTransaction>,
    pub fee_schedule: FeeSchedule,
}

impl SemanticBlockchain {
    /// A chain holding the genesis block, with fees 10 base, 1 per byte, 5 per channel and
    /// 20 for verification.
    pub fn new() -> (r: SemanticBlockchain)
        ensures
            r.chain@.len() == 1,
            r.chain@[0].transactions@.len() == 0,
            r.chain@[0].merkle_root@ == Seq::new(32, |k: int| 0u8),
            r.mempool@.len() == 0,
            r.fee_schedule.base_fee == 10,
            r.fee_schedule.per_byte_fee == 1,
            r.fee_schedule.per_channel_fee == 5,
            r.fee_schedule.verification_fee == 20,
    {
        let mut chain: Vec<SemanticBlock> = Vec::new();
        chain.push(Self::genesis_block());
        SemanticBlockchain {
            chain,
            mempool: Vec::new(),
            fee_schedule: FeeSchedule { base_fee: 10, per_byte_fee: 1, per_channel_fee: 5, verification_fee: 20 },
        }
    }

    fn genesis_block() -> (r: SemanticBlock)
        ensures
            r.transactions@.len() == 0,
            r.merkle_root@ == Seq::new(32, |k: int| 0u8),
            r.header.previous_hash@ == Seq::new(32, |k: int| 0u8),
            r.header.difficulty == 1,
            r.reward == 0,
    {
        let r = SemanticBlock {
            header: BlockHeader { previous_hash: [0u8; 32], timestamp: 0, nonce: 0, difficulty: 1 },
            transactions: Vec::new(),
            merkle_root: [0u8; 32],
            semantic_proof: Vec::new(),
            miner_address: Vec::new(),
            reward: 0,
        };
        assert(r.merkle_root@ =~= Seq::new(32, |k: int| 0u8));
        assert(r.header.previous_hash@ =~= Seq::new(32, |k: int| 0u8));
        r
    }

    /// Adds `tx` to the pool when it is valid.
    pub fn add_transaction(&mut self, tx: SemanticTransaction) -> (r: bool)
        requires
            fee_computable(&old(self).fee_schedule, &tx),
        ensures
            r == transaction_valid(&old(self).fee_schedule, &tx),
            final(self).chain == old(self).chain,
            final(self).fee_schedule == old(self).fee_schedule,
            final(self).mempool@ == if r {
                old(self).mempool@.push(tx)
            } else {
                old(self).mempool@
            },
    {
        if self.validate_transaction(&tx) {
            self.mempool.push(tx);
            true
        } else {
            false
        }
    }

    pub fn validate_transaction(&self, tx: &SemanticTransaction) -> (r: bool)
        requires
            fee_computable(&self.fee_schedule, tx),
        ensures
            r == transaction_valid(&self.fee_schedule, tx),
    {
        if !tx.witness.verify(tx.rdfa_data.as_slice()) {
            return false;
        }
        let required_fee = self.fee_schedule.calculate_fee(tx);
        if tx.fee < required_fee {
            return false;
        }
        true
    }

    /// Mines the pending transactions into a block stamped with the current time.
    pub fn mine_block(&mut self, miner_address: Vec<u8>) -> (r: Option<SemanticBlock>)
        requires
            fees_spec(old(self).mempool@) + 50 <= u64::MAX,
        ensures
            old(self).mempool@.len() == 0 ==> r is None && final(self).chain == old(self).chain,
            old(self).mempool@.len() > 0 ==> r is Some && final(self).chain@.len() == old(self).chain@.len() + 1,
            final(self).mempool@.len() == 0,
    {
        let timestamp = match now_secs() {
            Some(t) => t,
            None => 0,
        };
        self.mine_block_at(miner_address, timestamp)
    }

    /// Moves every pending transaction into a new block linked to the last one, rewarding
    /// the miner with 50 plus the fees; `None`, with nothing changed, when the pool is empty.
    pub fn mine_block_at(&mut self, miner_address: Vec<u8>, timestamp: u64) -> (r: Option<SemanticBlock>)
        requires
            fees_spec(old(self).mempool@) + 50 <= u64::MAX,
        ensures
            final(self).fee_schedule == old(self).fee_schedule,
            old(self).mempool@.len() == 0 ==> r is None && final(self).chain == old(self).chain
                && final(self).mempool == old(self).mempool,
            old(self).mempool@.len() > 0 ==> {
                let b = final(self).chain@.last();
                &&& final(self).chain@.len() == old(self).chain@.len() + 1
                &&& final(self).chain@.drop_last() == old(self).chain@
                &&& final(self).mempool@.len() == 0
                &&& b.transactions@ == old(self).mempool@
                &&& b.header.previous_hash@ == last_hash_spec(old(self).chain@)
                &&& b.header.timestamp == timestamp
                &&& b.header.nonce == 0
                &&& b.header.difficulty == 1
                &&& b.merkle_root@ == merkle_spec(old(self).mempool@)
                &&& b.semantic_proof@.len() == 0
                &&& b.miner_address@ == miner_address@
                &&& b.reward == 50 + fees_spec(old(self).mempool@)
                &&& r matches Some(rb) && same_block(rb, b)
            },
    {
        if self.mempool.len() == 0 {
            return None;
        }
        let mut transactions: Vec<SemanticTransaction> = Vec::new();
        core::mem::swap(&mut transactions, &mut self.mempool);
        let merkle_root = self.calculate_merkle_root(&transactions);
        let total_fees = total_fees(&transactions);
        let previous_hash = self.get_last_block_hash();
        let block = SemanticBlock {
            header: BlockHeader { previous_hash, timestamp, nonce: 0, difficulty: 1 },
            transactions,
            merkle_root,
            semantic_proof: Vec::new(),
            miner_address,
            reward: 50 + total_fees,
        };
        let copy = copy_block(&block);
        self.chain.push(block);
        assert(self.chain@.drop_last() =~= old(self).chain@);
        Some(copy)
    }

    fn calculate_merkle_root(&self, transactions: &Vec<SemanticTransaction>) -> (r: [u8; 32])
        ensures
            r@ == merkle_spec(transactions@),
    {
        let mut root = [0u8; 32];
        let mut i: usize = 0;
        assert(root@ =~= merkle_spec(transactions@.take(0)));
        while i < transactions.len()
            invariant
                i <= transactions@.len(),
                root@ == merkle_spec(transactions@.take(i as int)),
            decreases transactions@.len() - i,
        {
            let digest = xor_digest(transactions[i].rdfa_data.as_slice());
            proof {
                crate::crypto::lemma_fold_digest_len(transactions@[i as int].rdfa_data@);
                assert(transactions@.take(i as int + 1).drop_last() =~= transactions@.take(i as int));
            }
            let ghost before = root@;
            let mut k: usize = 0;
            while k < 32
                invariant
                    k <= 32,
                    digest@.len() == 32,
                    before.len() == 32,
                    root@.len() == 32,
                    forall|q: int| 0 <= q < k ==> #[trigger] root@[q] == before[q] ^ digest@[q],
                    forall|q: int| k <= q < 32 ==> #[trigger] root@[q] == before[q],
                decreases 32 - k,
            {
                root[k] = root[k] ^ digest[k];
                k = k + 1;
            }
            i = i + 1;
            assert(root@ =~= merkle_spec(transactions@.take(i as int)));
        }
        assert(transactions@.take(i as int) =~= transactions@);
        root
    }

    fn get_last_block_hash(&self) -> (r: [u8; 32])
        ensures
            r@ == last_hash_spec(self.chain@),
    {
        if self.chain.len() > 0 {
            self.chain[self.chain.len() - 1].merkle_root
        } else {
            let r = [0u8; 32];
            assert(r@ =~= Seq::new(32, |k: int| 0u8));
            r
        }
    }

    /// The data of every mined transaction, as text, that contains `predicate`.
    pub fn query_rdfa(&self, predicate: &str) -> (r: Vec<String>)
        ensures
            r@.map_values(|s: String| s@) == query_spec(chain_transactions(self.chain@), predicate@),
    {
        let mut out: Vec<String> = Vec::new();
        let mut b: usize = 0;
        assert(self.chain@.take(0) =~= Seq::<SemanticBlock>::empty());
        assert(out@.map_values(|s: String| s@) =~= Seq::<Seq<char>>::empty());
        while b < self.chain.len()
            invariant
                b <= self.chain@.len(),
                out@.map_values(|s: String| s@) == query_spec(chain_transactions(self.chain@.take(b as int)), predicate@),
            decreases self.chain@.len() - b,
        {
            let block = &self.chain[b];
            let ghost prefix = chain_transactions(self.chain@.take(b as int));
            proof {
                assert(self.chain@.take(b as int + 1).drop_last() =~= self.chain@.take(b as int));
            }
            let mut t: usize = 0;
            assert(prefix + block.transactions@.take(0) =~= prefix);
            while t < block.transactions.len()
                invariant
                    t <= block.transactions@.len(),
                    out@.map_values(|s: String| s@) == query_spec(prefix + block.transactions@.take(t as int), predicate@),
                decreases block.transactions@.len() - t,
            {
                let tx = &block.transactions[t];
                let text = lossy_string(tx.rdfa_data.as_slice());
                let ghost all = prefix + block.transactions@.take(t as int + 1);
                assert(all.drop_last() =~= prefix + block.transactions@.take(t as int));
                let ghost before = out@;
                if matches_predicate(text.as_str(), predicate) {
                    out.push(text);
                    assert(out@.map_values(|s: String| s@) =~= before.map_values(|s: String| s@).push(lossy_text(tx.rdfa_data@)));
                }
                t = t + 1;
            }
            assert(block.transactions@.take(t as int) =~= block.transactions@);
            b = b + 1;
        }
        assert(self.chain@.take(b as int) =~= self.chain@);
        out
    }

    pub fn get_block_count(&self) -> (r: usize)
        ensures
            r == self.chain@.len(),
    {
        self.chain.len()
    }

    pub fn get_total_transactions(&self) -> (r: usize)
        requires
            transaction_count(self.chain@) <= usize::MAX,
        ensures
            r == transaction_count(self.chain@),
    {
        let mut total: usize = 0;
        let mut b: usize = 0;
        assert(self.chain@.take(0) =~= Seq::<SemanticBlock>::empty());
        while b < self.chain.len()
            invariant
                b <= self.chain@.len(),
                transaction_count(self.chain@) <= usize::MAX,
                total == transaction_count(self.chain@.take(b as int)),
            decreases self.chain@.len() - b,
        {
            proof {
                assert(self.chain@.take(b as int + 1).drop_last() =~= self.chain@.take(b as int));
                lemma_transaction_count_prefix(self.chain@, b as int + 1);
            }
            total = total + self.chain[b].transactions.len();
            b = b + 1;
        }
        assert(self.chain@.take(b as int) =~= self.chain@);
        total
    }
}

proof fn lemma_transaction_count_prefix(chain: Seq<SemanticBlock>, k: int)
    requires
        0 <= k <= chain.len(),
    ensures
        transaction_count(chain.take(k)) <= transaction_count(chain),
    decreases chain.len(),
{
    if k < chain.len() {
        assert(chain.drop_last().take(k) =~= chain.take(k));
        lemma_transaction_count_prefix(chain.drop_last(), k);
    } else {
        assert(chain.take(k) =~= chain);
    }
}

fn total_fees(txs: &Vec<SemanticTransaction>) -> (r: u64)
    requires
        fees_spec(txs@) <= u64::MAX,
    ensures
        r == fees_spec(txs@),
{
    let mut sum: u64 = 0;
    let mut i: usize = 0;
    assert(txs@.take(0) =~= Seq::<SemanticTransaction>::empty());
    while i < txs.len()
        invariant
            i <= txs@.len(),
            fees_spec(txs@) <= u64::MAX,
            sum == fees_spec(txs@.take(i as int)),
        decreases txs@.len() - i,
    {
        proof {
            assert(txs@.take(i as int + 1).drop_last() =~= txs@.take(i as int));
            lemma_fees_prefix(txs@, i as int + 1);
        }
        sum = sum + txs[i].fee;
        i = i + 1;
    }
    assert(txs@.take(i as int) =~= txs@);
    sum
}

proof fn lemma_fees_prefix(txs: Seq<SemanticTransaction>, k: int)
    requires
        0 <= k <= txs.len(),
    ensures
        fees_spec(txs.take(k)) <= fees_spec(txs),
    decreases txs.len(),
{
    if k < txs.len() {
        assert(txs.drop_last().take(k) =~= txs.take(k));
        lemma_fees_prefix(txs.drop_last(), k);
    } else {
        assert(txs.take(k) =~= txs);
    }
}

} // verus!
