//! Pools users' payments in batches of three, crediting the shards they carry.

use vstd::prelude::*;
use crate::crypto::copy_slice;
use crate::text::{copy_string, decimal, decimal_chars, push_chars, string_of, texts_equal};

verus! {

/// A user's payment, possibly carrying a shard.
#[derive(Debug, Clone)]
pub struct UserTransaction {
    pub user_id: String,
    pub payment_data: Vec<u8>,
    pub shard_id: Option<u8>,
}

/// A batch of payments combined into one.
#[derive(Debug, Clone)]
pub struct MixedTransaction {
    pub users: Vec<String>,
    pub shards: Vec<u8>,
    pub combined_data: Vec<u8>,
    pub homomorphic_proof: Vec<u8>,
}

/// Credits awarded to a user for a shard.
#[derive(Debug, Clone)]
pub struct CreditReward {
    pub user_id: String,
    pub shard_id: u8,
    pub credits: u64,
}

/// Payments waiting to be mixed, the mixed batches, and the credits awarded.
#[derive(Debug)]
pub struct TransactionPool {
    pub pending: Vec<UserTransaction>,
    pub mixed: Vec<MixedTransaction>,
    pub credits: Vec<CreditReward>,
}

/// The shards carried by a batch, in order.
pub open spec fn batch_shards(batch: Seq<UserTransaction>) -> Seq<u8>
    decreases batch.len(),
{
    if batch.len() == 0 {
        Seq::empty()
    } else {
        let prev = batch_shards(batch.drop_last());
        match batch.last().shard_id {
            Some(s) => prev.push(s),
            None => prev,
        }
    }
}

/// The payment data of a batch, concatenated.
pub open spec fn batch_data(batch: Seq<UserTransaction>) -> Seq<u8>
    decreases batch.len(),
{
    if batch.len() == 0 {
        Seq::empty()
    } else {
        batch_data(batch.drop_last()) + batch.last().payment_data@
    }
}

/// The proof string of a batch of `n` payments.
pub open spec fn batch_proof(n: nat) -> Seq<u8> {
    vstd::utf8::encode_utf8("homomorphic_proof_"@ + decimal(n))
}

/// The mix of a batch: its users, the shards it carries, its data and its proof.
pub open spec fn mix_matches(m: MixedTransaction, batch: Seq<UserTransaction>) -> bool {
    &&& m.users@.len() == batch.len()
    &&& forall|i: int| 0 <= i < batch.len() ==> (#[trigger] m.users@[i])@ == batch[i].user_id@
    &&& m.shards@ == batch_shards(batch)
    &&& m.combined_data@ == batch_data(batch)
    &&& m.homomorphic_proof@ == batch_proof(batch.len())
}

/// The credits of a batch: 100 for each carried shard, paired with the users in order.
pub open spec fn credits_match(c: Seq<CreditReward>, batch: Seq<UserTransaction>) -> bool {
    let shards = batch_shards(batch);
    &&& c.len() == shards.len()
    &&& forall|i: int| 0 <= i < c.len() ==> {
        &&& (#[trigger] c[i]).user_id@ == batch[i].user_id@
        &&& c[i].shard_id == shards[i]
        &&& c[i].credits == 100
    }
}

/// The credits awarded to `user`.
pub open spec fn credit_total(credits: Seq<CreditReward>, user: Seq<char>) -> int
    decreases credits.len(),
{
    if credits.len() == 0 {
        0
    } else {
        credit_total(credits.drop_last(), user) + if credits.last().user_id@ == user {
            credits.last().credits as int
        } else {
            0
        }
    }
}

proof fn lemma_batch_shards_len(batch: Seq<UserTransaction>)
    ensures
        batch_shards(batch).len() <= batch.len(),
    decreases batch.len(),
{
    if batch.len() > 0 {
        lemma_batch_shards_len(batch.drop_last());
    }
}

impl TransactionPool {
    pub fn new() -> (r: TransactionPool)
        ensures
            r.pending@.len() == 0,
            r.mixed@.len() == 0,
            r.credits@.len() == 0,
    {
        TransactionPool { pending: Vec::new(), mixed: Vec::new(), credits: Vec::new() }
    }

    /// Queues `tx`; once three or more are waiting, the first three are mixed.
    pub fn add_transaction(&mut self, tx: UserTransaction)
        ensures
            old(self).pending@.len() + 1 < 3 ==> {
                &&& final(self).pending@ == old(self).pending@.push(tx)
                &&& final(self).mixed@ == old(self).mixed@
                &&& final(self).credits@ == old(self).credits@
            },
            old(self).pending@.len() + 1 >= 3 ==> {
                let all = old(self).pending@.push(tx);
                &&& final(self).pending@ == all.skip(3)
                &&& final(self).mixed@.len() == old(self).mixed@.len() + 1
                &&& final(self).mixed@.drop_last() == old(self).mixed@
                &&& mix_matches(final(self).mixed@.last(), all.take(3))
                &&& final(self).credits@.take(old(self).credits@.len() as int) == old(self).credits@
                &&& credits_match(final(self).credits@.skip(old(self).credits@.len() as int), all.take(3))
            },
    {
        self.pending.push(tx);
        if self.pending.len() >= 3 {
            self.mix_transactions();
        }
    }

    fn mix_transactions(&mut self)
        requires
            old(self).pending@.len() >= 3,
        ensures
            final(self).pending@ == old(self).pending@.skip(3),
            final(self).mixed@.len() == old(self).mixed@.len() + 1,
            final(self).mixed@.drop_last() == old(self).mixed@,
            mix_matches(final(self).mixed@.last(), old(self).pending@.take(3)),
            final(self).credits@.take(old(self).credits@.len() as int) == old(self).credits@,
            credits_match(final(self).credits@.skip(old(self).credits@.len() as int), old(self).pending@.take(3)),
    {
        let mut batch: Vec<UserTransaction> = Vec::new();
        let mut k: usize = 0;
        while k < 3
            invariant
                k <= 3,
                batch@ == old(self).pending@.take(k as int),
                self.pending@ == old(self).pending@.skip(k as int),
                self.mixed == old(self).mixed,
                self.credits == old(self).credits,
                old(self).pending@.len() >= 3,
            decreases 3 - k,
        {
            let t = self.pending.remove(0);
            batch.push(t);
            k = k + 1;
            assert(batch@ =~= old(self).pending@.take(k as int));
            assert(self.pending@ =~= old(self).pending@.skip(k as int));
        }
        let mut users: Vec<String> = Vec::new();
        let mut shards: Vec<u8> = Vec::new();
        let mut i: usize = 0;
        assert(batch@.take(0) =~= Seq::<UserTransaction>::empty());
        while i < batch.len()
            invariant
                i <= batch@.len(),
                users@.len() == i,
                forall|q: int| 0 <= q < i ==> (#[trigger] users@[q])@ == batch@[q].user_id@,
                shards@ == batch_shards(batch@.take(i as int)),
                self.pending@ == old(self).pending@.skip(3),
                self.mixed == old(self).mixed,
                self.credits == old(self).credits,
            decreases batch@.len() - i,
        {
            assert(batch@.take(i as int + 1).drop_last() =~= batch@.take(i as int));
            users.push(copy_string(&batch[i].user_id));
            match batch[i].shard_id {
                Some(s) => shards.push(s),
                None => {},
            }
            i = i + 1;
        }
        assert(batch@.take(i as int) =~= batch@);
        let combined_data = Self::homomorphic_combine(&batch);
        let proof = Self::generate_homomorphic_proof(&batch);
        let ghost start = self.credits@;
        proof {
            lemma_batch_shards_len(batch@);
        }
        let mut j: usize = 0;
        while j < shards.len()
            invariant
                j <= shards@.len(),
                shards@.len() <= users@.len(),
                users@.len() == batch@.len(),
                forall|q: int| 0 <= q < users@.len() ==> (#[trigger] users@[q])@ == batch@[q].user_id@,
                shards@ == batch_shards(batch@),
                self.credits@.take(start.len() as int) == start,
                self.credits@.len() == start.len() + j,
                start == old(self).credits@,
                self.pending@ == old(self).pending@.skip(3),
                self.mixed == old(self).mixed,
                forall|q: int| 0 <= q < j ==> {
                    &&& (#[trigger] self.credits@[start.len() + q]).user_id@ == batch@[q].user_id@
                    &&& self.credits@[start.len() + q].shard_id == shards@[q]
                    &&& self.credits@[start.len() + q].credits == 100
                },
            decreases shards@.len() - j,
        {
            let ghost before = self.credits@;
            self.credits.push(CreditReward { user_id: copy_string(&users[j]), shard_id: shards[j], credits: 100 });
            assert(self.credits@.take(start.len() as int) =~= before.take(start.len() as int));
            j = j + 1;
        }
        let ghost fresh = self.credits@.skip(start.len() as int);
        assert forall|q: int| 0 <= q < fresh.len() implies {
            &&& (#[trigger] fresh[q]).user_id@ == batch@[q].user_id@
            &&& fresh[q].shard_id == shards@[q]
            &&& fresh[q].credits == 100
        } by {
            assert(fresh[q] == self.credits@[start.len() + q]);
        }
        let mixed = MixedTransaction { users, shards, combined_data, homomorphic_proof: proof };
        self.mixed.push(mixed);
        assert(self.mixed@.drop_last() =~= old(self).mixed@);
    }

    fn homomorphic_combine(batch: &Vec<UserTransaction>) -> (r: Vec<u8>)
        ensures
            r@ == batch_data(batch@),
    {
        let mut combined: Vec<u8> = Vec::new();
        let mut i: usize = 0;
        assert(batch@.take(0) =~= Seq::<UserTransaction>::empty());
        while i < batch.len()
            invariant
                i <= batch@.len(),
                combined@ == batch_data(batch@.take(i as int)),
            decreases batch@.len() - i,
        {
            assert(batch@.take(i as int + 1).drop_last() =~= batch@.take(i as int));
            let mut part = copy_slice(batch[i].payment_data.as_slice());
            combined.append(&mut part);
            i = i + 1;
        }
        assert(batch@.take(i as int) =~= batch@);
        combined
    }

    fn generate_homomorphic_proof(batch: &Vec<UserTransaction>) -> (r: Vec<u8>)
        ensures
            r@ == batch_proof(batch@.len()),
    {
        let mut text = crate::text::chars_of("homomorphic_proof_");
        push_chars(&mut text, &decimal_chars(batch.len() as u64));
        let s = string_of(&text);
        copy_slice(s.as_str().as_bytes())
    }

    /// The credits awarded to `user_id`.
    pub fn get_user_credits(&self, user_id: &str) -> (r: u64)
        requires
            credit_total(self.credits@, user_id@) <= u64::MAX,
        ensures
            r == credit_total(self.credits@, user_id@),
    {
        let mut sum: u64 = 0;
        let mut i: usize = 0;
        assert(self.credits@.take(0) =~= Seq::<CreditReward>::empty());
        while i < self.credits.len()
            invariant
                i <= self.credits@.len(),
                credit_total(self.credits@, user_id@) <= u64::MAX,
                sum == credit_total(self.credits@.take(i as int), user_id@),
            decreases self.credits@.len() - i,
        {
            proof {
                assert(self.credits@.take(i as int + 1).drop_last() =~= self.credits@.take(i as int));
                lemma_credit_total_prefix(self.credits@, user_id@, i as int + 1);
            }
            if texts_equal(self.credits[i].user_id.as_str(), user_id) {
                sum = sum + self.credits[i].credits;
            }
            i = i + 1;
        }
        assert(self.credits@.take(i as int) =~= self.credits@);
        sum
    }

    /// Copies of the mixed batches.
    pub fn ready_for_bitcoin(&self) -> (r: Vec<MixedTransaction>)
        ensures
            r@.len() == self.mixed@.len(),
            forall|i: int| 0 <= i < r@.len() ==> same_mix(#[trigger] r@[i], self.mixed@[i]),
    {
        let mut out: Vec<MixedTransaction> = Vec::new();
        let mut i: usize = 0;
        while i < self.mixed.len()
            invariant
                i <= self.mixed@.len(),
                out@.len() == i,
                forall|q: int| 0 <= q < i ==> same_mix(#[trigger] out@[q], self.mixed@[q]),
            decreases self.mixed@.len() - i,
        {
            out.push(copy_mix(&self.mixed[i]));
            i = i + 1;
        }
        out
    }
}

/// Two mixed batches with the same contents.
pub open spec fn same_mix(a: MixedTransaction, b: MixedTransaction) -> bool {
    &&& a.users@.len() == b.users@.len()
    &&& forall|i: int| 0 <= i < a.users@.len() ==> (#[trigger] a.users@[i])@ == b.users@[i]@
    &&& a.shards@ == b.shards@
    &&& a.combined_data@ == b.combined_data@
    &&& a.homomorphic_proof@ == b.homomorphic_proof@
}

fn copy_mix(m: &MixedTransaction) -> (r: MixedTransaction)
    ensures
        same_mix(r, *m),
{
    let mut users: Vec<String> = Vec::new();
    let mut i: usize = 0;
    while i < m.users.len()
        invariant
            i <= m.users@.len(),
            users@.len() == i,
            forall|q: int| 0 <= q < i ==> (#[trigger] users@[q])@ == m.users@[q]@,
        decreases m.users@.len() - i,
    {
        users.push(copy_string(&m.users[i]));
        i = i + 1;
    }
    MixedTransaction {
        users,
        shards: copy_slice(m.shards.as_slice()),
        combined_data: copy_slice(m.combined_data.as_slice()),
        homomorphic_proof: copy_slice(m.homomorphic_proof.as_slice()),
    }
}

proof fn lemma_credit_total_prefix(credits: Seq<CreditReward>, user: Seq<char>, k: int)
    requires
        0 <= k <= credits.len(),
    ensures
        credit_total(credits.take(k), user) <= credit_total(credits, user),
    decreases credits.len(),
{
    if k < credits.len() {
        assert(credits.drop_last().take(k) =~= credits.take(k));
        lemma_credit_total_prefix(credits.drop_last(), user, k);
    } else {
        assert(credits.take(k) =~= credits);
    }
}

} // verus!
