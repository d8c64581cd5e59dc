//! Rewards accounts that copy shards to new platforms with proofs of equivalence.

use vstd::prelude::*;
use crate::text::{copy_string, texts_equal};

verus! {

/// A claim that a shard was copied from one platform to another.
#[derive(Debug, Clone)]
pub struct ZKReachProof {
    pub shard_id: u8,
    pub source_platform: String,
    pub target_platform: String,
    pub source_hash: String,
    pub target_hash: String,
    pub reacher: String,
    pub proof: Vec<u8>,
    pub timestamp: u64,
}

/// The reward for one accepted claim.
#[derive(Debug, Clone)]
pub struct ReachReward {
    pub reacher: String,
    pub shard_id: u8,
    pub reward_amount: u64,
    pub reach_score: u64,
}

/// Accepted claims, their rewards, and the number of new platforms reached.
#[derive(Debug)]
pub struct ZKReachTracker {
    pub proofs: Vec<ZKReachProof>,
    pub rewards: Vec<ReachReward>,
    pub total_reach: u64,
}

/// No earlier claim copied this shard to this platform.
pub open spec fn new_platform(proofs: Seq<ZKReachProof>, p: ZKReachProof) -> bool {
    forall|i: int| 0 <= i < proofs.len() ==> !((#[trigger] proofs[i]).target_platform@ == p.target_platform@
        && proofs[i].shard_id == p.shard_id)
}

/// Total rewards and reach of `reacher`.
pub open spec fn reacher_totals(rewards: Seq<ReachReward>, reacher: Seq<char>) -> (int, int)
    decreases rewards.len(),
{
    if rewards.len() == 0 {
        (0, 0)
    } else {
        let prev = reacher_totals(rewards.drop_last(), reacher);
        if rewards.last().reacher@ == reacher {
            (prev.0 + rewards.last().reward_amount, prev.1 + rewards.last().reach_score)
        } else {
            prev
        }
    }
}

/// Rewards and reach over all reachers.
pub open spec fn all_totals(rewards: Seq<ReachReward>) -> (int, int)
    decreases rewards.len(),
{
    if rewards.len() == 0 {
        (0, 0)
    } else {
        let prev = all_totals(rewards.drop_last());
        (prev.0 + rewards.last().reward_amount, prev.1 + rewards.last().reach_score)
    }
}

proof fn lemma_reacher_within_all(rewards: Seq<ReachReward>, reacher: Seq<char>)
    ensures
        0 <= reacher_totals(rewards, reacher).0 <= all_totals(rewards).0,
        0 <= reacher_totals(rewards, reacher).1 <= all_totals(rewards).1,
    decreases rewards.len(),
{
    if rewards.len() > 0 {
        lemma_reacher_within_all(rewards.drop_last(), reacher);
    }
}

proof fn lemma_all_totals_prefix(rewards: Seq<ReachReward>, k: int)
    requires
        0 <= k <= rewards.len(),
    ensures
        all_totals(rewards.take(k)).0 <= all_totals(rewards).0,
        all_totals(rewards.take(k)).1 <= all_totals(rewards).1,
    decreases rewards.len(),
{
    if k < rewards.len() {
        assert(rewards.drop_last().take(k) =~= rewards.take(k));
        lemma_all_totals_prefix(rewards.drop_last(), k);
    } else {
        assert(rewards.take(k) =~= rewards);
    }
}

impl ZKReachTracker {
    pub fn new() -> (r: ZKReachTracker)
        ensures
            r.proofs@.len() == 0,
            r.rewards@.len() == 0,
            r.total_reach == 0,
    {
        ZKReachTracker { proofs: Vec::new(), rewards: Vec::new(), total_reach: 0 }
    }

    /// Accepts a claim whose hashes match: it scores 1, worth 100, when it reaches a new
    /// platform for the shard, and 0 otherwise.
    pub fn submit_reach(&mut self, proof: ZKReachProof) -> (r: ReachReward)
        requires
            proof.source_hash@ == proof.target_hash@,
            new_platform(old(self).proofs@, proof) ==> old(self).total_reach < u64::MAX,
        ensures
            r.reacher@ == proof.reacher@,
            r.shard_id == proof.shard_id,
            r.reach_score == if new_platform(old(self).proofs@, proof) { 1u64 } else { 0u64 },
            r.reward_amount == 100 * r.reach_score,
            final(self).proofs@ == old(self).proofs@.push(proof),
            final(self).rewards@.len() == old(self).rewards@.len() + 1,
            final(self).rewards@.drop_last() == old(self).rewards@,
            final(self).rewards@.last().reacher@ == r.reacher@,
            final(self).rewards@.last().shard_id == r.shard_id,
            final(self).rewards@.last().reward_amount == r.reward_amount,
            final(self).rewards@.last().reach_score == r.reach_score,
            final(self).total_reach == old(self).total_reach + r.reach_score,
    {
        // the hashes match by the requirement, so the proof always checks here
        let verified = Self::verify_zk_proof(&proof);
        assert(verified);
        let reach_score = self.calculate_reach_score(&proof);
        let reward_amount = reach_score * 100;
        let reward = ReachReward {
            reacher: copy_string(&proof.reacher),
            shard_id: proof.shard_id,
            reward_amount,
            reach_score,
        };
        let kept = ReachReward {
            reacher: copy_string(&reward.reacher),
            shard_id: reward.shard_id,
            reward_amount,
            reach_score,
        };
        self.proofs.push(proof);
        self.rewards.push(kept);
        assert(self.rewards@.drop_last() =~= old(self).rewards@);
        self.total_reach = self.total_reach + reach_score;
        reward
    }

    fn verify_zk_proof(proof: &ZKReachProof) -> (r: bool)
        ensures
            r == (proof.source_hash@ == proof.target_hash@),
    {
        texts_equal(proof.source_hash.as_str(), proof.target_hash.as_str())
    }

    fn calculate_reach_score(&self, proof: &ZKReachProof) -> (r: u64)
        ensures
            r == if new_platform(self.proofs@, *proof) { 1u64 } else { 0u64 },
    {
        let mut i: usize = 0;
        while i < self.proofs.len()
            invariant
                i <= self.proofs@.len(),
                forall|q: int| 0 <= q < i ==> !((#[trigger] self.proofs@[q]).target_platform@ == proof.target_platform@
                    && self.proofs@[q].shard_id == proof.shard_id),
            decreases self.proofs@.len() - i,
        {
            let p = &self.proofs[i];
            if p.shard_id == proof.shard_id && texts_equal(p.target_platform.as_str(), proof.target_platform.as_str()) {
                return 0;
            }
            i = i + 1;
        }
        1
    }

    /// Total rewards and total reach of `reacher`.
    pub fn get_reacher_stats(&self, reacher: &str) -> (r: (u64, u64))
        requires
            all_totals(self.rewards@).0 <= u64::MAX,
            all_totals(self.rewards@).1 <= u64::MAX,
        ensures
            r.0 == reacher_totals(self.rewards@, reacher@).0,
            r.1 == reacher_totals(self.rewards@, reacher@).1,
    {
        let mut total_rewards: u64 = 0;
        let mut total_reach: u64 = 0;
        let mut i: usize = 0;
        assert(self.rewards@.take(0) =~= Seq::<ReachReward>::empty());
        while i < self.rewards.len()
            invariant
                i <= self.rewards@.len(),
                all_totals(self.rewards@).0 <= u64::MAX,
                all_totals(self.rewards@).1 <= u64::MAX,
                total_rewards == reacher_totals(self.rewards@.take(i as int), reacher@).0,
                total_reach == reacher_totals(self.rewards@.take(i as int), reacher@).1,
            decreases self.rewards@.len() - i,
        {
            proof {
                assert(self.rewards@.take(i as int + 1).drop_last() =~= self.rewards@.take(i as int));
                lemma_reacher_within_all(self.rewards@.take(i as int + 1), reacher@);
                lemma_all_totals_prefix(self.rewards@, i as int + 1);
            }
            let r = &self.rewards[i];
            if texts_equal(r.reacher.as_str(), reacher) {
                total_rewards = total_rewards + r.reward_amount;
                total_reach = total_reach + r.reach_score;
            }
            i = i + 1;
        }
        assert(self.rewards@.take(i as int) =~= self.rewards@);
        (total_rewards, total_reach)
    }

    /// One entry per reacher, in order of first reward, with total rewards and total
    /// reach, sorted by total rewards descending (ties keep that order).
    pub fn leaderboard(&self) -> (r: Vec<(String, u64, u64)>)
        requires
            all_totals(self.rewards@).0 <= u64::MAX,
            all_totals(self.rewards@).1 <= u64::MAX,
        ensures
            entry_views(r@) == sort_entries(aggregate(self.rewards@)),
    {
        let mut stats: Vec<(String, u64, u64)> = Vec::new();
        let mut i: usize = 0;
        assert(self.rewards@.take(0) =~= Seq::<ReachReward>::empty());
        assert(entry_views(stats@) =~= aggregate(self.rewards@.take(0)));
        while i < self.rewards.len()
            invariant
                i <= self.rewards@.len(),
                all_totals(self.rewards@).0 <= u64::MAX,
                all_totals(self.rewards@).1 <= u64::MAX,
                entry_views(stats@) == aggregate(self.rewards@.take(i as int)),
            decreases self.rewards@.len() - i,
        {
            let ghost pre = self.rewards@.take(i as int + 1);
            proof {
                assert(pre.drop_last() =~= self.rewards@.take(i as int));
                lemma_all_totals_prefix(self.rewards@, i as int + 1);
                lemma_aggregate_bounded(pre);
            }
            let reward = &self.rewards[i];
            let k = find_index(&stats, reward.reacher.as_str());
            if k < stats.len() {
                let ghost a = entry_views(stats@);
                proof {
                    lemma_aggregate_bounded(self.rewards@.take(i as int));
                    lemma_find_entry(a, reward.reacher@);
                    assert(a[k as int] == entry_view(stats@[k as int]));
                    assert(all_totals(pre).0 == all_totals(self.rewards@.take(i as int)).0 + reward.reward_amount);
                    assert(all_totals(pre).1 == all_totals(self.rewards@.take(i as int)).1 + reward.reach_score);
                    assert(pre.last() == *reward);
                }
                let (name, rw, rc) = stats.remove(k);
                stats.insert(k, (name, rw + reward.reward_amount, rc + reward.reach_score));
                assert(entry_views(stats@) =~= a.update(k as int, (a[k as int].0, a[k as int].1 + reward.reward_amount, a[k as int].2 + reward.reach_score)));
            } else {
                stats.push((copy_string(&reward.reacher), reward.reward_amount, reward.reach_score));
            }
            i = i + 1;
            assert(entry_views(stats@) =~= aggregate(self.rewards@.take(i as int)));
        }
        assert(self.rewards@.take(i as int) =~= self.rewards@);
        let mut sorted: Vec<(String, u64, u64)> = Vec::new();
        let ghost all = entry_views(stats@);
        let mut j: usize = 0;
        let total = stats.len();
        assert(all.take(0) =~= Seq::<(Seq<char>, int, int)>::empty());
        assert(entry_views(sorted@) =~= sort_entries(all.take(0)));
        while stats.len() > 0
            invariant
                j + stats@.len() == total,
                total == all.len(),
                entry_views(stats@) == all.skip(j as int),
                entry_views(sorted@) == sort_entries(all.take(j as int)),
            decreases stats@.len(),
        {
            let ghost old_stats = stats@;
            let e = stats.remove(0);
            proof {
                assert(all.take(j as int + 1).drop_last() =~= all.take(j as int));
                assert(entry_views(old_stats)[0] == entry_view(old_stats[0]));
                assert(all.skip(j as int)[0] == all[j as int]);
                assert(all[j as int] == entry_view(e));
                assert(entry_views(stats@) =~= entry_views(old_stats).drop_first());
                assert(all.skip(j as int).drop_first() =~= all.skip(j as int + 1));
                lemma_sort_entries_len(all.take(j as int));
            }
            let pos = entry_insertion_index(&sorted, e.1);
            proof {
                lemma_entry_insertion_bounds(entry_views(sorted@), e.1 as int);
            }
            let ghost before = entry_views(sorted@);
            sorted.insert(pos, e);
            assert(entry_views(sorted@) =~= before.insert(pos as int, entry_view(e)));
            j = j + 1;
        }
        assert(all.take(j as int) =~= all);
        sorted
    }
}

/// The view of a leaderboard entry.
pub open spec fn entry_view(e: (String, u64, u64)) -> (Seq<char>, int, int) {
    (e.0@, e.1 as int, e.2 as int)
}

pub open spec fn entry_views(v: Seq<(String, u64, u64)>) -> Seq<(Seq<char>, int, int)> {
    v.map_values(|e: (String, u64, u64)| entry_view(e))
}

/// The index of the first entry for `name`, or -1.
pub open spec fn find_entry(a: Seq<(Seq<char>, int, int)>, name: Seq<char>) -> int
    decreases a.len(),
{
    if a.len() == 0 {
        -1
    } else if find_entry(a.drop_last(), name) >= 0 {
        find_entry(a.drop_last(), name)
    } else if a.last().0 == name {
        a.len() - 1
    } else {
        -1
    }
}

/// Rewards and reach summed per reacher, reachers in order of first reward.
pub open spec fn aggregate(rewards: Seq<ReachReward>) -> Seq<(Seq<char>, int, int)>
    decreases rewards.len(),
{
    if rewards.len() == 0 {
        Seq::empty()
    } else {
        let a = aggregate(rewards.drop_last());
        let x = rewards.last();
        let k = find_entry(a, x.reacher@);
        if k >= 0 {
            a.update(k, (a[k].0, a[k].1 + x.reward_amount, a[k].2 + x.reach_score))
        } else {
            a.push((x.reacher@, x.reward_amount as int, x.reach_score as int))
        }
    }
}

/// Where an entry with rewards `w` goes: after the leading entries with rewards at least `w`.
pub open spec fn entry_insertion_point(s: Seq<(Seq<char>, int, int)>, w: int) -> nat
    decreases s.len(),
{
    if s.len() == 0 {
        0
    } else if s[0].1 < w {
        0
    } else {
        1 + entry_insertion_point(s.drop_first(), w)
    }
}

/// Entries sorted by rewards descending, ties in their incoming order.
pub open spec fn sort_entries(s: Seq<(Seq<char>, int, int)>) -> Seq<(Seq<char>, int, int)>
    decreases s.len(),
{
    if s.len() == 0 {
        s
    } else {
        let sorted = sort_entries(s.drop_last());
        sorted.insert(entry_insertion_point(sorted, s.last().1) as int, s.last())
    }
}

proof fn lemma_entry_insertion_bounds(s: Seq<(Seq<char>, int, int)>, w: int)
    ensures
        entry_insertion_point(s, w) <= s.len(),
    decreases s.len(),
{
    if s.len() > 0 && s[0].1 >= w {
        lemma_entry_insertion_bounds(s.drop_first(), w);
    }
}

proof fn lemma_sort_entries_len(s: Seq<(Seq<char>, int, int)>)
    ensures
        sort_entries(s).len() == s.len(),
    decreases s.len(),
{
    if s.len() > 0 {
        lemma_sort_entries_len(s.drop_last());
        lemma_entry_insertion_bounds(sort_entries(s.drop_last()), s.last().1);
    }
}

proof fn lemma_find_entry(a: Seq<(Seq<char>, int, int)>, name: Seq<char>)
    ensures
        -1 <= find_entry(a, name) < a.len(),
        find_entry(a, name) >= 0 ==> a[find_entry(a, name)].0 == name,
        find_entry(a, name) >= 0 ==> forall|q: int| 0 <= q < find_entry(a, name) ==> (#[trigger] a[q]).0 != name,
        find_entry(a, name) < 0 ==> forall|q: int| 0 <= q < a.len() ==> (#[trigger] a[q]).0 != name,
    decreases a.len(),
{
    if a.len() > 0 {
        lemma_find_entry(a.drop_last(), name);
        assert forall|q: int| 0 <= q < a.len() - 1 implies a[q] == a.drop_last()[q] by {}
    }
}

/// Every aggregated entry stays within the overall totals.
proof fn lemma_aggregate_bounded(rewards: Seq<ReachReward>)
    ensures
        forall|q: int| 0 <= q < aggregate(rewards).len() ==> {
            &&& 0 <= (#[trigger] aggregate(rewards)[q]).1 <= all_totals(rewards).0
            &&& 0 <= aggregate(rewards)[q].2 <= all_totals(rewards).1
        },
    decreases rewards.len(),
{
    if rewards.len() > 0 {
        let a = aggregate(rewards.drop_last());
        let x = rewards.last();
        lemma_aggregate_bounded(rewards.drop_last());
        lemma_find_entry(a, x.reacher@);
        let k = find_entry(a, x.reacher@);
        let b = aggregate(rewards);
        lemma_reacher_within_all(rewards.drop_last(), x.reacher@);
        if k >= 0 {
            assert(0 <= a[k].1 <= all_totals(rewards.drop_last()).0);
            assert(0 <= a[k].2 <= all_totals(rewards.drop_last()).1);
        }
        assert forall|q: int| 0 <= q < b.len() implies {
            &&& 0 <= (#[trigger] b[q]).1 <= all_totals(rewards).0
            &&& 0 <= b[q].2 <= all_totals(rewards).1
        } by {
            if q < a.len() {
                assert(0 <= a[q].1 <= all_totals(rewards.drop_last()).0);
                assert(0 <= a[q].2 <= all_totals(rewards.drop_last()).1);
                if q == k {
                    assert(b[q] == (a[k].0, a[k].1 + x.reward_amount, a[k].2 + x.reach_score));
                } else if k >= 0 {
                    assert(b[q] == a[q]);
                } else {
                    assert(b[q] == a[q]);
                }
            }
        }
    }
}

fn find_index(stats: &Vec<(String, u64, u64)>, name: &str) -> (k: usize)
    ensures
        k <= stats@.len(),
        k < stats@.len() <==> find_entry(entry_views(stats@), name@) >= 0,
        k < stats@.len() ==> k == find_entry(entry_views(stats@), name@),
{
    let mut i: usize = 0;
    while i < stats.len()
        invariant
            i <= stats@.len(),
            forall|q: int| 0 <= q < i ==> (#[trigger] stats@[q]).0@ != name@,
        decreases stats@.len() - i,
    {
        if texts_equal(stats[i].0.as_str(), name) {
            proof {
                lemma_find_entry(entry_views(stats@), name@);
                let f = find_entry(entry_views(stats@), name@);
                if f >= 0 && f != i {
                    assert(entry_views(stats@)[f].0 == stats@[f].0@);
                    assert(entry_views(stats@)[i as int].0 == stats@[i as int].0@);
                }
                if f < 0 {
                    assert(entry_views(stats@)[i as int].0 == stats@[i as int].0@);
                }
            }
            return i;
        }
        i = i + 1;
    }
    proof {
        lemma_find_entry(entry_views(stats@), name@);
        let f = find_entry(entry_views(stats@), name@);
        if f >= 0 {
            assert(entry_views(stats@)[f].0 == stats@[f].0@);
        }
    }
    i
}

fn entry_insertion_index(v: &Vec<(String, u64, u64)>, w: u64) -> (k: usize)
    ensures
        k == entry_insertion_point(entry_views(v@), w as int),
{
    let mut k: usize = 0;
    assert(entry_views(v@).skip(0) =~= entry_views(v@));
    while k < v.len() && v[k].1 >= w
        invariant
            k <= v@.len(),
            entry_insertion_point(entry_views(v@), w as int) == k + entry_insertion_point(entry_views(v@).skip(k as int), w as int),
        decreases v@.len() - k,
    {
        assert(entry_views(v@).skip(k as int).drop_first() =~= entry_views(v@).skip(k as int + 1));
        assert(entry_views(v@).skip(k as int)[0] == entry_view(v@[k as int]));
        k = k + 1;
    }
    proof {
        if k < v@.len() {
            assert(entry_views(v@).skip(k as int)[0] == entry_view(v@[k as int]));
        }
    }
    k
}

} // verus!
