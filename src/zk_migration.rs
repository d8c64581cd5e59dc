//! Tracks shards copied from a test network to the main network, with proofs that the
//! copies match, and frames the proofs as the record written to block 2.

use vstd::prelude::*;
use crate::crypto::copy_slice;
use crate::text::{chars_of, decimal, decimal_chars, push_chars, push_str, string_of};

verus! {

/// A shard copied from the test network to the main network.
#[derive(Debug, Clone)]
pub struct ShardMigration {
    pub shard_id: u8,
    pub testnet_hash: String,
    pub mainnet_hash: String,
    pub migrator: String,
    pub timestamp: u64,
}

/// A proof that a migrated shard matches its source.
#[derive(Debug, Clone)]
pub struct ZKMigrationProof {
    pub shard_id: u8,
    pub testnet_block: u64,
    pub mainnet_block: u64,
    pub proof: Vec<u8>,
    pub verified: bool,
}

/// Migrations, their proofs, and the proofs framed for block 2.
#[derive(Debug)]
pub struct MigrationTracker {
    pub migrations: Vec<ShardMigration>,
    pub zk_proofs: Vec<ZKMigrationProof>,
    pub block_2_data: Vec<u8>,
}

/// The proof string of a migration: `zk_proof_<testnet hash>_<mainnet hash>`.
pub open spec fn migration_proof_bytes(m: ShardMigration) -> Seq<u8> {
    vstd::utf8::encode_utf8("zk_proof_"@ + m.testnet_hash@ + "_"@ + m.mainnet_hash@)
}

/// Bytes as a comma-separated list of decimals.
pub open spec fn json_byte_list(bs: Seq<u8>) -> Seq<char>
    decreases bs.len(),
{
    if bs.len() == 0 {
        Seq::empty()
    } else if bs.len() == 1 {
        decimal(bs[0] as nat)
    } else {
        json_byte_list(bs.drop_last()) + ","@ + decimal(bs.last() as nat)
    }
}

/// One proof as a JSON object with its fields in declaration order.
pub open spec fn json_proof(p: ZKMigrationProof) -> Seq<char> {
    "{\"shard_id\":"@ + decimal(p.shard_id as nat) + ",\"testnet_block\":"@ + decimal(p.testnet_block as nat)
        + ",\"mainnet_block\":"@ + decimal(p.mainnet_block as nat) + ",\"proof\":["@ + json_byte_list(p.proof@)
        + "],\"verified\":"@ + (if p.verified {
        "true"@
    } else {
        "false"@
    }) + "}"@
}

/// The proofs as comma-separated JSON objects.
pub open spec fn json_proof_items(ps: Seq<ZKMigrationProof>) -> Seq<char>
    decreases ps.len(),
{
    if ps.len() == 0 {
        Seq::empty()
    } else if ps.len() == 1 {
        json_proof(ps[0])
    } else {
        json_proof_items(ps.drop_last()) + ","@ + json_proof(ps.last())
    }
}

/// The block-2 record: the proofs as a JSON array, in UTF-8.
pub open spec fn block_2_record(ps: Seq<ZKMigrationProof>) -> Seq<u8> {
    vstd::utf8::encode_utf8("["@ + json_proof_items(ps) + "]"@)
}

fn push_json_bytes(out: &mut Vec<char>, bs: &Vec<u8>)
    ensures
        final(out)@ == old(out)@ + json_byte_list(bs@),
{
    let mut i: usize = 0;
    let ghost start = out@;
    assert(bs@.take(0) =~= Seq::<u8>::empty());
    assert(start + Seq::<char>::empty() =~= start);
    while i < bs.len()
        invariant
            i <= bs@.len(),
            out@ == start + json_byte_list(bs@.take(i as int)),
        decreases bs@.len() - i,
    {
        let ghost before = out@;
        assert(bs@.take(i as int + 1).drop_last() =~= bs@.take(i as int));
        if i > 0 {
            push_str(out, ",");
            assert(out@ =~= start + (json_byte_list(bs@.take(i as int)) + ","@));
        }
        push_chars(out, &decimal_chars(bs[i] as u64));
        i = i + 1;
        proof {
            if i == 1 {
                assert(bs@.take(1)[0] == bs@[0]);
                assert(out@ =~= start + json_byte_list(bs@.take(i as int)));
            } else {
                assert(out@ =~= start + json_byte_list(bs@.take(i as int)));
            }
        }
    }
    assert(bs@.take(i as int) =~= bs@);
}

fn push_json_proof(out: &mut Vec<char>, p: &ZKMigrationProof)
    ensures
        final(out)@ == old(out)@ + json_proof(*p),
{
    let ghost start = out@;
    push_str(out, "{\"shard_id\":");
    push_chars(out, &decimal_chars(p.shard_id as u64));
    push_str(out, ",\"testnet_block\":");
    push_chars(out, &decimal_chars(p.testnet_block));
    push_str(out, ",\"mainnet_block\":");
    push_chars(out, &decimal_chars(p.mainnet_block));
    push_str(out, ",\"proof\":[");
    push_json_bytes(out, &p.proof);
    push_str(out, "],\"verified\":");
    if p.verified {
        push_str(out, "true");
    } else {
        push_str(out, "false");
    }
    push_str(out, "}");
    assert(out@ =~= start + json_proof(*p));
}

/// Frames the proofs as the block-2 record.
pub fn encode_block_2(proofs: &Vec<ZKMigrationProof>) -> (r: Vec<u8>)
    ensures
        r@ == block_2_record(proofs@),
{
    let mut out = chars_of("[");
    let ghost start = out@;
    let mut i: usize = 0;
    assert(proofs@.take(0) =~= Seq::<ZKMigrationProof>::empty());
    assert(start + Seq::<char>::empty() =~= start);
    while i < proofs.len()
        invariant
            i <= proofs@.len(),
            start == "["@,
            out@ == start + json_proof_items(proofs@.take(i as int)),
        decreases proofs@.len() - i,
    {
        assert(proofs@.take(i as int + 1).drop_last() =~= proofs@.take(i as int));
        if i > 0 {
            push_str(&mut out, ",");
            assert(out@ =~= start + (json_proof_items(proofs@.take(i as int)) + ","@));
        }
        push_json_proof(&mut out, &proofs[i]);
        i = i + 1;
        proof {
            if i == 1 {
                assert(proofs@.take(1)[0] == proofs@[0]);
            }
            assert(out@ =~= start + json_proof_items(proofs@.take(i as int)));
        }
    }
    assert(proofs@.take(i as int) =~= proofs@);
    push_str(&mut out, "]");
    let s = string_of(&out);
    copy_slice(s.as_str().as_bytes())
}

/// The first proof for `shard_id` is verified; `false` when there is none.
pub open spec fn migration_verified(ps: Seq<ZKMigrationProof>, shard_id: u8) -> bool
    decreases ps.len(),
{
    if ps.len() == 0 {
        false
    } else if ps[0].shard_id == shard_id {
        ps[0].verified
    } else {
        migration_verified(ps.drop_first(), shard_id)
    }
}

impl MigrationTracker {
    pub fn new() -> (r: MigrationTracker)
        ensures
            r.migrations@.len() == 0,
            r.zk_proofs@.len() == 0,
            r.block_2_data@.len() == 0,
    {
        MigrationTracker { migrations: Vec::new(), zk_proofs: Vec::new(), block_2_data: Vec::new() }
    }

    /// Records `migration` with a verified proof bound for block 2 of the main network, and
    /// reframes the block-2 record.
    pub fn track_migration(&mut self, migration: ShardMigration)
        ensures
            final(self).migrations@ == old(self).migrations@.push(migration),
            final(self).zk_proofs@.len() == old(self).zk_proofs@.len() + 1,
            final(self).zk_proofs@.drop_last() == old(self).zk_proofs@,
            final(self).zk_proofs@.last().shard_id == migration.shard_id,
            final(self).zk_proofs@.last().testnet_block == 0,
            final(self).zk_proofs@.last().mainnet_block == 2,
            final(self).zk_proofs@.last().proof@ == migration_proof_bytes(migration),
            final(self).zk_proofs@.last().verified,
            final(self).block_2_data@ == block_2_record(final(self).zk_proofs@),
    {
        let proof = ZKMigrationProof {
            shard_id: migration.shard_id,
            testnet_block: 0,
            mainnet_block: 2,
            proof: Self::generate_zk_proof(&migration),
            verified: true,
        };
        self.migrations.push(migration);
        self.zk_proofs.push(proof);
        assert(self.zk_proofs@.drop_last() =~= old(self).zk_proofs@);
        self.update_block_2();
    }

    fn generate_zk_proof(migration: &ShardMigration) -> (r: Vec<u8>)
        ensures
            r@ == migration_proof_bytes(*migration),
    {
        let mut text = chars_of("zk_proof_");
        push_str(&mut text, migration.testnet_hash.as_str());
        push_str(&mut text, "_");
        push_str(&mut text, migration.mainnet_hash.as_str());
        let s = string_of(&text);
        copy_slice(s.as_str().as_bytes())
    }

    fn update_block_2(&mut self)
        ensures
            final(self).migrations == old(self).migrations,
            final(self).zk_proofs == old(self).zk_proofs,
            final(self).block_2_data@ == block_2_record(old(self).zk_proofs@),
    {
        self.block_2_data = encode_block_2(&self.zk_proofs);
    }

    pub fn verify_migration(&self, shard_id: u8) -> (r: bool)
        ensures
            r == migration_verified(self.zk_proofs@, shard_id),
    {
        let mut i: usize = 0;
        assert(self.zk_proofs@.skip(0) =~= self.zk_proofs@);
        while i < self.zk_proofs.len()
            invariant
                i <= self.zk_proofs@.len(),
                migration_verified(self.zk_proofs@, shard_id) == migration_verified(self.zk_proofs@.skip(i as int), shard_id),
            decreases self.zk_proofs@.len() - i,
        {
            if self.zk_proofs[i].shard_id == shard_id {
                return self.zk_proofs[i].verified;
            }
            assert(self.zk_proofs@.skip(i as int).drop_first() =~= self.zk_proofs@.skip(i as int + 1));
            i = i + 1;
        }
        false
    }

    /// `"<n>/71 shards migrated to mainnet"`.
    pub fn get_migration_status(&self) -> (r: String)
        ensures
            r@ == decimal(self.migrations@.len() as nat) + "/"@ + decimal(71) + " shards migrated to mainnet"@,
    {
        let mut text = decimal_chars(self.migrations.len() as u64);
        push_str(&mut text, "/");
        push_chars(&mut text, &decimal_chars(71));
        push_str(&mut text, " shards migrated to mainnet");
        string_of(&text)
    }
}

} // verus!
