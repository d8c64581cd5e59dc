//! Layered access control: a hierarchy of tiers, one ciphertext blob per tier, and
//! transactions that gate each blob behind its tier's keys.

use vstd::prelude::*;
use crate::crypto::{ExtractionWitness, copy_slice, fold_digest, proof_bytes};
use crate::shards::bytes_equal;
use vstd::string::StringSliceAdditionalSpecFns;

verus! {

/// Access level of a tier, ordered from least to most restricted.
#[derive(Debug, Clone, Copy, PartialEq, Eq, Structural, PartialOrd, Ord)]
pub enum AccessLevel {
    Public,
    Authenticated,
    Subscriber,
    Private,
    Secret,
}

/// One tier of an access hierarchy.
#[derive(Debug, Clone)]
pub struct ACLEntry {
    pub level: AccessLevel,
    pub required_keys: Vec<Vec<u8>>,
    pub threshold: usize,
    pub encryption_key: Vec<u8>,
    pub parent_layer: Option<usize>,
}

/// An ordered hierarchy of tiers, tier 0 being public.
#[derive(Debug, Clone)]
pub struct LayeredACL {
    pub layers: Vec<ACLEntry>,
    pub owner: Vec<u8>,
}

/// The contents of a list of keys.
pub open spec fn key_views(keys: Seq<Vec<u8>>) -> Seq<Seq<u8>> {
    keys.map_values(|k: Vec<u8>| k@)
}

/// The presented keys (repetitions included) that belong to `required`.
pub open spec fn matching_keys(keys: Seq<Seq<u8>>, required: Seq<Seq<u8>>) -> Seq<Seq<u8>> {
    keys.filter(|k: Seq<u8>| required.contains(k))
}

/// Whether `keys` open tier `layer` of `layers`: a public tier is open to all; any other
/// tier needs at least `threshold` presented keys from its required set. Ancestor tiers
/// are not consulted.
pub open spec fn can_access_spec(layers: Seq<ACLEntry>, layer: int, keys: Seq<Seq<u8>>) -> bool {
    &&& 0 <= layer < layers.len()
    &&& (layers[layer].level == AccessLevel::Public || matching_keys(
        keys,
        key_views(layers[layer].required_keys@),
    ).len() >= layers[layer].threshold)
}

fn contains_key(required: &Vec<Vec<u8>>, k: &Vec<u8>) -> (r: bool)
    ensures
        r == key_views(required@).contains(k@),
{
    let mut i: usize = 0;
    while i < required.len()
        invariant
            i <= required@.len(),
            forall|j: int| 0 <= j < i ==> required@[j]@ != k@,
        decreases required@.len() - i,
    {
        if bytes_equal(required[i].as_slice(), k.as_slice()) {
            assert(key_views(required@)[i as int] == k@);
            return true;
        }
        i = i + 1;
    }
    assert forall|j: int| 0 <= j < key_views(required@).len() implies key_views(required@)[j] != k@ by {
        assert(key_views(required@)[j] == required@[j]@);
    }
    false
}

impl LayeredACL {
    /// Tier 0 is public and open, and every later tier records its predecessor as parent.
    pub open spec fn wf(&self) -> bool {
        &&& self.layers@.len() > 0
        &&& self.layers@[0].level == AccessLevel::Public
        &&& self.layers@[0].required_keys@.len() == 0
        &&& self.layers@[0].threshold == 0
        &&& forall|i: int| 0 < i < self.layers@.len() ==> #[trigger] self.layers@[i].parent_layer == Some((i - 1) as usize)
    }

    /// A hierarchy with one public tier.
    pub fn new(owner: Vec<u8>) -> (r: LayeredACL)
        ensures
            r.wf(),
            r.layers@.len() == 1,
            r.layers@[0].encryption_key@.len() == 0,
            r.layers@[0].parent_layer is None,
            r.owner@ == owner@,
    {
        let mut layers: Vec<ACLEntry> = Vec::new();
        layers.push(ACLEntry {
            level: AccessLevel::Public,
            required_keys: Vec::new(),
            threshold: 0,
            encryption_key: Vec::new(),
            parent_layer: None,
        });
        LayeredACL { layers, owner }
    }

    /// Appends a tier whose parent is the current last tier, and returns its index.
    pub fn add_layer(
        &mut self,
        level: AccessLevel,
        required_keys: Vec<Vec<u8>>,
        threshold: usize,
        encryption_key: Vec<u8>,
    ) -> (r: usize)
        requires
            old(self).layers@.len() > 0,
        ensures
            r == old(self).layers@.len(),
            final(self).owner == old(self).owner,
            final(self).layers@ == old(self).layers@.push(
                (ACLEntry {
                    level,
                    required_keys,
                    threshold,
                    encryption_key,
                    parent_layer: Some((old(self).layers@.len() - 1) as usize),
                }),
            ),
            old(self).wf() ==> final(self).wf(),
    {
        let parent = self.layers.len() - 1;
        self.layers.push(ACLEntry { level, required_keys, threshold, encryption_key, parent_layer: Some(parent) });
        self.layers.len() - 1
    }

    pub fn can_access(&self, layer: usize, keys: &[Vec<u8>]) -> (r: bool)
        ensures
            r == can_access_spec(self.layers@, layer as int, key_views(keys@)),
    {
        if layer >= self.layers.len() {
            return false;
        }
        let entry = &self.layers[layer];
        if entry.level == AccessLevel::Public {
            return true;
        }
        let ghost req = key_views(entry.required_keys@);
        let ghost pred = |k: Seq<u8>| req.contains(k);
        let mut count: usize = 0;
        let mut i: usize = 0;
        assert(key_views(keys@).take(0) =~= Seq::<Seq<u8>>::empty());
        proof {
            reveal(Seq::filter);
        }
        while i < keys.len()
            invariant
                i <= keys@.len(),
                req == key_views(entry.required_keys@),
                pred == (|k: Seq<u8>| req.contains(k)),
                count == key_views(keys@).take(i as int).filter(pred).len(),
            decreases keys@.len() - i,
        {
            proof {
                assert(key_views(keys@).take(i as int + 1) =~= key_views(keys@).take(i as int).push(keys@[i as int]@));
                key_views(keys@).take(i as int).lemma_filter_push(keys@[i as int]@, pred);
                key_views(keys@).take(i as int).lemma_filter_len(pred);
            }
            if contains_key(&entry.required_keys, &keys[i]) {
                count = count + 1;
            }
            i = i + 1;
        }
        assert(key_views(keys@).take(i as int) =~= key_views(keys@));
        count >= entry.threshold
    }

    pub fn layer_count(&self) -> (r: usize)
        ensures
            r == self.layers@.len(),
    {
        self.layers.len()
    }
}

} // verus!

verus! {

/// `d` XORed with `key` repeated cyclically; the identity when `key` is empty.
pub open spec fn xor_cycle(d: Seq<u8>, key: Seq<u8>) -> Seq<u8> {
    if key.len() == 0 {
        d
    } else {
        Seq::new(d.len(), |i: int| d[i] ^ key[i % (key.len() as int)])
    }
}

/// The transform of one tier: the identity on a public tier, else its keyed XOR.
pub open spec fn tier_transform(entry: ACLEntry, d: Seq<u8>) -> Seq<u8> {
    if entry.level == AccessLevel::Public {
        d
    } else {
        xor_cycle(d, entry.encryption_key@)
    }
}

/// Blob `p` of the pipeline: `plain` with the transforms of tiers `n - 1` down to `p` applied.
pub open spec fn nested_blob(plain: Seq<u8>, layers: Seq<ACLEntry>, p: int) -> Seq<u8>
    decreases layers.len() - p,
{
    if p < 0 || p >= layers.len() {
        plain
    } else {
        tier_transform(layers[p], nested_blob(plain, layers, p + 1))
    }
}

/// Blob 0 with the transforms of `keys[1..=m]` applied in turn.
pub open spec fn peel_layers(d: Seq<u8>, keys: Seq<Seq<u8>>, m: int) -> Seq<u8>
    decreases m,
{
    if m <= 0 {
        d
    } else {
        xor_cycle(peel_layers(d, keys, m - 1), keys[m])
    }
}

/// What `decrypt_to_layer` returns: nothing when the target tier is out of range or fewer
/// than `target + 1` keys are given.
pub open spec fn decrypt_to_layer_spec(blobs: Seq<Seq<u8>>, target: int, keys: Seq<Seq<u8>>) -> Option<Seq<u8>> {
    if target < 0 || target >= blobs.len() || keys.len() <= target {
        None
    } else {
        Some(peel_layers(blobs[0], keys, target))
    }
}

fn encrypt_layer(data: &[u8], key: &[u8]) -> (r: Vec<u8>)
    ensures
        r@ == xor_cycle(data@, key@),
{
    let mut out: Vec<u8> = Vec::new();
    let mut i: usize = 0;
    while i < data.len()
        invariant
            i <= data@.len(),
            out@.len() == i,
            forall|q: int| 0 <= q < i ==> #[trigger] out@[q] == if key@.len() == 0 {
                data@[q]
            } else {
                data@[q] ^ key@[q % (key@.len() as int)]
            },
        decreases data@.len() - i,
    {
        if key.len() == 0 {
            out.push(data[i]);
        } else {
            out.push(data[i] ^ key[i % key.len()]);
        }
        i = i + 1;
    }
    assert(out@ =~= xor_cycle(data@, key@));
    out
}

fn decrypt_layer(data: &[u8], key: &[u8]) -> (r: Vec<u8>)
    ensures
        r@ == xor_cycle(data@, key@),
{
    encrypt_layer(data, key)
}

/// One ciphertext blob per tier.
#[derive(Debug, Clone)]
pub struct NestedEncryption {
    pub layers: Vec<Vec<u8>>,
}

impl NestedEncryption {
    pub open spec fn blobs(&self) -> Seq<Seq<u8>> {
        key_views(self.layers@)
    }

    /// Blob `p` carries the transforms of every tier from the last one down to `p`.
    pub fn encrypt_nested(data: &str, acl: &LayeredACL) -> (r: NestedEncryption)
        ensures
            r.layers@.len() == acl.layers@.len(),
            forall|p: int| 0 <= p < r.layers@.len() ==> #[trigger] r.layers@[p]@ == nested_blob(
                data.spec_bytes(),
                acl.layers@,
                p,
            ),
    {
        let bytes = data.as_bytes();
        let mut current: Vec<u8> = copy_slice(bytes);
        let mut out: Vec<Vec<u8>> = Vec::new();
        let n = acl.layers.len();
        let mut j: usize = n;
        while j > 0
            invariant
                j <= n,
                n == acl.layers@.len(),
                current@ == nested_blob(bytes@, acl.layers@, j as int),
                out@.len() == n - j,
                forall|q: int| 0 <= q < out@.len() ==> #[trigger] out@[q]@ == nested_blob(bytes@, acl.layers@, j + q),
            decreases j,
        {
            let entry = &acl.layers[j - 1];
            if entry.level != AccessLevel::Public {
                current = encrypt_layer(current.as_slice(), entry.encryption_key.as_slice());
            }
            let snapshot = copy_slice(current.as_slice());
            let ghost prev = out@;
            out.insert(0, snapshot);
            j = j - 1;
            assert forall|q: int| 0 <= q < out@.len() implies #[trigger] out@[q]@ == nested_blob(bytes@, acl.layers@, j + q) by {
                if q > 0 {
                    assert(out@[q] == prev[q - 1]);
                }
            }
        }
        NestedEncryption { layers: out }
    }
}

} // verus!

verus! {

impl NestedEncryption {
    /// Blob `layer` with `key` applied, or `None` when `layer` is out of range.
    pub fn decrypt_layer(&self, layer: usize, key: &[u8]) -> (r: Option<Vec<u8>>)
        ensures
            layer >= self.layers@.len() ==> r is None,
            layer < self.layers@.len() ==> r is Some && r->0@ == xor_cycle(self.layers@[layer as int]@, key@),
    {
        if layer >= self.layers.len() {
            return None;
        }
        Some(decrypt_layer(self.layers[layer].as_slice(), key))
    }

    /// Starting from blob 0, applies `keys[1]`, ..., `keys[target_layer]` in turn.
    pub fn decrypt_to_layer(&self, target_layer: usize, keys: &[Vec<u8>]) -> (r: Option<Vec<u8>>)
        ensures
            match r {
                Some(v) => decrypt_to_layer_spec(self.blobs(), target_layer as int, key_views(keys@)) == Some(v@),
                None => decrypt_to_layer_spec(self.blobs(), target_layer as int, key_views(keys@)) is None,
            },
    {
        if target_layer >= self.layers.len() || keys.len() <= target_layer {
            return None;
        }
        let mut data = copy_slice(self.layers[0].as_slice());
        let mut layer: usize = 1;
        while layer <= target_layer
            invariant
                1 <= layer <= target_layer + 1,
                target_layer < keys@.len(),
                target_layer < self.layers@.len(),
                data@ == peel_layers(self.layers@[0]@, key_views(keys@), layer - 1),
            decreases target_layer + 1 - layer,
        {
            data = decrypt_layer(data.as_slice(), keys[layer].as_slice());
            assert(key_views(keys@)[layer as int] == keys@[layer as int]@);
            layer = layer + 1;
        }
        Some(data)
    }
}

/// A document stored as one blob per tier of its hierarchy, with a witness per blob.
#[derive(Debug, Clone)]
pub struct LayeredSemanticTransaction {
    pub rdfa_data: Vec<u8>,
    pub nested_layers: NestedEncryption,
    pub acl: LayeredACL,
    pub witnesses: Vec<ExtractionWitness>,
    pub fee: u64,
    pub timestamp: u64,
}

impl LayeredSemanticTransaction {
    /// One witness per stored blob.
    pub open spec fn wf(&self) -> bool {
        self.witnesses@.len() == self.nested_layers.layers@.len()
    }

    /// Encrypts `data` for every tier of `acl` and commits to each blob; the witness of
    /// tier `i` lists the single channel `i` (taken as a byte).
    pub fn new(data: &str, acl: LayeredACL) -> (r: LayeredSemanticTransaction)
        requires
            acl.layers@.len() > 0,
        ensures
            r.wf(),
            r.acl == acl,
            r.nested_layers.layers@.len() == acl.layers@.len(),
            forall|p: int| 0 <= p < acl.layers@.len() ==> #[trigger] r.nested_layers.layers@[p]@
                == nested_blob(data.spec_bytes(), acl.layers@, p),
            r.rdfa_data@ == nested_blob(data.spec_bytes(), acl.layers@, 0),
            forall|p: int| 0 <= p < acl.layers@.len() ==> {
                &&& #[trigger] r.witnesses@[p].commitment@ == fold_digest(r.nested_layers.layers@[p]@)
                &&& r.witnesses@[p].channels_used@ == seq![#[verifier::truncate] (p as u8)]
                &&& r.witnesses@[p].proof@ == proof_bytes(r.nested_layers.layers@[p]@, seq![#[verifier::truncate] (p as u8)])
            },
            r.fee == 0,
            r.timestamp == 0,
    {
        let nested = NestedEncryption::encrypt_nested(data, &acl);
        let mut witnesses: Vec<ExtractionWitness> = Vec::new();
        let mut i: usize = 0;
        while i < acl.layers.len()
            invariant
                i <= acl.layers@.len(),
                nested.layers@.len() == acl.layers@.len(),
                witnesses@.len() == i,
                forall|p: int| 0 <= p < i ==> {
                    &&& #[trigger] witnesses@[p].commitment@ == fold_digest(nested.layers@[p]@)
                    &&& witnesses@[p].channels_used@ == seq![#[verifier::truncate] (p as u8)]
                    &&& witnesses@[p].proof@ == proof_bytes(nested.layers@[p]@, seq![#[verifier::truncate] (p as u8)])
                },
            decreases acl.layers@.len() - i,
        {
            let id: [u8; 1] = [#[verifier::truncate] (i as u8)];
            assert(id@ =~= seq![#[verifier::truncate] (i as u8)]);
            let w = ExtractionWitness::generate(nested.layers[i].as_slice(), id.as_slice());
            witnesses.push(w);
            i = i + 1;
        }
        let rdfa_data = copy_slice(nested.layers[0].as_slice());
        LayeredSemanticTransaction { rdfa_data, nested_layers: nested, acl, witnesses, fee: 0, timestamp: 0 }
    }

    /// The decryption to tier `layer` when `keys` open that tier, else `None`.
    pub fn access_layer(&self, layer: usize, keys: &[Vec<u8>]) -> (r: Option<Vec<u8>>)
        ensures
            !can_access_spec(self.acl.layers@, layer as int, key_views(keys@)) ==> r is None,
            can_access_spec(self.acl.layers@, layer as int, key_views(keys@)) ==> match r {
                Some(v) => decrypt_to_layer_spec(self.nested_layers.blobs(), layer as int, key_views(keys@)) == Some(v@),
                None => decrypt_to_layer_spec(self.nested_layers.blobs(), layer as int, key_views(keys@)) is None,
            },
    {
        if !self.acl.can_access(layer, keys) {
            return None;
        }
        self.nested_layers.decrypt_to_layer(layer, keys)
    }

    /// Checks the stored witness of tier `layer` against the stored blob.
    pub fn verify_layer(&self, layer: usize) -> (r: bool)
        requires
            self.wf(),
        ensures
            r == (layer < self.witnesses@.len() && self.witnesses@[layer as int].commitment@ == fold_digest(
                self.nested_layers.layers@[layer as int]@,
            )),
    {
        if layer >= self.witnesses.len() {
            return false;
        }
        self.witnesses[layer].verify(self.nested_layers.layers[layer].as_slice())
    }
}

/// The public tier of a well-formed hierarchy is open to any set of keys.
pub proof fn lemma_public_tier_open(acl: LayeredACL, keys: Seq<Seq<u8>>)
    requires
        acl.wf(),
    ensures
        can_access_spec(acl.layers@, 0, keys),
{
}

proof fn lemma_filter_no_duplicates(s: Seq<Seq<u8>>, p: spec_fn(Seq<u8>) -> bool)
    requires
        s.no_duplicates(),
    ensures
        s.filter(p).no_duplicates(),
        forall|x: Seq<u8>| #[trigger] s.filter(p).contains(x) <==> s.contains(x) && p(x),
    decreases s.len(),
{
    reveal(Seq::filter);
    if s.len() > 0 {
        let rest = s.drop_last();
        assert(rest.no_duplicates());
        lemma_filter_no_duplicates(rest, p);
        assert forall|x: Seq<u8>| #[trigger] s.filter(p).contains(x) <==> s.contains(x) && p(x) by {
            if s.contains(x) && p(x) {
                let i = choose|i: int| 0 <= i < s.len() && s[i] == x;
                if i < s.len() - 1 {
                    assert(rest[i] == x);
                }
            }
            if s.filter(p).contains(x) {
                if x != s.last() || !p(s.last()) {
                    assert(rest.filter(p).contains(x));
                    assert(s.contains(x));
                }
            }
        }
        if p(s.last()) {
            let f = rest.filter(p);
            assert(s.filter(p) == f.push(s.last()));
            assert(!rest.contains(s.last())) by {
                if rest.contains(s.last()) {
                    let i = choose|i: int| 0 <= i < rest.len() && rest[i] == s.last();
                    assert(s[i] == s[s.len() - 1]);
                }
            }
            assert forall|i: int, j: int| 0 <= i < j < f.push(s.last()).len() implies f.push(s.last())[i] != f.push(
                s.last(),
            )[j] by {
                if j == f.len() {
                    assert(f.contains(f[i]));
                }
            }
        } else {
            assert(s.filter(p) == rest.filter(p));
        }
    }
}

/// For a tier that is not public, and presented keys without repetition, access is
/// granted exactly when the presented keys share at least `threshold` members with the
/// tier's required keys.
pub proof fn lemma_threshold_access(acl: LayeredACL, layer: int, keys: Seq<Seq<u8>>)
    requires
        0 <= layer < acl.layers@.len(),
        acl.layers@[layer].level != AccessLevel::Public,
        keys.no_duplicates(),
    ensures
        can_access_spec(acl.layers@, layer, keys) == (keys.to_set().intersect(
            key_views(acl.layers@[layer].required_keys@).to_set(),
        ).len() >= acl.layers@[layer].threshold),
{
    let req = key_views(acl.layers@[layer].required_keys@);
    let p = |k: Seq<u8>| req.contains(k);
    let m = keys.filter(p);
    assert(matching_keys(keys, req) == m);
    lemma_filter_no_duplicates(keys, p);
    assert(m.to_set() =~= keys.to_set().intersect(req.to_set()));
    m.unique_seq_to_set();
}

/// Round trip over a two-tier hierarchy: applying the second tier's key to blob 0 gives
/// back the plaintext, whatever the key.
pub proof fn lemma_two_tier_round_trip(acl: LayeredACL, plain: Seq<u8>, keys: Seq<Seq<u8>>)
    requires
        acl.layers@.len() == 2,
        acl.layers@[0].level == AccessLevel::Public,
        acl.layers@[1].level != AccessLevel::Public,
        keys.len() >= 2,
        keys[1] == acl.layers@[1].encryption_key@,
    ensures
        decrypt_to_layer_spec(
            Seq::new(2, |p: int| nested_blob(plain, acl.layers@, p)),
            1,
            keys,
        ) == Some(plain),
{
    let k = keys[1];
    let blob0 = nested_blob(plain, acl.layers@, 0);
    assert(nested_blob(plain, acl.layers@, 2) == plain);
    assert(nested_blob(plain, acl.layers@, 1) == xor_cycle(plain, k));
    assert(blob0 == xor_cycle(plain, k));
    assert(peel_layers(blob0, keys, 1) == xor_cycle(peel_layers(blob0, keys, 0), k));
    if k.len() > 0 {
        assert forall|i: int| 0 <= i < plain.len() implies #[trigger] xor_cycle(xor_cycle(plain, k), k)[i] == plain[i] by {
            let a = plain[i];
            let b = k[i % (k.len() as int)];
            assert((a ^ b) ^ b == a) by (bit_vector);
        }
        assert(xor_cycle(xor_cycle(plain, k), k) =~= plain);
    }
}

} // verus!
