//! The key store: a node's identity secret and the symmetric keys it holds,
//! each filed under its hash.

use crate::bytes::{lemma_lex_transitive, lex_lt, place_of, push_be_u32, read_be_u32, Place};
use crate::crypto::{blake3_digest, blake3_of, public_key, public_key_of};
use crate::error::StoreError;
use crate::keys::{IrohSecretKey, KeyHash, NodeId, SecretKey};
use crate::listing::{
    as_map, ascending, lemma_ascending_unique, lemma_empty, lemma_insert_fresh, lemma_listing,
    lemma_place, lemma_replace, listing, lists, well_sized, Listing,
};
use crate::plaintext::{
    count_of, flat, identity_of, lemma_plaintext_reads, lemma_plaintext_writes, pairs_of,
    plaintext_of,
};
use vstd::prelude::*;

verus! {

/// What a key store is: the identity secret, and the mapping from key hash to
/// key.
pub struct StoreView {
    pub identity: Seq<u8>,
    pub keys: Map<Seq<u8>, Seq<u8>>,
}

impl StoreView {
    /// The identity is 32 bytes long, and the mapping is one that a list of
    /// 32-byte hashes and keys spells out.
    pub open spec fn valid(self) -> bool {
        &&& self.identity.len() == 32
        &&& exists|l: Listing| ascending(l) && well_sized(l) && as_map(l) == self.keys
    }

    /// The store that holds `identity` and no key.
    pub open spec fn empty(identity: Seq<u8>) -> StoreView {
        StoreView { identity, keys: Map::empty() }
    }

    /// This store with `key` filed under `hash`, in place of any key that was
    /// filed there.
    pub open spec fn with_key(self, hash: Seq<u8>, key: Seq<u8>) -> StoreView {
        StoreView { identity: self.identity, keys: self.keys.insert(hash, key) }
    }

    /// This store with `key` filed under its own hash.
    pub open spec fn add_key(self, key: Seq<u8>) -> StoreView {
        self.with_key(blake3_of(key), key)
    }

    /// The number of keys in the store.
    pub open spec fn count(self) -> nat {
        listing(self.keys).len()
    }

    /// The canonical plaintext of the store: its identity, the number of its
    /// keys, and its pairs in ascending order of their hashes.
    pub open spec fn plaintext(self) -> Seq<u8> {
        plaintext_of(self.identity, listing(self.keys))
    }
}

/// What is wrong with `bytes` as the plaintext of a store, if anything: cut
/// short of the length that its own count announces, or else longer than
/// that, or with hashes that do not ascend.
pub open spec fn plaintext_defect(bytes: Seq<u8>) -> Option<StoreError> {
    if bytes.len() < 36 || bytes.len() < 36 + 64 * count_of(bytes) {
        Some(StoreError::FormatInvalid)
    } else if bytes.len() > 36 + 64 * count_of(bytes) || !ascending(pairs_of(bytes)) {
        Some(StoreError::SerializationFailure)
    } else {
        None
    }
}

/// The store that the plaintext `bytes` holds.
pub open spec fn parsed(bytes: Seq<u8>) -> StoreView {
    StoreView { identity: identity_of(bytes), keys: as_map(pairs_of(bytes)) }
}

/// The ascending list of a valid store spells out its mapping and is well
/// sized.
pub proof fn lemma_valid_listing(v: StoreView)
    requires
        v.valid(),
    ensures
        ascending(listing(v.keys)),
        well_sized(listing(v.keys)),
        as_map(listing(v.keys)) == v.keys,
{
    let w = choose|l: Listing| ascending(l) && well_sized(l) && as_map(l) == v.keys;
    lemma_ascending_unique(listing(v.keys), w);
}

/// Serialising a valid store and parsing the result gives the store back.
pub proof fn lemma_plaintext_round_trip(v: StoreView)
    requires
        v.valid(),
        v.count() <= u32::MAX,
    ensures
        plaintext_defect(v.plaintext()) is None,
        parsed(v.plaintext()) == v,
{
    lemma_valid_listing(v);
    lemma_plaintext_reads(v.identity, listing(v.keys));
}

/// A plaintext without defect is the canonical plaintext of the store it
/// holds: no two plaintexts hold the same store.
pub proof fn lemma_parsed_plaintext(bytes: Seq<u8>)
    requires
        plaintext_defect(bytes) is None,
    ensures
        parsed(bytes).valid(),
        parsed(bytes).plaintext() == bytes,
{
    let l = pairs_of(bytes);
    assert(well_sized(l));
    lemma_listing(l);
    lemma_plaintext_writes(bytes);
}

/// One key of the store with the hash it is filed under.
#[derive(Clone, Copy)]
struct Entry {
    hash: KeyHash,
    key: SecretKey,
}

/// The identity secret of a node and its symmetric keys, in ascending order
/// of their hashes.
pub struct KeyStore {
    iroh_secret_key: IrohSecretKey,
    entries: Vec<Entry>,
}

/// The hashes and keys of `entries`, in their order.
spec fn listed(entries: Seq<Entry>) -> Listing {
    Seq::new(entries.len(), |i: int| (entries[i].hash@, entries[i].key@))
}

impl View for KeyStore {
    type V = StoreView;

    closed spec fn view(&self) -> StoreView {
        StoreView { identity: self.iroh_secret_key@, keys: as_map(listed(self.entries@)) }
    }
}

impl KeyStore {
    #[verifier::type_invariant]
    spec fn ordered(&self) -> bool {
        ascending(listed(self.entries@))
    }

    /// Creates a store that holds `iroh_secret_key` and no key.
    pub fn new(iroh_secret_key: IrohSecretKey) -> (store: KeyStore)
        ensures
            store@ == StoreView::empty(iroh_secret_key@),
            store@.valid(),
    {
        let store = KeyStore { iroh_secret_key, entries: Vec::new() };
        proof {
            lemma_empty();
            assert(listed(store.entries@) =~= Seq::empty());
        }
        store
    }

    /// The identity secret, fixed when the store was created.
    pub fn iroh_secret_key(&self) -> (secret: IrohSecretKey)
        ensures
            secret@ == self@.identity,
    {
        self.iroh_secret_key
    }

    /// The public identifier that belongs to the identity secret.
    pub fn node_id(&self) -> (id: NodeId)
        ensures
            id@ == public_key_of(self@.identity),
    {
        NodeId(public_key(&self.iroh_secret_key.0))
    }

    /// A copy of the store as it stands now.
    pub fn snapshot(&self) -> (copy: KeyStore)
        ensures
            copy@ == self@,
            copy@.valid(),
    {
        proof {
            use_type_invariant(self);
            lemma_well_sized(self.entries@);
        }
        let n: usize = self.entries.len();
        let mut entries: Vec<Entry> = Vec::new();
        let mut i: usize = 0;
        while i < n
            invariant
                i <= n == self.entries@.len(),
                entries@ == self.entries@.take(i as int),
            decreases n - i,
        {
            entries.push(self.entries[i]);
            assert(entries@ =~= self.entries@.take(i + 1));
            i += 1;
        }
        assert(entries@ =~= self.entries@);
        KeyStore { iroh_secret_key: self.iroh_secret_key, entries }
    }

    /// Finds `hash` among the entries: its index if it is there, else the
    /// index at which it would have to stand.
    fn locate(&self, hash: &KeyHash) -> (r: (bool, usize))
        ensures
            r.1 <= self.entries@.len(),
            r.0 ==> r.1 < self.entries@.len() && self.entries@[r.1 as int].hash@ == hash@,
            !r.0 ==> forall|i: int|
                0 <= i < r.1 ==> lex_lt((#[trigger] listed(self.entries@)[i]).0, hash@),
            !r.0 ==> forall|i: int|
                r.1 <= i < self.entries@.len() ==> lex_lt(
                    hash@,
                    (#[trigger] listed(self.entries@)[i]).0,
                ),
    {
        proof {
            use_type_invariant(self);
        }
        let ghost l = listed(self.entries@);
        let mut lo: usize = 0;
        let mut hi: usize = self.entries.len();
        while lo < hi
            invariant
                lo <= hi <= self.entries@.len(),
                l == listed(self.entries@),
                ascending(l),
                forall|i: int| 0 <= i < lo ==> lex_lt((#[trigger] l[i]).0, hash@),
                forall|i: int| hi <= i < l.len() ==> lex_lt(hash@, (#[trigger] l[i]).0),
            decreases hi - lo,
        {
            let mid: usize = lo + (hi - lo) / 2;
            let there = &self.entries[mid].hash;
            assert(l[mid as int].0 == there@);
            match place_of(there.0.as_slice(), hash.0.as_slice()) {
                Place::Before => {
                    assert forall|i: int| 0 <= i < mid + 1 implies lex_lt(
                        (#[trigger] l[i]).0,
                        hash@,
                    ) by {
                        if i < mid {
                            assert(lex_lt(l[i].0, l[mid as int].0));
                            lemma_lex_transitive(l[i].0, l[mid as int].0, hash@);
                        }
                    }
                    lo = mid + 1;
                },
                Place::Same => {
                    return (true, mid);
                },
                Place::After => {
                    assert forall|i: int| mid <= i < l.len() implies lex_lt(
                        hash@,
                        (#[trigger] l[i]).0,
                    ) by {
                        if mid < i {
                            assert(lex_lt(l[mid as int].0, l[i].0));
                            lemma_lex_transitive(hash@, l[mid as int].0, l[i].0);
                        }
                    }
                    hi = mid;
                },
            }
        }
        (false, lo)
    }

    /// Looks up the key filed under `hash`.
    pub fn get_key(&self, hash: &KeyHash) -> (found: Option<SecretKey>)
        ensures
            match found {
                Some(key) => self@.keys.contains_key(hash@) && self@.keys[hash@] == key@,
                None => !self@.keys.contains_key(hash@),
            },
    {
        proof {
            use_type_invariant(self);
        }
        let ghost l = listed(self.entries@);
        let (there, at) = self.locate(hash);
        if there {
            proof {
                lemma_place(l, at as int);
            }
            Some(self.entries[at].key)
        } else {
            proof {
                lemma_lex_irreflexive_at(l, hash@, at as int);
            }
            None
        }
    }

    /// Files `key` under `hash`, in place of any key that was filed there.
    pub fn insert(&mut self, hash: KeyHash, key: SecretKey)
        ensures
            final(self)@ == old(self)@.with_key(hash@, key@),
            final(self)@.valid(),
    {
        proof {
            use_type_invariant(&*self);
        }
        let ghost l = listed(self.entries@);
        let (there, at) = self.locate(&hash);
        let mut entries: Vec<Entry> = Vec::new();
        proof {
            lemma_empty();
            assert(listed(entries@) =~= Seq::empty());
        }
        core::mem::swap(&mut self.entries, &mut entries);
        if there {
            entries[at] = Entry { hash, key };
            proof {
                lemma_replace(l, at as int, key@);
                assert(listed(entries@) =~= l.update(at as int, (l[at as int].0, key@)));
            }
        } else {
            entries.insert(at, Entry { hash, key });
            proof {
                lemma_insert_fresh(l, at as int, hash@, key@);
                assert(listed(entries@) =~= l.insert(at as int, (hash@, key@)));
            }
        }
        self.entries = entries;
        proof {
            lemma_well_sized(self.entries@);
        }
    }

    /// Serialises the store to its canonical plaintext. The count field has
    /// four bytes, so a store of more keys than that holds is refused.
    pub fn to_bytes(&self) -> (r: Result<Vec<u8>, StoreError>)
        ensures
            self@.valid(),
            r is Ok <==> self@.count() <= u32::MAX,
            r matches Ok(bytes) ==> bytes@ == self@.plaintext(),
            r matches Err(e) ==> e == StoreError::SerializationFailure,
    {
        proof {
            use_type_invariant(self);
            lemma_listing(listed(self.entries@));
            lemma_well_sized(self.entries@);
        }
        let ghost l = listed(self.entries@);
        let n: usize = self.entries.len();
        if n > u32::MAX as usize {
            return Err(StoreError::SerializationFailure);
        }
        let mut out: Vec<u8> = Vec::new();
        append(&mut out, self.iroh_secret_key.0.as_slice());
        push_be_u32(&mut out, n as u32);
        let ghost head = out@;
        assert(flat(l.take(0)) =~= Seq::<u8>::empty());
        let mut i: usize = 0;
        while i < n
            invariant
                i <= n == self.entries@.len(),
                l == listed(self.entries@),
                out@ == head + flat(l.take(i as int)),
            decreases n - i,
        {
            let entry = self.entries[i];
            append(&mut out, entry.hash.0.as_slice());
            append(&mut out, entry.key.0.as_slice());
            proof {
                let next = l.take(i + 1);
                assert(next.drop_last() =~= l.take(i as int));
                assert(next.last() == l[i as int]);
                assert(out@ =~= head + flat(next));
            }
            i += 1;
        }
        assert(l.take(n as int) =~= l);
        Ok(out)
    }

    /// Parses the canonical plaintext of a store.
    pub fn from_bytes(bytes: &[u8]) -> (r: Result<KeyStore, StoreError>)
        ensures
            match r {
                Ok(store) => plaintext_defect(bytes@) is None && store@ == parsed(bytes@)
                    && store@.valid(),
                Err(e) => plaintext_defect(bytes@) == Some(e),
            },
    {
        if bytes.len() < 36 {
            return Err(StoreError::FormatInvalid);
        }
        let n: u32 = read_be_u32(bytes, 32);
        let have: u64 = bytes.len() as u64;
        let need: u64 = 36 + 64 * (n as u64);
        if have < need {
            return Err(StoreError::FormatInvalid);
        }
        if have > need {
            return Err(StoreError::SerializationFailure);
        }
        let ghost pairs = pairs_of(bytes@);
        let identity = take32(bytes, 0);
        let total: usize = bytes.len();
        let count: usize = n as usize;
        let mut entries: Vec<Entry> = Vec::new();
        let mut i: usize = 0;
        assert(listed(entries@) =~= pairs.take(0));
        while i < count
            invariant
                i <= count == pairs.len(),
                total == bytes@.len() == 36 + 64 * count,
                pairs == pairs_of(bytes@),
                entries@.len() == i,
                listed(entries@) == pairs.take(i as int),
                ascending(listed(entries@)),
            decreases count - i,
        {
            let at: usize = 36 + 64 * i;
            let hash = take32(bytes, at);
            let key = take32(bytes, at + 32);
            assert(pairs[i as int] == (hash@, key@));
            let ghost before = listed(entries@);
            if i > 0 {
                let last = &entries[i - 1].hash;
                assert(last@ == pairs[i - 1].0) by {
                    assert(before[i - 1] == pairs.take(i as int)[i - 1]);
                }
                match place_of(last.0.as_slice(), hash.as_slice()) {
                    Place::Before => {},
                    _ => {
                        assert(!lex_lt(pairs[i - 1].0, pairs[i as int].0));
                        return Err(StoreError::SerializationFailure);
                    },
                }
            }
            entries.push(Entry { hash: KeyHash(hash), key: SecretKey(key) });
            proof {
                let now = listed(entries@);
                assert(now =~= pairs.take(i + 1));
                assert forall|a: int, b: int| 0 <= a < b < now.len() implies lex_lt(
                    (#[trigger] now[a]).0,
                    (#[trigger] now[b]).0,
                ) by {
                    assert(now[a] == pairs[a] && now[b] == pairs[b]);
                    if b < i {
                        assert(before[a] == pairs[a] && before[b] == pairs[b]);
                    } else if a < i - 1 {
                        assert(before[a] == pairs[a] && before[i - 1] == pairs[i - 1]);
                        lemma_lex_transitive(pairs[a].0, pairs[i - 1].0, pairs[i as int].0);
                    }
                }
            }
            i += 1;
        }
        assert(pairs.take(count as int) =~= pairs);
        proof {
            lemma_well_sized(entries@);
        }
        Ok(KeyStore { iroh_secret_key: IrohSecretKey(identity), entries })
    }

    /// Files `key` under its BLAKE3 digest.
    pub fn add_key(&mut self, key: SecretKey)
        ensures
            final(self)@ == old(self)@.add_key(key@),
            final(self)@.valid(),
    {
        let hash = KeyHash(blake3_digest(&key.0));
        self.insert(hash, key);
    }
}

/// Appends `part` to `out`.
fn append(out: &mut Vec<u8>, part: &[u8])
    ensures
        final(out)@ == old(out)@ + part@,
{
    out.extend_from_slice(part);
    assert(out@ =~= old(out)@ + part@);
}

/// Copies the 32 bytes that stand at offset `at` of `bytes`.
fn take32(bytes: &[u8], at: usize) -> (r: [u8; 32])
    requires
        at + 32 <= bytes@.len(),
    ensures
        r@ == bytes@.subrange(at as int, at + 32),
{
    let total: usize = bytes.len();
    let mut r = [0u8; 32];
    let mut j: usize = 0;
    while j < 32
        invariant
            j <= 32,
            at + 32 <= total == bytes@.len(),
            forall|k: int| 0 <= k < j ==> r@[k] == bytes@[at + k],
        decreases 32 - j,
    {
        r[j] = bytes[at + j];
        j += 1;
    }
    assert(r@ =~= bytes@.subrange(at as int, at + 32));
    r
}

/// A hash that sorts strictly between the pairs below `at` and those from `at`
/// on is not in the list.
proof fn lemma_lex_irreflexive_at(l: Listing, h: Seq<u8>, at: int)
    requires
        0 <= at <= l.len(),
        forall|i: int| 0 <= i < at ==> lex_lt((#[trigger] l[i]).0, h),
        forall|i: int| at <= i < l.len() ==> lex_lt(h, (#[trigger] l[i]).0),
    ensures
        !lists(l, h),
{
    crate::bytes::lemma_lex_irreflexive(h);
}

/// Entries are made of 32-byte arrays, so their list is well sized.
proof fn lemma_well_sized(entries: Seq<Entry>)
    ensures
        well_sized(listed(entries)),
{
}

} // verus!
