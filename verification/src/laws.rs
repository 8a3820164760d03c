//! What holds of the store whatever keys are added to it, in whatever order.

use crate::codec::{decrypted, lemma_decrypted_plaintext_is_canonical, nonce_of, sealed_of};
use crate::crypto::{aead_opened, blake3_of};
use crate::error::StoreError;
use crate::key_store::StoreView;
use crate::listing::{as_map, ascending, lemma_empty, lemma_listing, lemma_listing_insert, listing};
use vstd::prelude::*;

verus! {

/// The store `v` after each key of `keys` has been added to it in turn.
pub open spec fn after_adding(v: StoreView, keys: Seq<Seq<u8>>) -> StoreView
    decreases keys.len(),
{
    if keys.len() == 0 {
        v
    } else {
        after_adding(v, keys.drop_last()).add_key(keys.last())
    }
}

/// Adding keys never changes the identity secret.
pub proof fn lemma_identity_is_fixed(v: StoreView, keys: Seq<Seq<u8>>)
    ensures
        after_adding(v, keys).identity == v.identity,
    decreases keys.len(),
{
    if keys.len() > 0 {
        lemma_identity_is_fixed(v, keys.drop_last());
    }
}

/// After keys have been added of which no two different ones share a hash,
/// each of them is found under its hash.
pub proof fn lemma_added_keys_are_found(v: StoreView, keys: Seq<Seq<u8>>)
    requires
        forall|i: int, j: int|
            0 <= i < keys.len() && 0 <= j < keys.len() && blake3_of(keys[i]) == blake3_of(keys[j])
                ==> keys[i] == keys[j],
    ensures
        forall|i: int|
            0 <= i < keys.len() ==> after_adding(v, keys).keys.contains_key(
                #[trigger] blake3_of(keys[i]),
            ) && after_adding(v, keys).keys[blake3_of(keys[i])] == keys[i],
    decreases keys.len(),
{
    if keys.len() > 0 {
        let rest = keys.drop_last();
        assert forall|i: int, j: int|
            0 <= i < rest.len() && 0 <= j < rest.len() && blake3_of(rest[i]) == blake3_of(
                rest[j],
            ) implies rest[i] == rest[j] by {
            assert(rest[i] == keys[i] && rest[j] == keys[j]);
        }
        lemma_added_keys_are_found(v, rest);
        assert forall|i: int| 0 <= i < keys.len() implies after_adding(v, keys).keys.contains_key(
            #[trigger] blake3_of(keys[i]),
        ) && after_adding(v, keys).keys[blake3_of(keys[i])] == keys[i] by {
            if i < rest.len() {
                assert(rest[i] == keys[i]);
                assert(after_adding(v, rest).keys.contains_key(blake3_of(rest[i])));
            }
        }
    }
}

/// Adding a key a second time changes nothing: the store, and with it the
/// plaintext of its file, is what it was after the first time.
pub proof fn lemma_add_key_is_idempotent(v: StoreView, key: Seq<u8>)
    ensures
        v.add_key(key).add_key(key) == v.add_key(key),
        v.add_key(key).add_key(key).plaintext() == v.add_key(key).plaintext(),
{
    assert(v.add_key(key).add_key(key).keys =~= v.add_key(key).keys);
}

/// The order in which two keys are added does not show in the store, nor in
/// the plaintext of its file, unless the two are different keys with one hash.
pub proof fn lemma_add_key_order(v: StoreView, a: Seq<u8>, b: Seq<u8>)
    requires
        blake3_of(a) == blake3_of(b) ==> a == b,
    ensures
        v.add_key(a).add_key(b) == v.add_key(b).add_key(a),
        v.add_key(a).add_key(b).plaintext() == v.add_key(b).add_key(a).plaintext(),
{
    assert(v.add_key(a).add_key(b).keys =~= v.add_key(b).add_key(a).keys);
}

/// A store that began empty holds nothing but what was added: every hash in
/// it is the hash of one of the keys.
pub proof fn lemma_only_added_keys_are_found(identity: Seq<u8>, keys: Seq<Seq<u8>>, h: Seq<u8>)
    requires
        after_adding(StoreView::empty(identity), keys).keys.contains_key(h),
    ensures
        exists|i: int| 0 <= i < keys.len() && h == blake3_of(#[trigger] keys[i]),
    decreases keys.len(),
{
    if keys.len() > 0 {
        let rest = keys.drop_last();
        if h == blake3_of(keys.last()) {
            assert(h == blake3_of(keys[keys.len() - 1]));
        } else {
            lemma_only_added_keys_are_found(identity, rest, h);
            let i = choose|i: int| 0 <= i < rest.len() && h == blake3_of(#[trigger] rest[i]);
            assert(rest[i] == keys[i]);
        }
    }
}

/// A store that began empty and to which keys of pairwise different hashes
/// were added holds exactly as many keys as were added.
pub proof fn lemma_count_of_added_keys(identity: Seq<u8>, keys: Seq<Seq<u8>>)
    requires
        forall|i: int, j: int|
            0 <= i < j < keys.len() ==> blake3_of(keys[i]) != blake3_of(keys[j]),
    ensures
        after_adding(StoreView::empty(identity), keys).count() == keys.len(),
        ascending(listing(after_adding(StoreView::empty(identity), keys).keys)),
        as_map(listing(after_adding(StoreView::empty(identity), keys).keys)) == after_adding(
            StoreView::empty(identity),
            keys,
        ).keys,
    decreases keys.len(),
{
    if keys.len() == 0 {
        lemma_empty();
        lemma_listing(Seq::empty());
    } else {
        let rest = keys.drop_last();
        let before = after_adding(StoreView::empty(identity), rest);
        let h = blake3_of(keys.last());
        assert forall|i: int, j: int| 0 <= i < j < rest.len() implies blake3_of(rest[i])
            != blake3_of(rest[j]) by {
            assert(rest[i] == keys[i] && rest[j] == keys[j]);
        }
        lemma_count_of_added_keys(identity, rest);
        if before.keys.contains_key(h) {
            lemma_only_added_keys_are_found(identity, rest, h);
            let i = choose|i: int| 0 <= i < rest.len() && h == blake3_of(#[trigger] rest[i]);
            assert(rest[i] == keys[i]);
            assert(blake3_of(keys[i]) != blake3_of(keys[keys.len() - 1]));
        }
        lemma_listing_insert(listing(before.keys), h, keys.last());
    }
}

/// Once a further key is added, it is found under its hash, and a key that
/// was found before still is, unless the two are different keys with one hash.
pub proof fn lemma_earlier_key_stays(v: StoreView, earlier: Seq<u8>, key: Seq<u8>)
    requires
        v.keys.contains_key(blake3_of(earlier)),
        v.keys[blake3_of(earlier)] == earlier,
        blake3_of(earlier) == blake3_of(key) ==> earlier == key,
    ensures
        v.add_key(key).keys.contains_key(blake3_of(key)),
        v.add_key(key).keys[blake3_of(key)] == key,
        v.add_key(key).keys.contains_key(blake3_of(earlier)),
        v.add_key(key).keys[blake3_of(earlier)] == earlier,
{
}

/// A file that reads as the store to which keys were added, no two different
/// ones of one hash, reads as a store with the same identity in which each of
/// those keys is found under its hash.
pub proof fn lemma_reload_finds_added_keys(
    master_key: Seq<u8>,
    identity: Seq<u8>,
    keys: Seq<Seq<u8>>,
    image: Seq<u8>,
)
    requires
        forall|i: int, j: int|
            0 <= i < keys.len() && 0 <= j < keys.len() && blake3_of(keys[i]) == blake3_of(keys[j])
                ==> keys[i] == keys[j],
        decrypted(master_key, image) == Ok::<StoreView, StoreError>(
            after_adding(StoreView::empty(identity), keys),
        ),
    ensures
        decrypted(master_key, image) is Ok,
        decrypted(master_key, image)->Ok_0.identity == identity,
        forall|i: int|
            0 <= i < keys.len() ==> decrypted(master_key, image)->Ok_0.keys.contains_key(
                #[trigger] blake3_of(keys[i]),
            ) && decrypted(master_key, image)->Ok_0.keys[blake3_of(keys[i])] == keys[i],
{
    lemma_identity_is_fixed(StoreView::empty(identity), keys);
    lemma_added_keys_are_found(StoreView::empty(identity), keys);
}

/// Two files that read as the stores to which two keys were added in either
/// order hold one plaintext, unless the two are different keys with one hash.
pub proof fn lemma_either_order_one_plaintext(
    master_key: Seq<u8>,
    v: StoreView,
    a: Seq<u8>,
    b: Seq<u8>,
    first: Seq<u8>,
    second: Seq<u8>,
)
    requires
        blake3_of(a) == blake3_of(b) ==> a == b,
        decrypted(master_key, first) == Ok::<StoreView, StoreError>(v.add_key(a).add_key(b)),
        decrypted(master_key, second) == Ok::<StoreView, StoreError>(v.add_key(b).add_key(a)),
    ensures
        aead_opened(master_key, nonce_of(first), sealed_of(first)) == aead_opened(
            master_key,
            nonce_of(second),
            sealed_of(second),
        ),
{
    lemma_add_key_order(v, a, b);
    lemma_decrypted_plaintext_is_canonical(master_key, first);
    lemma_decrypted_plaintext_is_canonical(master_key, second);
}

} // verus!
