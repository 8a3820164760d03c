//! The canonical plaintext of a store: the identity secret, the number of
//! keys as four big-endian bytes, then each hash with its key, ascending by
//! hash.

use crate::bytes::{be_u32, be_u32_value};
use crate::listing::{well_sized, Listing};
use vstd::prelude::*;

verus! {

/// The pairs of `l` written one after another, each hash before its key.
pub open spec fn flat(l: Listing) -> Seq<u8>
    decreases l.len(),
{
    if l.len() == 0 {
        Seq::empty()
    } else {
        flat(l.drop_last()) + l.last().0 + l.last().1
    }
}

/// The plaintext that holds `identity` and the pairs of `l`.
pub open spec fn plaintext_of(identity: Seq<u8>, l: Listing) -> Seq<u8> {
    identity + be_u32(l.len() as u32) + flat(l)
}

/// The identity secret that `bytes` opens with.
pub open spec fn identity_of(bytes: Seq<u8>) -> Seq<u8> {
    bytes.subrange(0, 32)
}

/// The number of pairs that `bytes` announces.
pub open spec fn count_of(bytes: Seq<u8>) -> int {
    be_u32_value(bytes.subrange(32, 36))
}

/// The pair that stands at place `i` of `bytes`.
pub open spec fn pair_at(bytes: Seq<u8>, i: int) -> (Seq<u8>, Seq<u8>) {
    (bytes.subrange(36 + 64 * i, 68 + 64 * i), bytes.subrange(68 + 64 * i, 100 + 64 * i))
}

/// The pairs that `bytes` announces, in the order in which they stand.
pub open spec fn pairs_of(bytes: Seq<u8>) -> Listing {
    Seq::new(count_of(bytes) as nat, |i: int| pair_at(bytes, i))
}

/// Each pair of a well-sized list takes 64 bytes.
pub proof fn lemma_flat_len(l: Listing)
    requires
        well_sized(l),
    ensures
        flat(l).len() == 64 * l.len(),
    decreases l.len(),
{
    if l.len() > 0 {
        let d = l.drop_last();
        assert forall|i: int| 0 <= i < d.len() implies (#[trigger] d[i]).0.len() == 32
            && d[i].1.len() == 32 by {
            assert(d[i] == l[i]);
        }
        lemma_flat_len(d);
    }
}

/// In the flat form of a well-sized list the pair of place `i` stands at
/// offset `64 * i`.
pub proof fn lemma_flat_pair(l: Listing, i: int)
    requires
        well_sized(l),
        0 <= i < l.len(),
    ensures
        flat(l).subrange(64 * i, 64 * i + 32) == l[i].0,
        flat(l).subrange(64 * i + 32, 64 * i + 64) == l[i].1,
    decreases l.len(),
{
    let d = l.drop_last();
    assert forall|j: int| 0 <= j < d.len() implies (#[trigger] d[j]).0.len() == 32
        && d[j].1.len() == 32 by {
        assert(d[j] == l[j]);
    }
    lemma_flat_len(d);
    if i < d.len() {
        lemma_flat_pair(d, i);
        assert(d[i] == l[i]);
        assert(flat(l).subrange(64 * i, 64 * i + 32) =~= flat(d).subrange(64 * i, 64 * i + 32));
        assert(flat(l).subrange(64 * i + 32, 64 * i + 64) =~= flat(d).subrange(
            64 * i + 32,
            64 * i + 64,
        ));
    } else {
        assert(flat(l).subrange(64 * i, 64 * i + 32) =~= l[i].0);
        assert(flat(l).subrange(64 * i + 32, 64 * i + 64) =~= l[i].1);
    }
}

/// Reading a plaintext gives back the identity and the pairs it was made of.
pub proof fn lemma_plaintext_reads(identity: Seq<u8>, l: Listing)
    requires
        identity.len() == 32,
        well_sized(l),
        l.len() <= u32::MAX,
    ensures
        plaintext_of(identity, l).len() == 36 + 64 * l.len(),
        identity_of(plaintext_of(identity, l)) == identity,
        count_of(plaintext_of(identity, l)) == l.len(),
        pairs_of(plaintext_of(identity, l)) == l,
{
    let b = plaintext_of(identity, l);
    let n = l.len() as u32;
    lemma_flat_len(l);
    crate::bytes::lemma_be_u32_round_trip(n);
    assert(identity_of(b) =~= identity);
    assert(b.subrange(32, 36) =~= be_u32(n));
    assert forall|i: int| 0 <= i < l.len() implies pair_at(b, i) == l[i] by {
        lemma_flat_pair(l, i);
        assert(b.subrange(36 + 64 * i, 68 + 64 * i) =~= flat(l).subrange(64 * i, 64 * i + 32));
        assert(b.subrange(68 + 64 * i, 100 + 64 * i) =~= flat(l).subrange(
            64 * i + 32,
            64 * i + 64,
        ));
    }
    assert(pairs_of(b) =~= l);
}

/// The pairs that stand in `bytes` below place `n`, written flat, are the
/// bytes between the head and that place.
pub proof fn lemma_flat_of_pairs(bytes: Seq<u8>, n: int)
    requires
        0 <= n,
        36 + 64 * n <= bytes.len(),
    ensures
        flat(Seq::new(n as nat, |i: int| pair_at(bytes, i))) == bytes.subrange(36, 36 + 64 * n),
    decreases n,
{
    let l = Seq::new(n as nat, |i: int| pair_at(bytes, i));
    if n == 0 {
        assert(flat(l) =~= bytes.subrange(36, 36));
    } else {
        let d = Seq::new((n - 1) as nat, |i: int| pair_at(bytes, i));
        lemma_flat_of_pairs(bytes, n - 1);
        assert(l.drop_last() =~= d);
        assert(flat(l) =~= bytes.subrange(36, 36 + 64 * n));
    }
}

/// Writing out what was read from a plaintext of exactly the announced
/// length gives that plaintext.
pub proof fn lemma_plaintext_writes(bytes: Seq<u8>)
    requires
        bytes.len() >= 36,
        bytes.len() == 36 + 64 * count_of(bytes),
    ensures
        plaintext_of(identity_of(bytes), pairs_of(bytes)) == bytes,
{
    let n = count_of(bytes);
    crate::bytes::lemma_be_u32_of_value(bytes.subrange(32, 36));
    lemma_flat_of_pairs(bytes, n);
    assert(plaintext_of(identity_of(bytes), pairs_of(bytes)) =~= bytes);
}

} // verus!
