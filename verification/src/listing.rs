//! The mathematical model of the key mapping: a map from key hash to key, and
//! the one list, ascending by hash, that spells it out.

use crate::bytes::{lemma_lex_connected, lemma_lex_irreflexive, lemma_lex_transitive, lex_lt};
use vstd::prelude::*;

verus! {

/// Pairs of a key hash and the key filed under it.
pub type Listing = Seq<(Seq<u8>, Seq<u8>)>;

/// The hashes of `l` ascend strictly, so none occurs twice.
pub open spec fn ascending(l: Listing) -> bool {
    forall|i: int, j: int|
        #![trigger l[i], l[j]]
        0 <= i < j < l.len() ==> lex_lt(l[i].0, l[j].0)
}

/// Every hash and every key of `l` is 32 bytes long.
pub open spec fn well_sized(l: Listing) -> bool {
    forall|i: int| 0 <= i < l.len() ==> (#[trigger] l[i]).0.len() == 32 && l[i].1.len() == 32
}

/// Some pair of `l` has the hash `h`.
pub open spec fn lists(l: Listing, h: Seq<u8>) -> bool {
    exists|i: int| 0 <= i < l.len() && (#[trigger] l[i]).0 == h
}

/// An index in `l` of a pair with the hash `h`, where there is one.
pub open spec fn place(l: Listing, h: Seq<u8>) -> int {
    choose|i: int| 0 <= i < l.len() && (#[trigger] l[i]).0 == h
}

/// The mapping that `l` spells out.
pub open spec fn as_map(l: Listing) -> Map<Seq<u8>, Seq<u8>> {
    Map::new(|h: Seq<u8>| lists(l, h), |h: Seq<u8>| l[place(l, h)].1)
}

/// The ascending list of the mapping `m`.
pub open spec fn listing(m: Map<Seq<u8>, Seq<u8>>) -> Listing {
    choose|l: Listing| ascending(l) && as_map(l) == m
}

/// In an ascending list each hash has one place, and the mapping has the key
/// that stands there.
pub proof fn lemma_place(l: Listing, i: int)
    requires
        ascending(l),
        0 <= i < l.len(),
    ensures
        lists(l, l[i].0),
        place(l, l[i].0) == i,
        as_map(l).contains_key(l[i].0),
        as_map(l)[l[i].0] == l[i].1,
{
    let h = l[i].0;
    assert(lists(l, h));
    let j = place(l, h);
    lemma_lex_irreflexive(h);
    if j < i {
        assert(lex_lt(l[j].0, l[i].0));
    } else if i < j {
        assert(lex_lt(l[i].0, l[j].0));
    }
}

/// The empty list spells out the empty mapping.
pub proof fn lemma_empty()
    ensures
        ascending(Seq::<(Seq<u8>, Seq<u8>)>::empty()),
        well_sized(Seq::<(Seq<u8>, Seq<u8>)>::empty()),
        as_map(Seq::<(Seq<u8>, Seq<u8>)>::empty()) == Map::<Seq<u8>, Seq<u8>>::empty(),
{
    assert(as_map(Seq::<(Seq<u8>, Seq<u8>)>::empty()) =~= Map::<Seq<u8>, Seq<u8>>::empty());
}

/// Putting a new hash at its place in an ascending list keeps the list
/// ascending and adds the pair to the mapping.
pub proof fn lemma_insert_fresh(l: Listing, at: int, h: Seq<u8>, k: Seq<u8>)
    requires
        ascending(l),
        0 <= at <= l.len(),
        forall|i: int| 0 <= i < at ==> lex_lt((#[trigger] l[i]).0, h),
        forall|i: int| at <= i < l.len() ==> lex_lt(h, (#[trigger] l[i]).0),
    ensures
        ascending(l.insert(at, (h, k))),
        as_map(l.insert(at, (h, k))) == as_map(l).insert(h, k),
{
    let n = l.insert(at, (h, k));
    assert forall|i: int, j: int| 0 <= i < j < n.len() implies lex_lt(
        (#[trigger] n[i]).0,
        (#[trigger] n[j]).0,
    ) by {
        if j < at {
            assert(n[i] == l[i] && n[j] == l[j]);
        } else if j == at {
            assert(n[i] == l[i]);
        } else if i < at {
            assert(n[i] == l[i] && n[j] == l[j - 1]);
            lemma_lex_transitive(l[i].0, h, l[j - 1].0);
        } else if i == at {
            assert(n[j] == l[j - 1]);
        } else {
            assert(n[i] == l[i - 1] && n[j] == l[j - 1]);
        }
    }
    assert forall|x: Seq<u8>| lists(n, x) <==> (lists(l, x) || x == h) by {
        if lists(n, x) {
            let i = place(n, x);
            if i < at {
                assert(l[i].0 == x);
            } else if i > at {
                assert(l[i - 1].0 == x);
            }
        }
        if lists(l, x) {
            let i = place(l, x);
            if i < at {
                assert(n[i].0 == x);
            } else {
                assert(n[i + 1].0 == x);
            }
        }
        if x == h {
            assert(n[at].0 == x);
        }
    }
    assert forall|x: Seq<u8>| lists(n, x) implies as_map(n)[x] == as_map(l).insert(h, k)[x] by {
        if x == h {
            lemma_place(n, at);
        } else {
            let i = place(l, x);
            let moved = if i < at {
                i
            } else {
                i + 1
            };
            assert(n[moved] == l[i]);
            lemma_place(n, moved);
        }
    }
    assert(as_map(n) =~= as_map(l).insert(h, k));
}

/// Replacing the key at one place of an ascending list keeps the list
/// ascending and replaces the key in the mapping.
pub proof fn lemma_replace(l: Listing, at: int, k: Seq<u8>)
    requires
        ascending(l),
        0 <= at < l.len(),
    ensures
        ascending(l.update(at, (l[at].0, k))),
        as_map(l.update(at, (l[at].0, k))) == as_map(l).insert(l[at].0, k),
{
    let h = l[at].0;
    let n = l.update(at, (h, k));
    assert forall|i: int, j: int| 0 <= i < j < n.len() implies lex_lt(
        (#[trigger] n[i]).0,
        (#[trigger] n[j]).0,
    ) by {
        assert(n[i].0 == l[i].0 && n[j].0 == l[j].0);
    }
    assert forall|x: Seq<u8>| lists(n, x) <==> (lists(l, x) || x == h) by {
        if lists(n, x) {
            let i = place(n, x);
            assert(l[i].0 == x);
        }
        if lists(l, x) {
            let i = place(l, x);
            assert(n[i].0 == x);
        }
        if x == h {
            assert(n[at].0 == x);
        }
    }
    assert forall|x: Seq<u8>| lists(n, x) implies as_map(n)[x] == as_map(l).insert(h, k)[x] by {
        if x == h {
            lemma_place(n, at);
        } else {
            let i = place(l, x);
            assert(n[i] == l[i]);
            lemma_place(n, i);
        }
    }
    assert(as_map(n) =~= as_map(l).insert(h, k));
}

/// Without its last pair an ascending list is ascending, and spells out the
/// mapping without the last hash.
pub proof fn lemma_drop_last(l: Listing)
    requires
        ascending(l),
        l.len() > 0,
    ensures
        ascending(l.drop_last()),
        as_map(l.drop_last()) == as_map(l).remove(l.last().0),
{
    let d = l.drop_last();
    let h = l.last().0;
    assert forall|i: int, j: int| 0 <= i < j < d.len() implies lex_lt(
        (#[trigger] d[i]).0,
        (#[trigger] d[j]).0,
    ) by {
        assert(d[i] == l[i] && d[j] == l[j]);
    }
    assert forall|x: Seq<u8>| lists(d, x) <==> (lists(l, x) && x != h) by {
        if lists(d, x) {
            let i = place(d, x);
            assert(l[i].0 == x);
            assert(lex_lt(l[i].0, l[l.len() - 1].0));
            lemma_lex_irreflexive(h);
        }
        if lists(l, x) && x != h {
            let i = place(l, x);
            assert(d[i].0 == x);
        }
    }
    assert forall|x: Seq<u8>| lists(d, x) implies as_map(d)[x] == as_map(l)[x] by {
        let i = place(d, x);
        assert(d[i] == l[i]);
        lemma_place(l, i);
    }
    assert(as_map(d) =~= as_map(l).remove(h));
}

/// A mapping has at most one ascending list.
pub proof fn lemma_ascending_unique(a: Listing, b: Listing)
    requires
        ascending(a),
        ascending(b),
        as_map(a) == as_map(b),
    ensures
        a == b,
    decreases a.len(),
{
    if a.len() == 0 {
        if b.len() > 0 {
            lemma_place(b, 0);
            assert(lists(a, b[0].0));
        }
        assert(a =~= b);
    } else {
        let last_a = a.len() - 1;
        lemma_place(a, last_a);
        let h = a[last_a].0;
        assert(lists(b, h));
        let j = place(b, h);
        let last_b = b.len() - 1;
        lemma_place(b, last_b);
        assert(lists(a, b[last_b].0));
        let i = place(a, b[last_b].0);
        if j < last_b {
            assert(lex_lt(b[j].0, b[last_b].0));
            if i < last_a {
                assert(lex_lt(a[i].0, a[last_a].0));
                lemma_lex_transitive(h, b[last_b].0, h);
            }
            lemma_lex_irreflexive(h);
        }
        lemma_place(b, j);
        lemma_drop_last(a);
        lemma_drop_last(b);
        lemma_ascending_unique(a.drop_last(), b.drop_last());
        assert(a =~= a.drop_last().push(a.last()));
        assert(b =~= b.drop_last().push(b.last()));
    }
}

/// The ascending list of the mapping that an ascending list spells out is
/// that list.
pub proof fn lemma_listing(l: Listing)
    requires
        ascending(l),
    ensures
        listing(as_map(l)) == l,
{
    let c = listing(as_map(l));
    assert(ascending(c) && as_map(c) == as_map(l));
    lemma_ascending_unique(c, l);
}

/// Where a hash that an ascending list lacks would have to stand: behind
/// every smaller hash and before every larger one.
pub proof fn lemma_gap(l: Listing, h: Seq<u8>) -> (at: int)
    requires
        ascending(l),
        !lists(l, h),
    ensures
        0 <= at <= l.len(),
        forall|i: int| 0 <= i < at ==> lex_lt((#[trigger] l[i]).0, h),
        forall|i: int| at <= i < l.len() ==> lex_lt(h, (#[trigger] l[i]).0),
    decreases l.len(),
{
    if l.len() == 0 {
        0
    } else {
        let last = l.len() - 1;
        if lex_lt(l[last].0, h) {
            assert forall|i: int| 0 <= i < l.len() implies lex_lt((#[trigger] l[i]).0, h) by {
                if i < last {
                    assert(lex_lt(l[i].0, l[last].0));
                    lemma_lex_transitive(l[i].0, l[last].0, h);
                }
            }
            l.len() as int
        } else {
            assert(l[last].0 != h);
            if !lex_lt(h, l[last].0) {
                lemma_lex_connected(h, l[last].0);
            }
            let d = l.drop_last();
            lemma_drop_last(l);
            assert(!lists(d, h)) by {
                if lists(d, h) {
                    let i = place(d, h);
                    assert(l[i].0 == h);
                }
            }
            let at = lemma_gap(d, h);
            assert forall|i: int| 0 <= i < at implies lex_lt((#[trigger] l[i]).0, h) by {
                assert(d[i] == l[i]);
            }
            assert forall|i: int| at <= i < l.len() implies lex_lt(h, (#[trigger] l[i]).0) by {
                if i < last {
                    assert(d[i] == l[i]);
                }
            }
            at
        }
    }
}

/// Filing a key under a hash lengthens the ascending list of a mapping by
/// one where the hash is new, and leaves its length where it is not.
pub proof fn lemma_listing_insert(l: Listing, h: Seq<u8>, k: Seq<u8>)
    requires
        ascending(l),
    ensures
        ascending(listing(as_map(l).insert(h, k))),
        as_map(listing(as_map(l).insert(h, k))) == as_map(l).insert(h, k),
        listing(as_map(l).insert(h, k)).len() == if as_map(l).contains_key(h) {
            l.len()
        } else {
            l.len() + 1
        },
{
    if lists(l, h) {
        let at = place(l, h);
        lemma_replace(l, at, k);
        lemma_listing(l.update(at, (h, k)));
    } else {
        let at = lemma_gap(l, h);
        lemma_insert_fresh(l, at, h, k);
        lemma_listing(l.insert(at, (h, k)));
    }
}

} // verus!
