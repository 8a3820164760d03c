//! Byte strings: their lexicographic order and the big-endian form of a count.

use vstd::prelude::*;

verus! {

/// Where one byte string stands relative to another.
#[derive(Clone, Copy, Debug, PartialEq, Eq, Structural)]
pub enum Place {
    Before,
    Same,
    After,
}

/// `a` sorts before `b`, given that the two agree below index `from`: the
/// first index at which they differ decides, and a proper prefix comes first.
pub open spec fn lex_lt_from(a: Seq<u8>, b: Seq<u8>, from: int) -> bool
    decreases a.len() - from,
{
    if from < 0 || from >= b.len() {
        false
    } else if from >= a.len() {
        true
    } else if a[from] != b[from] {
        a[from] < b[from]
    } else {
        lex_lt_from(a, b, from + 1)
    }
}

/// Strict lexicographic order on byte strings.
pub open spec fn lex_lt(a: Seq<u8>, b: Seq<u8>) -> bool {
    lex_lt_from(a, b, 0)
}

proof fn lemma_irreflexive_from(a: Seq<u8>, from: int)
    ensures
        !lex_lt_from(a, a, from),
    decreases a.len() - from,
{
    if 0 <= from < a.len() {
        lemma_irreflexive_from(a, from + 1);
    }
}

proof fn lemma_transitive_from(a: Seq<u8>, b: Seq<u8>, c: Seq<u8>, from: int)
    requires
        lex_lt_from(a, b, from),
        lex_lt_from(b, c, from),
    ensures
        lex_lt_from(a, c, from),
    decreases a.len() - from,
{
    if from < a.len() && a[from] == b[from] && b[from] == c[from] {
        lemma_transitive_from(a, b, c, from + 1);
    }
}

proof fn lemma_connected_from(a: Seq<u8>, b: Seq<u8>, from: int)
    requires
        0 <= from <= a.len(),
        from <= b.len(),
        forall|j: int| 0 <= j < from ==> a[j] == b[j],
        !lex_lt_from(a, b, from),
        !lex_lt_from(b, a, from),
    ensures
        a == b,
    decreases a.len() - from,
{
    if from < a.len() && from < b.len() {
        lemma_connected_from(a, b, from + 1);
    } else {
        assert(a =~= b);
    }
}

/// No byte string sorts before itself.
pub proof fn lemma_lex_irreflexive(a: Seq<u8>)
    ensures
        !lex_lt(a, a),
{
    lemma_irreflexive_from(a, 0);
}

/// The order is transitive.
pub proof fn lemma_lex_transitive(a: Seq<u8>, b: Seq<u8>, c: Seq<u8>)
    requires
        lex_lt(a, b),
        lex_lt(b, c),
    ensures
        lex_lt(a, c),
{
    lemma_transitive_from(a, b, c, 0);
}

/// Of two different byte strings one sorts before the other.
pub proof fn lemma_lex_connected(a: Seq<u8>, b: Seq<u8>)
    requires
        !lex_lt(a, b),
        !lex_lt(b, a),
    ensures
        a == b,
{
    lemma_connected_from(a, b, 0);
}

/// Compares two byte strings lexicographically.
pub fn place_of(a: &[u8], b: &[u8]) -> (r: Place)
    ensures
        r == Place::Before <==> lex_lt(a@, b@),
        r == Place::Same <==> a@ == b@,
        r == Place::After <==> lex_lt(b@, a@),
{
    let mut i: usize = 0;
    while i < a.len() && i < b.len()
        invariant
            i <= a.len(),
            i <= b.len(),
            forall|j: int| 0 <= j < i ==> a@[j] == b@[j],
            lex_lt(a@, b@) == lex_lt_from(a@, b@, i as int),
            lex_lt(b@, a@) == lex_lt_from(b@, a@, i as int),
        decreases a.len() - i,
    {
        if a[i] < b[i] {
            return Place::Before;
        }
        if a[i] > b[i] {
            return Place::After;
        }
        i += 1;
    }
    if a.len() < b.len() {
        Place::Before
    } else if a.len() > b.len() {
        Place::After
    } else {
        assert(a@ =~= b@);
        Place::Same
    }
}

/// The four bytes of `x`, most significant first.
pub open spec fn be_u32(x: u32) -> Seq<u8> {
    seq![
        (x / 0x100_0000) as u8,
        ((x / 0x1_0000) % 0x100) as u8,
        ((x / 0x100) % 0x100) as u8,
        (x % 0x100) as u8,
    ]
}

/// The number that the first four bytes of `s` spell, most significant first.
pub open spec fn be_u32_value(s: Seq<u8>) -> int {
    s[0] * 0x100_0000 + s[1] * 0x1_0000 + s[2] * 0x100 + s[3]
}

/// Reading back the big-endian form of a number gives the number.
pub proof fn lemma_be_u32_round_trip(x: u32)
    ensures
        be_u32(x).len() == 4,
        be_u32_value(be_u32(x)) == x,
{
}

/// Writing the number that four bytes spell gives those four bytes.
pub proof fn lemma_be_u32_of_value(s: Seq<u8>)
    requires
        s.len() == 4,
    ensures
        0 <= be_u32_value(s) <= u32::MAX,
        be_u32(be_u32_value(s) as u32) == s,
{
    let x = be_u32_value(s);
    assert(0 <= x <= u32::MAX);
    assert(x / 0x100_0000 == s[0]);
    assert((x / 0x1_0000) % 0x100 == s[1]);
    assert((x / 0x100) % 0x100 == s[2]);
    assert(x % 0x100 == s[3]);
    assert(be_u32(x as u32) =~= s);
}

/// Appends the big-endian form of `x` to `out`.
pub fn push_be_u32(out: &mut Vec<u8>, x: u32)
    ensures
        final(out)@ == old(out)@ + be_u32(x),
{
    out.push((x / 0x100_0000) as u8);
    out.push(((x / 0x1_0000) % 0x100) as u8);
    out.push(((x / 0x100) % 0x100) as u8);
    out.push((x % 0x100) as u8);
    assert(out@ =~= old(out)@ + be_u32(x));
}

/// Reads the big-endian number at offset `at` of `bytes`.
pub(crate) fn read_be_u32(bytes: &[u8], at: usize) -> (x: u32)
    requires
        at + 4 <= bytes@.len(),
    ensures
        x == be_u32_value(bytes@.subrange(at as int, at + 4)),
{
    let b0: u32 = bytes[at] as u32;
    let b1: u32 = bytes[at + 1] as u32;
    let b2: u32 = bytes[at + 2] as u32;
    let b3: u32 = bytes[at + 3] as u32;
    b0 * 0x100_0000 + b1 * 0x1_0000 + b2 * 0x100 + b3
}

} // verus!
