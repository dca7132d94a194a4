//! Case-insensitive ordering of file names: ASCII lower case of bytes and
//! the lexicographic order of byte strings, as `OsStr` orders names on Unix.

use vstd::prelude::*;

verus! {

/// ASCII lower case of one byte; other bytes are unchanged.
pub open spec fn ascii_lower_byte(b: u8) -> u8 {
    if 65 <= b && b <= 90 {
        (b + 32) as u8
    } else {
        b
    }
}

/// The ASCII lower case of a byte string: the key by which file names are
/// ordered.
pub open spec fn sort_key(name: Seq<u8>) -> Seq<u8> {
    name.map_values(|b: u8| ascii_lower_byte(b))
}

/// Strict lexicographic order of byte strings: the first differing byte
/// decides, and a proper prefix comes first.
pub open spec fn bytes_lt(a: Seq<u8>, b: Seq<u8>) -> bool
    decreases a.len(),
{
    if a.len() == 0 {
        b.len() > 0
    } else if b.len() == 0 {
        false
    } else if a[0] != b[0] {
        a[0] < b[0]
    } else {
        bytes_lt(a.drop_first(), b.drop_first())
    }
}

/// No byte string comes before itself.
pub proof fn lemma_bytes_lt_irreflexive(a: Seq<u8>)
    ensures
        !bytes_lt(a, a),
    decreases a.len(),
{
    if a.len() > 0 {
        lemma_bytes_lt_irreflexive(a.drop_first());
    }
}

/// Of two byte strings, at most one comes before the other.
pub proof fn lemma_bytes_lt_asymmetric(a: Seq<u8>, b: Seq<u8>)
    ensures
        bytes_lt(a, b) ==> !bytes_lt(b, a),
    decreases a.len(),
{
    if a.len() > 0 && b.len() > 0 && a[0] == b[0] {
        lemma_bytes_lt_asymmetric(a.drop_first(), b.drop_first());
    }
}

/// Of two different byte strings, one comes before the other.
pub proof fn lemma_bytes_lt_total(a: Seq<u8>, b: Seq<u8>)
    ensures
        a != b ==> bytes_lt(a, b) || bytes_lt(b, a),
    decreases a.len(),
{
    if a.len() > 0 && b.len() > 0 && a[0] == b[0] {
        lemma_bytes_lt_total(a.drop_first(), b.drop_first());
        if a.drop_first() == b.drop_first() {
            assert(a =~= seq![a[0]] + a.drop_first());
            assert(b =~= seq![b[0]] + b.drop_first());
        }
    } else if a.len() == 0 && b.len() == 0 {
        assert(a =~= b);
    }
}

/// The order is transitive.
pub proof fn lemma_bytes_lt_transitive(a: Seq<u8>, b: Seq<u8>, c: Seq<u8>)
    requires
        bytes_lt(a, b),
        bytes_lt(b, c),
    ensures
        bytes_lt(a, c),
    decreases a.len(),
{
    if a.len() > 0 && b.len() > 0 && c.len() > 0 && a[0] == b[0] && b[0] == c[0] {
        lemma_bytes_lt_transitive(a.drop_first(), b.drop_first(), c.drop_first());
    }
}

/// Whether `a` comes strictly before `b` in lexicographic byte order.
pub fn bytes_less(a: &[u8], b: &[u8]) -> (r: bool)
    ensures
        r == bytes_lt(a@, b@),
{
    let mut i: usize = 0;
    assert(a@.skip(0) =~= a@);
    assert(b@.skip(0) =~= b@);
    while i < a.len() && i < b.len()
        invariant
            i <= a@.len(),
            i <= b@.len(),
            bytes_lt(a@, b@) == bytes_lt(a@.skip(i as int), b@.skip(i as int)),
        decreases a@.len() - i,
    {
        if a[i] != b[i] {
            return a[i] < b[i];
        }
        assert(a@.skip(i as int).drop_first() =~= a@.skip(i + 1));
        assert(b@.skip(i as int).drop_first() =~= b@.skip(i + 1));
        i = i + 1;
    }
    i < b.len()
}

/// Whether two byte strings are equal.
pub fn bytes_equal(a: &[u8], b: &[u8]) -> (r: bool)
    ensures
        r == (a@ == b@),
{
    if a.len() != b.len() {
        return false;
    }
    let mut i: usize = 0;
    while i < a.len()
        invariant
            a@.len() == b@.len(),
            i <= a@.len(),
            forall|j: int| 0 <= j < i ==> a@[j] == b@[j],
        decreases a@.len() - i,
    {
        if a[i] != b[i] {
            return false;
        }
        i = i + 1;
    }
    assert(a@ =~= b@);
    true
}

/// The sort key of `name`: its ASCII lower case.
pub fn lowercase_key(name: &[u8]) -> (key: Vec<u8>)
    ensures
        key@ == sort_key(name@),
{
    let mut key: Vec<u8> = Vec::new();
    let mut i: usize = 0;
    while i < name.len()
        invariant
            i <= name@.len(),
            key@ == sort_key(name@.take(i as int)),
        decreases name@.len() - i,
    {
        let b = name[i];
        let lower: u8 = if 65 <= b && b <= 90 { b + 32 } else { b };
        key.push(lower);
        assert(sort_key(name@.take(i + 1)) =~= sort_key(name@.take(i as int)).push(lower));
        i = i + 1;
    }
    assert(name@.take(name@.len() as int) =~= name@);
    key
}

/// The key of a file name is the whole name in ASCII lower case: it has
/// the name's length, and each byte is the name's byte at that position with
/// `A`-`Z` mapped to `a`-`z` and every other byte kept. So two names that
/// differ only in the case of their ASCII letters have the same key.
pub proof fn law_sort_key_lowercases_every_byte(name: Seq<u8>, other: Seq<u8>)
    ensures
        sort_key(name).len() == name.len(),
        forall|i: int|
            0 <= i < name.len() ==> #[trigger] sort_key(name)[i] == if 65 <= name[i] <= 90 {
                name[i] + 32
            } else {
                name[i] as int
            },
        (name.len() == other.len() && forall|i: int|
            0 <= i < name.len() ==> (name[i] == other[i] || name[i] + 32 == other[i]
                && 65 <= name[i] <= 90 || other[i] + 32 == name[i] && 65 <= other[i] <= 90))
            ==> sort_key(name) == sort_key(other),
{
    if name.len() == other.len() && forall|i: int|
        0 <= i < name.len() ==> (name[i] == other[i] || name[i] + 32 == other[i] && 65 <= name[i]
            <= 90 || other[i] + 32 == name[i] && 65 <= other[i] <= 90) {
        assert(sort_key(name) =~= sort_key(other));
    }
}

} // verus!
