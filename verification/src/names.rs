//! Names as keys: when two texts are the same name, which of two names
//! comes first, and lists in which no name occurs twice.

use vstd::prelude::*;
use vstd::string::*;
use vstd::utf8::*;

verus! {

/// Whether the bytes `a` come strictly before the bytes `b` in dictionary
/// order: at the first place where they differ `a` has the smaller byte, or
/// `a` ends there and `b` goes on.
pub open spec fn bytes_before(a: Seq<u8>, b: Seq<u8>) -> bool
    decreases a.len(),
{
    if b.len() == 0 {
        false
    } else if a.len() == 0 {
        true
    } else if a[0] != b[0] {
        a[0] < b[0]
    } else {
        bytes_before(a.drop_first(), b.drop_first())
    }
}

/// Whether the name `a` sorts strictly before the name `b`: the order of
/// their UTF-8 encodings, byte by byte.
pub open spec fn name_before(a: Seq<char>, b: Seq<char>) -> bool {
    bytes_before(encode_utf8(a), encode_utf8(b))
}

/// Nothing comes before itself.
pub proof fn lemma_bytes_before_irreflexive(a: Seq<u8>)
    ensures
        !bytes_before(a, a),
    decreases a.len(),
{
    if a.len() > 0 {
        lemma_bytes_before_irreflexive(a.drop_first());
    }
}

/// Of two byte strings at most one comes before the other.
pub proof fn lemma_bytes_before_asymmetric(a: Seq<u8>, b: Seq<u8>)
    requires
        bytes_before(a, b),
    ensures
        !bytes_before(b, a),
    decreases a.len(),
{
    if a.len() > 0 && b.len() > 0 && a[0] == b[0] {
        lemma_bytes_before_asymmetric(a.drop_first(), b.drop_first());
    }
}

/// The order is transitive.
pub proof fn lemma_bytes_before_transitive(a: Seq<u8>, b: Seq<u8>, c: Seq<u8>)
    requires
        bytes_before(a, b),
        bytes_before(b, c),
    ensures
        bytes_before(a, c),
    decreases a.len(),
{
    if a.len() > 0 && b.len() > 0 && c.len() > 0 && a[0] == b[0] && b[0] == c[0] {
        lemma_bytes_before_transitive(a.drop_first(), b.drop_first(), c.drop_first());
    }
}

/// Two different byte strings are ordered one way or the other.
pub proof fn lemma_bytes_before_total(a: Seq<u8>, b: Seq<u8>)
    requires
        a != b,
    ensures
        bytes_before(a, b) || bytes_before(b, a),
    decreases a.len(),
{
    if a.len() == 0 {
        assert(b.len() > 0) by {
            if b.len() == 0 {
                assert(a =~= b);
            }
        }
    } else if b.len() == 0 {
    } else if a[0] == b[0] {
        assert(a.drop_first() != b.drop_first()) by {
            if a.drop_first() == b.drop_first() {
                assert(a.drop_first().len() == a.len() - 1);
                assert(b.drop_first().len() == b.len() - 1);
                assert forall|i: int| 0 <= i < a.len() implies a[i] == b[i] by {
                    if i > 0 {
                        assert(a[i] == a.drop_first()[i - 1]);
                        assert(b[i] == b.drop_first()[i - 1]);
                    }
                }
                assert(a =~= b);
            }
        }
        lemma_bytes_before_total(a.drop_first(), b.drop_first());
    }
}

/// Texts with the same encoding are the same text.
pub proof fn lemma_encoding_injective(a: Seq<char>, b: Seq<char>)
    requires
        encode_utf8(a) == encode_utf8(b),
    ensures
        a == b,
{
    encode_utf8_decode_utf8(a);
    encode_utf8_decode_utf8(b);
}

/// `name_before` is a strict total order on names.
pub proof fn lemma_name_order(a: Seq<char>, b: Seq<char>, c: Seq<char>)
    ensures
        !name_before(a, a),
        name_before(a, b) ==> !name_before(b, a),
        name_before(a, b) && name_before(b, c) ==> name_before(a, c),
        a != b ==> name_before(a, b) || name_before(b, a),
{
    lemma_bytes_before_irreflexive(encode_utf8(a));
    if name_before(a, b) {
        lemma_bytes_before_asymmetric(encode_utf8(a), encode_utf8(b));
        if name_before(b, c) {
            lemma_bytes_before_transitive(encode_utf8(a), encode_utf8(b), encode_utf8(c));
        }
    }
    if a != b {
        if encode_utf8(a) == encode_utf8(b) {
            lemma_encoding_injective(a, b);
        }
        lemma_bytes_before_total(encode_utf8(a), encode_utf8(b));
    }
}

/// Whether `a` and `b` are the same text.
pub fn same_name(a: &str, b: &str) -> (r: bool)
    ensures
        r == (a@ == b@),
{
    let x = a.as_bytes();
    let y = b.as_bytes();
    if x.len() != y.len() {
        return false;
    }
    let mut i: usize = 0;
    while i < x.len()
        invariant
            i <= x.len(),
            x.len() == y.len(),
            x@ == encode_utf8(a@),
            y@ == encode_utf8(b@),
            forall|j: int| 0 <= j < i ==> x@[j] == y@[j],
        decreases x.len() - i,
    {
        if x[i] != y[i] {
            return false;
        }
        i += 1;
    }
    proof {
        assert(x@ =~= y@);
        lemma_encoding_injective(a@, b@);
    }
    true
}

/// Whether the name `a` sorts strictly before the name `b`.
pub fn comes_before(a: &str, b: &str) -> (r: bool)
    ensures
        r == name_before(a@, b@),
{
    let x = a.as_bytes();
    let y = b.as_bytes();
    let mut i: usize = 0;
    assert(x@.skip(0) =~= x@ && y@.skip(0) =~= y@);
    while i < x.len() && i < y.len()
        invariant
            i <= x.len(),
            i <= y.len(),
            x@ == encode_utf8(a@),
            y@ == encode_utf8(b@),
            bytes_before(x@, y@) == bytes_before(x@.skip(i as int), y@.skip(i as int)),
        decreases x.len() - i,
    {
        proof {
            assert(x@.skip(i as int).drop_first() =~= x@.skip(i + 1));
            assert(y@.skip(i as int).drop_first() =~= y@.skip(i + 1));
            assert(x@.skip(i as int)[0] == x@[i as int]);
            assert(y@.skip(i as int)[0] == y@[i as int]);
        }
        if x[i] != y[i] {
            return x[i] < y[i];
        }
        i += 1;
    }
    i < y.len()
}

/// No name occurs twice in `names`.
pub open spec fn distinct_names(names: Seq<Seq<char>>) -> bool {
    forall|i: int, j: int| 0 <= i < j < names.len() ==> names[i] != names[j]
}

/// `name` occurs in `names`.
pub open spec fn has_name(names: Seq<Seq<char>>, name: Seq<char>) -> bool {
    exists|i: int| 0 <= i < names.len() && names[i] == name
}

/// A place of `name` in `names`, if it occurs there; among distinct names,
/// its one place.
pub open spec fn position_of(names: Seq<Seq<char>>, name: Seq<char>) -> Option<int> {
    if has_name(names, name) {
        Some(choose|i: int| 0 <= i < names.len() && names[i] == name)
    } else {
        None
    }
}

/// Among distinct names, the place where a name is found is its position.
pub proof fn lemma_position_unique(names: Seq<Seq<char>>, name: Seq<char>, i: int)
    requires
        distinct_names(names),
        0 <= i < names.len(),
        names[i] == name,
    ensures
        position_of(names, name) == Some(i),
{
    let j = choose|j: int| 0 <= j < names.len() && names[j] == name;
    if i < j {
        assert(names[i] != names[j]);
    } else if j < i {
        assert(names[j] != names[i]);
    }
}

/// A position that `position_of` gives lies in `names` and holds `name`.
pub proof fn lemma_position_found(names: Seq<Seq<char>>, name: Seq<char>)
    ensures
        match position_of(names, name) {
            Some(i) => 0 <= i < names.len() && names[i] == name,
            None => forall|i: int| 0 <= i < names.len() ==> names[i] != name,
        },
{
}

/// Distinct names stay distinct when a new one joins them.
pub proof fn lemma_distinct_push(names: Seq<Seq<char>>, name: Seq<char>)
    requires
        distinct_names(names),
        !has_name(names, name),
    ensures
        distinct_names(names.push(name)),
{
    let longer = names.push(name);
    assert forall|i: int, j: int| 0 <= i < j < longer.len() implies longer[i] != longer[j] by {
        if j == names.len() {
            assert(names[i] != name);
        } else {
            assert(names[i] != names[j]);
        }
    }
}

/// Distinct names stay distinct when one leaves them, and the one that left
/// is no longer among them.
pub proof fn lemma_distinct_remove(names: Seq<Seq<char>>, i: int)
    requires
        distinct_names(names),
        0 <= i < names.len(),
    ensures
        distinct_names(names.remove(i)),
        !has_name(names.remove(i), names[i]),
{
    let shorter = names.remove(i);
    assert forall|a: int| 0 <= a < shorter.len() implies shorter[a] == names[if a < i {
        a
    } else {
        a + 1
    }] by {}
    assert forall|a: int, b: int| 0 <= a < b < shorter.len() implies shorter[a] != shorter[b] by {
        let x = if a < i { a } else { a + 1 };
        let y = if b < i { b } else { b + 1 };
        assert(names[x] != names[y]);
    }
    assert forall|a: int| 0 <= a < shorter.len() implies shorter[a] != names[i] by {
        let x = if a < i { a } else { a + 1 };
        if x < i {
            assert(names[x] != names[i]);
        } else {
            assert(names[i] != names[x]);
        }
    }
}

} // verus!
