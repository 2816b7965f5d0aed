//! Sorting of record collections: a total order on each record kind and an
//! insertion sort proved to produce an ordered permutation.
use crate::business_requirement::BusinessRequirement;
use crate::business_requirement_id::{
    lemma_seq_u8_le_total, lemma_seq_u8_le_trans, seq_u8_le,
};
use crate::contact::Contact;
use crate::known_gap::KnownGap;
use crate::persona::Persona;
use crate::term::Term;
use vstd::multiset::Multiset;
use vstd::prelude::*;

verus! {

/// Lexicographic comparison of character sequences: the order of strings
/// compared character by character, a prefix first.
pub open spec fn seq_char_le(a: Seq<char>, b: Seq<char>) -> bool
    decreases a.len(),
{
    if a.len() == 0 {
        true
    } else if b.len() == 0 {
        false
    } else if a[0] < b[0] {
        true
    } else if a[0] > b[0] {
        false
    } else {
        seq_char_le(a.drop_first(), b.drop_first())
    }
}

/// Any two character sequences are ordered one way or the other.
pub proof fn lemma_seq_char_le_total(a: Seq<char>, b: Seq<char>)
    ensures
        seq_char_le(a, b) || seq_char_le(b, a),
    decreases a.len(),
{
    if a.len() > 0 && b.len() > 0 && a[0] == b[0] {
        lemma_seq_char_le_total(a.drop_first(), b.drop_first());
    }
}

/// The character-sequence order is transitive.
pub proof fn lemma_seq_char_le_trans(a: Seq<char>, b: Seq<char>, c: Seq<char>)
    requires
        seq_char_le(a, b),
        seq_char_le(b, c),
    ensures
        seq_char_le(a, c),
    decreases a.len(),
{
    if a.len() > 0 && b.len() > 0 && c.len() > 0 && a[0] == b[0] && b[0] == c[0] {
        lemma_seq_char_le_trans(a.drop_first(), b.drop_first(), c.drop_first());
    }
}

/// Compare two strings in the character-sequence order.
#[verifier::loop_isolation(false)]
pub fn str_le(a: &str, b: &str) -> (r: bool)
    ensures
        r == seq_char_le(a@, b@),
{
    let alen = a.unicode_len();
    let blen = b.unicode_len();
    let mut i: usize = 0;
    proof {
        assert(a@.skip(0) =~= a@);
        assert(b@.skip(0) =~= b@);
    }
    while i < alen && i < blen
        invariant
            i <= alen,
            i <= blen,
            seq_char_le(a@, b@) == seq_char_le(a@.skip(i as int), b@.skip(i as int)),
        decreases alen - i,
    {
        let x = a.get_char(i);
        let y = b.get_char(i);
        proof {
            assert(a@.skip(i as int)[0] == a@[i as int]);
            assert(b@.skip(i as int)[0] == b@[i as int]);
        }
        if x < y {
            return true;
        }
        if x > y {
            return false;
        }
        proof {
            assert(a@.skip(i as int).drop_first() =~= a@.skip(i + 1));
            assert(b@.skip(i as int).drop_first() =~= b@.skip(i + 1));
        }
        i = i + 1;
    }
    i == alen
}

/// The views of a sequence of records.
pub open spec fn views_of<T: View>(s: Seq<T>) -> Seq<T::V> {
    s.map_values(|t: T| t@)
}

/// A record kind with a total order on its sort key.
pub trait Sortable: View + Sized {
    /// The order that rendering uses for this record kind.
    spec fn key_le(a: Self::V, b: Self::V) -> bool;

    /// The order relates any two records.
    proof fn key_le_total(a: Self::V, b: Self::V)
        ensures
            Self::key_le(a, b) || Self::key_le(b, a),
    ;

    /// The order is transitive.
    proof fn key_le_trans(a: Self::V, b: Self::V, c: Self::V)
        requires
            Self::key_le(a, b),
            Self::key_le(b, c),
        ensures
            Self::key_le(a, c),
    ;

    /// Decide the order on two records.
    fn le(&self, other: &Self) -> (r: bool)
        ensures
            r == Self::key_le(self@, other@),
    ;

    /// A copy with the same content.
    fn duplicate(&self) -> (r: Self)
        ensures
            r@ == self@,
    ;
}

/// The sequence of record views is ordered by the kind's key.
pub open spec fn sorted_by_key<T: Sortable>(s: Seq<T::V>) -> bool {
    forall|i: int, j: int| 0 <= i < j < s.len() ==> T::key_le(#[trigger] s[i], #[trigger] s[j])
}

/// Inserting an element anywhere adds exactly it to the multiset of elements.
proof fn lemma_to_multiset_insert<V>(s: Seq<V>, p: int, x: V)
    requires
        0 <= p <= s.len(),
    ensures
        s.insert(p, x).to_multiset() == s.to_multiset().insert(x),
{
    broadcast use vstd::seq_lib::group_to_multiset_ensures;

    let a = s.take(p);
    let b = s.skip(p);
    let single = seq![x];
    assert(s.insert(p, x) =~= a + (single + b));
    assert(s =~= a + b);
    vstd::seq_lib::lemma_multiset_commutative(a, single + b);
    vstd::seq_lib::lemma_multiset_commutative(single, b);
    vstd::seq_lib::lemma_multiset_commutative(a, b);
    assert(single =~= Seq::<V>::empty().push(x));
    assert(Seq::<V>::empty().to_multiset().len() == 0);
    assert(Seq::<V>::empty().to_multiset() =~= Multiset::<V>::empty());
    assert(single.to_multiset() =~= Multiset::<V>::empty().insert(x));
    assert(s.insert(p, x).to_multiset() =~= s.to_multiset().insert(x));
}

/// Sort a vector of records in place: afterwards the views are ordered by the
/// kind's key and form the same multiset as before.
#[verifier::loop_isolation(false)]
pub fn sort_records<T: Sortable>(v: &mut Vec<T>)
    ensures
        final(v)@.len() == old(v)@.len(),
        sorted_by_key::<T>(views_of(final(v)@)),
        views_of(final(v)@).to_multiset() == views_of(old(v)@).to_multiset(),
{
    broadcast use vstd::seq_lib::group_to_multiset_ensures;

    let ghost orig = views_of(old(v)@);
    if v.len() <= 1 {
        return ;
    }
    let mut i: usize = 1;
    while i < v.len()
        invariant
            1 <= i <= v.len(),
            v@.len() == old(v)@.len(),
            views_of(v@).to_multiset() == orig.to_multiset(),
            sorted_by_key::<T>(views_of(v@).take(i as int)),
        decreases v.len() - i,
    {
        let ghost w = views_of(v@);
        proof {
            assert forall|a: int, b: int| 0 <= a < b < i implies T::key_le(
                #[trigger] w[a],
                #[trigger] w[b],
            ) by {
                assert(w.take(i as int)[a] == w[a]);
                assert(w.take(i as int)[b] == w[b]);
            }
        }
        // find where the element at `i` belongs in the ordered prefix
        let mut p: usize = 0;
        while p < i && v[p].le(&v[i])
            invariant
                p <= i,
                forall|q: int| 0 <= q < p ==> T::key_le(#[trigger] w[q], w[i as int]),
            decreases i - p,
        {
            proof {
                assert(w[p as int] == v@[p as int]@);
            }
            p = p + 1;
        }
        if p < i {
            let ghost key = w[i as int];
            proof {
                T::key_le_total(w[p as int], key);
                assert(T::key_le(key, w[p as int]));
            }
            let x = v.remove(i);
            v.insert(p, x);
            proof {
                let w2 = views_of(v@);
                assert(w2 =~= w.remove(i as int).insert(p as int, x@));
                lemma_to_multiset_insert(w.remove(i as int), p as int, x@);
                assert(w.remove(i as int).to_multiset() =~= w.to_multiset().remove(
                    w[i as int],
                ));
                assert(x@ == key);
                assert(w.to_multiset().count(key) > 0);
                assert(w2.to_multiset() =~= w.to_multiset());
                // the new prefix of length i + 1 is ordered
                assert forall|m: int, n: int| 0 <= m < n < i + 1 implies T::key_le(
                    #[trigger] w2[m],
                    #[trigger] w2[n],
                ) by {
                    if n < p {
                        assert(w2[m] == w[m] && w2[n] == w[n]);
                    } else if n == p {
                        assert(w2[m] == w[m] && w2[n] == key);
                        assert(T::key_le(w[m], key));
                    } else {
                        assert(w2[n] == w[n - 1]);
                        if m < p {
                            assert(w2[m] == w[m]);
                            assert(T::key_le(w[m], w[n - 1]));
                        } else if m == p {
                            assert(w2[m] == key);
                            if n - 1 == p {
                                assert(T::key_le(key, w[p as int]));
                            } else {
                                T::key_le_trans(key, w[p as int], w[n - 1]);
                            }
                        } else {
                            assert(w2[m] == w[m - 1]);
                            assert(T::key_le(w[m - 1], w[n - 1]));
                        }
                    }
                }
            }
        } else {
            proof {
                let w2 = views_of(v@);
                assert(w2 =~= w);
                assert forall|m: int, n: int| 0 <= m < n < i + 1 implies T::key_le(
                    #[trigger] w2[m],
                    #[trigger] w2[n],
                ) by {
                    if n == i {
                        assert(T::key_le(w[m], w[i as int]));
                    }
                }
            }
        }
        i = i + 1;
    }
    proof {
        assert(views_of(v@).take(i as int) =~= views_of(v@));
    }
}

impl Sortable for BusinessRequirement {
    open spec fn key_le(a: Self::V, b: Self::V) -> bool {
        seq_u8_le(a.id, b.id)
    }

    proof fn key_le_total(a: Self::V, b: Self::V) {
        lemma_seq_u8_le_total(a.id, b.id);
    }

    proof fn key_le_trans(a: Self::V, b: Self::V, c: Self::V) {
        lemma_seq_u8_le_trans(a.id, b.id, c.id);
    }

    fn le(&self, other: &Self) -> (r: bool) {
        proof {
            crate::business_requirement_id::lemma_seq_u8_cmp_flip(self.id@, other.id@);
        }
        match self.id.partial_cmp(&other.id) {
            Some(core::cmp::Ordering::Greater) => false,
            _ => true,
        }
    }

    fn duplicate(&self) -> (r: Self) {
        self.clone()
    }
}

impl Sortable for KnownGap {
    open spec fn key_le(a: Self::V, b: Self::V) -> bool {
        seq_char_le(a.requirement_id, b.requirement_id)
    }

    proof fn key_le_total(a: Self::V, b: Self::V) {
        lemma_seq_char_le_total(a.requirement_id, b.requirement_id);
    }

    proof fn key_le_trans(a: Self::V, b: Self::V, c: Self::V) {
        lemma_seq_char_le_trans(a.requirement_id, b.requirement_id, c.requirement_id);
    }

    fn le(&self, other: &Self) -> (r: bool) {
        str_le(self.requirement_id.as_str(), other.requirement_id.as_str())
    }

    fn duplicate(&self) -> (r: Self) {
        self.clone()
    }
}

impl Sortable for Persona {
    open spec fn key_le(a: Self::V, b: Self::V) -> bool {
        seq_char_le(a.name, b.name)
    }

    proof fn key_le_total(a: Self::V, b: Self::V) {
        lemma_seq_char_le_total(a.name, b.name);
    }

    proof fn key_le_trans(a: Self::V, b: Self::V, c: Self::V) {
        lemma_seq_char_le_trans(a.name, b.name, c.name);
    }

    fn le(&self, other: &Self) -> (r: bool) {
        str_le(self.name.as_str(), other.name.as_str())
    }

    fn duplicate(&self) -> (r: Self) {
        self.clone()
    }
}

impl Sortable for Term {
    open spec fn key_le(a: Self::V, b: Self::V) -> bool {
        seq_char_le(a.name, b.name)
    }

    proof fn key_le_total(a: Self::V, b: Self::V) {
        lemma_seq_char_le_total(a.name, b.name);
    }

    proof fn key_le_trans(a: Self::V, b: Self::V, c: Self::V) {
        lemma_seq_char_le_trans(a.name, b.name, c.name);
    }

    fn le(&self, other: &Self) -> (r: bool) {
        str_le(self.name.as_str(), other.name.as_str())
    }

    fn duplicate(&self) -> (r: Self) {
        self.clone()
    }
}

impl Sortable for Contact {
    open spec fn key_le(a: Self::V, b: Self::V) -> bool {
        a.id <= b.id
    }

    proof fn key_le_total(a: Self::V, b: Self::V) {
    }

    proof fn key_le_trans(a: Self::V, b: Self::V, c: Self::V) {
    }

    fn le(&self, other: &Self) -> (r: bool) {
        self.id <= other.id
    }

    fn duplicate(&self) -> (r: Self) {
        self.clone()
    }
}

} // verus!
