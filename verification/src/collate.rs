//! Ordering and deduplication of records by a text key: a stable
//! selection sort and an adjacent-duplicate filter, shared by the software
//! and industrial scanners.

use crate::text::{lemma_lex_le_total, lemma_lex_le_trans, lex_le};
use vstd::multiset::Multiset;
use vstd::prelude::*;

verus! {

/// A record ordered and deduplicated by one piece of text.
pub trait TextKey: Sized {
    /// The text the record is ordered by.
    spec fn text_key(&self) -> Seq<char>;

    /// Decides `lex_le` on the two records' keys.
    fn key_le(&self, other: &Self) -> (r: bool)
        ensures
            r == lex_le(self.text_key(), other.text_key()),
    ;

    /// Decides equality of the two records' keys.
    fn key_eq(&self, other: &Self) -> (r: bool)
        ensures
            r == (self.text_key() == other.text_key()),
    ;
}

/// Whether a sequence is ordered by its records' keys.
pub open spec fn sorted_by_key<T: TextKey>(s: Seq<T>) -> bool {
    forall|i: int, j: int|
        0 <= i < j < s.len() ==> lex_le(#[trigger] s[i].text_key(), #[trigger] s[j].text_key())
}

/// Whether no two neighbouring records share a key.
pub open spec fn adjacent_keys_distinct<T: TextKey>(s: Seq<T>) -> bool {
    forall|i: int, j: int|
        0 <= i && j == i + 1 && j < s.len() ==> (#[trigger] s[i].text_key()) != (
        #[trigger] s[j].text_key())
}

/// An empty sequence's multiset is the empty multiset.
proof fn lemma_empty_to_multiset<T>(s: Seq<T>)
    requires
        s.len() == 0,
    ensures
        s.to_multiset() =~= Multiset::<T>::empty(),
{
    s.to_multiset_ensures();
    vstd::multiset::lemma_multiset_empty_len(s.to_multiset());
}

/// Sorts the records by their key, ascending. Ties keep their first
/// occurrence first.
pub fn sort_by_key<T: TextKey>(v: Vec<T>) -> (r: Vec<T>)
    ensures
        r@.to_multiset() == v@.to_multiset(),
        sorted_by_key(r@),
{
    let mut src = v;
    let mut out: Vec<T> = Vec::new();
    proof {
        lemma_empty_to_multiset(out@);
        assert(out@.to_multiset().add(src@.to_multiset()) =~= v@.to_multiset());
    }
    while src.len() > 0
        invariant
            out@.to_multiset().add(src@.to_multiset()) == v@.to_multiset(),
            sorted_by_key(out@),
            forall|i: int, j: int|
                0 <= i < out@.len() && 0 <= j < src@.len() ==> lex_le(
                    #[trigger] out@[i].text_key(),
                    #[trigger] src@[j].text_key(),
                ),
        decreases src@.len(),
    {
        let m = min_key_index(&src);
        let ghost old_out = out@;
        let ghost old_src = src@;
        let x = src.remove(m);
        out.push(x);
        proof {
            old_out.to_multiset_ensures();
            old_src.to_multiset_ensures();
            assert(old_src.contains(old_src[m as int]));
            assert(out@ == old_out.push(x));
            assert(old_out.push(x).to_multiset() =~= old_out.to_multiset().insert(x));
            assert(src@ == old_src.remove(m as int));
            assert(old_src.remove(m as int).to_multiset() =~= old_src.to_multiset().remove(
                old_src[m as int],
            ));
            assert(out@.to_multiset().add(src@.to_multiset()) =~= v@.to_multiset());
            assert forall|i: int, j: int|
                0 <= i < j < out@.len() implies lex_le(
                #[trigger] out@[i].text_key(),
                #[trigger] out@[j].text_key(),
            ) by {
                if j == out@.len() - 1 {
                    assert(out@[i] == old_out[i]);
                    assert(out@[j] == old_src[m as int]);
                }
            }
            assert forall|i: int, j: int|
                0 <= i < out@.len() && 0 <= j < src@.len() implies lex_le(
                #[trigger] out@[i].text_key(),
                #[trigger] src@[j].text_key(),
            ) by {
                let jo = if j < m as int {
                    j
                } else {
                    j + 1
                };
                assert(src@[j] == old_src[jo]);
                if i < out@.len() - 1 {
                    assert(out@[i] == old_out[i]);
                } else {
                    assert(out@[i] == old_src[m as int]);
                }
            }
        }
    }
    proof {
        lemma_empty_to_multiset(src@);
        assert(out@.to_multiset().add(src@.to_multiset()) =~= out@.to_multiset());
    }
    out
}

/// The index of the smallest key, preferring the earliest such record.
fn min_key_index<T: TextKey>(v: &Vec<T>) -> (m: usize)
    requires
        v@.len() > 0,
    ensures
        m < v@.len(),
        forall|j: int|
            0 <= j < v@.len() ==> lex_le(v@[m as int].text_key(), #[trigger] v@[j].text_key()),
{
    let mut m: usize = 0;
    let mut k: usize = 1;
    proof {
        lemma_lex_le_total(v@[0].text_key(), v@[0].text_key());
    }
    while k < v.len()
        invariant
            m < k <= v@.len(),
            forall|j: int|
                0 <= j < k ==> lex_le(v@[m as int].text_key(), #[trigger] v@[j].text_key()),
        decreases v@.len() - k,
    {
        let smaller = v[k].key_le(&v[m]) && !v[m].key_le(&v[k]);
        if smaller {
            proof {
                assert forall|j: int|
                    0 <= j < k + 1 implies lex_le(
                    v@[k as int].text_key(),
                    #[trigger] v@[j].text_key(),
                ) by {
                    if j < k {
                        lemma_lex_le_trans(
                            v@[k as int].text_key(),
                            v@[m as int].text_key(),
                            v@[j].text_key(),
                        );
                    } else {
                        lemma_lex_le_total(v@[k as int].text_key(), v@[k as int].text_key());
                    }
                }
            }
            m = k;
        } else {
            proof {
                lemma_lex_le_total(v@[m as int].text_key(), v@[k as int].text_key());
            }
        }
        k = k + 1;
    }
    m
}

/// The records left when every one whose key equals the last kept key is
/// dropped: the first of each neighbouring run of equal keys survives.
pub open spec fn dedup_spec<T: TextKey>(s: Seq<T>) -> Seq<T>
    decreases s.len(),
{
    if s.len() == 0 {
        Seq::<T>::empty()
    } else {
        let d = dedup_spec(s.drop_last());
        if d.len() > 0 && d.last().text_key() == s.last().text_key() {
            d
        } else {
            d.push(s.last())
        }
    }
}

/// The kept run is non-empty exactly when the input is, and ends on the
/// last input key.
pub proof fn lemma_dedup_last_key<T: TextKey>(s: Seq<T>)
    ensures
        s.len() == 0 ==> dedup_spec(s).len() == 0,
        s.len() > 0 ==> dedup_spec(s).len() > 0 && dedup_spec(s).last().text_key()
            == s.last().text_key(),
{
}

/// The kept records never put two equal keys side by side.
pub proof fn lemma_dedup_adjacent<T: TextKey>(s: Seq<T>)
    ensures
        adjacent_keys_distinct(dedup_spec(s)),
    decreases s.len(),
{
    if s.len() > 0 {
        let p = s.drop_last();
        lemma_dedup_adjacent(p);
        let d = dedup_spec(p);
        let out = dedup_spec(s);
        if !(d.len() > 0 && d.last().text_key() == s.last().text_key()) {
            assert(out == d.push(s.last()));
            assert forall|i: int, j: int|
                0 <= i && j == i + 1 && j < out.len() implies (#[trigger] out[i].text_key()) != (
                #[trigger] out[j].text_key()) by {
                if j < d.len() {
                    assert(out[i] == d[i] && out[j] == d[j]);
                } else if d.len() > 0 {
                    assert(out[j] == s.last());
                    assert(out[i] == d.last());
                }
            }
        }
    }
}

/// Every kept record is one of the input records.
pub proof fn lemma_dedup_membership<T: TextKey>(s: Seq<T>)
    ensures
        forall|i: int| 0 <= i < dedup_spec(s).len() ==> s.contains(#[trigger] dedup_spec(s)[i]),
    decreases s.len(),
{
    if s.len() > 0 {
        let p = s.drop_last();
        lemma_dedup_membership(p);
        let d = dedup_spec(p);
        let out = dedup_spec(s);
        assert(forall|j: int| 0 <= j < p.len() ==> p[j] == s[j]);
        assert forall|i: int| 0 <= i < out.len() implies s.contains(#[trigger] out[i]) by {
            if i < d.len() {
                assert(p.contains(d[i]));
                let iw = choose|iw: int| 0 <= iw < p.len() && p[iw] == d[i];
                assert(s[iw] == out[i]);
            } else {
                assert(out[i] == s[s.len() - 1]);
            }
        }
    }
}

/// Every input key is still present among the kept records.
pub proof fn lemma_dedup_survival<T: TextKey>(s: Seq<T>)
    ensures
        forall|j: int|
            #![trigger s[j].text_key()]
            0 <= j < s.len() ==> exists|i: int|
                0 <= i < dedup_spec(s).len() && (#[trigger] dedup_spec(s)[i].text_key())
                    == s[j].text_key(),
    decreases s.len(),
{
    if s.len() > 0 {
        let p = s.drop_last();
        lemma_dedup_survival(p);
        lemma_dedup_last_key(s);
        let d = dedup_spec(p);
        let out = dedup_spec(s);
        assert(forall|j: int| 0 <= j < p.len() ==> p[j] == s[j]);
        assert forall|j: int|
            #![trigger s[j].text_key()]
            0 <= j < s.len() implies exists|i: int|
            0 <= i < out.len() && (#[trigger] out[i].text_key()) == s[j].text_key() by {
            if j < s.len() - 1 {
                assert(p[j].text_key() == s[j].text_key());
                let iw = choose|iw: int|
                    0 <= iw < d.len() && (#[trigger] d[iw].text_key()) == p[j].text_key();
                if d.len() > 0 && d.last().text_key() == s.last().text_key() {
                    assert(out == d);
                    assert(out[iw].text_key() == s[j].text_key());
                } else {
                    assert(out == d.push(s.last()));
                    assert(out[iw].text_key() == s[j].text_key());
                }
            } else {
                assert(out[out.len() - 1].text_key() == s[j].text_key());
            }
        }
    }
}

/// Deduplication keeps a sorted sequence sorted.
pub proof fn lemma_dedup_sorted<T: TextKey>(s: Seq<T>)
    requires
        sorted_by_key(s),
    ensures
        sorted_by_key(dedup_spec(s)),
    decreases s.len(),
{
    if s.len() > 0 {
        let p = s.drop_last();
        assert(forall|j: int| 0 <= j < p.len() ==> p[j] == s[j]);
        assert forall|i: int, j: int|
            0 <= i < j < p.len() implies lex_le(
            #[trigger] p[i].text_key(),
            #[trigger] p[j].text_key(),
        ) by {
            assert(p[i] == s[i] && p[j] == s[j]);
        }
        lemma_dedup_sorted(p);
        lemma_dedup_membership(p);
        let d = dedup_spec(p);
        let out = dedup_spec(s);
        if !(d.len() > 0 && d.last().text_key() == s.last().text_key()) {
            assert(out == d.push(s.last()));
            assert forall|i: int, j: int|
                0 <= i < j < out.len() implies lex_le(
                #[trigger] out[i].text_key(),
                #[trigger] out[j].text_key(),
            ) by {
                if j == out.len() - 1 {
                    assert(p.contains(d[i]));
                    let iw = choose|iw: int| 0 <= iw < p.len() && p[iw] == d[i];
                    assert(out[i] == s[iw]);
                    assert(lex_le(s[iw].text_key(), s[s.len() - 1].text_key()));
                } else {
                    assert(out[i] == d[i] && out[j] == d[j]);
                }
            }
        }
    }
}

/// Removes every record whose key equals the previously kept record's key,
/// keeping the first of each neighbouring run.
pub fn dedup_by_key<T: TextKey>(v: Vec<T>) -> (r: Vec<T>)
    ensures
        r@ == dedup_spec(v@),
{
    let ghost v0 = v@;
    let mut rest = v;
    let mut out: Vec<T> = Vec::new();
    let ghost mut done: int = 0;
    proof {
        assert(v0.subrange(0, 0) =~= Seq::<T>::empty());
    }
    while rest.len() > 0
        invariant
            0 <= done <= v0.len(),
            rest@ == v0.subrange(done, v0.len() as int),
            out@ == dedup_spec(v0.subrange(0, done)),
        decreases rest@.len(),
    {
        let x = rest.remove(0);
        assert(x == v0[done]);
        let keep = if out.len() == 0 {
            true
        } else {
            !out[out.len() - 1].key_eq(&x)
        };
        proof {
            assert(rest@ =~= v0.subrange(done + 1, v0.len() as int));
            let pre = v0.subrange(0, done);
            let pre2 = v0.subrange(0, done + 1);
            assert(pre2.drop_last() =~= pre);
            assert(pre2.last() == v0[done]);
            assert(dedup_spec(pre2) == if dedup_spec(pre).len() > 0 && dedup_spec(
                pre,
            ).last().text_key() == v0[done].text_key() {
                dedup_spec(pre)
            } else {
                dedup_spec(pre).push(v0[done])
            });
        }
        if keep {
            assert(out@.len() > 0 ==> out@.last().text_key() != x.text_key());
            out.push(x);
        }
        proof {
            done = done + 1;
        }
    }
    proof {
        assert(v0.subrange(0, v0.len() as int) =~= v0);
    }
    out
}


/// Two sequences with the same elements have the same elements under any
/// mapping.
pub proof fn lemma_map_values_multiset<A, B>(a: Seq<A>, b: Seq<A>, f: spec_fn(A) -> B)
    requires
        a.to_multiset() == b.to_multiset(),
    ensures
        a.map_values(f).to_multiset() == b.map_values(f).to_multiset(),
    decreases a.len(),
{
    a.to_multiset_ensures();
    b.to_multiset_ensures();
    a.map_values(f).to_multiset_ensures();
    b.map_values(f).to_multiset_ensures();
    if a.len() == 0 {
        assert(b.len() == 0);
        assert(a.map_values(f) =~= b.map_values(f));
    } else {
        let x = a.last();
        let p = a.drop_last();
        assert(a == p.push(x));
        assert(a.to_multiset().count(x) > 0);
        assert(b.contains(x));
        let j = choose|j: int| 0 <= j < b.len() && b[j] == x;
        let b2 = b.remove(j);
        p.to_multiset_ensures();
        b2.to_multiset_ensures();
        p.map_values(f).to_multiset_ensures();
        b2.map_values(f).to_multiset_ensures();
        assert(p.push(x).to_multiset() =~= p.to_multiset().insert(x));
        assert(b.remove(j).to_multiset() =~= b.to_multiset().remove(b[j]));
        assert(p.to_multiset() =~= b2.to_multiset());
        lemma_map_values_multiset(p, b2, f);
        assert(a.map_values(f) =~= p.map_values(f).push(f(x)));
        assert(p.map_values(f).push(f(x)).to_multiset() =~= p.map_values(f).to_multiset().insert(
            f(x),
        ));
        assert(b2.map_values(f) =~= b.map_values(f).remove(j));
        assert(b.map_values(f).remove(j).to_multiset() =~= b.map_values(f).to_multiset().remove(
            b.map_values(f)[j],
        ));
        assert(b.map_values(f)[j] == f(x));
        assert(b.map_values(f).to_multiset().count(f(x)) > 0) by {
            assert(b.map_values(f).contains(b.map_values(f)[j]));
        }
        assert(a.map_values(f).to_multiset() =~= b.map_values(f).to_multiset());
    }
}

} // verus!
