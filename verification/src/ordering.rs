//! Lexicographic order of texts (the order of `String`, whose UTF-8 bytes
//! compare as the code points do) and a selection sort over values keyed by
//! a text.
use vstd::prelude::*;
use vstd::multiset::Multiset;

use crate::text::chars_of;

verus! {

broadcast use vstd::seq_lib::group_to_multiset_ensures, vstd::multiset::group_multiset_axioms;

/// `a` comes no later than `b` in lexicographic order of code points.
pub open spec fn lex_le(a: Seq<char>, b: Seq<char>) -> bool
    decreases a.len(),
{
    if a.len() == 0 {
        true
    } else if b.len() == 0 {
        false
    } else if a[0] != b[0] {
        (a[0] as u32) < (b[0] as u32)
    } else {
        lex_le(a.drop_first(), b.drop_first())
    }
}

/// Order of two keys in ascending, or when `descending`, in descending order.
pub open spec fn in_order(a: Seq<char>, b: Seq<char>, descending: bool) -> bool {
    if descending {
        lex_le(b, a)
    } else {
        lex_le(a, b)
    }
}

pub proof fn lemma_lex_total(a: Seq<char>, b: Seq<char>)
    ensures
        lex_le(a, b) || lex_le(b, a),
    decreases a.len(),
{
    if a.len() > 0 && b.len() > 0 {
        if a[0] == b[0] {
            lemma_lex_total(a.drop_first(), b.drop_first());
        } else {
            vstd::utf8::char_u32_cast(a[0], a[0] as u32);
            vstd::utf8::char_u32_cast(b[0], b[0] as u32);
        }
    }
}

pub proof fn lemma_lex_reflexive(a: Seq<char>)
    ensures
        lex_le(a, a),
    decreases a.len(),
{
    if a.len() > 0 {
        lemma_lex_reflexive(a.drop_first());
    }
}

pub proof fn lemma_lex_transitive(a: Seq<char>, b: Seq<char>, c: Seq<char>)
    requires
        lex_le(a, b),
        lex_le(b, c),
    ensures
        lex_le(a, c),
    decreases a.len(),
{
    if a.len() > 0 && b.len() > 0 && c.len() > 0 && a[0] == b[0] && b[0] == c[0] {
        lemma_lex_transitive(a.drop_first(), b.drop_first(), c.drop_first());
    }
}

pub proof fn lemma_lex_antisymmetric(a: Seq<char>, b: Seq<char>)
    requires
        lex_le(a, b),
        lex_le(b, a),
    ensures
        a == b,
    decreases a.len(),
{
    if a.len() > 0 {
        lemma_lex_antisymmetric(a.drop_first(), b.drop_first());
        assert(a =~= seq![a[0]] + a.drop_first());
        assert(b =~= seq![b[0]] + b.drop_first());
    } else {
        assert(b.len() == 0);
        assert(a =~= b);
    }
}

proof fn lemma_lex_step(a: Seq<char>, b: Seq<char>, i: int)
    requires
        0 <= i < a.len(),
        i < b.len(),
        a[i] == b[i],
    ensures
        lex_le(a.skip(i), b.skip(i)) == lex_le(a.skip(i + 1), b.skip(i + 1)),
{
    assert(a.skip(i).drop_first() =~= a.skip(i + 1));
    assert(b.skip(i).drop_first() =~= b.skip(i + 1));
}

/// Whether `a` comes no later than `b` in lexicographic order.
pub fn chars_le(a: &Vec<char>, b: &Vec<char>) -> (r: bool)
    ensures
        r == lex_le(a@, b@),
{
    let mut i: usize = 0;
    assert(a@.skip(0) =~= a@);
    assert(b@.skip(0) =~= b@);
    while i < a.len() && i < b.len() && a[i] == b[i]
        invariant
            i <= a.len(),
            i <= b.len(),
            lex_le(a@, b@) == lex_le(a@.skip(i as int), b@.skip(i as int)),
        decreases a.len() - i,
    {
        proof {
            lemma_lex_step(a@, b@, i as int);
        }
        i = i + 1;
    }
    if i == a.len() {
        true
    } else if i == b.len() {
        false
    } else {
        assert(a@.skip(i as int)[0] == a@[i as int]);
        assert(b@.skip(i as int)[0] == b@[i as int]);
        (a[i] as u32) < (b[i] as u32)
    }
}

/// A value sorted by the text that `key` gives of it.
pub trait TextKeyed {
    spec fn key(&self) -> Seq<char>;

    fn key_chars(&self) -> (r: Vec<char>)
        ensures
            r@ == self.key(),
    ;
}

impl TextKeyed for String {
    open spec fn key(&self) -> Seq<char> {
        self@
    }

    fn key_chars(&self) -> (r: Vec<char>) {
        chars_of(self.as_str())
    }
}

/// The views of the items of `s`.
pub open spec fn views<T: View>(s: Seq<T>) -> Seq<T::V> {
    s.map_values(|x: T| x@)
}

/// The keys of the items of `s`.
pub open spec fn keys<T: TextKeyed>(s: Seq<T>) -> Seq<Seq<char>> {
    s.map_values(|x: T| x.key())
}

/// Every earlier key is in order with every later one.
pub open spec fn sorted_keys(k: Seq<Seq<char>>, descending: bool) -> bool {
    forall|i: int, j: int| 0 <= i < j < k.len() ==> in_order(k[i], k[j], descending)
}

pub proof fn lemma_views_push<T: View>(s: Seq<T>, x: T)
    ensures
        views(s.push(x)) == views(s).push(x@),
{
    assert(views(s.push(x)) =~= views(s).push(x@));
}

proof fn lemma_views_remove<T: View>(s: Seq<T>, i: int)
    requires
        0 <= i < s.len(),
    ensures
        views(s.remove(i)) == views(s).remove(i),
        views(s)[i] == s[i]@,
{
    assert(views(s.remove(i)) =~= views(s).remove(i));
}

/// The items of `v` ordered by key, ascending or, when `descending`, descending.
pub fn sort_by_key<T: TextKeyed + View>(v: Vec<T>, descending: bool) -> (r: Vec<T>)
    ensures
        views(r@).to_multiset() == views(v@).to_multiset(),
        keys(r@).len() == r@.len(),
        sorted_keys(keys(r@), descending),
{
    let ghost start = views(v@).to_multiset();
    let mut work = v;
    let mut out: Vec<T> = Vec::new();
    assert(views(out@) =~= Seq::<T::V>::empty());
    assert(views(out@).to_multiset() =~= Multiset::<T::V>::empty());
    while work.len() > 0
        invariant
            views(out@).to_multiset().add(views(work@).to_multiset()) == start,
            sorted_keys(keys(out@), descending),
            forall|i: int, j: int|
                0 <= i < out@.len() && 0 <= j < work@.len() ==> in_order(
                    #[trigger] out@[i].key(),
                    #[trigger] work@[j].key(),
                    descending,
                ),
        decreases work.len(),
    {
        let mut m: usize = 0;
        let mut mk = work[0].key_chars();
        let mut j: usize = 1;
        proof {
            lemma_lex_reflexive(mk@);
        }
        while j < work.len()
            invariant
                1 <= j <= work.len(),
                m < j,
                mk@ == work@[m as int].key(),
                forall|t: int| 0 <= t < j ==> in_order(mk@, #[trigger] work@[t].key(), descending),
            decreases work.len() - j,
        {
            let jk = work[j].key_chars();
            let better = if descending {
                !chars_le(&jk, &mk)
            } else {
                !chars_le(&mk, &jk)
            };
            proof {
                lemma_lex_total(mk@, jk@);
            }
            if better {
                proof {
                    assert forall|t: int| 0 <= t < j + 1 implies in_order(
                        jk@,
                        #[trigger] work@[t].key(),
                        descending,
                    ) by {
                        if t < j {
                            if descending {
                                lemma_lex_transitive(work@[t].key(), mk@, jk@);
                            } else {
                                lemma_lex_transitive(jk@, mk@, work@[t].key());
                            }
                        }
                        lemma_lex_reflexive(jk@);
                    }
                }
                m = j;
                mk = jk;
            }
            j = j + 1;
        }
        let ghost before_out = out@;
        let ghost before_work = work@;
        let x = work.remove(m);
        proof {
            lemma_views_remove(before_work, m as int);
            lemma_views_push(before_out, x);
        }
        out.push(x);
        proof {
            let vw = views(before_work);
            assert(vw.to_multiset().count(vw[m as int]) > 0);
            assert(views(out@).to_multiset().add(views(work@).to_multiset()) =~= start);
            assert forall|i: int, k: int|
                0 <= i < out@.len() && 0 <= k < work@.len() implies in_order(
                #[trigger] out@[i].key(),
                #[trigger] work@[k].key(),
                descending,
            ) by {
                let kk = if k < m {
                    k
                } else {
                    k + 1
                };
                assert(work@[k] == before_work[kk]);
                if i < before_out.len() {
                    assert(out@[i] == before_out[i]);
                } else {
                    assert(out@[i] == before_work[m as int]);
                }
            }
            assert forall|a: int, b: int| 0 <= a < b < keys(out@).len() implies in_order(
                keys(out@)[a],
                keys(out@)[b],
                descending,
            ) by {
                if b < before_out.len() {
                    assert(keys(out@)[a] == keys(before_out)[a]);
                    assert(keys(out@)[b] == keys(before_out)[b]);
                } else {
                    assert(out@[a] == before_out[a]);
                    assert(before_work[m as int] == out@[b]);
                }
            }
        }
    }
    proof {
        assert(views(work@) =~= Seq::<T::V>::empty());
        assert(views(work@).to_multiset() =~= Multiset::<T::V>::empty());
        assert(views(out@).to_multiset().add(Multiset::<T::V>::empty()) =~= views(
            out@,
        ).to_multiset());
    }
    out
}

/// A sequence of keys in one order read backwards is in the other order.
pub proof fn lemma_reverse_sorted(a: Seq<Seq<char>>, descending: bool)
    requires
        sorted_keys(a, descending),
    ensures
        sorted_keys(a.reverse(), !descending),
        a.reverse().to_multiset() == a.to_multiset(),
{
    a.lemma_reverse_to_multiset();
    let r = a.reverse();
    assert forall|i: int, j: int| 0 <= i < j < r.len() implies in_order(r[i], r[j], !descending) by {
        assert(r[i] == a[a.len() - 1 - i]);
        assert(r[j] == a[a.len() - 1 - j]);
        assert(in_order(a[a.len() - 1 - j], a[a.len() - 1 - i], descending));
    }
}

/// Two sorted sequences of the same keys are the same sequence.
pub proof fn lemma_sorted_unique(a: Seq<Seq<char>>, b: Seq<Seq<char>>, descending: bool)
    requires
        a.to_multiset() == b.to_multiset(),
        sorted_keys(a, descending),
        sorted_keys(b, descending),
    ensures
        a == b,
    decreases a.len(),
{
    assert(a.len() == a.to_multiset().len());
    assert(b.len() == b.to_multiset().len());
    if a.len() == 0 {
        assert(a =~= b);
    } else {
        let x = a[0];
        let y = b[0];
        assert(a.to_multiset().count(y) > 0);
        assert(b.to_multiset().count(x) > 0);
        let i = choose|i: int| 0 <= i < a.len() && a[i] == y;
        let j = choose|j: int| 0 <= j < b.len() && b[j] == x;
        lemma_lex_reflexive(x);
        lemma_lex_reflexive(y);
        assert(in_order(x, y, descending)) by {
            if i > 0 {
                assert(in_order(a[0], a[i], descending));
            }
        }
        assert(in_order(y, x, descending)) by {
            if j > 0 {
                assert(in_order(b[0], b[j], descending));
            }
        }
        if descending {
            lemma_lex_antisymmetric(x, y);
        } else {
            lemma_lex_antisymmetric(x, y);
        }
        assert(a.remove(0) =~= a.drop_first());
        assert(b.remove(0) =~= b.drop_first());
        assert(a.drop_first().to_multiset() =~= a.to_multiset().remove(x));
        assert(b.drop_first().to_multiset() =~= b.to_multiset().remove(y));
        let a1 = a.drop_first();
        let b1 = b.drop_first();
        assert forall|p: int, q: int| 0 <= p < q < a1.len() implies in_order(a1[p], a1[q], descending) by {
            assert(a1[p] == a[p + 1] && a1[q] == a[q + 1]);
        }
        assert forall|p: int, q: int| 0 <= p < q < b1.len() implies in_order(b1[p], b1[q], descending) by {
            assert(b1[p] == b[p + 1] && b1[q] == b[q + 1]);
        }
        lemma_sorted_unique(a1, b1, descending);
        assert(a =~= b) by {
            assert(a =~= seq![x] + a1);
            assert(b =~= seq![y] + b1);
        }
    }
}

} // verus!
