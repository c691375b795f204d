//! Enumeration of the size-`k` subsequences of an index list.
//!
//! The encoder expands a threshold constraint over all size-`k` choices of
//! a vertex's successors. [`combs`] is the mathematical enumeration, in
//! lexicographic order of the positions used; [`combinations_from`]
//! computes it. The subsequence lemmas tie membership in the enumeration
//! to the plain notion "`k` of the successors, in order, without repeats".

use vstd::prelude::*;

verus! {

/// The binomial coefficient, by Pascal's rule.
pub open spec fn binom(n: nat, k: nat) -> nat
    decreases n,
{
    if k == 0 {
        1
    } else if n == 0 {
        0
    } else {
        binom((n - 1) as nat, (k - 1) as nat) + binom((n - 1) as nat, k)
    }
}

/// Choosing more elements than there are is impossible.
pub proof fn lemma_binom_above(n: nat, k: nat)
    requires
        k > n,
    ensures
        binom(n, k) == 0,
    decreases n,
{
    if n > 0 {
        lemma_binom_above((n - 1) as nat, (k - 1) as nat);
        lemma_binom_above((n - 1) as nat, k);
    }
}

/// All subsequences of `s` of length `k`, in lexicographic order of the
/// positions used: the ones containing `s[0]` come first.
pub open spec fn combs(s: Seq<usize>, k: nat) -> Seq<Seq<usize>>
    decreases s.len(),
{
    if k == 0 {
        seq![Seq::<usize>::empty()]
    } else if s.len() < k {
        Seq::empty()
    } else {
        combs(s.drop_first(), (k - 1) as nat).map_values(|c: Seq<usize>| seq![s[0]] + c) + combs(
            s.drop_first(),
            k,
        )
    }
}

/// The enumeration has exactly `n choose k` entries.
pub proof fn lemma_combs_len(s: Seq<usize>, k: nat)
    ensures
        combs(s, k).len() == binom(s.len(), k),
    decreases s.len(),
{
    if k == 0 {
    } else if s.len() < k {
        lemma_binom_above(s.len(), k);
    } else {
        lemma_combs_len(s.drop_first(), (k - 1) as nat);
        lemma_combs_len(s.drop_first(), k);
    }
}

/// `c` occurs inside `s` in order (an order-preserving selection of
/// entries of `s`).
pub open spec fn is_subsequence(c: Seq<usize>, s: Seq<usize>) -> bool
    decreases s.len(),
{
    if c.len() == 0 {
        true
    } else if s.len() == 0 {
        false
    } else if c[0] == s[0] {
        is_subsequence(c.drop_first(), s.drop_first())
    } else {
        is_subsequence(c, s.drop_first())
    }
}

/// Dropping the head of a subsequence leaves a subsequence.
pub proof fn lemma_subseq_drop_head(c: Seq<usize>, s: Seq<usize>)
    requires
        is_subsequence(c, s),
        c.len() > 0,
    ensures
        is_subsequence(c.drop_first(), s),
    decreases s.len(),
{
    let c1 = c.drop_first();
    if c1.len() == 0 {
    } else {
        if c[0] == s[0] {
            // `c1` is a subsequence of the tail of `s`; when its head also
            // matches `s[0]`, drop it there as well.
            if c1[0] == s[0] {
                lemma_subseq_drop_head(c1, s.drop_first());
            }
        } else {
            lemma_subseq_drop_head(c, s.drop_first());
            if c1[0] == s[0] {
                lemma_subseq_drop_head(c1, s.drop_first());
            }
        }
    }
}

/// A subsequence of the tail of `s` is a subsequence of `s`.
pub proof fn lemma_subseq_of_tail(c: Seq<usize>, s: Seq<usize>)
    requires
        s.len() > 0,
        is_subsequence(c, s.drop_first()),
    ensures
        is_subsequence(c, s),
{
    if c.len() == 0 {
    } else if c[0] == s[0] {
        lemma_subseq_drop_head(c, s.drop_first());
    } else {
    }
}

/// A subsequence is no longer than the sequence it is taken from.
pub proof fn lemma_subseq_len(c: Seq<usize>, s: Seq<usize>)
    requires
        is_subsequence(c, s),
    ensures
        c.len() <= s.len(),
    decreases s.len(),
{
    if c.len() == 0 {
    } else if c[0] == s[0] {
        lemma_subseq_len(c.drop_first(), s.drop_first());
    } else {
        lemma_subseq_len(c, s.drop_first());
    }
}

/// Every entry of the enumeration is a subsequence of `s` of length `k`.
pub proof fn lemma_combs_sound(s: Seq<usize>, k: nat, j: int)
    requires
        0 <= j < combs(s, k).len(),
    ensures
        combs(s, k)[j].len() == k,
        is_subsequence(combs(s, k)[j], s),
    decreases s.len(),
{
    let x = combs(s, k)[j];
    if k == 0 {
        assert(x =~= Seq::<usize>::empty());
    } else {
        let with_first = combs(s.drop_first(), (k - 1) as nat).map_values(
            |c: Seq<usize>| seq![s[0]] + c,
        );
        if j < with_first.len() {
            let c = combs(s.drop_first(), (k - 1) as nat)[j];
            lemma_combs_sound(s.drop_first(), (k - 1) as nat, j);
            assert(x == seq![s[0]] + c);
            assert(x[0] == s[0]);
            assert(x.drop_first() =~= c);
        } else {
            let j2 = j - with_first.len();
            lemma_combs_sound(s.drop_first(), k, j2);
            assert(x == combs(s.drop_first(), k)[j2]);
            lemma_subseq_of_tail(x, s);
        }
    }
}

/// Every subsequence of `s` of length `k` occurs in the enumeration.
pub proof fn lemma_combs_complete(s: Seq<usize>, k: nat, c: Seq<usize>)
    requires
        c.len() == k,
        is_subsequence(c, s),
    ensures
        combs(s, k).contains(c),
    decreases s.len(),
{
    if k == 0 {
        assert(c =~= Seq::<usize>::empty());
        assert(combs(s, k)[0] == c);
    } else {
        lemma_subseq_len(c, s);
        let with_first = combs(s.drop_first(), (k - 1) as nat).map_values(
            |cc: Seq<usize>| seq![s[0]] + cc,
        );
        if c[0] == s[0] {
            let c1 = c.drop_first();
            lemma_combs_complete(s.drop_first(), (k - 1) as nat, c1);
            let sub = combs(s.drop_first(), (k - 1) as nat);
            let j = choose|j: int| 0 <= j < sub.len() && (#[trigger] sub[j]) == c1;
            assert(with_first[j] == seq![s[0]] + c1);
            assert(c =~= seq![s[0]] + c1);
            assert(combs(s, k)[j] == c);
        } else {
            lemma_combs_complete(s.drop_first(), k, c);
            let sub = combs(s.drop_first(), k);
            let j = choose|j: int| 0 <= j < sub.len() && (#[trigger] sub[j]) == c;
            assert(combs(s, k)[with_first.len() + j] == c);
        }
    }
}

/// A subsequence of a strictly increasing list is strictly increasing;
/// in particular its entries are distinct.
pub proof fn lemma_subseq_sorted(c: Seq<usize>, s: Seq<usize>)
    requires
        is_subsequence(c, s),
        forall|i: int, k: int| 0 <= i < k < s.len() ==> s[i] < s[k],
    ensures
        forall|i: int, k: int| 0 <= i < k < c.len() ==> c[i] < c[k],
    decreases s.len(),
{
    if c.len() == 0 || s.len() == 0 {
    } else {
        assert forall|i: int, k: int|
            0 <= i < k < s.drop_first().len() implies s.drop_first()[i] < s.drop_first()[k] by {
            assert(s.drop_first()[i] == s[i + 1]);
            assert(s.drop_first()[k] == s[k + 1]);
        }
        if c[0] == s[0] {
            lemma_subseq_sorted(c.drop_first(), s.drop_first());
            // The head of `c` is below every later entry: each later entry
            // of `c` appears in the tail of `s`, whose entries all exceed
            // `s[0]`.
            lemma_subseq_bound(c.drop_first(), s.drop_first());
            assert forall|i: int, k: int| 0 <= i < k < c.len() implies c[i] < c[k] by {
                if i == 0 {
                    assert(c[k] == c.drop_first()[k - 1]);
                } else {
                    assert(c[i] == c.drop_first()[i - 1]);
                    assert(c[k] == c.drop_first()[k - 1]);
                }
            }
        } else {
            lemma_subseq_sorted(c, s.drop_first());
        }
    }
}

/// Every entry of a subsequence is an entry of the base sequence.
pub proof fn lemma_subseq_bound(c: Seq<usize>, s: Seq<usize>)
    requires
        is_subsequence(c, s),
    ensures
        forall|i: int| 0 <= i < c.len() ==> s.contains(#[trigger] c[i]),
    decreases s.len(),
{
    if c.len() == 0 || s.len() == 0 {
    } else if c[0] == s[0] {
        lemma_subseq_bound(c.drop_first(), s.drop_first());
        assert forall|i: int| 0 <= i < c.len() implies s.contains(#[trigger] c[i]) by {
            if i == 0 {
                assert(s[0] == c[0]);
            } else {
                assert(c[i] == c.drop_first()[i - 1]);
                let t = choose|t: int|
                    0 <= t < s.drop_first().len() && s.drop_first()[t] == c.drop_first()[i - 1];
                assert(s[t + 1] == c[i]);
            }
        }
    } else {
        lemma_subseq_bound(c, s.drop_first());
        assert forall|i: int| 0 <= i < c.len() implies s.contains(#[trigger] c[i]) by {
            let t = choose|t: int|
                0 <= t < s.drop_first().len() && s.drop_first()[t] == c[i];
            assert(s[t + 1] == c[i]);
        }
    }
}

/// Computes [`combs`] of `s[from ..]`, as concrete vectors.
pub(crate) fn combinations_from(s: &Vec<usize>, from: usize, k: usize) -> (r: Vec<Vec<usize>>)
    requires
        from <= s@.len(),
    ensures
        r.deep_view() == combs(s@.skip(from as int), k as nat),
    decreases s@.len() - from,
{
    let ghost tail = s@.skip(from as int);
    if k == 0 {
        let mut r: Vec<Vec<usize>> = Vec::new();
        r.push(Vec::new());
        proof {
            assert(r.deep_view() =~~= combs(tail, 0));
        }
        r
    } else if s.len() - from < k {
        let r: Vec<Vec<usize>> = Vec::new();
        proof {
            assert(tail.len() < k as nat);
            assert(r.deep_view() =~~= combs(tail, k as nat));
        }
        r
    } else {
        proof {
            assert(tail.len() == s@.len() - from);
            assert(tail.drop_first() =~= s@.skip(from as int + 1));
            assert(tail[0] == s@[from as int]);
        }
        let first = s[from];
        let ghost rest = s@.skip(from as int + 1);
        let with_tails = combinations_from(s, from + 1, k - 1);
        let ghost mapped = combs(rest, (k - 1) as nat).map_values(
            |c: Seq<usize>| seq![first] + c,
        );
        let mut r: Vec<Vec<usize>> = Vec::new();
        let mut i: usize = 0;
        while i < with_tails.len()
            invariant
                i <= with_tails@.len(),
                with_tails.deep_view() == combs(rest, (k - 1) as nat),
                mapped == combs(rest, (k - 1) as nat).map_values(
                    |c: Seq<usize>| seq![first] + c,
                ),
                r.deep_view() == mapped.take(i as int),
            decreases with_tails@.len() - i,
        {
            let mut c: Vec<usize> = Vec::new();
            c.push(first);
            let t = &with_tails[i];
            let mut j: usize = 0;
            while j < t.len()
                invariant
                    j <= t@.len(),
                    c@ == seq![first] + t@.take(j as int),
                decreases t@.len() - j,
            {
                c.push(t[j]);
                j += 1;
                proof {
                    assert(c@ =~= seq![first] + t@.take(j as int));
                }
            }
            proof {
                assert(t@.take(t@.len() as int) =~= t@);
                assert(t@ == with_tails.deep_view()[i as int]);
                assert(c@ == mapped[i as int]);
                assert(c.deep_view() =~~= c@);
            }
            let ghost prev_dv = r.deep_view();
            let ghost prev_view = r@;
            r.push(c);
            i += 1;
            proof {
                assert(mapped.len() == combs(rest, (k - 1) as nat).len());
                assert(combs(rest, (k - 1) as nat).len() == with_tails.deep_view().len());
                assert(with_tails.deep_view().len() == with_tails@.len());
                assert(prev_dv.len() == prev_view.len());
                assert(prev_dv == mapped.take((i - 1) as int));
                assert(prev_dv.len() == i - 1);
                assert(r@.len() == i as int);
                assert(r.deep_view().len() == i as int);
                assert forall|u: int|
                    0 <= u < r.deep_view().len() implies r.deep_view()[u] == mapped.take(
                    i as int,
                )[u] by {
                    assert(r.deep_view()[u] == r@[u].deep_view());
                    if u < prev_view.len() {
                        assert(r@[u] == prev_view[u]);
                        assert(prev_dv[u] == prev_view[u].deep_view());
                        assert(prev_dv[u] == mapped[u]);
                    } else {
                        assert(r@[u] == r@.last());
                    }
                }
                assert(r.deep_view() =~= mapped.take(i as int));
            }
        }
        proof {
            assert(mapped.take(mapped.len() as int) =~= mapped);
        }
        let mut without = combinations_from(s, from + 1, k);
        let ghost without_dv = without.deep_view();
        r.append(&mut without);
        proof {
            assert(r.deep_view() =~~= mapped + without_dv);
            assert(combs(tail, k as nat) == mapped + combs(rest, k as nat));
        }
        r
    }
}

} // verus!
