//! Counting over sequences: the spec-level notion of "how many elements
//! satisfy a predicate", with the lemmas the loop invariants of the
//! generator, the monitor and the audit lean on.

use vstd::prelude::*;

verus! {

/// How many elements of `s` satisfy `f`.
pub open spec fn count_where<A>(s: Seq<A>, f: spec_fn(A) -> bool) -> int
    decreases s.len(),
{
    if s.len() == 0 {
        0
    } else {
        count_where(s.drop_last(), f) + if f(s.last()) {
            1int
        } else {
            0int
        }
    }
}

pub proof fn lemma_count_where_nonneg<A>(s: Seq<A>, f: spec_fn(A) -> bool)
    ensures
        0 <= count_where(s, f) <= s.len(),
    decreases s.len(),
{
    if s.len() > 0 {
        lemma_count_where_nonneg(s.drop_last(), f);
    }
}

pub proof fn lemma_count_where_push<A>(s: Seq<A>, f: spec_fn(A) -> bool, a: A)
    ensures
        count_where(s.push(a), f) == count_where(s, f) + if f(a) {
            1int
        } else {
            0int
        },
{
    assert(s.push(a).drop_last() =~= s);
}

pub proof fn lemma_count_where_take_step<A>(s: Seq<A>, f: spec_fn(A) -> bool, i: int)
    requires
        0 <= i < s.len(),
    ensures
        count_where(s.take(i + 1), f) == count_where(s.take(i), f) + if f(s[i]) {
            1int
        } else {
            0int
        },
{
    assert(s.take(i + 1).drop_last() =~= s.take(i));
}

pub proof fn lemma_count_where_take_all<A>(s: Seq<A>, f: spec_fn(A) -> bool)
    ensures
        count_where(s.take(s.len() as int), f) == count_where(s, f),
{
    assert(s.take(s.len() as int) =~= s);
}

pub proof fn lemma_count_where_append<A>(s: Seq<A>, t: Seq<A>, f: spec_fn(A) -> bool)
    ensures
        count_where(s + t, f) == count_where(s, f) + count_where(t, f),
    decreases t.len(),
{
    if t.len() == 0 {
        assert(s + t =~= s);
    } else {
        lemma_count_where_append(s, t.drop_last(), f);
        assert((s + t).drop_last() =~= s + t.drop_last());
        assert((s + t).last() == t.last());
    }
}

/// A zero count means no element satisfies the predicate, and conversely.
pub proof fn lemma_count_where_zero<A>(s: Seq<A>, f: spec_fn(A) -> bool)
    ensures
        count_where(s, f) == 0 <==> forall|i: int| 0 <= i < s.len() ==> !f(s[i]),
    decreases s.len(),
{
    if s.len() > 0 {
        lemma_count_where_zero(s.drop_last(), f);
        lemma_count_where_nonneg(s.drop_last(), f);
        if count_where(s, f) == 0 {
            assert forall|i: int| 0 <= i < s.len() implies !f(s[i]) by {
                if i < s.len() - 1 {
                    assert(s.drop_last()[i] == s[i]);
                } else {
                    assert(s[i] == s.last());
                }
            }
        } else {
            if count_where(s.drop_last(), f) != 0 {
                let j = choose|j: int| 0 <= j < s.drop_last().len() && f(s.drop_last()[j]);
                assert(f(s[j]));
            } else {
                assert(f(s.last()));
                assert(f(s[s.len() - 1]));
            }
        }
    }
}

/// An element satisfying the predicate makes the count positive.
pub proof fn lemma_count_where_pos<A>(s: Seq<A>, f: spec_fn(A) -> bool)
    ensures
        count_where(s, f) > 0 <==> exists|i: int| 0 <= i < s.len() && f(s[i]),
{
    lemma_count_where_nonneg(s, f);
    lemma_count_where_zero(s, f);
}

/// A count is unchanged by a suffix none of which satisfies the predicate.
pub proof fn lemma_count_where_suffix_zero<A>(pre: Seq<A>, post: Seq<A>, f: spec_fn(A) -> bool)
    requires
        pre.len() <= post.len(),
        post.take(pre.len() as int) == pre,
        forall|k: int| pre.len() <= k < post.len() ==> !f(#[trigger] post[k]),
    ensures
        count_where(post, f) == count_where(pre, f),
{
    let suffix = post.skip(pre.len() as int);
    assert(post =~= pre + suffix);
    lemma_count_where_append(pre, suffix, f);
    lemma_count_where_zero(suffix, f);
    assert forall|i: int| 0 <= i < suffix.len() implies !f(suffix[i]) by {
        assert(suffix[i] == post[i + pre.len()]);
    }
}

/// A prefix never counts more than the whole.
pub proof fn lemma_count_where_take_le<A>(s: Seq<A>, f: spec_fn(A) -> bool, n: int)
    requires
        0 <= n <= s.len(),
    ensures
        count_where(s.take(n), f) <= count_where(s, f),
{
    assert(s =~= s.take(n) + s.skip(n));
    lemma_count_where_append(s.take(n), s.skip(n), f);
    lemma_count_where_nonneg(s.skip(n), f);
}

/// Pushing never disturbs an existing prefix.
pub proof fn lemma_take_push<A>(s: Seq<A>, a: A, n: int)
    requires
        0 <= n <= s.len(),
    ensures
        s.push(a).take(n) == s.take(n),
{
    assert(s.push(a).take(n) =~= s.take(n));
}

/// A stronger predicate never counts more.
pub proof fn lemma_count_where_mono<A>(s: Seq<A>, f: spec_fn(A) -> bool, g: spec_fn(A) -> bool)
    requires
        forall|x: A| #[trigger] f(x) ==> g(x),
    ensures
        count_where(s, f) <= count_where(s, g),
    decreases s.len(),
{
    if s.len() > 0 {
        lemma_count_where_mono(s.drop_last(), f, g);
    }
}

} // verus!
