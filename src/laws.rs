//! What the containers' contracts give for runs of several operations.
//!
//! Each step below is taken exactly as the contracts state it: a push at the
//! front is `seq![x] + s`, a push at the back is `s.push(x)`, a pop at the front
//! hands out `s[0]` and leaves `s.drop_first()`, a pop at the back hands out
//! `s.last()` and leaves `s.drop_last()`, and a pop on an empty container hands
//! out nothing and leaves it as it was.
use vstd::prelude::*;

verus! {

/// The values after pushing each of `xs`, in order, at the front of `s`.
pub open spec fn pushed_front<T>(s: Seq<T>, xs: Seq<T>) -> Seq<T>
    decreases xs.len(),
{
    if xs.len() == 0 {
        s
    } else {
        seq![xs.last()] + pushed_front(s, xs.drop_last())
    }
}

/// The values after pushing each of `xs`, in order, at the back of `s`.
pub open spec fn pushed_back<T>(s: Seq<T>, xs: Seq<T>) -> Seq<T>
    decreases xs.len(),
{
    if xs.len() == 0 {
        s
    } else {
        pushed_back(s, xs.drop_last()).push(xs.last())
    }
}

/// The values that `n` pops at the front of `s` hand out, in order.
pub open spec fn popped_front<T>(s: Seq<T>, n: nat) -> Seq<T>
    decreases n,
{
    if n == 0 || s.len() == 0 {
        Seq::empty()
    } else {
        seq![s[0]] + popped_front(s.drop_first(), (n - 1) as nat)
    }
}

/// The values left after `n` pops at the front of `s`.
pub open spec fn left_after_front_pops<T>(s: Seq<T>, n: nat) -> Seq<T>
    decreases n,
{
    if n == 0 || s.len() == 0 {
        s
    } else {
        left_after_front_pops(s.drop_first(), (n - 1) as nat)
    }
}

/// The values that `n` pops at the back of `s` hand out, in order.
pub open spec fn popped_back<T>(s: Seq<T>, n: nat) -> Seq<T>
    decreases n,
{
    if n == 0 || s.len() == 0 {
        Seq::empty()
    } else {
        seq![s.last()] + popped_back(s.drop_last(), (n - 1) as nat)
    }
}

/// The values left after `n` pops at the back of `s`.
pub open spec fn left_after_back_pops<T>(s: Seq<T>, n: nat) -> Seq<T>
    decreases n,
{
    if n == 0 || s.len() == 0 {
        s
    } else {
        left_after_back_pops(s.drop_last(), (n - 1) as nat)
    }
}

proof fn lemma_pushed_front<T>(s: Seq<T>, xs: Seq<T>)
    ensures
        pushed_front(s, xs) == xs.reverse() + s,
    decreases xs.len(),
{
    if xs.len() > 0 {
        lemma_pushed_front(s, xs.drop_last());
        assert(xs.reverse() =~= seq![xs.last()] + xs.drop_last().reverse());
        assert(seq![xs.last()] + (xs.drop_last().reverse() + s) =~= xs.reverse() + s);
    }
}

proof fn lemma_pushed_back<T>(s: Seq<T>, xs: Seq<T>)
    ensures
        pushed_back(s, xs) == s + xs,
    decreases xs.len(),
{
    if xs.len() > 0 {
        lemma_pushed_back(s, xs.drop_last());
        assert((s + xs.drop_last()).push(xs.last()) =~= s + xs);
    }
}

proof fn lemma_front_pops<T>(ys: Seq<T>, s: Seq<T>)
    ensures
        popped_front(ys + s, ys.len()) == ys,
        left_after_front_pops(ys + s, ys.len()) == s,
    decreases ys.len(),
{
    if ys.len() > 0 {
        lemma_front_pops(ys.drop_first(), s);
        assert((ys + s).drop_first() =~= ys.drop_first() + s);
        assert(seq![ys[0]] + ys.drop_first() =~= ys);
    } else {
        assert(ys + s =~= s);
    }
}

proof fn lemma_back_pops<T>(s: Seq<T>, ys: Seq<T>)
    ensures
        popped_back(s + ys, ys.len()) == ys.reverse(),
        left_after_back_pops(s + ys, ys.len()) == s,
    decreases ys.len(),
{
    if ys.len() > 0 {
        lemma_back_pops(s, ys.drop_last());
        assert((s + ys).drop_last() =~= s + ys.drop_last());
        assert(seq![ys.last()] + ys.drop_last().reverse() =~= ys.reverse());
    } else {
        assert(s + ys =~= s);
    }
}

/// Values pushed at the front come back from the front in reverse order, and
/// as many pops as pushes leave the container as it was.
pub proof fn lemma_front_pushes_pop_front_in_reverse<T>(s: Seq<T>, xs: Seq<T>)
    ensures
        popped_front(pushed_front(s, xs), xs.len()) == xs.reverse(),
        left_after_front_pops(pushed_front(s, xs), xs.len()) == s,
{
    lemma_pushed_front(s, xs);
    lemma_front_pops(xs.reverse(), s);
}

/// Values pushed at the back come back from the back in reverse order, and
/// as many pops as pushes leave the container as it was.
pub proof fn lemma_back_pushes_pop_back_in_reverse<T>(s: Seq<T>, xs: Seq<T>)
    ensures
        popped_back(pushed_back(s, xs), xs.len()) == xs.reverse(),
        left_after_back_pops(pushed_back(s, xs), xs.len()) == s,
{
    lemma_pushed_back(s, xs);
    lemma_back_pops(s, xs);
}

/// Values pushed at the back of an empty deque come out of the front in the
/// order they were pushed, and leave it empty.
pub proof fn lemma_back_pushes_pop_front_in_order<T>(xs: Seq<T>)
    ensures
        popped_front(pushed_back(Seq::empty(), xs), xs.len()) == xs,
        left_after_front_pops(pushed_back(Seq::empty(), xs), xs.len()) == Seq::<T>::empty(),
{
    lemma_pushed_back(Seq::empty(), xs);
    assert(Seq::<T>::empty() + xs =~= xs + Seq::<T>::empty());
    lemma_front_pops(xs, Seq::empty());
}

/// Values pushed at the front of an empty deque come out of the back in the
/// order they were pushed, and leave it empty.
pub proof fn lemma_front_pushes_pop_back_in_order<T>(xs: Seq<T>)
    ensures
        popped_back(pushed_front(Seq::empty(), xs), xs.len()) == xs,
        left_after_back_pops(pushed_front(Seq::empty(), xs), xs.len()) == Seq::<T>::empty(),
{
    lemma_pushed_front(Seq::empty(), xs);
    assert(xs.reverse() + Seq::<T>::empty() =~= Seq::<T>::empty() + xs.reverse());
    lemma_back_pops(Seq::empty(), xs.reverse());
    assert(xs.reverse().reverse() =~= xs);
}

/// Popping an empty container, any number of times and at either end, hands
/// out nothing and leaves it empty.
pub proof fn lemma_pops_on_empty<T>(n: nat)
    ensures
        popped_front(Seq::<T>::empty(), n) == Seq::<T>::empty(),
        left_after_front_pops(Seq::<T>::empty(), n) == Seq::<T>::empty(),
        popped_back(Seq::<T>::empty(), n) == Seq::<T>::empty(),
        left_after_back_pops(Seq::<T>::empty(), n) == Seq::<T>::empty(),
{
}

} // verus!
