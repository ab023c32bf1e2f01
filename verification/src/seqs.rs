//! Facts about sequences that the loops of this library lean on, and a stable
//! sort.

use vstd::prelude::*;

verus! {

/// Mapping a sequence with one more element maps that element too.
pub broadcast proof fn map_push<A, B>(s: Seq<A>, x: A, f: spec_fn(A) -> B)
    ensures
        #[trigger] s.push(x).map_values(f) == s.map_values(f).push(f(x)),
{
    assert(s.push(x).map_values(f) =~= s.map_values(f).push(f(x)));
}

/// Mapping nothing gives nothing.
pub broadcast proof fn map_empty<A, B>(f: spec_fn(A) -> B)
    ensures
        #[trigger] Seq::<A>::empty().map_values(f) == Seq::<B>::empty(),
{
    assert(Seq::<A>::empty().map_values(f) =~= Seq::<B>::empty());
}

/// One element more of a sequence is that element put behind the ones before.
pub proof fn take_next<A>(s: Seq<A>, i: int)
    requires
        0 <= i < s.len(),
    ensures
        s.take(i + 1) == s.take(i).push(s[i]),
        s.take(i + 1).drop_last() == s.take(i),
        s.take(i + 1).last() == s[i],
{
    assert(s.take(i + 1) =~= s.take(i).push(s[i]));
    assert(s.take(i + 1).drop_last() =~= s.take(i));
}

/// One element more of a sequence adds that element to what is kept of it, if
/// it is kept.
pub proof fn filter_next<A>(s: Seq<A>, keep: spec_fn(A) -> bool, i: int)
    requires
        0 <= i < s.len(),
    ensures
        s.take(i + 1).filter(keep) == if keep(s[i]) {
            s.take(i).filter(keep).push(s[i])
        } else {
            s.take(i).filter(keep)
        },
{
    reveal(Seq::filter);
    take_next(s, i);
}

/// Nothing is kept of nothing.
pub broadcast proof fn filter_none<A>(keep: spec_fn(A) -> bool)
    ensures
        #[trigger] Seq::<A>::empty().filter(keep) == Seq::<A>::empty(),
{
    reveal(Seq::filter);
}

/// What a filter keeps is what was there and passes.
pub proof fn filter_member<A>(s: Seq<A>, keep: spec_fn(A) -> bool, x: A)
    ensures
        s.filter(keep).contains(x) <==> s.contains(x) && keep(x),
        s.filter(keep).len() <= s.len(),
    decreases s.len(),
{
    reveal(Seq::filter);
    if s.len() > 0 {
        let front = s.drop_last();
        let rest = front.filter(keep);
        filter_member(front, keep, x);
        assert(s =~= front.push(s.last()));
        if front.contains(x) {
            let i = choose|i: int| 0 <= i < front.len() && front[i] == x;
            assert(s[i] == x);
        }
        if s.contains(x) && x != s.last() {
            let i = choose|i: int| 0 <= i < s.len() && s[i] == x;
            assert(front[i] == x);
        }
        if s.contains(x) && x == s.last() {
            assert(s[s.len() - 1] == x);
        }
        let out = s.filter(keep);
        if keep(s.last()) {
            assert(out == rest.push(s.last()));
            assert(out[rest.len() as int] == s.last());
            if rest.contains(x) {
                let i = choose|i: int| 0 <= i < rest.len() && rest[i] == x;
                assert(out[i] == x);
            }
            if out.contains(x) && x != s.last() {
                let i = choose|i: int| 0 <= i < out.len() && out[i] == x;
                assert(rest[i] == x);
            }
            assert(s[s.len() - 1] == s.last());
        }
    }
}

/// What `f` makes of the elements, where it makes anything.
pub open spec fn kept<A, B>(s: Seq<A>, f: spec_fn(A) -> Option<B>) -> Seq<B>
    decreases s.len(),
{
    if s.len() == 0 {
        Seq::empty()
    } else {
        match f(s.last()) {
            Some(b) => kept(s.drop_last(), f).push(b),
            None => kept(s.drop_last(), f),
        }
    }
}

/// One element more of a sequence adds what is made of it, if anything is.
pub proof fn kept_next<A, B>(s: Seq<A>, f: spec_fn(A) -> Option<B>, i: int)
    requires
        0 <= i < s.len(),
    ensures
        kept(s.take(i + 1), f) == match f(s[i]) {
            Some(b) => kept(s.take(i), f).push(b),
            None => kept(s.take(i), f),
        },
{
    take_next(s, i);
}

/// What is kept of a sequence is what is made of its elements.
pub proof fn kept_member<A, B>(s: Seq<A>, f: spec_fn(A) -> Option<B>, i: int) -> (k: int)
    requires
        0 <= i < kept(s, f).len(),
    ensures
        0 <= k < s.len(),
        f(s[k]) == Some(kept(s, f)[i]),
    decreases s.len(),
{
    let front = kept(s.drop_last(), f);
    if i < front.len() {
        kept_member(s.drop_last(), f, i)
    } else {
        s.len() - 1
    }
}

/// All of a sequence is the sequence.
pub broadcast proof fn take_all<A>(s: Seq<A>)
    ensures
        #[trigger] s.take(s.len() as int) == s,
{
    assert(s.take(s.len() as int) =~= s);
}

/// None of a sequence is nothing.
pub broadcast proof fn take_none<A>(s: Seq<A>)
    ensures
        #[trigger] s.take(0) == Seq::<A>::empty(),
{
    assert(s.take(0) =~= Seq::<A>::empty());
}

pub broadcast group group_seqs {
    map_push,
    map_empty,
    take_all,
    take_none,
    filter_none,
}

/// `x` put into a sorted sequence, behind everything it does not precede.
pub open spec fn inserted<A>(s: Seq<A>, x: A, precedes: spec_fn(A, A) -> bool) -> Seq<A>
    decreases s.len(),
{
    if s.len() == 0 || !precedes(x, s.last()) {
        s.push(x)
    } else {
        inserted(s.drop_last(), x, precedes).push(s.last())
    }
}

/// The sequence in the order of `precedes`; what neither precedes keeps its
/// order.
pub open spec fn sorted<A>(s: Seq<A>, precedes: spec_fn(A, A) -> bool) -> Seq<A>
    decreases s.len(),
{
    if s.len() == 0 {
        s
    } else {
        inserted(sorted(s.drop_last(), precedes), s.last(), precedes)
    }
}

/// No element precedes one in front of it.
pub open spec fn in_order<A>(s: Seq<A>, precedes: spec_fn(A, A) -> bool) -> bool {
    forall|i: int, j: int| 0 <= i < j < s.len() ==> !precedes(#[trigger] s[j], #[trigger] s[i])
}

/// An order that a sort can follow: nothing precedes itself, and what is not
/// preceded by a second, which is not preceded by a third, is not preceded by
/// the third.
pub open spec fn is_order<A>(precedes: spec_fn(A, A) -> bool) -> bool {
    &&& forall|a: A| !#[trigger] precedes(a, a)
    &&& forall|a: A, b: A|
        #![trigger precedes(a, b)]
        precedes(a, b) ==> !precedes(b, a)
    &&& forall|a: A, b: A, c: A|
        #![trigger precedes(b, a), precedes(c, b)]
        !precedes(b, a) && !precedes(c, b) ==> !precedes(c, a)
}

pub proof fn lemma_inserted_len<A>(s: Seq<A>, x: A, precedes: spec_fn(A, A) -> bool)
    ensures
        inserted(s, x, precedes).len() == s.len() + 1,
        inserted(s, x, precedes).to_multiset() == s.to_multiset().insert(x),
    decreases s.len(),
{
    broadcast use vstd::seq_lib::group_to_multiset_ensures;

    if s.len() == 0 || !precedes(x, s.last()) {
    } else {
        lemma_inserted_len(s.drop_last(), x, precedes);
        assert(s =~= s.drop_last().push(s.last()));
        assert(s.drop_last().to_multiset().insert(x).insert(s.last())
            =~= s.drop_last().to_multiset().insert(s.last()).insert(x));
    }
}

/// Sorting keeps the elements.
pub proof fn lemma_sorted_keeps<A>(s: Seq<A>, precedes: spec_fn(A, A) -> bool)
    ensures
        sorted(s, precedes).len() == s.len(),
        sorted(s, precedes).to_multiset() == s.to_multiset(),
    decreases s.len(),
{
    broadcast use vstd::seq_lib::group_to_multiset_ensures;

    if s.len() > 0 {
        lemma_sorted_keeps(s.drop_last(), precedes);
        lemma_inserted_len(sorted(s.drop_last(), precedes), s.last(), precedes);
        assert(s =~= s.drop_last().push(s.last()));
    }
}

/// `y` precedes nothing in the sequence.
spec fn precedes_none<A>(y: A, s: Seq<A>, precedes: spec_fn(A, A) -> bool) -> bool {
    forall|i: int| 0 <= i < s.len() ==> !precedes(y, #[trigger] s[i])
}

proof fn lemma_inserted_order<A>(s: Seq<A>, x: A, precedes: spec_fn(A, A) -> bool)
    requires
        is_order(precedes),
        in_order(s, precedes),
    ensures
        in_order(inserted(s, x, precedes), precedes),
        forall|y: A|
            precedes_none(y, s, precedes) && !precedes(y, x) ==> #[trigger] precedes_none(
                y,
                inserted(s, x, precedes),
                precedes,
            ),
    decreases s.len(),
{
    let out = inserted(s, x, precedes);
    lemma_inserted_len(s, x, precedes);
    if s.len() == 0 {
    } else if !precedes(x, s.last()) {
        assert forall|i: int, j: int| 0 <= i < j < out.len() implies !precedes(
            #[trigger] out[j],
            #[trigger] out[i],
        ) by {
            if j == s.len() {
                if i < s.len() - 1 {
                    assert(!precedes(s[s.len() - 1], s[i]));
                    assert(!precedes(x, s.last()));
                }
            } else {
                assert(!precedes(s[j], s[i]));
            }
        }
    } else {
        let front = s.drop_last();
        let last = s.last();
        assert forall|i: int, j: int| 0 <= i < j < front.len() implies !precedes(
            #[trigger] front[j],
            #[trigger] front[i],
        ) by {
            assert(!precedes(s[j], s[i]));
        }
        lemma_inserted_order(front, x, precedes);
        let inner = inserted(front, x, precedes);
        assert(precedes_none(last, front, precedes)) by {
            assert forall|i: int| 0 <= i < front.len() implies !precedes(last, #[trigger] front[i]) by {
                assert(!precedes(s[s.len() - 1], s[i]));
            }
        }
        assert(precedes_none(last, inner, precedes));
        assert forall|i: int, j: int| 0 <= i < j < out.len() implies !precedes(
            #[trigger] out[j],
            #[trigger] out[i],
        ) by {
            if j == inner.len() {
                assert(!precedes(last, inner[i]));
            } else {
                assert(!precedes(inner[j], inner[i]));
            }
        }
        assert forall|y: A| precedes_none(y, s, precedes) && !precedes(y, x) implies #[trigger] precedes_none(
            y,
            out,
            precedes,
        ) by {
            assert forall|i: int| 0 <= i < front.len() implies !precedes(y, #[trigger] front[i]) by {
                assert(!precedes(y, s[i]));
            }
            assert(precedes_none(y, inner, precedes));
            assert(!precedes(y, s[s.len() - 1]));
        }
    }
}

/// Sorting puts the elements in order.
pub proof fn lemma_sorted_order<A>(s: Seq<A>, precedes: spec_fn(A, A) -> bool)
    requires
        is_order(precedes),
    ensures
        in_order(sorted(s, precedes), precedes),
    decreases s.len(),
{
    if s.len() > 0 {
        lemma_sorted_order(s.drop_last(), precedes);
        lemma_inserted_order(sorted(s.drop_last(), precedes), s.last(), precedes);
    }
}

/// How many of the elements have a property.
pub open spec fn how_many<A>(s: Seq<A>, p: spec_fn(A) -> bool) -> nat
    decreases s.len(),
{
    if s.len() == 0 {
        0
    } else if p(s.last()) {
        how_many(s.drop_last(), p) + 1
    } else {
        how_many(s.drop_last(), p)
    }
}

proof fn lemma_inserted_count<A>(
    s: Seq<A>,
    x: A,
    precedes: spec_fn(A, A) -> bool,
    p: spec_fn(A) -> bool,
)
    ensures
        how_many(inserted(s, x, precedes), p) == how_many(s, p) + if p(x) {
            1nat
        } else {
            0nat
        },
        inserted(s, x, precedes).len() == s.len() + 1,
    decreases s.len(),
{
    let out = inserted(s, x, precedes);
    if s.len() == 0 || !precedes(x, s.last()) {
        assert(out.drop_last() =~= s);
    } else {
        lemma_inserted_count(s.drop_last(), x, precedes, p);
        assert(out.drop_last() =~= inserted(s.drop_last(), x, precedes));
    }
}

/// Sorting changes neither how many elements there are nor how many have a
/// property.
pub proof fn lemma_sorted_count<A>(
    s: Seq<A>,
    precedes: spec_fn(A, A) -> bool,
    p: spec_fn(A) -> bool,
)
    ensures
        how_many(sorted(s, precedes), p) == how_many(s, p),
        sorted(s, precedes).len() == s.len(),
    decreases s.len(),
{
    if s.len() > 0 {
        lemma_sorted_count(s.drop_last(), precedes, p);
        lemma_inserted_count(sorted(s.drop_last(), precedes), s.last(), precedes, p);
    }
}

/// Where the first `n` have a property, at least `n` have it.
pub proof fn lemma_count_of_front<A>(s: Seq<A>, n: int, p: spec_fn(A) -> bool)
    requires
        0 <= n <= s.len(),
        forall|i: int| 0 <= i < n ==> p(#[trigger] s[i]),
    ensures
        how_many(s, p) >= n,
    decreases s.len(),
{
    if s.len() > 0 {
        let front = s.drop_last();
        assert forall|i: int| 0 <= i < n && i < front.len() implies p(#[trigger] front[i]) by {
            assert(front[i] == s[i]);
        }
        if n == s.len() {
            assert(p(s[n - 1]));
            lemma_count_of_front(front, n - 1, p);
        } else {
            lemma_count_of_front(front, n, p);
        }
    }
}

/// Where all are counted, all have the property.
pub proof fn lemma_all_counted<A>(s: Seq<A>, p: spec_fn(A) -> bool)
    ensures
        how_many(s, p) <= s.len(),
        how_many(s, p) == s.len() ==> forall|i: int| 0 <= i < s.len() ==> p(#[trigger] s[i]),
    decreases s.len(),
{
    if s.len() > 0 {
        let front = s.drop_last();
        lemma_all_counted(front, p);
        if how_many(s, p) == s.len() {
            assert forall|i: int| 0 <= i < s.len() implies p(#[trigger] s[i]) by {
                if i < front.len() {
                    assert(front[i] == s[i]);
                }
            }
        }
    }
}

proof fn lemma_inserted_map<A, B>(
    s: Seq<A>,
    x: A,
    f: spec_fn(A) -> B,
    precedes: spec_fn(A, A) -> bool,
    precedes_b: spec_fn(B, B) -> bool,
)
    requires
        forall|a: A, b: A| #[trigger] precedes(a, b) == precedes_b(f(a), f(b)),
    ensures
        inserted(s, x, precedes).map_values(f) == inserted(s.map_values(f), f(x), precedes_b),
    decreases s.len(),
{
    broadcast use map_push;

    if s.len() == 0 || !precedes(x, s.last()) {
        assert(s.len() > 0 ==> s.map_values(f).last() == f(s.last()));
    } else {
        lemma_inserted_map(s.drop_last(), x, f, precedes, precedes_b);
        assert(s.map_values(f).drop_last() =~= s.drop_last().map_values(f));
        assert(s.map_values(f).last() == f(s.last()));
    }
}

/// Sorting by what `f` gives commutes with mapping by `f`.
pub proof fn lemma_sorted_map<A, B>(
    s: Seq<A>,
    f: spec_fn(A) -> B,
    precedes: spec_fn(A, A) -> bool,
    precedes_b: spec_fn(B, B) -> bool,
)
    requires
        forall|a: A, b: A| #[trigger] precedes(a, b) == precedes_b(f(a), f(b)),
    ensures
        sorted(s, precedes).map_values(f) == sorted(s.map_values(f), precedes_b),
    decreases s.len(),
{
    if s.len() == 0 {
        assert(s.map_values(f) =~= Seq::<B>::empty());
        assert(sorted(s, precedes).map_values(f) =~= Seq::<B>::empty());
    } else {
        lemma_sorted_map(s.drop_last(), f, precedes, precedes_b);
        lemma_inserted_map(sorted(s.drop_last(), precedes), s.last(), f, precedes, precedes_b);
        assert(s.map_values(f).drop_last() =~= s.drop_last().map_values(f));
        assert(s.map_values(f).last() == f(s.last()));
    }
}

/// A way to rank elements: which of two comes first.
pub trait Precedence<T> {
    spec fn precedes(&self, a: T, b: T) -> bool;

    fn first(&self, a: &T, b: &T) -> (result: bool)
        ensures
            result == self.precedes(*a, *b),
    ;
}

/// A ranking as a function of two elements.
pub open spec fn ranking<T, P: Precedence<T>>(rank: P) -> spec_fn(T, T) -> bool {
    |a: T, b: T| rank.precedes(a, b)
}

/// Where `x` goes in a sorted sequence.
spec fn place<A>(s: Seq<A>, x: A, precedes: spec_fn(A, A) -> bool) -> int
    decreases s.len(),
{
    if s.len() == 0 || !precedes(x, s.last()) {
        s.len() as int
    } else {
        place(s.drop_last(), x, precedes)
    }
}

proof fn lemma_place<A>(s: Seq<A>, x: A, precedes: spec_fn(A, A) -> bool)
    ensures
        0 <= place(s, x, precedes) <= s.len(),
        inserted(s, x, precedes) == s.insert(place(s, x, precedes), x),
    decreases s.len(),
{
    if s.len() == 0 || !precedes(x, s.last()) {
        assert(s.insert(s.len() as int, x) =~= s.push(x));
    } else {
        let front = s.drop_last();
        lemma_place(front, x, precedes);
        assert(s.insert(place(front, x, precedes), x) =~= front.insert(
            place(front, x, precedes),
            x,
        ).push(s.last()));
    }
}

fn insert_sorted<T, P: Precedence<T>>(out: &mut Vec<T>, x: T, rank: &P)
    ensures
        final(out)@ == inserted(old(out)@, x, ranking(*rank)),
{
    let ghost all = out@;
    let mut at: usize = out.len();
    assert(all.take(at as int) =~= all);
    while at > 0 && rank.first(&x, &out[at - 1])
        invariant
            out@ == all,
            at <= all.len(),
            place(all, x, ranking(*rank)) == place(all.take(at as int), x, ranking(*rank)),
        decreases at,
    {
        proof {
            take_next(all, at - 1);
        }
        at = at - 1;
    }
    proof {
        lemma_place(all, x, ranking(*rank));
        if at > 0 {
            take_next(all, at - 1);
        }
    }
    out.insert(at, x);
}

/// The elements in the order of `rank`; what neither precedes keeps its order.
pub fn stable_sort<T, P: Precedence<T>>(items: Vec<T>, rank: &P) -> (result: Vec<T>)
    ensures
        result@ == sorted(items@, ranking(*rank)),
{
    let ghost all = items@;
    let mut out: Vec<T> = Vec::new();
    let mut rest = items;
    let mut reversed: Vec<T> = Vec::new();
    while rest.len() > 0
        invariant
            rest@ + reversed@.reverse() == all,
        decreases rest@.len(),
    {
        match rest.pop() {
            Some(x) => {
                let ghost before = reversed@;
                reversed.push(x);
                assert(rest@ + reversed@.reverse() =~= rest@.push(x) + before.reverse());
            },
            None => {},
        }
    }
    assert(reversed@.reverse() =~= all);
    assert(all.take(0) =~= Seq::<T>::empty());
    let ghost mut done: int = 0;
    while reversed.len() > 0
        invariant
            0 <= done <= all.len(),
            reversed@.reverse() == all.skip(done),
            out@ == sorted(all.take(done), ranking(*rank)),
        decreases reversed@.len(),
    {
        let ghost before = reversed@;
        match reversed.pop() {
            Some(x) => {
                proof {
                    assert(before.reverse().len() == before.len() == all.skip(done).len());
                    assert(before.reverse()[0] == x);
                    assert(all.skip(done)[0] == all[done]);
                    assert(reversed@.reverse() =~= before.reverse().skip(1));
                    assert(all.skip(done).skip(1) =~= all.skip(done + 1));
                    take_next(all, done);
                }
                insert_sorted(&mut out, x, rank);
                proof {
                    done = done + 1;
                }
            },
            None => {},
        }
    }
    assert(all.take(done) =~= all);
    out
}

} // verus!
