//! Facts about sequences that the loops of the library lean on.

use vstd::prelude::*;

verus! {

/// Filtering one element further: the filter of the first `i + 1` elements
/// is that of the first `i`, with element `i` behind it where it passes.
pub proof fn filter_step<A>(s: Seq<A>, i: int, keep: spec_fn(A) -> bool)
    requires
        0 <= i < s.len(),
    ensures
        s.take(i + 1).filter(keep) == (if keep(s[i]) {
            s.take(i).filter(keep).push(s[i])
        } else {
            s.take(i).filter(keep)
        }),
{
    assert(s.take(i + 1) =~= s.take(i).push(s[i]));
    s.take(i).lemma_filter_push(s[i], keep);
}

/// Nothing passes a filter of nothing.
pub proof fn filter_start<A>(s: Seq<A>, keep: spec_fn(A) -> bool)
    ensures
        s.take(0).filter(keep) == Seq::<A>::empty(),
{
    s.take(0).lemma_filter_len(keep);
    assert(s.take(0).filter(keep) =~= Seq::<A>::empty());
}

/// A filtered sequence holds exactly the elements that pass, and repeats
/// none if the sequence repeated none.
pub proof fn filter_facts<A>(s: Seq<A>, keep: spec_fn(A) -> bool)
    ensures
        forall|x: A| #[trigger] s.filter(keep).contains(x) <==> s.contains(x) && keep(x),
        s.no_duplicates() ==> s.filter(keep).no_duplicates(),
    decreases s.len(),
{
    reveal(Seq::filter);
    if s.len() == 0 {
        assert forall|x: A| #[trigger] s.filter(keep).contains(x) <==> s.contains(x) && keep(
            x,
        ) by {}
    } else {
        let rest = s.drop_last();
        let last = s.last();
        filter_facts(rest, keep);
        assert(s =~= rest.push(last));
        rest.lemma_filter_push(last, keep);
        assert forall|x: A| #[trigger] s.filter(keep).contains(x) <==> s.contains(x) && keep(
            x,
        ) by {
            push_contains(rest, last, x);
            if keep(last) {
                push_contains(rest.filter(keep), last, x);
            }
        }
        if s.no_duplicates() {
            assert(rest.no_duplicates());
            if keep(last) {
                assert(!rest.contains(last)) by {
                    if rest.contains(last) {
                        let j = choose|j: int| 0 <= j < rest.len() && rest[j] == last;
                        assert(s[j] == s[s.len() as int - 1]);
                    }
                }
                push_keeps_distinct(rest.filter(keep), last);
            }
        }
    }
}

/// What a sequence holds after a push.
pub proof fn push_contains<A>(s: Seq<A>, last: A, x: A)
    ensures
        s.push(last).contains(x) <==> (s.contains(x) || x == last),
{
    if s.contains(x) {
        let j = choose|j: int| 0 <= j < s.len() && s[j] == x;
        assert(s.push(last)[j] == x);
    }
    if x == last {
        assert(s.push(last)[s.len() as int] == x);
    }
    if s.push(last).contains(x) {
        let j = choose|j: int| 0 <= j < s.push(last).len() && s.push(last)[j] == x;
        if j < s.len() {
            assert(s[j] == x);
        }
    }
}

/// Pushing an element that a sequence without repeats lacks keeps it without repeats.
pub proof fn push_keeps_distinct<A>(s: Seq<A>, last: A)
    requires
        s.no_duplicates(),
        !s.contains(last),
    ensures
        s.push(last).no_duplicates(),
{
    assert forall|a: int, b: int|
        0 <= a < s.push(last).len() && 0 <= b < s.push(last).len() && a != b implies s.push(
        last,
    )[a] != s.push(last)[b] by {
        if a < s.len() {
            assert(s.contains(s[a]));
        }
        if b < s.len() {
            assert(s.contains(s[b]));
        }
    }
}

/// What a concatenation holds.
pub proof fn concat_contains<A>(a: Seq<A>, b: Seq<A>, x: A)
    ensures
        (a + b).contains(x) <==> (a.contains(x) || b.contains(x)),
{
    if a.contains(x) {
        let j = choose|j: int| 0 <= j < a.len() && a[j] == x;
        assert((a + b)[j] == x);
    }
    if b.contains(x) {
        let j = choose|j: int| 0 <= j < b.len() && b[j] == x;
        assert((a + b)[a.len() + j] == x);
    }
    if (a + b).contains(x) {
        let j = choose|j: int| 0 <= j < (a + b).len() && (a + b)[j] == x;
        if j < a.len() {
            assert(a[j] == x);
        } else {
            assert(b[j - a.len()] == x);
        }
    }
}

/// Puts the ids of `more` behind those of `ids`.
pub fn append_ids(ids: &mut Vec<u128>, more: &Vec<u128>)
    ensures
        final(ids)@ == old(ids)@ + more@,
{
    let mut i: usize = 0;
    while i < more.len()
        invariant
            i <= more@.len(),
            ids@ == old(ids)@ + more@.take(i as int),
        decreases more@.len() - i,
    {
        proof {
            assert(more@.take(i as int + 1) =~= more@.take(i as int).push(more@[i as int]));
            assert(old(ids)@ + more@.take(i as int + 1) =~= (old(ids)@ + more@.take(
                i as int,
            )).push(more@[i as int]));
        }
        ids.push(more[i]);
        i += 1;
    }
    proof {
        assert(more@.take(i as int) =~= more@);
    }
}

} // verus!
