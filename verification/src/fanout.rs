use vstd::prelude::*;

verus! {

/// The elements of `items` whose mark in `drop` is not set, in their order.
pub open spec fn kept<S>(items: Seq<S>, drop: Seq<bool>) -> Seq<S>
    decreases items.len(),
{
    if items.len() == 0 {
        Seq::empty()
    } else {
        let rest = kept(items.drop_last(), drop);
        if drop[items.len() - 1] {
            rest
        } else {
            rest.push(items.last())
        }
    }
}

/// Removes the elements of `items` whose mark in `drop` is set, keeping the order of the rest
/// (what removing the marked indices from the back does).
pub fn retain_unmarked<S>(items: &mut Vec<S>, drop: &Vec<bool>)
    requires
        drop@.len() == old(items)@.len(),
    ensures
        final(items)@ == kept(old(items)@, drop@),
{
    let mut source: Vec<S> = Vec::new();
    std::mem::swap(&mut source, items);
    let ghost all = source@;
    let n = source.len();
    let mut rev: Vec<S> = Vec::new();
    // Take the elements off the back, keeping the unmarked ones in reverse order.
    let mut i = n;
    while i > 0
        invariant
            i <= n == all.len(),
            drop@.len() == n,
            source@ == all.take(i as int),
            items@.len() == 0,
            rev@.reverse() + Seq::<S>::empty() == kept_suffix(all, drop@, i as int),
        decreases i,
    {
        let x = source.pop().unwrap();
        proof {
            assert(all.take(i as int).drop_last() =~= all.take(i - 1));
        }
        if !drop[i - 1] {
            let ghost r0 = rev@;
            rev.push(x);
            proof {
                assert(rev@.reverse() =~= seq![x] + r0.reverse());
            }
        }
        i = i - 1;
    }
    // Put them back in their original order.
    let mut out: Vec<S> = Vec::new();
    let m = rev.len();
    while rev.len() > 0
        invariant
            rev@.len() <= m,
            out@ + rev@.reverse() == kept_suffix(all, drop@, 0),
        decreases rev@.len(),
    {
        let ghost r0 = rev@;
        let x = rev.pop().unwrap();
        proof {
            assert(r0.reverse() =~= seq![x] + rev@.reverse());
        }
        out.push(x);
        proof {
            assert(out@ + rev@.reverse() =~= (out@.drop_last() + r0.reverse()));
        }
    }
    proof {
        assert(out@ + rev@.reverse() =~= out@);
        lemma_kept_suffix(all, drop@);
    }
    *items = out;
}

/// The unmarked elements of `items` at positions `from` and above.
pub open spec fn kept_suffix<S>(items: Seq<S>, drop: Seq<bool>, from: int) -> Seq<S>
    decreases items.len() - from,
{
    if from >= items.len() {
        Seq::empty()
    } else {
        let rest = kept_suffix(items, drop, from + 1);
        if drop[from] {
            rest
        } else {
            seq![items[from]] + rest
        }
    }
}

proof fn lemma_kept_suffix<S>(items: Seq<S>, drop: Seq<bool>)
    ensures
        kept_suffix(items, drop, 0) == kept(items, drop),
    decreases items.len(),
{
    if items.len() > 0 {
        let p = items.drop_last();
        lemma_kept_suffix(p, drop);
        lemma_kept_suffix_split(items, drop, 0);
    }
}

proof fn lemma_kept_suffix_split<S>(items: Seq<S>, drop: Seq<bool>, from: int)
    requires
        0 <= from < items.len(),
    ensures
        kept_suffix(items, drop, from) == kept_suffix(items.drop_last(), drop, from) + (if drop[items.len()
            - 1] {
            Seq::<S>::empty()
        } else {
            seq![items.last()]
        }),
    decreases items.len() - from,
{
    if from + 1 < items.len() {
        lemma_kept_suffix_split(items, drop, from + 1);
        if drop[from] {
        } else {
            assert(seq![items[from]] + (kept_suffix(items.drop_last(), drop, from + 1) + (if drop[items.len() - 1] {
                Seq::<S>::empty()
            } else {
                seq![items.last()]
            })) =~= (seq![items.drop_last()[from]] + kept_suffix(items.drop_last(), drop, from + 1)) + (
            if drop[items.len() - 1] {
                Seq::<S>::empty()
            } else {
                seq![items.last()]
            }));
        }
    } else {
        assert(kept_suffix(items.drop_last(), drop, from) == Seq::<S>::empty());
        assert(kept_suffix(items, drop, from + 1) == Seq::<S>::empty());
        if !drop[from] {
            assert(seq![items[from]] + Seq::<S>::empty() =~= Seq::<S>::empty() + seq![items.last()]);
        } else {
            assert(Seq::<S>::empty() =~= Seq::<S>::empty() + Seq::<S>::empty());
        }
    }
}

proof fn lemma_kept_nothing_marked<S>(items: Seq<S>, drop: Seq<bool>)
    requires
        drop.len() >= items.len(),
        forall|i: int| 0 <= i < items.len() ==> !drop[i],
    ensures
        kept(items, drop) == items,
    decreases items.len(),
{
    if items.len() > 0 {
        lemma_kept_nothing_marked(items.drop_last(), drop);
        assert(items.drop_last().push(items.last()) =~= items);
    }
}

/// Dropping exactly the element just appended gives the list back: unsubscribing undoes
/// subscribing.
pub proof fn law_drop_last_undoes_push<S>(items: Seq<S>, s: S)
    ensures
        kept(items.push(s), Seq::new(items.len() + 1, |i: int| i == items.len())) == items,
{
    let marks = Seq::new(items.len() + 1, |i: int| i == items.len());
    assert(items.push(s).drop_last() =~= items);
    lemma_kept_nothing_marked(items, marks);
}

} // verus!
