//! Ranking the albums, artists and genres of the library by how many tracks
//! each has, the largest first.
use vstd::prelude::*;

verus! {

/// The counts of `s` never grow from one entry to a later one.
pub open spec fn counts_desc<T>(s: Seq<(T, usize)>) -> bool {
    forall|i: int, j: int| 0 <= i < j < s.len() ==> s[i].1 >= s[j].1
}

/// The entries of `s` whose count is `c`, in their order in `s`.
pub open spec fn with_count<T>(s: Seq<(T, usize)>, c: usize) -> Seq<(T, usize)> {
    s.filter(|e: (T, usize)| e.1 == c)
}

/// Orders `items` by count, largest first; entries with the same count keep
/// their order.
pub fn rank_by_count<T>(items: Vec<(T, usize)>) -> (r: Vec<(T, usize)>)
    ensures
        counts_desc(r@),
        forall|c: usize| #[trigger] with_count(r@, c) == with_count(items@, c),
        r@.to_multiset() == items@.to_multiset(),
{
    broadcast use vstd::seq_lib::group_to_multiset_ensures;
    let ghost all = items@;
    let mut rest = items;
    let mut out: Vec<(T, usize)> = Vec::new();
    let mut taken: usize = 0;
    let n = rest.len();
    proof {
        assert(rest@ =~= all.skip(0));
        assert(all.take(0) =~= Seq::<(T, usize)>::empty());
        assert forall|c: usize| #[trigger] with_count(out@, c) == with_count(all.take(0), c) by {
            assert(out@ =~= all.take(0));
        }
    }
    while taken < n
        invariant
            n == all.len(),
            taken <= n,
            rest@ == all.skip(taken as int),
            counts_desc(out@),
            forall|c: usize| #[trigger] with_count(out@, c) == with_count(all.take(taken as int), c),
            out@.to_multiset() == all.take(taken as int).to_multiset(),
        decreases n - taken,
    {
        let x = rest.remove(0);
        proof {
            assert(x == all[taken as int]);
            assert(rest@ =~= all.skip(taken + 1));
        }
        let mut p: usize = 0;
        while p < out.len() && out[p].1 >= x.1
            invariant
                p <= out.len(),
                forall|k: int| 0 <= k < p ==> out@[k].1 >= x.1,
            decreases out.len() - p,
        {
            p += 1;
        }
        let ghost before = out@;
        proof {
            assert forall|k: int| p <= k < before.len() implies before[k].1 < x.1 by {
                assert(before[p as int].1 < x.1);
            }
        }
        out.insert(p, x);
        proof {
            let pre = before.take(p as int);
            let post = before.skip(p as int);
            assert(before =~= pre + post);
            assert(out@ =~= pre + seq![x] + post);
            assert(all.take(taken + 1) =~= all.take(taken as int).push(x));
            assert forall|c: usize| #[trigger] with_count(out@, c) == with_count(all.take(taken + 1), c) by {
                let f = |e: (T, usize)| e.1 == c;
                assert(with_count(out@, c) == out@.filter(f));
                assert(with_count(before, c) == before.filter(f));
                assert(with_count(all.take(taken + 1), c) == all.take(taken + 1).filter(f));
                assert(with_count(all.take(taken as int), c) == all.take(taken as int).filter(f));
                Seq::filter_distributes_over_add(pre, post, f);
                Seq::filter_distributes_over_add(pre.push(x), post, f);
                all.take(taken as int).lemma_filter_push(x, f);
                pre.lemma_filter_push(x, f);
                assert(out@ =~= pre.push(x) + post);
                if c == x.1 {
                    assert forall|k: int| 0 <= k < post.len() implies !f(post[k]) by {
                        assert(post[k] == before[p + k]);
                    }
                    post.lemma_all_neg_filter_empty(f);
                    assert(post.filter(f) =~= Seq::<(T, usize)>::empty());
                    assert(before.filter(f) =~= pre.filter(f));
                    assert(out@.filter(f) =~= pre.filter(f).push(x));
                } else {
                    assert(out@.filter(f) =~= pre.filter(f) + post.filter(f));
                }
            }
            vstd::seq_lib::to_multiset_insert(before, p as int, x);
            assert(out@ == before.insert(p as int, x));
            all.take(taken as int).to_multiset_ensures();
            assert forall|a: int, b: int| 0 <= a < b < out@.len() implies out@[a].1 >= out@[b].1 by {
                if b < p {
                } else if b == p {
                } else if a < p {
                    assert(out@[b] == before[b - 1]);
                } else if a == p {
                    assert(out@[b] == before[b - 1]);
                } else {
                    assert(out@[a] == before[a - 1]);
                    assert(out@[b] == before[b - 1]);
                }
            }
        }
        taken += 1;
    }
    proof {
        assert(all.take(n as int) =~= all);
    }
    out
}

/// The positions of the entries of `s` whose count is above `min`, in order.
pub open spec fn counted_above<T>(s: Seq<(T, usize)>, min: usize) -> Seq<usize>
    decreases s.len(),
{
    if s.len() == 0 {
        Seq::<usize>::empty()
    } else if s.last().1 > min {
        counted_above(s.drop_last(), min).push((s.len() - 1) as usize)
    } else {
        counted_above(s.drop_last(), min)
    }
}

/// The positions of the entries whose count is above `min`; the genre list
/// shows only genres with more than one track.
pub fn entries_above<T>(items: &Vec<(T, usize)>, min: usize) -> (r: Vec<usize>)
    ensures
        r@ == counted_above(items@, min),
{
    let mut out: Vec<usize> = Vec::new();
    let mut i: usize = 0;
    while i < items.len()
        invariant
            i <= items.len(),
            out@ == counted_above(items@.take(i as int), min),
        decreases items.len() - i,
    {
        proof {
            assert(items@.take(i + 1).drop_last() =~= items@.take(i as int));
        }
        if items[i].1 > min {
            out.push(i);
        }
        i += 1;
    }
    assert(items@.take(items.len() as int) =~= items@);
    out
}

} // verus!
