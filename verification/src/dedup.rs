//! Removing repeated elements while keeping the order of first occurrence.
use vstd::prelude::*;
use itertools::Itertools;

verus! {

/// The elements of `s` in order, each kept only where it occurs first.
pub open spec fn first_occurrences<T>(s: Seq<T>) -> Seq<T>
    decreases s.len(),
{
    if s.len() == 0 {
        Seq::<T>::empty()
    } else if first_occurrences(s.drop_last()).contains(s.last()) {
        first_occurrences(s.drop_last())
    } else {
        first_occurrences(s.drop_last()).push(s.last())
    }
}

/// `first_occurrences(s)` holds the same elements as `s`, none of them twice.
pub proof fn lemma_first_occurrences<T>(s: Seq<T>)
    ensures
        first_occurrences(s).no_duplicates(),
        forall|x: T| first_occurrences(s).contains(x) <==> s.contains(x),
        first_occurrences(s).len() <= s.len(),
    decreases s.len(),
{
    if s.len() > 0 {
        let head = s.drop_last();
        let f = first_occurrences(head);
        lemma_first_occurrences(head);
        let g = first_occurrences(s);
        assert forall|x: T| s.contains(x) implies g.contains(x) by {
            let i = choose|i: int| 0 <= i < s.len() && s[i] == x;
            if i < head.len() {
                assert(head[i] == x);
                assert(head.contains(x));
                assert(f.contains(x));
                let j = choose|j: int| 0 <= j < f.len() && f[j] == x;
                assert(g[j] == x);
            } else {
                assert(x == s.last());
                if !f.contains(s.last()) {
                    assert(g[f.len() as int] == x);
                }
            }
        }
        assert forall|x: T| g.contains(x) implies s.contains(x) by {
            let j = choose|j: int| 0 <= j < g.len() && g[j] == x;
            if j < f.len() {
                assert(f[j] == x);
                assert(f.contains(x));
                assert(head.contains(x));
                let i = choose|i: int| 0 <= i < head.len() && head[i] == x;
                assert(s[i] == x);
            } else {
                assert(x == s.last());
                assert(s[s.len() - 1] == x);
            }
        }
        assert(g.no_duplicates()) by {
            if !f.contains(s.last()) {
                assert forall|a: int, b: int| 0 <= a < g.len() && 0 <= b < g.len() && a != b implies g[a] != g[b] by {
                    if a < f.len() && b < f.len() {
                        assert(f[a] != f[b]);
                    } else if a < f.len() {
                        assert(f[a] == g[a]);
                        assert(f.contains(g[a]));
                    } else {
                        assert(f[b] == g[b]);
                        assert(f.contains(g[b]));
                    }
                }
            }
        }
    }
}

/// `itertools::Itertools::unique` on a vector of integer tuples: the tuples
/// come back in their order, each only where it stands first, as the
/// documentation of `unique` says ("stable", "the first item encountered is
/// the item retained"). std compares such tuples entry by entry.
#[verifier::external_body]
pub(crate) fn unique_rows(rows: Vec<(i32, i32, i32, i32, i32)>) -> (out: Vec<
    (i32, i32, i32, i32, i32),
>)
    ensures
        out@ == first_occurrences(rows@),
{
    rows.into_iter().unique().collect()
}

/// Removing repetitions commutes with renaming the elements one for one.
pub proof fn lemma_first_occurrences_map<T, U>(s: Seq<T>, f: spec_fn(T) -> U)
    requires
        forall|i: int, j: int| 0 <= i < s.len() && 0 <= j < s.len() && f(s[i]) == f(s[j]) ==> s[i] == s[j],
    ensures
        first_occurrences(s.map_values(f)) == first_occurrences(s).map_values(f),
    decreases s.len(),
{
    let m = s.map_values(f);
    if s.len() == 0 {
        assert(first_occurrences(s).map_values(f) =~= Seq::<U>::empty());
    } else {
        let head = s.drop_last();
        assert(m.drop_last() =~= head.map_values(f));
        assert(m.last() == f(s.last()));
        assert forall|i: int, j: int|
            0 <= i < head.len() && 0 <= j < head.len() && f(head[i]) == f(head[j]) implies head[i]
            == head[j] by {
            assert(head[i] == s[i] && head[j] == s[j]);
        }
        lemma_first_occurrences_map(head, f);
        lemma_first_occurrences(head);
        let fh = first_occurrences(head);
        let fm = first_occurrences(head.map_values(f));
        assert(fm == fh.map_values(f));
        if fh.contains(s.last()) {
            let j = choose|j: int| 0 <= j < fh.len() && fh[j] == s.last();
            assert(fm[j] == f(s.last()));
            assert(fm.contains(f(s.last())));
        } else {
            if fm.contains(f(s.last())) {
                let j = choose|j: int| 0 <= j < fm.len() && fm[j] == f(s.last());
                assert(fm[j] == f(fh[j]));
                assert(fh.contains(fh[j]));
                assert(head.contains(fh[j]));
                let i = choose|i: int| 0 <= i < head.len() && head[i] == fh[j];
                assert(s[i] == fh[j]);
                assert(f(s[i]) == f(s[s.len() - 1]));
                assert(false);
            }
            assert(fh.push(s.last()).map_values(f) =~= fm.push(f(s.last())));
        }
    }
}

/// What is left of a sequence without repeated elements when some elements
/// are dropped has no repeated elements, and holds exactly the elements that
/// were kept.
pub proof fn lemma_filter_of_distinct<T>(s: Seq<T>, keep: spec_fn(T) -> bool)
    requires
        s.no_duplicates(),
    ensures
        s.filter(keep).no_duplicates(),
        forall|x: T| s.filter(keep).contains(x) <==> s.contains(x) && keep(x),
    decreases s.len(),
{
    reveal(Seq::filter);
    if s.len() > 0 {
        let head = s.drop_last();
        let last = s.last();
        lemma_filter_of_distinct(head, keep);
        let kept = head.filter(keep);
        let all = s.filter(keep);
        if head.contains(last) {
            let i = choose|i: int| 0 <= i < head.len() && head[i] == last;
            assert(s[i] == s[s.len() - 1]);
            assert(false);
        }
        assert forall|x: T| all.contains(x) implies s.contains(x) && keep(x) by {
            let i = choose|i: int| 0 <= i < all.len() && all[i] == x;
            if i < kept.len() {
                assert(kept[i] == x);
                assert(kept.contains(x));
                assert(head.contains(x) && keep(x));
                let j = choose|j: int| 0 <= j < head.len() && head[j] == x;
                assert(s[j] == x);
            } else {
                assert(x == last);
                assert(s[s.len() - 1] == x);
            }
        }
        assert forall|x: T| s.contains(x) && keep(x) implies all.contains(x) by {
            let j = choose|j: int| 0 <= j < s.len() && s[j] == x;
            if j < head.len() {
                assert(head[j] == x);
                assert(head.contains(x));
                assert(kept.contains(x));
                let i = choose|i: int| 0 <= i < kept.len() && kept[i] == x;
                assert(all[i] == x);
            } else {
                assert(all[kept.len() as int] == x);
            }
        }
        if keep(last) {
            assert forall|i: int, j: int|
                0 <= i < all.len() && 0 <= j < all.len() && i != j implies all[i] != all[j] by {
                if i < kept.len() && j < kept.len() {
                    assert(kept[i] != kept[j]);
                } else if i < kept.len() {
                    assert(kept[i] == all[i]);
                    assert(kept.contains(all[i]));
                } else {
                    assert(kept[j] == all[j]);
                    assert(kept.contains(all[j]));
                }
            }
        }
    }
}

} // verus!
