//! The fallback graph: each locale's declared list of fallbacks, and the
//! closure of a locale under it.

use vstd::prelude::*;
use vstd::set_lib::lemma_len_subset;
use crate::text::texts;

verus! {

/// A fallback graph: pairs of a locale and its fallbacks in declared order.
/// Where a locale stands twice, its first pair counts.
pub type Graph = Seq<(Seq<char>, Seq<Seq<char>>)>;

/// The view of a graph held in vectors.
pub open spec fn graph_view(g: Seq<(String, Vec<String>)>) -> Graph {
    Seq::new(g.len(), |i: int| (g[i].0@, texts(g[i].1@)))
}

/// The index of the first pair at or after `from` that belongs to `locale`,
/// or the number of pairs where there is none.
pub open spec fn entry_index(g: Graph, locale: Seq<char>, from: int) -> int
    decreases g.len() - from,
{
    if from < 0 || from >= g.len() {
        g.len() as int
    } else if g[from].0 == locale {
        from
    } else {
        entry_index(g, locale, from + 1)
    }
}

/// The declared fallbacks of `locale`; none where the graph has no pair for it.
pub open spec fn direct_fallbacks(g: Graph, locale: Seq<char>) -> Seq<Seq<char>> {
    let p = entry_index(g, locale, 0);
    if p < g.len() {
        g[p].1
    } else {
        Seq::empty()
    }
}

/// `x` is a declared fallback of `a`.
pub open spec fn is_fallback_of(g: Graph, a: Seq<char>, x: Seq<char>) -> bool {
    direct_fallbacks(g, a).contains(x)
}

/// Every fallback of the first `n` locales of `c` is in `c`.
pub open spec fn closed_upto(g: Graph, c: Seq<Seq<char>>, n: int) -> bool {
    forall|i: int, x: Seq<char>|
        0 <= i < n && #[trigger] is_fallback_of(g, c[i], x) ==> c.contains(x)
}

/// The locale at `k` is a fallback of one that stands before it.
pub open spec fn has_parent(g: Graph, c: Seq<Seq<char>>, k: int) -> bool {
    exists|i: int| 0 <= i < k && #[trigger] is_fallback_of(g, c[i], c[k])
}

/// `c` lists the closure of `start`: it begins with `start`, names no locale
/// twice, holds every fallback of each of its locales, and holds nothing
/// else: each locale after the first is a fallback of an earlier one.
pub open spec fn is_closure(g: Graph, start: Seq<char>, c: Seq<Seq<char>>) -> bool {
    &&& c.len() >= 1
    &&& c[0] == start
    &&& c.no_duplicates()
    &&& closed_upto(g, c, c.len() as int)
    &&& forall|k: int| 1 <= k < c.len() ==> #[trigger] has_parent(g, c, k)
}

/// All fallbacks that the graph declares, list after list.
pub open spec fn all_targets(g: Graph) -> Seq<Seq<char>>
    decreases g.len(),
{
    if g.len() == 0 {
        Seq::empty()
    } else {
        all_targets(g.drop_last()) + g.last().1
    }
}

proof fn lemma_target_listed(g: Graph, p: int, x: Seq<char>)
    requires
        0 <= p < g.len(),
        g[p].1.contains(x),
    ensures
        all_targets(g).contains(x),
    decreases g.len(),
{
    if p == g.len() - 1 {
        let j = choose|j: int| 0 <= j < g[p].1.len() && g[p].1[j] == x;
        let before = all_targets(g.drop_last());
        assert(all_targets(g)[before.len() + j] == x);
    } else {
        lemma_target_listed(g.drop_last(), p, x);
        let before = all_targets(g.drop_last());
        let j = choose|j: int| 0 <= j < before.len() && before[j] == x;
        assert(all_targets(g)[j] == x);
    }
}

proof fn lemma_fallback_is_target(g: Graph, a: Seq<char>, x: Seq<char>)
    requires
        is_fallback_of(g, a, x),
    ensures
        all_targets(g).contains(x),
{
    let p = entry_index(g, a, 0);
    lemma_entry_index_bounds(g, a, 0);
    lemma_target_listed(g, p, x);
}

proof fn lemma_entry_index_bounds(g: Graph, locale: Seq<char>, from: int)
    requires
        0 <= from,
    ensures
        from <= entry_index(g, locale, from) || entry_index(g, locale, from) == g.len(),
        entry_index(g, locale, from) <= g.len() || from > g.len(),
        0 <= entry_index(g, locale, from),
    decreases g.len() - from,
{
    if from < g.len() && g[from].0 != locale {
        lemma_entry_index_bounds(g, locale, from + 1);
    }
}

proof fn lemma_distinct_within(v: Seq<Seq<char>>, u: Seq<Seq<char>>)
    requires
        v.no_duplicates(),
        forall|i: int| 0 <= i < v.len() ==> u.contains(#[trigger] v[i]),
    ensures
        v.len() <= u.len(),
{
    broadcast use vstd::seq_lib::seq_to_set_is_finite;

    v.unique_seq_to_set();
    u.lemma_cardinality_of_set();
    assert forall|x: Seq<char>| v.to_set().contains(x) implies u.to_set().contains(x) by {
        let i = choose|i: int| 0 <= i < v.len() && v[i] == x;
        assert(u.contains(v[i]));
    }
    lemma_len_subset(v.to_set(), u.to_set());
}

/// A locale without declared fallbacks is its closure by itself.
pub proof fn lemma_closure_without_fallbacks(g: Graph, start: Seq<char>, c: Seq<Seq<char>>)
    requires
        direct_fallbacks(g, start).len() == 0,
        is_closure(g, start, c),
    ensures
        c == seq![start],
{
    if c.len() > 1 {
        assert(has_parent(g, c, 1));
        let i = choose|i: int| 0 <= i < 1 && #[trigger] is_fallback_of(g, c[i], c[1]);
        assert(direct_fallbacks(g, c[0]).contains(c[1]));
    }
    assert(c =~= seq![start]);
}

/// The closure of a locale is one set, however it is listed: two closures of
/// one locale hold the same locales.
pub proof fn lemma_closure_unique(g: Graph, start: Seq<char>, c1: Seq<Seq<char>>, c2: Seq<Seq<char>>)
    requires
        is_closure(g, start, c1),
        is_closure(g, start, c2),
    ensures
        c1.to_set() == c2.to_set(),
        c1.len() == c2.len(),
{
    lemma_closure_least(g, c1, c2, c1.len() as int);
    lemma_closure_least(g, c2, c1, c2.len() as int);
    assert(c1.to_set() =~= c2.to_set());
    c1.unique_seq_to_set();
    c2.unique_seq_to_set();
}

/// The closure of a locale lies within every list that names the locale and
/// holds every fallback of each of its locales.
pub proof fn lemma_closure_least(g: Graph, c1: Seq<Seq<char>>, c2: Seq<Seq<char>>, n: int)
    requires
        c1.len() >= 1,
        is_closure(g, c1[0], c1),
        closed_upto(g, c2, c2.len() as int),
        c2.contains(c1[0]),
        0 <= n <= c1.len(),
    ensures
        forall|k: int| 0 <= k < n ==> c2.contains(#[trigger] c1[k]),
    decreases n,
{
    if n > 0 {
        lemma_closure_least(g, c1, c2, n - 1);
        let k = n - 1;
        if k > 0 {
            assert(has_parent(g, c1, k));
            let i = choose|i: int| 0 <= i < k && #[trigger] is_fallback_of(g, c1[i], c1[k]);
            assert(c2.contains(c1[i]));
            let m = choose|m: int| 0 <= m < c2.len() && c2[m] == c1[i];
            assert(is_fallback_of(g, c2[m], c1[k]));
        }
    }
}

/// Two locales that are each in the other's closure, as on a cycle of
/// fallbacks, have the same closure.
pub proof fn lemma_closure_on_cycle(
    g: Graph,
    a: Seq<char>,
    b: Seq<char>,
    ca: Seq<Seq<char>>,
    cb: Seq<Seq<char>>,
)
    requires
        is_closure(g, a, ca),
        is_closure(g, b, cb),
        ca.contains(b),
        cb.contains(a),
    ensures
        ca.to_set() == cb.to_set(),
{
    lemma_closure_least(g, ca, cb, ca.len() as int);
    lemma_closure_least(g, cb, ca, cb.len() as int);
    assert(ca.to_set() =~= cb.to_set());
}

/// Whether `list` names `x`.
pub fn contains_text(list: &Vec<String>, x: &String) -> (r: bool)
    ensures
        r == texts(list@).contains(x@),
{
    let mut i: usize = 0;
    while i < list.len()
        invariant
            i <= list.len(),
            forall|k: int| 0 <= k < i ==> texts(list@)[k] != x@,
        decreases list.len() - i,
    {
        if list[i] == *x {
            assert(texts(list@)[i as int] == x@);
            return true;
        }
        i = i + 1;
    }
    false
}

/// The index of the first pair of `locale`, or the number of pairs.
pub fn find_entry(g: &Vec<(String, Vec<String>)>, locale: &String) -> (p: usize)
    ensures
        p == entry_index(graph_view(g@), locale@, 0),
        p <= g.len(),
{
    let mut i: usize = 0;
    while i < g.len()
        invariant
            i <= g.len(),
            entry_index(graph_view(g@), locale@, 0) == entry_index(
                graph_view(g@),
                locale@,
                i as int,
            ),
        decreases g.len() - i,
    {
        if g[i].0 == *locale {
            return i;
        }
        i = i + 1;
    }
    i
}

/// Lists the closure of `start`: the locale itself, then every locale that a
/// chain of declared fallbacks leads to, each once. A cycle in the graph ends
/// where it meets a locale that is already listed.
pub fn enumerate_fallbacks(g: &Vec<(String, Vec<String>)>, start: &String) -> (c: Vec<String>)
    ensures
        is_closure(graph_view(g@), start@, texts(c@)),
{
    let ghost gv = graph_view(g@);
    let ghost universe = all_targets(gv);
    let mut c: Vec<String> = Vec::new();
    c.push(start.clone());
    let mut i: usize = 0;
    proof {
        assert(texts(c@).skip(1) =~= Seq::<Seq<char>>::empty());
    }
    while i < c.len()
        invariant
            gv == graph_view(g@),
            universe == all_targets(gv),
            c.len() >= 1,
            texts(c@)[0] == start@,
            texts(c@).no_duplicates(),
            i <= c.len(),
            closed_upto(gv, texts(c@), i as int),
            forall|k: int| 1 <= k < c.len() ==> #[trigger] has_parent(gv, texts(c@), k),
            forall|k: int| 1 <= k < c.len() ==> universe.contains(#[trigger] texts(c@)[k]),
            c.len() <= universe.len() + 1,
        decreases universe.len() + 1 - i,
    {
        let from = c[i].clone();
        let p = find_entry(g, &from);
        if p < g.len() {
            let list = &g[p].1;
            let mut j: usize = 0;
            assert(texts(list@) == direct_fallbacks(gv, from@));
            while j < list.len()
                invariant
                    gv == graph_view(g@),
                    universe == all_targets(gv),
                    c.len() >= 1,
                    texts(c@)[0] == start@,
                    texts(c@).no_duplicates(),
                    i < c.len(),
                    texts(c@)[i as int] == from@,
                    texts(list@) == direct_fallbacks(gv, from@),
                    j <= list.len(),
                    closed_upto(gv, texts(c@), i as int),
                    forall|k: int| 1 <= k < c.len() ==> #[trigger] has_parent(gv, texts(c@), k),
                    forall|k: int|
                        1 <= k < c.len() ==> universe.contains(#[trigger] texts(c@)[k]),
                    c.len() <= universe.len() + 1,
                    forall|m: int| 0 <= m < j ==> texts(c@).contains(#[trigger] texts(list@)[m]),
                decreases list.len() - j,
            {
                let ghost before = texts(c@);
                let ghost x = list@[j as int]@;
                assert(texts(list@)[j as int] == x);
                assert(is_fallback_of(gv, from@, x));
                if !contains_text(&c, &list[j]) {
                    c.push(list[j].clone());
                    proof {
                        let after = texts(c@);
                        assert(after =~= before.push(x));
                        lemma_fallback_is_target(gv, from@, x);
                        assert(after.no_duplicates());
                        assert forall|k: int| 1 <= k < after.len() implies #[trigger] has_parent(
                            gv,
                            after,
                            k,
                        ) by {
                            if k < before.len() {
                                assert(has_parent(gv, before, k));
                                let w = choose|w: int|
                                    0 <= w < k && #[trigger] is_fallback_of(gv, before[w], before[k]);
                                assert(is_fallback_of(gv, after[w], after[k]));
                            } else {
                                assert(is_fallback_of(gv, after[i as int], after[k]));
                            }
                        }
                        assert forall|a: int, y: Seq<char>|
                            0 <= a < i && #[trigger] is_fallback_of(
                                gv,
                                after[a],
                                y,
                            ) implies after.contains(y) by {
                            assert(is_fallback_of(gv, before[a], y));
                            assert(before.contains(y));
                            let w = choose|w: int| 0 <= w < before.len() && before[w] == y;
                            assert(after[w] == y);
                        }
                        assert forall|m: int| 0 <= m < j + 1 implies after.contains(
                            #[trigger] texts(list@)[m],
                        ) by {
                            if m < j {
                                let y = texts(list@)[m];
                                assert(before.contains(y));
                                let w = choose|w: int| 0 <= w < before.len() && before[w] == y;
                                assert(after[w] == y);
                            } else {
                                assert(after[before.len() as int] == x);
                            }
                        }
                        let tail = after.skip(1);
                        assert forall|k: int| 0 <= k < tail.len() implies universe.contains(
                            #[trigger] tail[k],
                        ) by {
                            assert(tail[k] == after[k + 1]);
                            if k + 1 < before.len() {
                                assert(after[k + 1] == before[k + 1]);
                            }
                        }
                        assert(tail.no_duplicates());
                        lemma_distinct_within(tail, universe);
                    }
                }
                j = j + 1;
            }
            proof {
                let cv = texts(c@);
                assert forall|a: int, y: Seq<char>|
                    0 <= a < i + 1 && #[trigger] is_fallback_of(gv, cv[a], y) implies cv.contains(
                    y,
                ) by {
                    if a == i {
                        let m = choose|m: int|
                            0 <= m < texts(list@).len() && texts(list@)[m] == y;
                        assert(cv.contains(texts(list@)[m]));
                    }
                }
            }
        } else {
            assert(direct_fallbacks(gv, from@).len() == 0);
        }
        i = i + 1;
    }
    c
}

} // verus!
