//! Grouping rows by a key, in order of first appearance.

use vstd::prelude::*;
use crate::hashing::{opt_text, group_table_contents, group_table_new, group_table_get, group_table_insert};

verus! {

/// The result of a grouping: each group's key and the row indices that
/// belong to it, groups ordered by the first appearance of their key.
pub struct GroupedIndices {
    pub groups: Vec<(Option<String>, Vec<usize>)>,
}

/// A group as a (key, rows) pair of plain values.
pub open spec fn group_view(g: (Option<String>, Vec<usize>)) -> (Option<Seq<char>>, Seq<usize>) {
    (opt_text(g.0), g.1@)
}

/// Position of the last group with key `k`, or -1.
pub open spec fn find_group(gs: Seq<(Option<Seq<char>>, Seq<usize>)>, k: Option<Seq<char>>) -> int
    decreases gs.len(),
{
    if gs.len() == 0 {
        -1
    } else if gs.last().0 == k {
        gs.len() - 1
    } else {
        find_group(gs.drop_last(), k)
    }
}

/// The grouping of rows `0..keys.len()` by key: row `i` joins the group of
/// `keys[i]`, which is opened (at the end) when the key first appears.
pub open spec fn grouping(keys: Seq<Option<Seq<char>>>) -> Seq<(Option<Seq<char>>, Seq<usize>)>
    decreases keys.len(),
{
    if keys.len() == 0 {
        Seq::empty()
    } else {
        let prev = grouping(keys.drop_last());
        let i = keys.len() - 1;
        let k = keys.last();
        let g = find_group(prev, k);
        if g >= 0 {
            prev.update(g, (prev[g].0, prev[g].1.push(i as usize)))
        } else {
            prev.push((k, seq![i as usize]))
        }
    }
}

pub proof fn lemma_find_group_range(gs: Seq<(Option<Seq<char>>, Seq<usize>)>, k: Option<Seq<char>>)
    ensures
        -1 <= find_group(gs, k) < gs.len(),
        find_group(gs, k) >= 0 ==> gs[find_group(gs, k)].0 == k,
        find_group(gs, k) == -1 ==> forall|g: int| 0 <= g < gs.len() ==> #[trigger] gs[g].0 != k,
    decreases gs.len(),
{
    if gs.len() > 0 {
        lemma_find_group_range(gs.drop_last(), k);
        if gs.last().0 != k {
            assert forall|g: int| 0 <= g < gs.len() - 1 implies #[trigger] gs[g].0 == gs.drop_last()[g].0 by {}
        }
    }
}

pub proof fn lemma_find_group_update(
    gs: Seq<(Option<Seq<char>>, Seq<usize>)>,
    g: int,
    v: (Option<Seq<char>>, Seq<usize>),
    k: Option<Seq<char>>,
)
    requires
        0 <= g < gs.len(),
        v.0 == gs[g].0,
    ensures
        find_group(gs.update(g, v), k) == find_group(gs, k),
    decreases gs.len(),
{
    let u = gs.update(g, v);
    if g == gs.len() - 1 {
        assert(u.drop_last() =~= gs.drop_last());
    } else {
        assert(u.drop_last() =~= gs.drop_last().update(g, v));
        lemma_find_group_update(gs.drop_last(), g, v, k);
    }
}

pub proof fn lemma_find_group_push(gs: Seq<(Option<Seq<char>>, Seq<usize>)>, v: (Option<Seq<char>>, Seq<usize>), k: Option<Seq<char>>)
    ensures
        find_group(gs.push(v), k) == (if v.0 == k { gs.len() as int } else { find_group(gs, k) }),
{
    assert(gs.push(v).drop_last() =~= gs);
}

impl GroupedIndices {
    /// Groups rows `0..keys.len()` by their key, in order of first appearance;
    /// within a group, rows are in increasing order.
    pub fn from_keys(keys: Vec<Option<String>>) -> (r: GroupedIndices)
        ensures
            r.groups@.map_values(|g: (Option<String>, Vec<usize>)| group_view(g)) == grouping(
                keys@.map_values(|k: Option<String>| opt_text(k)),
            ),
    {
        let ghost kv = keys@.map_values(|k: Option<String>| opt_text(k));
        let mut groups: Vec<(Option<String>, Vec<usize>)> = Vec::new();
        let mut table = group_table_new();
        let n = keys.len();
        let mut i: usize = 0;
        for key in it: keys
            invariant
                n == kv.len(),
                it.seq() == keys@,
                i == it.index(),
                i <= n,
                kv == keys@.map_values(|k: Option<String>| opt_text(k)),
                groups@.map_values(|g: (Option<String>, Vec<usize>)| group_view(g)) == grouping(kv.take(i as int)),
                forall|k: Option<Seq<char>>| #[trigger] group_table_contents(table).dom().contains(k) <==> find_group(
                    grouping(kv.take(i as int)),
                    k,
                ) >= 0,
                forall|k: Option<Seq<char>>| group_table_contents(table).dom().contains(k) ==> #[trigger] group_table_contents(
                    table,
                )[k] == find_group(grouping(kv.take(i as int)), k),
        {
            let ghost gv = groups@.map_values(|g: (Option<String>, Vec<usize>)| group_view(g));
            let ghost prev = grouping(kv.take(i as int));
            let ghost k = opt_text(key);
            proof {
                assert(kv.take(i + 1).drop_last() =~= kv.take(i as int));
                assert(kv.take(i + 1).last() == k);
                lemma_find_group_range(prev, k);
            }
            match group_table_get(&table, &key) {
                Some(g) => {
                    let ghost old_groups = groups@;
                    groups[g].1.push(i);
                    proof {
                        assert(groups@.map_values(|g: (Option<String>, Vec<usize>)| group_view(g)) =~= prev.update(
                            g as int,
                            (prev[g as int].0, prev[g as int].1.push(i)),
                        ));
                        assert forall|k2: Option<Seq<char>>| #[trigger] group_table_contents(table).dom().contains(k2)
                            implies group_table_contents(table)[k2] == find_group(grouping(kv.take(i + 1)), k2) by {
                            lemma_find_group_update(prev, g as int, (prev[g as int].0, prev[g as int].1.push(i)), k2);
                        }
                        assert forall|k2: Option<Seq<char>>| #[trigger] group_table_contents(table).dom().contains(k2)
                            <==> find_group(grouping(kv.take(i + 1)), k2) >= 0 by {
                            lemma_find_group_update(prev, g as int, (prev[g as int].0, prev[g as int].1.push(i)), k2);
                        }
                    }
                },
                None => {
                    let pos = groups.len();
                    let copy = key.clone();
                    group_table_insert(&mut table, copy, pos);
                    let mut members: Vec<usize> = Vec::new();
                    members.push(i);
                    groups.push((key, members));
                    proof {
                        assert(members@ =~= seq![i]);
                        assert(groups@.map_values(|g: (Option<String>, Vec<usize>)| group_view(g)) =~= prev.push((k, seq![i])));
                        assert forall|k2: Option<Seq<char>>| #[trigger] group_table_contents(table).dom().contains(k2)
                            <==> find_group(grouping(kv.take(i + 1)), k2) >= 0 by {
                            lemma_find_group_push(prev, (k, seq![i]), k2);
                        }
                        assert forall|k2: Option<Seq<char>>| #[trigger] group_table_contents(table).dom().contains(k2)
                            implies group_table_contents(table)[k2] == find_group(grouping(kv.take(i + 1)), k2) by {
                            lemma_find_group_push(prev, (k, seq![i]), k2);
                        }
                    }
                },
            }
            i = i + 1;
        }
        proof {
            assert(kv.take(n as int) =~= kv);
        }
        GroupedIndices { groups }
    }
}

} // verus!
