//! The order of strings (as `String`'s `Ord`: lexicographic by code point),
//! and grouping of rows by a key column in that order.
use vstd::prelude::*;

use crate::ast::table_view;

verus! {

/// `a` sorts strictly before `b`: lexicographic by code point, a proper
/// prefix first.
pub open spec fn seq_lt(a: Seq<char>, b: Seq<char>) -> bool
    decreases a.len(),
{
    if a.len() == 0 {
        b.len() > 0
    } else if b.len() == 0 {
        false
    } else if a[0] != b[0] {
        a[0] < b[0]
    } else {
        seq_lt(a.skip(1), b.skip(1))
    }
}

pub proof fn lemma_lt_irreflexive(a: Seq<char>)
    ensures
        !seq_lt(a, a),
    decreases a.len(),
{
    if a.len() > 0 {
        lemma_lt_irreflexive(a.skip(1));
    }
}

pub proof fn lemma_lt_total(a: Seq<char>, b: Seq<char>)
    ensures
        a == b || seq_lt(a, b) || seq_lt(b, a),
    decreases a.len(),
{
    if a.len() > 0 && b.len() > 0 && a[0] == b[0] {
        lemma_lt_total(a.skip(1), b.skip(1));
        if a.skip(1) == b.skip(1) {
            assert(a =~= seq![a[0]] + a.skip(1));
            assert(b =~= seq![b[0]] + b.skip(1));
        }
    }
    if a.len() == 0 && b.len() == 0 {
        assert(a =~= b);
    }
}

pub proof fn lemma_lt_asymmetric(a: Seq<char>, b: Seq<char>)
    ensures
        !(seq_lt(a, b) && seq_lt(b, a)),
    decreases a.len(),
{
    if a.len() > 0 && b.len() > 0 && a[0] == b[0] {
        lemma_lt_asymmetric(a.skip(1), b.skip(1));
    }
}

pub proof fn lemma_lt_transitive(a: Seq<char>, b: Seq<char>, c: Seq<char>)
    requires
        seq_lt(a, b),
        seq_lt(b, c),
    ensures
        seq_lt(a, c),
    decreases a.len(),
{
    if a.len() > 0 && b.len() > 0 && c.len() > 0 && a[0] == b[0] && b[0] == c[0] {
        lemma_lt_transitive(a.skip(1), b.skip(1), c.skip(1));
    }
}

/// Whether `a` sorts strictly before `b`.
pub fn str_lt(a: &String, b: &String) -> (r: bool)
    ensures
        r == seq_lt(a@, b@),
{
    let x = crate::text::chars_of(a.as_str());
    let y = crate::text::chars_of(b.as_str());
    let mut i: usize = 0;
    assert(x@.skip(0) =~= x@);
    assert(y@.skip(0) =~= y@);
    while i < x.len() && i < y.len() && x[i] == y[i]
        invariant
            i <= x.len(),
            i <= y.len(),
            seq_lt(x@, y@) == seq_lt(x@.skip(i as int), y@.skip(i as int)),
        decreases x.len() - i,
    {
        assert(x@.skip(i as int).skip(1) =~= x@.skip(i + 1));
        assert(y@.skip(i as int).skip(1) =~= y@.skip(i + 1));
        i += 1;
    }
    assert(x@.skip(0) =~= x@);
    assert(y@.skip(0) =~= y@);
    if i == x.len() {
        i < y.len()
    } else if i == y.len() {
        false
    } else {
        x[i] < y[i]
    }
}

/// Keys strictly increasing.
pub open spec fn sorted_keys(keys: Seq<Seq<char>>) -> bool {
    forall|a: int, b: int| 0 <= a < b < keys.len() ==> seq_lt(#[trigger] keys[a], #[trigger] keys[b])
}

/// Row `i` takes part in grouping: it has the key column and the column
/// `need`.
pub open spec fn eligible(row: Seq<Seq<char>>, key: usize, need: usize) -> bool {
    key < row.len() && need < row.len()
}

/// Row `j` is eligible and has key `k`.
pub open spec fn has_key(rows: Seq<Seq<Seq<char>>>, key: usize, need: usize, k: Seq<char>) -> spec_fn(
    int,
) -> bool {
    |j: int| eligible(rows[j], key, need) && rows[j][key as int] == k
}

/// The indices `0..n`.
pub open spec fn indices(n: int) -> Seq<int> {
    Seq::new(n as nat, |j: int| j)
}

/// The indices below `upto` of eligible rows whose key is `k`, in order.
pub open spec fn members(
    rows: Seq<Seq<Seq<char>>>,
    key: usize,
    need: usize,
    upto: int,
    k: Seq<char>,
) -> Seq<int> {
    indices(upto).filter(has_key(rows, key, need, k))
}

/// `groups` lists, in key order, each key of the eligible rows below `upto`
/// once, with the indices of the rows that have it.
pub open spec fn is_grouping(
    rows: Seq<Seq<Seq<char>>>,
    key: usize,
    need: usize,
    upto: int,
    groups: Seq<(Seq<char>, Seq<int>)>,
) -> bool {
    &&& sorted_keys(groups.map_values(|g: (Seq<char>, Seq<int>)| g.0))
    &&& forall|j: int|
        0 <= j < upto && eligible(rows[j], key, need) ==> exists|g: int|
            0 <= g < groups.len() && (#[trigger] groups[g]).0 == rows[j][key as int]
    &&& forall|g: int|
        0 <= g < groups.len() ==> (#[trigger] groups[g]).1 == members(
            rows,
            key,
            need,
            upto,
            groups[g].0,
        ) && groups[g].1.len() > 0
}

/// The value of a group list.
pub open spec fn groups_view(g: Seq<(String, Vec<usize>)>) -> Seq<(Seq<char>, Seq<int>)> {
    g.map_values(|x: (String, Vec<usize>)| (x.0@, x.1@.map_values(|i: usize| i as int)))
}

proof fn lemma_sorted_at(gv: Seq<(Seq<char>, Seq<int>)>, a: int, b: int)
    requires
        sorted_keys(gv.map_values(|x: (Seq<char>, Seq<int>)| x.0)),
        0 <= a < b < gv.len(),
    ensures
        seq_lt(gv[a].0, gv[b].0),
{
    let keys = gv.map_values(|x: (Seq<char>, Seq<int>)| x.0);
    assert(keys[a] == gv[a].0);
    assert(keys[b] == gv[b].0);
}

pub proof fn lemma_members_step(
    rows: Seq<Seq<Seq<char>>>,
    key: usize,
    need: usize,
    i: int,
    k: Seq<char>,
)
    requires
        0 <= i < rows.len(),
    ensures
        members(rows, key, need, i + 1, k) == if eligible(rows[i], key, need) && rows[i][key as int]
            == k {
            members(rows, key, need, i, k).push(i)
        } else {
            members(rows, key, need, i, k)
        },
{
    let p = has_key(rows, key, need, k);
    assert(indices(i + 1) =~= indices(i).push(i));
    indices(i).lemma_filter_push(i, p);
}

proof fn lemma_members_absent(
    rows: Seq<Seq<Seq<char>>>,
    key: usize,
    need: usize,
    i: int,
    k: Seq<char>,
)
    requires
        0 <= i <= rows.len(),
        forall|j: int| 0 <= j < i && eligible(rows[j], key, need) ==> rows[j][key as int] != k,
    ensures
        members(rows, key, need, i, k).len() == 0,
    decreases i,
{
    if i == 0 {
        assert(indices(0) =~= Seq::<int>::empty());
        reveal_with_fuel(Seq::filter, 1);
    } else {
        lemma_members_absent(rows, key, need, i - 1, k);
        lemma_members_step(rows, key, need, i - 1, k);
    }
}

/// Each member index is a row below `upto` that is eligible and has the key.
pub proof fn lemma_member_props(
    rows: Seq<Seq<Seq<char>>>,
    key: usize,
    need: usize,
    upto: int,
    k: Seq<char>,
    m: int,
)
    requires
        0 <= upto <= rows.len(),
        0 <= m < members(rows, key, need, upto, k).len(),
    ensures
        0 <= members(rows, key, need, upto, k)[m] < upto,
        eligible(rows[members(rows, key, need, upto, k)[m]], key, need),
        rows[members(rows, key, need, upto, k)[m]][key as int] == k,
    decreases upto,
{
    if upto == 0 {
        assert(indices(0) =~= Seq::<int>::empty());
        reveal_with_fuel(Seq::filter, 1);
    } else {
        lemma_members_step(rows, key, need, upto - 1, k);
        if m < members(rows, key, need, upto - 1, k).len() {
            lemma_member_props(rows, key, need, upto - 1, k, m);
        }
    }
}

/// Each key of a grouping is the key of some eligible row below `upto`,
/// so the other grouping lists it too.
proof fn lemma_grouping_key_in(
    rows: Seq<Seq<Seq<char>>>,
    key: usize,
    need: usize,
    upto: int,
    g1: Seq<(Seq<char>, Seq<int>)>,
    g2: Seq<(Seq<char>, Seq<int>)>,
    a: int,
)
    requires
        0 <= upto <= rows.len(),
        is_grouping(rows, key, need, upto, g1),
        is_grouping(rows, key, need, upto, g2),
        0 <= a < g1.len(),
    ensures
        exists|b: int| 0 <= b < g2.len() && (#[trigger] g2[b]).0 == g1[a].0,
{
    assert(g1[a].1 == members(rows, key, need, upto, g1[a].0) && g1[a].1.len() > 0);
    lemma_member_props(rows, key, need, upto, g1[a].0, 0);
    let j = members(rows, key, need, upto, g1[a].0)[0];
    assert(0 <= j < upto && eligible(rows[j], key, need));
}

/// A grouping is unique: two lists that both group the same rows are equal.
pub proof fn lemma_grouping_unique(
    rows: Seq<Seq<Seq<char>>>,
    key: usize,
    need: usize,
    upto: int,
    g1: Seq<(Seq<char>, Seq<int>)>,
    g2: Seq<(Seq<char>, Seq<int>)>,
)
    requires
        0 <= upto <= rows.len(),
        is_grouping(rows, key, need, upto, g1),
        is_grouping(rows, key, need, upto, g2),
    ensures
        g1 == g2,
{
    // the keys agree index by index, as far as both go
    assert forall|i: int| 0 <= i < g1.len() && 0 <= i < g2.len() implies g1[i].0 == g2[i].0 by {
        lemma_keys_agree(rows, key, need, upto, g1, g2, i);
    }
    if g1.len() != g2.len() {
        if g1.len() > g2.len() {
            lemma_longer(rows, key, need, upto, g1, g2);
        } else {
            lemma_longer(rows, key, need, upto, g2, g1);
            assert forall|i: int| 0 <= i < g1.len() implies g2[i].0 == g1[i].0 by {}
        }
    }
    assert forall|i: int| 0 <= i < g1.len() implies g1[i] == g2[i] by {
        assert(g1[i].1 == members(rows, key, need, upto, g1[i].0));
        assert(g2[i].1 == members(rows, key, need, upto, g2[i].0));
    }
    assert(g1 =~= g2);
}

/// Index `i` holds the same key in both groupings.
proof fn lemma_keys_agree(
    rows: Seq<Seq<Seq<char>>>,
    key: usize,
    need: usize,
    upto: int,
    g1: Seq<(Seq<char>, Seq<int>)>,
    g2: Seq<(Seq<char>, Seq<int>)>,
    i: int,
)
    requires
        0 <= upto <= rows.len(),
        is_grouping(rows, key, need, upto, g1),
        is_grouping(rows, key, need, upto, g2),
        0 <= i < g1.len(),
        0 <= i < g2.len(),
    ensures
        g1[i].0 == g2[i].0,
    decreases i,
{
    if i > 0 {
        lemma_keys_agree(rows, key, need, upto, g1, g2, i - 1);
    }
    assert forall|j: int| 0 <= j < i implies g1[j].0 == g2[j].0 by {
        lemma_keys_agree(rows, key, need, upto, g1, g2, j);
    }
    if g1[i].0 != g2[i].0 {
        lemma_lt_total(g1[i].0, g2[i].0);
        if seq_lt(g1[i].0, g2[i].0) {
            lemma_key_misplaced(rows, key, need, upto, g1, g2, i);
        } else {
            lemma_key_misplaced(rows, key, need, upto, g2, g1, i);
        }
    }
}

/// With equal keys below `i`, the key at `i` of one grouping does not sort
/// before the key at `i` of the other: it would be missing from the other.
proof fn lemma_key_misplaced(
    rows: Seq<Seq<Seq<char>>>,
    key: usize,
    need: usize,
    upto: int,
    g1: Seq<(Seq<char>, Seq<int>)>,
    g2: Seq<(Seq<char>, Seq<int>)>,
    i: int,
)
    requires
        0 <= upto <= rows.len(),
        is_grouping(rows, key, need, upto, g1),
        is_grouping(rows, key, need, upto, g2),
        0 <= i < g1.len(),
        0 <= i < g2.len(),
        forall|j: int| 0 <= j < i ==> g1[j].0 == g2[j].0,
    ensures
        !seq_lt(g1[i].0, g2[i].0),
{
    if seq_lt(g1[i].0, g2[i].0) {
        lemma_grouping_key_in(rows, key, need, upto, g1, g2, i);
        let b = choose|b: int| 0 <= b < g2.len() && (#[trigger] g2[b]).0 == g1[i].0;
        if b < i {
            lemma_sorted_at(g1, b, i);
            assert(g1[b].0 == g2[b].0);
            lemma_lt_irreflexive(g1[i].0);
        } else if b == i {
            lemma_lt_irreflexive(g1[i].0);
        } else {
            lemma_sorted_at(g2, i, b);
            lemma_lt_asymmetric(g1[i].0, g2[i].0);
        }
    }
}

/// A grouping that agrees with another on all their common indices is no
/// longer than it: a key left over would be missing from the other.
proof fn lemma_longer(
    rows: Seq<Seq<Seq<char>>>,
    key: usize,
    need: usize,
    upto: int,
    g1: Seq<(Seq<char>, Seq<int>)>,
    g2: Seq<(Seq<char>, Seq<int>)>,
)
    requires
        0 <= upto <= rows.len(),
        is_grouping(rows, key, need, upto, g1),
        is_grouping(rows, key, need, upto, g2),
        forall|j: int| 0 <= j < g2.len() && j < g1.len() ==> g1[j].0 == g2[j].0,
    ensures
        g1.len() <= g2.len(),
{
    if g1.len() > g2.len() {
        let n = g2.len() as int;
        lemma_grouping_key_in(rows, key, need, upto, g1, g2, n);
        let b = choose|b: int| 0 <= b < g2.len() && (#[trigger] g2[b]).0 == g1[n].0;
        lemma_sorted_at(g1, b, n);
        assert(g1[b].0 == g2[b].0);
        lemma_lt_irreflexive(g1[n].0);
    }
}

/// Groups the rows that have columns `key` and `need` by the text in
/// column `key`, in key order; each group lists its row indices in order.
pub fn group_rows(rows: &Vec<Vec<String>>, key: usize, need: usize) -> (out: Vec<(String, Vec<usize>)>)
    ensures
        is_grouping(table_view(rows@), key, need, rows.len() as int, groups_view(out@)),
{
    let ghost t = table_view(rows@);
    let mut groups: Vec<(String, Vec<usize>)> = Vec::new();
    let mut i: usize = 0;
    while i < rows.len()
        invariant
            i <= rows.len(),
            t == table_view(rows@),
            is_grouping(t, key, need, i as int, groups_view(groups@)),
        decreases rows.len() - i,
    {
        let row = &rows[i];
        assert(t[i as int] == crate::text::strs_view(row@));
        if key < row.len() && need < row.len() {
            let k = &row[key];
            assert(t[i as int][key as int] == k@);
            let mut p: usize = 0;
            while p < groups.len() && str_lt(&groups[p].0, k)
                invariant
                    p <= groups.len(),
                    forall|q: int| 0 <= q < p ==> seq_lt(groups_view(groups@)[q].0, k@),
                decreases groups.len() - p,
            {
                p += 1;
            }
            let ghost gv = groups_view(groups@);
            if p < groups.len() && crate::text::chars_eq(
                &crate::text::chars_of(groups[p].0.as_str()),
                &crate::text::chars_of(k.as_str()),
            ) {
                // existing group: append the row
                let mut entry = groups.remove(p);
                entry.1.push(i);
                groups.insert(p, entry);
                proof {
                    let nv = groups_view(groups@);
                    assert forall|g: int| 0 <= g < nv.len() implies (#[trigger] nv[g]).1 == members(
                        t,
                        key,
                        need,
                        i + 1,
                        nv[g].0,
                    ) && nv[g].1.len() > 0 by {
                        lemma_members_step(t, key, need, i as int, nv[g].0);
                        if g == p {
                            assert(nv[g].1 =~= gv[g].1.push(i as int));
                        } else {
                            assert(nv[g] == gv[g]);
                            let okeys = gv.map_values(|x: (Seq<char>, Seq<int>)| x.0);
                            assert(okeys[p as int] == gv[p as int].0);
                            assert(okeys[g] == gv[g].0);
                            if g < p {
                                assert(seq_lt(okeys[g], k@));
                                lemma_lt_irreflexive(k@);
                            } else {
                                assert(seq_lt(okeys[p as int], okeys[g]));
                                lemma_lt_irreflexive(k@);
                            }
                        }
                    }
                    assert(nv.map_values(|x: (Seq<char>, Seq<int>)| x.0) =~= gv.map_values(
                        |x: (Seq<char>, Seq<int>)| x.0,
                    ));
                    assert forall|j: int|
                        0 <= j < i + 1 && eligible(t[j], key, need) implies exists|g: int|
                        0 <= g < nv.len() && (#[trigger] nv[g]).0 == t[j][key as int] by {
                        if j == i {
                            assert(nv[p as int].0 == t[j][key as int]);
                        } else {
                            let g = choose|g: int|
                                0 <= g < gv.len() && (#[trigger] gv[g]).0 == t[j][key as int];
                            assert(nv[g].0 == gv[g].0);
                        }
                    }
                }
            } else {
                // new group at position p
                let mut idxs: Vec<usize> = Vec::new();
                idxs.push(i);
                let ghost og = groups@;
                let kc = k.clone();
                let ghost ev = (kc, idxs);
                assert(idxs@.map_values(|q: usize| q as int) =~= seq![i as int]);
                groups.insert(p, (kc, idxs));
                proof {
                    let nv = groups_view(groups@);
                    assert(groups@ == og.insert(p as int, ev));
                    assert forall|g: int| 0 <= g < nv.len() implies nv[g] == gv.insert(
                        p as int,
                        (k@, seq![i as int]),
                    )[g] by {
                        if g < p {
                            assert(groups@[g] == og[g]);
                        } else if g == p {
                            assert(groups@[g] == ev);
                        } else {
                            assert(groups@[g] == og[g - 1]);
                        }
                    }
                    assert(nv =~= gv.insert(p as int, (k@, seq![i as int])));
                    if p < gv.len() {
                        lemma_lt_total(gv[p as int].0, k@);
                    }
                    assert forall|j: int| 0 <= j < i && eligible(t[j], key, need) implies t[j][key
                        as int] != k@ by {
                        let g = choose|g: int|
                            0 <= g < gv.len() && (#[trigger] gv[g]).0 == t[j][key as int];
                        if g < p {
                            lemma_lt_irreflexive(k@);
                        } else if g > p {
                            lemma_sorted_at(gv, p as int, g);
                            lemma_lt_asymmetric(gv[p as int].0, k@);
                            if gv[g].0 == k@ {
                                lemma_lt_asymmetric(gv[p as int].0, k@);
                            }
                        }
                    }
                    lemma_members_absent(t, key, need, i as int, k@);
                    let keys = nv.map_values(|x: (Seq<char>, Seq<int>)| x.0);
                    let okeys = gv.map_values(|x: (Seq<char>, Seq<int>)| x.0);
                    assert forall|a: int, b: int| 0 <= a < b < keys.len() implies seq_lt(
                        #[trigger] keys[a],
                        #[trigger] keys[b],
                    ) by {
                        if a < p && b == p {
                        } else if a == p && b > p {
                            if b - 1 > p {
                                assert(seq_lt(okeys[p as int], okeys[b - 1]));
                                lemma_lt_transitive(k@, okeys[p as int], okeys[b - 1]);
                            }
                        } else if a < p && b > p {
                            assert(okeys[a] == keys[a]);
                            assert(okeys[b - 1] == keys[b]);
                        } else if b < p {
                            assert(okeys[a] == keys[a]);
                            assert(okeys[b] == keys[b]);
                        } else {
                            assert(okeys[a - 1] == keys[a]);
                            assert(okeys[b - 1] == keys[b]);
                        }
                    }
                    assert forall|g: int| 0 <= g < nv.len() implies (#[trigger] nv[g]).1 == members(
                        t,
                        key,
                        need,
                        i + 1,
                        nv[g].0,
                    ) && nv[g].1.len() > 0 by {
                        lemma_members_step(t, key, need, i as int, nv[g].0);
                        if g == p {
                            assert(members(t, key, need, i as int, k@) =~= Seq::<int>::empty());
                            assert(nv[g].1 =~= seq![i as int]);
                        } else {
                            let og = if g < p {
                                g
                            } else {
                                g - 1
                            };
                            assert(nv[g] == gv[og]);
                            if g < p {
                                lemma_lt_irreflexive(k@);
                            } else {
                                if og > p {
                                    lemma_sorted_at(gv, p as int, og);
                                    lemma_lt_transitive(k@, gv[p as int].0, gv[og].0);
                                }
                                lemma_lt_irreflexive(k@);
                            }
                        }
                    }
                    assert forall|j: int|
                        0 <= j < i + 1 && eligible(t[j], key, need) implies exists|g: int|
                        0 <= g < nv.len() && (#[trigger] nv[g]).0 == t[j][key as int] by {
                        if j == i {
                            assert(nv[p as int].0 == t[j][key as int]);
                        } else {
                            let g = choose|g: int|
                                0 <= g < gv.len() && (#[trigger] gv[g]).0 == t[j][key as int];
                            if g < p {
                                assert(nv[g] == gv[g]);
                            } else {
                                assert(nv[g + 1] == gv[g]);
                            }
                        }
                    }
                }
            }
        } else {
            proof {
                let gv = groups_view(groups@);
                assert forall|g: int| 0 <= g < gv.len() implies (#[trigger] gv[g]).1 == members(
                    t,
                    key,
                    need,
                    i + 1,
                    gv[g].0,
                ) && gv[g].1.len() > 0 by {
                    lemma_members_step(t, key, need, i as int, gv[g].0);
                }
            }
        }
        i += 1;
    }
    groups
}

} // verus!
