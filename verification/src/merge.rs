//! The keyed insert-or-update merge: reconciling freshly aggregated rows
//! against a persisted table. Rows whose key exists only in the incoming
//! set are appended; rows whose key exists in both have their measures
//! replaced; rows whose key exists only in the table are left untouched —
//! nothing is ever deleted.
use vstd::prelude::*;

verus! {

/// A table row addressed by a composite aggregate key.
pub trait Keyed<K>: Sized + Copy {
    /// The row's aggregate key.
    spec fn skey(self) -> K;

    /// Whether two rows share a key.
    fn key_eq(&self, other: &Self) -> (b: bool)
        ensures
            b == (self.skey() == other.skey()),
    ;
}

/// No two rows of the sequence share a key: the invariant every persisted
/// table and every aggregation result maintains.
pub open spec fn unique_keys<K, R: Keyed<K>>(s: Seq<R>) -> bool {
    forall|i: int, j: int|
        0 <= i < s.len() && 0 <= j < s.len() && i != j ==> #[trigger] s[i].skey()
            != #[trigger] s[j].skey()
}

/// The contents of a keyed row sequence as a map from key to row.
pub open spec fn rows_map<K, R: Keyed<K>>(s: Seq<R>) -> Map<K, R>
    decreases s.len(),
{
    if s.len() == 0 {
        Map::empty()
    } else {
        rows_map(s.drop_last()).insert(s.last().skey(), s.last())
    }
}

/// The rows of `s`, in order, whose key is absent from `m`.
pub open spec fn rows_not_in<K, R: Keyed<K>>(s: Seq<R>, m: Map<K, R>) -> Seq<R>
    decreases s.len(),
{
    if s.len() == 0 {
        Seq::empty()
    } else {
        let prefix = rows_not_in(s.drop_last(), m);
        if m.dom().contains(s.last().skey()) {
            prefix
        } else {
            prefix.push(s.last())
        }
    }
}

/// The merge, as a function of the old table and the incoming rows: every
/// table position whose key the incoming set carries is overwritten with
/// the incoming row, every other position is untouched, and the incoming
/// rows with new keys are appended in incoming order.
pub open spec fn spec_merge<K, R: Keyed<K>>(table: Seq<R>, incoming: Seq<R>) -> Seq<R> {
    let inc = rows_map(incoming);
    Seq::new(
        table.len(),
        |j: int|
            if inc.dom().contains(table[j].skey()) {
                inc[table[j].skey()]
            } else {
                table[j]
            },
    ) + rows_not_in(incoming, rows_map(table))
}

/// A key is in the map of a row sequence exactly when some row carries it,
/// and every stored row carries the key it is stored under.
pub proof fn lemma_rows_map_props<K, R: Keyed<K>>(s: Seq<R>)
    ensures
        forall|k: K| #[trigger]
            rows_map(s).dom().contains(k) ==> exists|i: int|
                0 <= i < s.len() && #[trigger] s[i].skey() == k,
        forall|i: int| 0 <= i < s.len() ==> rows_map(s).dom().contains(#[trigger] s[i].skey()),
        forall|k: K| #[trigger] rows_map(s).dom().contains(k) ==> rows_map(s)[k].skey() == k,
    decreases s.len(),
{
    if s.len() > 0 {
        let pre = s.drop_last();
        lemma_rows_map_props(pre);
        assert forall|k: K| #[trigger] rows_map(s).dom().contains(k) implies exists|i: int|
            0 <= i < s.len() && #[trigger] s[i].skey() == k by {
            if k == s.last().skey() {
                assert(s[s.len() - 1].skey() == k);
            } else {
                assert(rows_map(pre).dom().contains(k));
                let i = choose|i: int| 0 <= i < pre.len() && #[trigger] pre[i].skey() == k;
                assert(pre[i] == s[i]);
                assert(s[i].skey() == k);
            }
        }
        assert forall|i: int| 0 <= i < s.len() implies rows_map(s).dom().contains(
            #[trigger] s[i].skey(),
        ) by {
            if i < s.len() - 1 {
                assert(pre[i].skey() == s[i].skey());
            }
        }
        assert forall|k: K| #[trigger] rows_map(s).dom().contains(k) implies rows_map(s)[k].skey()
            == k by {
            if k != s.last().skey() {
                assert(rows_map(pre).dom().contains(k));
            }
        }
    }
}

/// In a sequence with unique keys, looking a row's own key up in the map
/// gives that row back.
pub proof fn lemma_rows_map_index<K, R: Keyed<K>>(s: Seq<R>, j: int)
    requires
        unique_keys(s),
        0 <= j < s.len(),
    ensures
        rows_map(s).dom().contains(s[j].skey()),
        rows_map(s)[s[j].skey()] == s[j],
    decreases s.len(),
{
    let pre = s.drop_last();
    assert(unique_keys(pre)) by {
        assert(forall|i: int| 0 <= i < pre.len() ==> pre[i] == s[i]);
    }
    if j == s.len() - 1 {
    } else {
        lemma_rows_map_index(pre, j);
        assert(pre[j] == s[j]);
        assert(s[j].skey() != s.last().skey());
    }
}

/// Every row `rows_not_in` keeps comes from `s`, its key is absent from
/// `m`, and every row of `s` whose key is absent from `m` is kept.
pub proof fn lemma_rows_not_in_props<K, R: Keyed<K>>(s: Seq<R>, m: Map<K, R>)
    ensures
        forall|j: int|
            #![trigger rows_not_in(s, m)[j]]
            0 <= j < rows_not_in(s, m).len() ==> exists|i: int|
                0 <= i < s.len() && #[trigger] s[i] == rows_not_in(s, m)[j],
        forall|j: int|
            0 <= j < rows_not_in(s, m).len() ==> !m.dom().contains(
                #[trigger] rows_not_in(s, m)[j].skey(),
            ),
        forall|i: int|
            0 <= i < s.len() && !m.dom().contains(#[trigger] s[i].skey()) ==> exists|j: int|
                0 <= j < rows_not_in(s, m).len() && #[trigger] rows_not_in(s, m)[j].skey()
                    == s[i].skey(),
    decreases s.len(),
{
    if s.len() > 0 {
        let pre = s.drop_last();
        lemma_rows_not_in_props(pre, m);
        let kept = rows_not_in(s, m);
        let kept_pre = rows_not_in(pre, m);
        assert forall|j: int| #![trigger kept[j]] 0 <= j < kept.len() implies exists|i: int|
            0 <= i < s.len() && #[trigger] s[i] == kept[j] by {
            if j < kept_pre.len() {
                let i = choose|i: int| 0 <= i < pre.len() && #[trigger] pre[i] == kept_pre[j];
                assert(s[i] == kept[j]);
            } else {
                assert(s[s.len() - 1] == kept[j]);
            }
        }
        assert forall|i: int|
            0 <= i < s.len() && !m.dom().contains(#[trigger] s[i].skey()) implies exists|j: int|
            0 <= j < kept.len() && #[trigger] kept[j].skey() == s[i].skey() by {
            if i < s.len() - 1 {
                assert(pre[i] == s[i]);
                let j = choose|j: int|
                    0 <= j < kept_pre.len() && #[trigger] kept_pre[j].skey() == pre[i].skey();
                assert(kept[j].skey() == s[i].skey());
            } else {
                assert(kept[kept.len() - 1].skey() == s[i].skey());
            }
        }
    }
}

/// Filtering by key absence preserves key uniqueness.
pub proof fn lemma_rows_not_in_unique<K, R: Keyed<K>>(s: Seq<R>, m: Map<K, R>)
    requires
        unique_keys(s),
    ensures
        unique_keys(rows_not_in(s, m)),
    decreases s.len(),
{
    if s.len() > 0 {
        let pre = s.drop_last();
        assert(unique_keys(pre)) by {
            assert(forall|i: int| 0 <= i < pre.len() ==> pre[i] == s[i]);
        }
        lemma_rows_not_in_unique(pre, m);
        lemma_rows_not_in_props(pre, m);
        let kept = rows_not_in(s, m);
        let kept_pre = rows_not_in(pre, m);
        if !m.dom().contains(s.last().skey()) {
            assert forall|i: int, j: int|
                0 <= i < kept.len() && 0 <= j < kept.len() && i != j implies #[trigger] kept[i].skey()
                != #[trigger] kept[j].skey() by {
                if i < kept_pre.len() && j < kept_pre.len() {
                    assert(kept[i] == kept_pre[i] && kept[j] == kept_pre[j]);
                } else {
                    let (a, b) = if j == kept.len() - 1 {
                        (i, j)
                    } else {
                        (j, i)
                    };
                    assert(kept[b] == s.last());
                    let ia = choose|x: int| 0 <= x < pre.len() && #[trigger] pre[x] == kept_pre[a];
                    assert(s[ia].skey() != s[s.len() - 1].skey());
                }
            }
        }
    }
}

/// The merge leaves the key of every pre-existing table position in place.
pub proof fn lemma_spec_merge_keys<K, R: Keyed<K>>(table: Seq<R>, incoming: Seq<R>)
    ensures
        spec_merge(table, incoming).len() == table.len() + rows_not_in(
            incoming,
            rows_map(table),
        ).len(),
        forall|j: int|
            0 <= j < table.len() ==> #[trigger] spec_merge(table, incoming)[j].skey()
                == table[j].skey(),
{
    lemma_rows_map_props(incoming);
    assert forall|j: int| 0 <= j < table.len() implies #[trigger] spec_merge(table, incoming)[j].skey()
        == table[j].skey() by {
        let inc = rows_map(incoming);
        if inc.dom().contains(table[j].skey()) {
            assert(inc[table[j].skey()].skey() == table[j].skey());
        }
    }
}

/// Merging tables with unique keys yields a table with unique keys.
pub proof fn lemma_spec_merge_unique<K, R: Keyed<K>>(table: Seq<R>, incoming: Seq<R>)
    requires
        unique_keys(table),
        unique_keys(incoming),
    ensures
        unique_keys(spec_merge(table, incoming)),
{
    let merged = spec_merge(table, incoming);
    let appended = rows_not_in(incoming, rows_map(table));
    lemma_spec_merge_keys(table, incoming);
    lemma_rows_not_in_props(incoming, rows_map(table));
    lemma_rows_not_in_unique(incoming, rows_map(table));
    lemma_rows_map_props(table);
    assert forall|i: int, j: int|
        0 <= i < merged.len() && 0 <= j < merged.len() && i != j implies #[trigger] merged[i].skey()
        != #[trigger] merged[j].skey() by {
        if i < table.len() && j < table.len() {
        } else if i >= table.len() && j >= table.len() {
            assert(merged[i] == appended[i - table.len()]);
            assert(merged[j] == appended[j - table.len()]);
        } else {
            let (a, b) = if i < table.len() {
                (i, j)
            } else {
                (j, i)
            };
            assert(merged[b] == appended[b - table.len()]);
            assert(!rows_map(table).dom().contains(appended[b - table.len()].skey()));
            assert(rows_map(table).dom().contains(table[a].skey()));
        }
    }
}

/// The map view of a merge is the old map overwritten by the incoming map.
pub proof fn lemma_spec_merge_map<K, R: Keyed<K>>(table: Seq<R>, incoming: Seq<R>)
    requires
        unique_keys(table),
        unique_keys(incoming),
    ensures
        rows_map(spec_merge(table, incoming)) =~= rows_map(table).union_prefer_right(
            rows_map(incoming),
        ),
{
    let merged = spec_merge(table, incoming);
    let appended = rows_not_in(incoming, rows_map(table));
    let mt = rows_map(table);
    let mi = rows_map(incoming);
    lemma_spec_merge_keys(table, incoming);
    lemma_spec_merge_unique(table, incoming);
    lemma_rows_not_in_props(incoming, mt);
    lemma_rows_map_props(table);
    lemma_rows_map_props(incoming);
    lemma_rows_map_props(merged);
    let mm = rows_map(merged);
    assert forall|k: K| #[trigger] mm.dom().contains(k) implies mt.union_prefer_right(
        mi,
    ).dom().contains(k) && mm[k] == mt.union_prefer_right(mi)[k] by {
        let j = choose|j: int| 0 <= j < merged.len() && #[trigger] merged[j].skey() == k;
        lemma_rows_map_index(merged, j);
        if j < table.len() {
            lemma_rows_map_index(table, j);
            if mi.dom().contains(k) {
                assert(merged[j] == mi[k]);
            } else {
                assert(merged[j] == table[j]);
            }
        } else {
            assert(merged[j] == appended[j - table.len()]);
            let i = choose|i: int|
                0 <= i < incoming.len() && #[trigger] incoming[i] == appended[j - table.len()];
            lemma_rows_map_index(incoming, i);
            assert(!mt.dom().contains(k));
            assert(mm[k] == mi[k]);
        }
    }
    assert forall|k: K| #[trigger] mt.union_prefer_right(mi).dom().contains(k) implies
        mm.dom().contains(k) by {
        if mi.dom().contains(k) {
            let i = choose|i: int| 0 <= i < incoming.len() && #[trigger] incoming[i].skey() == k;
            if mt.dom().contains(k) {
                let j = choose|j: int| 0 <= j < table.len() && #[trigger] table[j].skey() == k;
                assert(merged[j].skey() == k);
            } else {
                let j = choose|j: int|
                    0 <= j < appended.len() && #[trigger] appended[j].skey() == k;
                assert(merged[table.len() + j].skey() == k);
            }
        } else {
            let j = choose|j: int| 0 <= j < table.len() && #[trigger] table[j].skey() == k;
            assert(merged[j].skey() == k);
        }
    }
}

/// Appending one incoming row whose key the table already holds at
/// position `j` turns the merge into a point update at `j`.
proof fn lemma_spec_merge_push_update<K, R: Keyed<K>>(table: Seq<R>, s: Seq<R>, r: R, j: int)
    requires
        unique_keys(table),
        0 <= j < table.len(),
        table[j].skey() == r.skey(),
        forall|i: int| 0 <= i < s.len() ==> #[trigger] s[i].skey() != r.skey(),
    ensures
        spec_merge(table, s.push(r)) =~= spec_merge(table, s).update(j, r),
{
    let k = r.skey();
    assert(s.push(r).drop_last() =~= s);
    assert(rows_map(s.push(r)) == rows_map(s).insert(k, r));
    lemma_rows_map_props(s);
    lemma_rows_map_props(table);
    assert(!rows_map(s).dom().contains(k));
    assert(rows_map(table).dom().contains(k));
    assert(rows_not_in(s.push(r), rows_map(table)) == rows_not_in(s, rows_map(table)));
    assert forall|p: int| 0 <= p < table.len() implies spec_merge(table, s.push(r))[p] == spec_merge(
        table,
        s,
    ).update(j, r)[p] by {
        if p != j {
            assert(table[p].skey() != k);
        }
    }
}

/// Appending one incoming row whose key the table lacks turns the merge
/// into an append.
proof fn lemma_spec_merge_push_insert<K, R: Keyed<K>>(table: Seq<R>, s: Seq<R>, r: R)
    requires
        forall|j: int| 0 <= j < table.len() ==> #[trigger] table[j].skey() != r.skey(),
    ensures
        spec_merge(table, s.push(r)) =~= spec_merge(table, s).push(r),
{
    let k = r.skey();
    assert(s.push(r).drop_last() =~= s);
    assert(rows_map(s.push(r)) == rows_map(s).insert(k, r));
    lemma_rows_map_props(table);
    assert(!rows_map(table).dom().contains(k));
    assert(rows_not_in(s.push(r), rows_map(table)) == rows_not_in(s, rows_map(table)).push(r));
    assert forall|p: int| 0 <= p < table.len() implies spec_merge(table, s.push(r))[p] == spec_merge(
        table,
        s,
    )[p] by {
        assert(table[p].skey() != k);
    }
}

/// Merging the same incoming rows a second time changes nothing: matched
/// keys are overwritten with the values they already hold, and no key is
/// new, so re-running one period's aggregation is idempotent.
pub proof fn lemma_merge_idempotent<K, R: Keyed<K>>(table: Seq<R>, incoming: Seq<R>)
    requires
        unique_keys(table),
        unique_keys(incoming),
    ensures
        spec_merge(spec_merge(table, incoming), incoming) =~= spec_merge(table, incoming),
{
    let t1 = spec_merge(table, incoming);
    let appended = rows_not_in(incoming, rows_map(table));
    let mi = rows_map(incoming);
    lemma_spec_merge_keys(table, incoming);
    lemma_spec_merge_unique(table, incoming);
    lemma_spec_merge_map(table, incoming);
    lemma_rows_not_in_props(incoming, rows_map(table));
    lemma_rows_map_props(incoming);
    lemma_rows_map_props(table);
    lemma_rows_map_props(t1);
    let again = spec_merge(t1, incoming);
    assert(rows_not_in(incoming, rows_map(t1)).len() == 0) by {
        lemma_rows_not_in_props(incoming, rows_map(t1));
        let kept = rows_not_in(incoming, rows_map(t1));
        if kept.len() > 0 {
            let i = choose|i: int| 0 <= i < incoming.len() && #[trigger] incoming[i] == kept[0];
            assert(mi.dom().contains(incoming[i].skey()));
            assert(rows_map(t1).dom().contains(kept[0].skey()));
        }
    }
    assert forall|j: int| 0 <= j < t1.len() implies again[j] == t1[j] by {
        if j < table.len() {
            if mi.dom().contains(table[j].skey()) {
                assert(t1[j] == mi[table[j].skey()]);
                assert(t1[j].skey() == table[j].skey());
            } else {
                assert(t1[j] == table[j]);
            }
        } else {
            assert(t1[j] == appended[j - table.len()]);
            let i = choose|i: int|
                0 <= i < incoming.len() && #[trigger] incoming[i] == appended[j - table.len()];
            lemma_rows_map_index(incoming, i);
            assert(mi.dom().contains(t1[j].skey()));
            assert(mi[t1[j].skey()] == t1[j]);
        }
    }
    assert(again =~= t1);
}

/// The three faces of one merge: a table row whose key the incoming set
/// lacks is untouched in place; a table row whose key it carries has
/// every measure replaced by the incoming value; an incoming row with a
/// new key is added under its key with its values; and the table never
/// shrinks.
pub proof fn lemma_merge_non_destructive<K, R: Keyed<K>>(table: Seq<R>, incoming: Seq<R>)
    requires
        unique_keys(table),
        unique_keys(incoming),
    ensures
        forall|j: int|
            0 <= j < table.len() && !rows_map(incoming).dom().contains(#[trigger] table[j].skey())
                ==> spec_merge(table, incoming)[j] == table[j],
        forall|j: int|
            0 <= j < table.len() && rows_map(incoming).dom().contains(#[trigger] table[j].skey())
                ==> spec_merge(table, incoming)[j] == rows_map(incoming)[table[j].skey()],
        forall|i: int|
            0 <= i < incoming.len() && !rows_map(table).dom().contains(
                #[trigger] incoming[i].skey(),
            ) ==> rows_map(spec_merge(table, incoming)).dom().contains(incoming[i].skey())
                && rows_map(spec_merge(table, incoming))[incoming[i].skey()] == incoming[i],
        spec_merge(table, incoming).len() >= table.len(),
{
    lemma_spec_merge_keys(table, incoming);
    lemma_spec_merge_map(table, incoming);
    lemma_rows_map_props(incoming);
    assert forall|i: int|
        0 <= i < incoming.len() && !rows_map(table).dom().contains(
            #[trigger] incoming[i].skey(),
        ) implies rows_map(spec_merge(table, incoming)).dom().contains(incoming[i].skey())
        && rows_map(spec_merge(table, incoming))[incoming[i].skey()] == incoming[i] by {
        lemma_rows_map_index(incoming, i);
    }
}

/// Index of a row sharing `r`'s key, if the table holds one.
fn find_by_key<K, R: Keyed<K>>(table: &Vec<R>, r: &R) -> (res: Option<usize>)
    ensures
        match res {
            Some(j) => j < table@.len() && table@[j as int].skey() == r.skey(),
            None => forall|p: int| 0 <= p < table@.len() ==> #[trigger] table@[p].skey() != r.skey(),
        },
{
    let n = table.len();
    let mut p: usize = 0;
    while p < n
        invariant
            p <= n,
            n == table@.len(),
            forall|q: int| 0 <= q < p ==> #[trigger] table@[q].skey() != r.skey(),
        decreases n - p,
    {
        if table[p].key_eq(r) {
            return Some(p);
        }
        p += 1;
    }
    None
}

/// Merges the incoming aggregate rows into the persisted table by key:
/// matched keys are updated in place (the stored row is replaced by the
/// incoming one, whose key is identical by construction), new keys are
/// appended, and rows whose key the incoming set lacks are never touched
/// or deleted.
pub fn merge_rows<K, R: Keyed<K>>(table: &mut Vec<R>, incoming: &Vec<R>)
    requires
        unique_keys(old(table)@),
        unique_keys(incoming@),
    ensures
        final(table)@ == spec_merge(old(table)@, incoming@),
        unique_keys(final(table)@),
        rows_map(final(table)@) == rows_map(old(table)@).union_prefer_right(rows_map(incoming@)),
{
    let ghost t0 = table@;
    let m = incoming.len();
    let mut i: usize = 0;
    assert(spec_merge(t0, incoming@.take(0)) =~= t0);
    while i < m
        invariant
            i <= m,
            m == incoming@.len(),
            unique_keys(t0),
            unique_keys(incoming@),
            table@ == spec_merge(t0, incoming@.take(i as int)),
        decreases m - i,
    {
        let ghost s = incoming@.take(i as int);
        let r = incoming[i];
        proof {
            assert(incoming@.take(i + 1).drop_last() =~= s);
            assert(incoming@.take(i + 1) =~= s.push(r));
            assert forall|q: int| 0 <= q < s.len() implies #[trigger] s[q].skey() != r.skey() by {
                assert(s[q] == incoming@[q]);
            }
            lemma_spec_merge_keys(t0, s);
        }
        match find_by_key(table, &r) {
            Some(j) => {
                proof {
                    if j >= t0.len() {
                        let appended = rows_not_in(s, rows_map(t0));
                        lemma_rows_not_in_props(s, rows_map(t0));
                        assert(table@[j as int] == appended[j - t0.len()]);
                        let q = choose|q: int|
                            0 <= q < s.len() && #[trigger] s[q] == appended[j - t0.len()];
                        assert(s[q].skey() == r.skey());
                        assert(false);
                    }
                    assert(t0[j as int].skey() == r.skey());
                    lemma_spec_merge_push_update(t0, s, r, j as int);
                }
                table[j] = r;
            },
            None => {
                proof {
                    assert forall|j: int| 0 <= j < t0.len() implies #[trigger] t0[j].skey()
                        != r.skey() by {
                        assert(spec_merge(t0, s)[j].skey() == t0[j].skey());
                    }
                    lemma_spec_merge_push_insert(t0, s, r);
                }
                table.push(r);
            },
        }
        i += 1;
    }
    proof {
        assert(incoming@.take(m as int) =~= incoming@);
        lemma_spec_merge_unique(t0, incoming@);
        lemma_spec_merge_map(t0, incoming@);
    }
}

} // verus!
