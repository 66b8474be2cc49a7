//! The location-summary grain: pickup counts and dropoff counts per
//! {year, month_start, location_id}, joined on the shared key. A location
//! with pickups but no dropoffs in the period, or the reverse, is dropped
//! by the inner join; that asymmetry is intended behaviour.
use vstd::prelude::*;

use crate::agg::{
    keys_in_order, lemma_keys_distinct, lemma_keys_have_rows, lemma_keys_push, lemma_matching_len,
    lemma_matching_push, lemma_matching_unseen_empty, matching,
};
use crate::merge::Keyed;
use crate::row::DerivedRow;
use crate::time::Date;

verus! {

/// The composite aggregate key of the location grain.
#[derive(Clone, Copy, PartialEq, Eq, Structural, Debug)]
pub struct LocationKey {
    pub year: u32,
    pub month_start: Date,
    pub location_id: u32,
}

/// The location key a row falls under when grouped by pickup location.
pub open spec fn pickup_key_fn() -> spec_fn(DerivedRow) -> LocationKey {
    |r: DerivedRow|
        LocationKey { year: r.year, month_start: r.month_start, location_id: r.raw.pickup_location_id }
}

/// The location key a row falls under when grouped by dropoff location.
pub open spec fn dropoff_key_fn() -> spec_fn(DerivedRow) -> LocationKey {
    |r: DerivedRow|
        LocationKey {
            year: r.year,
            month_start: r.month_start,
            location_id: r.raw.dropoff_location_id,
        }
}

pub open spec fn pickup_count(rows: Seq<DerivedRow>, k: LocationKey) -> int {
    matching(rows, pickup_key_fn(), k).len() as int
}

pub open spec fn dropoff_count(rows: Seq<DerivedRow>, k: LocationKey) -> int {
    matching(rows, dropoff_key_fn(), k).len() as int
}

/// One location-summary aggregate row.
#[derive(Clone, Copy, PartialEq, Eq, Structural, Debug)]
pub struct LocationStatsRow {
    pub year: u32,
    pub month_start: Date,
    pub location_id: u32,
    pub num_pickups: u64,
    pub num_dropoffs: u64,
}

impl Keyed<LocationKey> for LocationStatsRow {
    open spec fn skey(self) -> LocationKey {
        LocationKey { year: self.year, month_start: self.month_start, location_id: self.location_id }
    }

    fn key_eq(&self, other: &Self) -> (b: bool) {
        self.year == other.year && self.month_start == other.month_start && self.location_id
            == other.location_id
    }
}

/// The location row one key owes to an input.
pub open spec fn spec_location_stats_row(rows: Seq<DerivedRow>, k: LocationKey) -> LocationStatsRow {
    LocationStatsRow {
        year: k.year,
        month_start: k.month_start,
        location_id: k.location_id,
        num_pickups: pickup_count(rows, k) as u64,
        num_dropoffs: dropoff_count(rows, k) as u64,
    }
}

/// The keys the inner join keeps: the distinct pickup keys, in order,
/// that also saw at least one dropoff.
pub open spec fn join_keys(ks: Seq<LocationKey>, rows: Seq<DerivedRow>) -> Seq<LocationKey>
    decreases ks.len(),
{
    if ks.len() == 0 {
        Seq::empty()
    } else {
        let prefix = join_keys(ks.drop_last(), rows);
        if dropoff_count(rows, ks.last()) > 0 {
            prefix.push(ks.last())
        } else {
            prefix
        }
    }
}

/// Every joined key is one of the pickup keys it was filtered from.
proof fn lemma_join_keys_elems(ks: Seq<LocationKey>, rows: Seq<DerivedRow>)
    ensures
        forall|j: int|
            #![trigger join_keys(ks, rows)[j]]
            0 <= j < join_keys(ks, rows).len() ==> exists|i: int|
                0 <= i < ks.len() && #[trigger] ks[i] == join_keys(ks, rows)[j],
    decreases ks.len(),
{
    if ks.len() > 0 {
        let pre = ks.drop_last();
        lemma_join_keys_elems(pre, rows);
        let jk = join_keys(ks, rows);
        let jkp = join_keys(pre, rows);
        assert forall|j: int| #![trigger jk[j]] 0 <= j < jk.len() implies exists|i: int|
            0 <= i < ks.len() && #[trigger] ks[i] == jk[j] by {
            if j < jkp.len() {
                let i = choose|i: int| 0 <= i < pre.len() && #[trigger] pre[i] == jkp[j];
                assert(ks[i] == jk[j]);
            } else {
                assert(ks[ks.len() - 1] == jk[j]);
            }
        }
    }
}

/// Distinct pickup keys stay distinct through the join filter.
proof fn lemma_join_keys_distinct(ks: Seq<LocationKey>, rows: Seq<DerivedRow>)
    requires
        forall|i: int, j: int|
            0 <= i < ks.len() && 0 <= j < ks.len() && i != j ==> ks[i] != ks[j],
    ensures
        forall|i: int, j: int|
            0 <= i < join_keys(ks, rows).len() && 0 <= j < join_keys(ks, rows).len() && i != j
                ==> join_keys(ks, rows)[i] != join_keys(ks, rows)[j],
    decreases ks.len(),
{
    if ks.len() > 0 {
        let pre = ks.drop_last();
        assert(forall|i: int| 0 <= i < pre.len() ==> pre[i] == ks[i]);
        lemma_join_keys_distinct(pre, rows);
        lemma_join_keys_elems(pre, rows);
        let jk = join_keys(ks, rows);
        let jkp = join_keys(pre, rows);
        if dropoff_count(rows, ks.last()) > 0 {
            assert forall|i: int, j: int|
                0 <= i < jk.len() && 0 <= j < jk.len() && i != j implies jk[i] != jk[j] by {
                if i < jkp.len() && j < jkp.len() {
                } else {
                    let a = if i < jkp.len() {
                        i
                    } else {
                        j
                    };
                    assert(jk[a] == jkp[a]);
                    let w = choose|w: int| 0 <= w < pre.len() && #[trigger] pre[w] == jkp[a];
                    assert(ks[w] != ks[ks.len() - 1]);
                }
            }
        }
    }
}

/// A pickup key that also saw a dropoff survives the join filter.
pub proof fn lemma_join_keys_member(ks: Seq<LocationKey>, rows: Seq<DerivedRow>, i: int)
    requires
        0 <= i < ks.len(),
        dropoff_count(rows, ks[i]) > 0,
    ensures
        exists|j: int|
            0 <= j < join_keys(ks, rows).len() && #[trigger] join_keys(ks, rows)[j] == ks[i],
    decreases ks.len(),
{
    let pre = ks.drop_last();
    let jk = join_keys(ks, rows);
    let jkp = join_keys(pre, rows);
    if i == ks.len() - 1 {
        assert(jk[jkp.len() as int] == ks[i]);
    } else {
        assert(pre[i] == ks[i]);
        lemma_join_keys_member(pre, rows, i);
        let j = choose|j: int| 0 <= j < jkp.len() && #[trigger] jkp[j] == pre[i];
        assert(jk[j] == ks[i]);
    }
}

/// The whole location aggregation result, in pickup-key order.
pub open spec fn spec_location_stats_agg(rows: Seq<DerivedRow>) -> Seq<LocationStatsRow> {
    let jk = join_keys(keys_in_order(rows, pickup_key_fn()), rows);
    Seq::new(jk.len(), |i: int| spec_location_stats_row(rows, jk[i]))
}

/// No two rows of a location aggregation result share a key.
pub proof fn lemma_location_stats_agg_unique(rows: Seq<DerivedRow>)
    ensures
        crate::merge::unique_keys(spec_location_stats_agg(rows)),
{
    let ks = keys_in_order(rows, pickup_key_fn());
    let jk = join_keys(ks, rows);
    lemma_keys_distinct(rows, pickup_key_fn());
    lemma_join_keys_distinct(ks, rows);
    let a = spec_location_stats_agg(rows);
    assert forall|i: int, j: int|
        0 <= i < a.len() && 0 <= j < a.len() && i != j implies #[trigger] a[i].skey()
        != #[trigger] a[j].skey() by {
        assert(a[i].skey() == jk[i]);
        assert(a[j].skey() == jk[j]);
    }
}

/// A per-location running count under one of the two key functions.
#[derive(Clone, Copy)]
struct LocAcc {
    key: LocationKey,
    count: u64,
}

fn find_loc_acc(accs: &Vec<LocAcc>, k: &LocationKey) -> (res: Option<usize>)
    ensures
        match res {
            Some(j) => j < accs@.len() && accs@[j as int].key == *k,
            None => forall|p: int| 0 <= p < accs@.len() ==> #[trigger] accs@[p].key != *k,
        },
{
    let n = accs.len();
    let mut p: usize = 0;
    while p < n
        invariant
            p <= n,
            n == accs@.len(),
            forall|q: int| 0 <= q < p ==> #[trigger] accs@[q].key != *k,
        decreases n - p,
    {
        if accs[p].key.year == k.year && accs[p].key.month_start == k.month_start
            && accs[p].key.location_id == k.location_id {
            return Some(p);
        }
        p += 1;
    }
    None
}

/// Counts rows per location key, keyed by pickup location when
/// `by_pickup` is set and by dropoff location otherwise.
fn count_locations(rows: &Vec<DerivedRow>, by_pickup: bool) -> (out: Vec<LocAcc>)
    ensures
        ({
            let f = if by_pickup {
                pickup_key_fn()
            } else {
                dropoff_key_fn()
            };
            let ks = keys_in_order(rows@, f);
            &&& out@.len() == ks.len()
            &&& forall|j: int| 0 <= j < out@.len() ==> #[trigger] out@[j].key == ks[j]
            &&& forall|j: int|
                0 <= j < out@.len() ==> #[trigger] out@[j].count == matching(
                    rows@,
                    f,
                    out@[j].key,
                ).len()
        }),
{
    let ghost f = if by_pickup {
        pickup_key_fn()
    } else {
        dropoff_key_fn()
    };
    let n = rows.len();
    let mut accs: Vec<LocAcc> = Vec::new();
    let mut i: usize = 0;
    while i < n
        invariant
            i <= n,
            n == rows@.len(),
            f == if by_pickup {
                pickup_key_fn()
            } else {
                dropoff_key_fn()
            },
            accs@.len() == keys_in_order(rows@.take(i as int), f).len(),
            forall|j: int|
                0 <= j < accs@.len() ==> #[trigger] accs@[j].key == keys_in_order(
                    rows@.take(i as int),
                    f,
                )[j],
            forall|j: int|
                0 <= j < accs@.len() ==> #[trigger] accs@[j].count == matching(
                    rows@.take(i as int),
                    f,
                    accs@[j].key,
                ).len(),
        decreases n - i,
    {
        let ghost s = rows@.take(i as int);
        let ghost rr = rows@[i as int];
        let row = rows[i];
        let k = if by_pickup {
            LocationKey {
                year: row.year,
                month_start: row.month_start,
                location_id: row.raw.pickup_location_id,
            }
        } else {
            LocationKey {
                year: row.year,
                month_start: row.month_start,
                location_id: row.raw.dropoff_location_id,
            }
        };
        proof {
            assert(rows@.take(i + 1).drop_last() =~= s);
            assert(rows@.take(i + 1) =~= s.push(rr));
            assert(k == f(rr));
            lemma_keys_push(s, f, rr);
            lemma_keys_distinct(s, f);
        }
        match find_loc_acc(&accs, &k) {
            Some(j) => {
                let a = accs[j];
                proof {
                    let ks = keys_in_order(s, f);
                    assert(ks[j as int] == k);
                    assert(ks.contains(k));
                    lemma_matching_len(s, f, k);
                }
                accs[j] = LocAcc { key: a.key, count: a.count + 1 };
                proof {
                    assert(keys_in_order(rows@.take(i + 1), f) == keys_in_order(s, f));
                    assert forall|p: int| 0 <= p < accs@.len() implies #[trigger] accs@[p].count
                        == matching(rows@.take(i + 1), f, accs@[p].key).len() by {
                        lemma_matching_push(s, f, accs@[p].key, rr);
                    }
                }
            },
            None => {
                proof {
                    let ks = keys_in_order(s, f);
                    assert(!ks.contains(k)) by {
                        if ks.contains(k) {
                            let idx = choose|idx: int| 0 <= idx < ks.len() && ks[idx] == k;
                            assert(accs@[idx].key == k);
                        }
                    }
                    assert(keys_in_order(rows@.take(i + 1), f) == ks.push(k));
                    lemma_matching_unseen_empty(s, f, k);
                }
                accs.push(LocAcc { key: k, count: 1 });
                proof {
                    let ks = keys_in_order(s, f);
                    assert forall|p: int| 0 <= p < accs@.len() implies #[trigger] accs@[p].count
                        == matching(rows@.take(i + 1), f, accs@[p].key).len() by {
                        lemma_matching_push(s, f, accs@[p].key, rr);
                        if p < accs@.len() - 1 {
                            assert(accs@[p].key == ks[p]);
                        } else {
                            assert(matching(s, f, k).len() == 0);
                        }
                    }
                    assert forall|j: int| 0 <= j < accs@.len() implies #[trigger] accs@[j].key
                        == keys_in_order(rows@.take(i + 1), f)[j] by {
                        if j < accs@.len() - 1 {
                            assert(ks.push(k)[j] == ks[j]);
                        }
                    }
                }
            },
        }
        i += 1;
    }
    proof {
        assert(rows@.take(n as int) =~= rows@);
    }
    accs
}

/// Groups the period's rows into pickup counts and dropoff counts per
/// {year, month_start, location_id} and inner-joins the two on the key.
pub fn aggregate_location_stats(rows: &Vec<DerivedRow>) -> (out: Vec<LocationStatsRow>)
    ensures
        out@ == spec_location_stats_agg(rows@),
        crate::merge::unique_keys(out@),
{
    let ghost fp = pickup_key_fn();
    let ghost fd = dropoff_key_fn();
    let pickups = count_locations(rows, true);
    let dropoffs = count_locations(rows, false);
    let ghost ks = keys_in_order(rows@, fp);
    let ghost jk = join_keys(ks, rows@);
    let m = pickups.len();
    let mut out: Vec<LocationStatsRow> = Vec::new();
    let mut j: usize = 0;
    while j < m
        invariant
            j <= m,
            m == pickups@.len(),
            m == ks.len(),
            fp == pickup_key_fn(),
            fd == dropoff_key_fn(),
            ks == keys_in_order(rows@, fp),
            jk == join_keys(ks, rows@),
            forall|p: int| 0 <= p < m ==> #[trigger] pickups@[p].key == ks[p],
            forall|p: int|
                0 <= p < m ==> #[trigger] pickups@[p].count == matching(
                    rows@,
                    fp,
                    pickups@[p].key,
                ).len(),
            dropoffs@.len() == keys_in_order(rows@, fd).len(),
            forall|p: int|
                0 <= p < dropoffs@.len() ==> #[trigger] dropoffs@[p].key == keys_in_order(
                    rows@,
                    fd,
                )[p],
            forall|p: int|
                0 <= p < dropoffs@.len() ==> #[trigger] dropoffs@[p].count == matching(
                    rows@,
                    fd,
                    dropoffs@[p].key,
                ).len(),
            out@ == join_keys(ks.take(j as int), rows@).map(
                |q: int, kk: LocationKey| spec_location_stats_row(rows@, kk),
            ),
        decreases m - j,
    {
        let a = pickups[j];
        proof {
            assert(ks.take(j + 1).drop_last() =~= ks.take(j as int));
            assert(ks.take(j + 1) =~= ks.take(j as int).push(ks[j as int]));
        }
        match find_loc_acc(&dropoffs, &a.key) {
            Some(dj) => {
                proof {
                    lemma_keys_have_rows(rows@, fd);
                    let dks = keys_in_order(rows@, fd);
                    assert(dks[dj as int] == a.key);
                    assert(dropoff_count(rows@, a.key) > 0);
                }
                let row = LocationStatsRow {
                    year: a.key.year,
                    month_start: a.key.month_start,
                    location_id: a.key.location_id,
                    num_pickups: a.count,
                    num_dropoffs: dropoffs[dj].count,
                };
                out.push(row);
                proof {
                    assert(out@ =~= join_keys(ks.take(j + 1), rows@).map(
                        |q: int, kk: LocationKey| spec_location_stats_row(rows@, kk),
                    ));
                }
            },
            None => {
                proof {
                    let dks = keys_in_order(rows@, fd);
                    assert(!dks.contains(a.key)) by {
                        if dks.contains(a.key) {
                            let idx = choose|idx: int|
                                0 <= idx < dks.len() && dks[idx] == a.key;
                            assert(dropoffs@[idx].key == a.key);
                        }
                    }
                    lemma_matching_unseen_empty(rows@, fd, a.key);
                    assert(dropoff_count(rows@, a.key) == 0);
                    assert(out@ =~= join_keys(ks.take(j + 1), rows@).map(
                        |q: int, kk: LocationKey| spec_location_stats_row(rows@, kk),
                    ));
                }
            },
        }
        j += 1;
    }
    proof {
        assert(ks.take(m as int) =~= ks);
        assert(out@ =~= spec_location_stats_agg(rows@));
        lemma_keys_distinct(rows@, fp);
        lemma_join_keys_distinct(ks, rows@);
        lemma_join_keys_elems(ks, rows@);
        assert forall|p: int, q: int|
            0 <= p < out@.len() && 0 <= q < out@.len() && p != q implies #[trigger] out@[p].skey()
            != #[trigger] out@[q].skey() by {
            assert(out@[p].skey() == jk[p]);
            assert(out@[q].skey() == jk[q]);
        }
    }
    out
}

} // verus!
