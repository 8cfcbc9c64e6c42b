//! Pairing data rows with the header row, and the mapping semantics of the
//! records that the pairing produces.

use vstd::prelude::*;
use crate::parser::{field_views, table_view};

verus! {

/// The smaller of two lengths.
pub open spec fn min_int(a: int, b: int) -> int {
    if a <= b {
        a
    } else {
        b
    }
}

/// The map built by inserting the first `n` key-value pairs in order: a later
/// duplicate key overwrites the earlier value.
pub open spec fn pair_map_prefix(ps: Seq<(String, String)>, n: int) -> Map<Seq<char>, Seq<char>>
    decreases n,
{
    if n <= 0 {
        Map::<Seq<char>, Seq<char>>::empty()
    } else {
        pair_map_prefix(ps, n - 1).insert(ps[n - 1].0@, ps[n - 1].1@)
    }
}

/// The key-value map a pair list stands for.
pub open spec fn record_model(ps: Seq<(String, String)>) -> Map<Seq<char>, Seq<char>> {
    pair_map_prefix(ps, ps.len() as int)
}

/// The map built by pairing the first `n` headers with the first `n` fields.
pub open spec fn record_map_prefix(h: Seq<Seq<char>>, f: Seq<Seq<char>>, n: int) -> Map<
    Seq<char>,
    Seq<char>,
>
    decreases n,
{
    if n <= 0 {
        Map::<Seq<char>, Seq<char>>::empty()
    } else {
        record_map_prefix(h, f, n - 1).insert(h[n - 1], f[n - 1])
    }
}

/// The record a data row stands for: headers paired with fields by position,
/// the shorter side deciding how many pairs there are.
pub open spec fn record_map(h: Seq<Seq<char>>, f: Seq<Seq<char>>) -> Map<Seq<char>, Seq<char>> {
    record_map_prefix(h, f, min_int(h.len() as int, f.len() as int))
}

/// The records of a parsed table: one per row after the header row, in row
/// order; a table without a header row has none.
pub open spec fn records_of(rows: Seq<Seq<Seq<char>>>) -> Seq<Map<Seq<char>, Seq<char>>> {
    if rows.len() == 0 {
        Seq::<Map<Seq<char>, Seq<char>>>::empty()
    } else {
        rows.skip(1).map_values(|r: Seq<Seq<char>>| record_map(rows[0], r))
    }
}

/// The key-value maps a list of pair lists stands for.
pub open spec fn json_models(records: Seq<Vec<(String, String)>>) -> Seq<Map<Seq<char>, Seq<char>>> {
    records.map_values(|r: Vec<(String, String)>| record_model(r@))
}

/// Pairing headers with fields builds the same map as pairing their views.
proof fn lemma_pair_map_matches(
    ps: Seq<(String, String)>,
    h: Seq<Seq<char>>,
    f: Seq<Seq<char>>,
    n: int,
)
    requires
        n <= ps.len(),
        n <= h.len(),
        n <= f.len(),
        forall|k: int| 0 <= k < n ==> ps[k].0@ == h[k] && ps[k].1@ == f[k],
    ensures
        pair_map_prefix(ps, n) == record_map_prefix(h, f, n),
    decreases n,
{
    if n > 0 {
        lemma_pair_map_matches(ps, h, f, n - 1);
    }
}

/// Every key of a paired prefix is one of the headers paired in it.
proof fn lemma_prefix_dom(h: Seq<Seq<char>>, f: Seq<Seq<char>>, n: int)
    ensures
        forall|key: Seq<char>| #[trigger]
            record_map_prefix(h, f, n).dom().contains(key) ==> exists|k: int|
                0 <= k < n && h[k] == key,
    decreases n,
{
    if n > 0 {
        lemma_prefix_dom(h, f, n - 1);
        assert forall|key: Seq<char>| #[trigger]
            record_map_prefix(h, f, n).dom().contains(key) implies exists|k: int|
            0 <= k < n && h[k] == key by {
            if key == h[n - 1] {
                assert(0 <= n - 1 < n && h[n - 1] == key);
            } else {
                assert(record_map_prefix(h, f, n - 1).dom().contains(key));
                let k = choose|k: int| 0 <= k < n - 1 && h[k] == key;
                assert(0 <= k < n && h[k] == key);
            }
        }
    }
}

/// Every header paired in a prefix is a key of it.
proof fn lemma_prefix_contains(h: Seq<Seq<char>>, f: Seq<Seq<char>>, n: int, k: int)
    requires
        0 <= k < n,
    ensures
        record_map_prefix(h, f, n).dom().contains(h[k]),
    decreases n,
{
    if k < n - 1 {
        lemma_prefix_contains(h, f, n - 1, k);
    }
}

/// The value under a header with no later duplicate in the paired prefix is
/// the field paired with it.
proof fn lemma_prefix_value(h: Seq<Seq<char>>, f: Seq<Seq<char>>, n: int, k: int)
    requires
        0 <= k < n,
        forall|k2: int| k < k2 < n ==> h[k2] != h[k],
    ensures
        record_map_prefix(h, f, n).dom().contains(h[k]),
        record_map_prefix(h, f, n)[h[k]] == f[k],
    decreases n,
{
    if k == n - 1 {
    } else {
        assert(h[n - 1] != h[k]);
        lemma_prefix_value(h, f, n - 1, k);
    }
}

/// Law: a table with a header row and N data rows yields exactly N records,
/// in row order, each pairing the header row with its own data row.
pub proof fn lemma_record_count(rows: Seq<Seq<Seq<char>>>)
    requires
        rows.len() >= 1,
    ensures
        records_of(rows).len() == rows.len() - 1,
        forall|k: int|
            0 <= k < rows.len() - 1 ==> records_of(rows)[k] == record_map(rows[0], rows[k + 1]),
{
    assert forall|k: int| 0 <= k < rows.len() - 1 implies records_of(rows)[k] == record_map(
        rows[0],
        rows[k + 1],
    ) by {
        assert(rows.skip(1)[k] == rows[k + 1]);
    }
}

/// Law: a record's key set is a subset of the headers paired with a field, so
/// a short row's object misses the trailing keys and a long row's extra
/// fields are dropped; every paired header is a key; and the value under a
/// header is the field paired with its last occurrence.
pub proof fn lemma_record_keys(h: Seq<Seq<char>>, f: Seq<Seq<char>>)
    ensures
        forall|key: Seq<char>| #[trigger]
            record_map(h, f).dom().contains(key) ==> exists|k: int|
                0 <= k < min_int(h.len() as int, f.len() as int) && h[k] == key,
        forall|k: int|
            0 <= k < min_int(h.len() as int, f.len() as int) ==> record_map(h, f).dom().contains(
                h[k],
            ),
        forall|k: int|
            0 <= k < min_int(h.len() as int, f.len() as int) && (forall|k2: int|
                k < k2 < min_int(h.len() as int, f.len() as int) ==> h[k2] != h[k]) ==> record_map(
                h,
                f,
            )[h[k]] == f[k],
{
    let n = min_int(h.len() as int, f.len() as int);
    lemma_prefix_dom(h, f, n);
    assert forall|k: int| 0 <= k < n implies record_map(h, f).dom().contains(h[k]) by {
        lemma_prefix_contains(h, f, n, k);
    }
    assert forall|k: int|
        0 <= k < n && (forall|k2: int| k < k2 < n ==> h[k2] != h[k]) implies record_map(h, f)[h[k]]
        == f[k] by {
        lemma_prefix_value(h, f, n, k);
    }
}

/// Pairs each header with the field in the same position; the shorter of the
/// two rows decides how many pairs come out.
pub fn build_record(headers: &Vec<String>, fields: &Vec<String>) -> (pairs: Vec<(String, String)>)
    ensures
        pairs@.len() == min_int(headers@.len() as int, fields@.len() as int),
        forall|k: int|
            0 <= k < pairs@.len() ==> pairs@[k].0@ == headers@[k]@ && pairs@[k].1@ == fields@[k]@,
{
    let n: usize = if headers.len() <= fields.len() {
        headers.len()
    } else {
        fields.len()
    };
    let mut pairs: Vec<(String, String)> = Vec::new();
    let mut k: usize = 0;
    while k < n
        invariant
            n == min_int(headers@.len() as int, fields@.len() as int),
            k <= n,
            pairs@.len() == k,
            forall|t: int|
                0 <= t < k ==> pairs@[t].0@ == headers@[t]@ && pairs@[t].1@ == fields@[t]@,
        decreases n - k,
    {
        let key = headers[k].clone();
        let val = fields[k].clone();
        pairs.push((key, val));
        k = k + 1;
    }
    pairs
}

/// Builds one record per data row, pairing each row with the header row.
pub fn build_records(rows: &Vec<Vec<String>>) -> (records: Vec<Vec<(String, String)>>)
    ensures
        json_models(records@) == records_of(table_view(rows@)),
        records@.len() == records_of(table_view(rows@)).len(),
{
    let mut records: Vec<Vec<(String, String)>> = Vec::new();
    if rows.len() == 0 {
        proof {
            assert(json_models(records@) =~= records_of(table_view(rows@)));
        }
        return records;
    }
    let ghost tv = table_view(rows@);
    let mut t: usize = 1;
    while t < rows.len()
        invariant
            1 <= t <= rows@.len(),
            rows@.len() >= 1,
            tv == table_view(rows@),
            records@.len() == t - 1,
            json_models(records@) == records_of(tv).subrange(0, t - 1),
        decreases rows@.len() - t,
    {
        let ghost records_old = records@;
        let pairs = build_record(&rows[0], &rows[t]);
        let ghost pv = pairs@;
        records.push(pairs);
        proof {
            let h = tv[0];
            let f = tv[t as int];
            assert(h == field_views(rows@[0]@));
            assert(f == field_views(rows@[t as int]@));
            let n = min_int(h.len() as int, f.len() as int);
            assert(pv.len() == n);
            lemma_pair_map_matches(pv, h, f, n);
            assert(record_model(pv) == record_map(h, f));
            assert(records_of(tv)[t - 1] == record_map(tv[0], tv.skip(1)[t - 1]));
            assert(tv.skip(1)[t - 1] == tv[t as int]);
            assert(json_models(records@) =~= json_models(records_old).push(record_model(pv)));
            assert(json_models(records@) =~= records_of(tv).subrange(0, t as int));
        }
        t = t + 1;
    }
    proof {
        assert(records_of(tv).subrange(0, rows@.len() - 1) =~= records_of(tv));
    }
    records
}

} // verus!
