//! The views of saved benchmarks: filtering them, and arranging the values
//! of chosen keys into table rows. A benchmark is seen here as its keys, each
//! with its value rendered as text.

use crate::tags::{pair_views, string_views};
use crate::text::concat;
use itertools::Itertools;
use vstd::prelude::*;
use vstd::utf8::encode_utf8;

verus! {

/// The value that `entries` hold for `key`; of several, the last.
pub open spec fn lookup(entries: Seq<(Seq<char>, Seq<char>)>, key: Seq<char>) -> Option<Seq<char>>
    decreases entries.len(),
{
    if entries.len() == 0 {
        None
    } else if entries.last().0 == key {
        Some(entries.last().1)
    } else {
        lookup(entries.drop_last(), key)
    }
}

/// Whether a benchmark holds, for every key of the filter, that value.
pub open spec fn passes(
    entries: Seq<(Seq<char>, Seq<char>)>,
    filter: Seq<(Seq<char>, Seq<char>)>,
) -> bool {
    forall|i: int|
        0 <= i < filter.len() ==> lookup(entries, #[trigger] filter[i].0) == Some(filter[i].1)
}

/// The row of a benchmark in a table of `metric` by `row`: both values, where
/// it holds both keys.
pub open spec fn row_of(
    entries: Seq<(Seq<char>, Seq<char>)>,
    row: Seq<char>,
    metric: Seq<char>,
) -> Option<(Seq<char>, Seq<char>)> {
    match (lookup(entries, row), lookup(entries, metric)) {
        (Some(r), Some(m)) => Some((r, m)),
        _ => None,
    }
}

/// The views of a list of benchmarks.
pub open spec fn benchmark_views(
    benchmarks: Seq<Vec<(String, String)>>,
) -> Seq<Seq<(Seq<char>, Seq<char>)>> {
    benchmarks.map_values(|b: Vec<(String, String)>| pair_views(b@))
}

/// The rows of the benchmarks that pass the filter and hold both keys, in
/// the order of the benchmarks.
pub open spec fn rows_1d(
    benchmarks: Seq<Seq<(Seq<char>, Seq<char>)>>,
    row: Seq<char>,
    metric: Seq<char>,
    filter: Seq<(Seq<char>, Seq<char>)>,
) -> Seq<(Seq<char>, Seq<char>)>
    decreases benchmarks.len(),
{
    if benchmarks.len() == 0 {
        seq![]
    } else {
        let rest = rows_1d(benchmarks.drop_last(), row, metric, filter);
        let b = benchmarks.last();
        if passes(b, filter) && row_of(b, row, metric) is Some {
            rest.push(row_of(b, row, metric)->Some_0)
        } else {
            rest
        }
    }
}

/// Byte-wise lexicographic order.
pub open spec fn bytes_le(a: Seq<u8>, b: Seq<u8>) -> bool
    decreases a.len(),
{
    if a.len() == 0 {
        true
    } else if b.len() == 0 {
        false
    } else if a[0] != b[0] {
        a[0] < b[0]
    } else {
        bytes_le(a.drop_first(), b.drop_first())
    }
}

/// The order of strings: byte-wise over their UTF-8 encodings.
pub open spec fn text_le(a: Seq<char>, b: Seq<char>) -> bool {
    bytes_le(encode_utf8(a), encode_utf8(b))
}

/// Whether rows are in the order of their first texts.
pub open spec fn sorted_by_row(rows: Seq<(Seq<char>, Seq<char>)>) -> bool {
    forall|i: int, j: int|
        0 <= i < j < rows.len() ==> text_le(#[trigger] rows[i].0, #[trigger] rows[j].0)
}

/// The value of `key` in a benchmark.
pub fn lookup_value<'a>(entries: &'a Vec<(String, String)>, key: &str) -> (r: Option<&'a String>)
    ensures
        r is Some <==> lookup(pair_views(entries@), key@) is Some,
        r matches Some(v) ==> lookup(pair_views(entries@), key@) == Some(v@),
{
    let wanted = key.to_owned();
    let mut found: Option<&String> = None;
    let mut i: usize = 0;
    while i < entries.len()
        invariant
            i <= entries.len(),
            wanted@ == key@,
            found is Some <==> lookup(pair_views(entries@).take(i as int), key@) is Some,
            found matches Some(v) ==> lookup(pair_views(entries@).take(i as int), key@) == Some(v@),
        decreases entries.len() - i,
    {
        assert(pair_views(entries@).take(i + 1).drop_last() =~= pair_views(entries@).take(i as int));
        if entries[i].0 == wanted {
            found = Some(&entries[i].1);
        }
        i = i + 1;
    }
    assert(pair_views(entries@).take(entries.len() as int) =~= pair_views(entries@));
    found
}

/// Whether a benchmark holds, for every key of the filter, the value the
/// filter names.
pub fn apply_filter(entries: &Vec<(String, String)>, filter: &Vec<(String, String)>) -> (b: bool)
    ensures
        b <==> passes(pair_views(entries@), pair_views(filter@)),
{
    let mut i: usize = 0;
    while i < filter.len()
        invariant
            i <= filter.len(),
            forall|j: int|
                0 <= j < i ==> lookup(pair_views(entries@), #[trigger] pair_views(filter@)[j].0)
                    == Some(pair_views(filter@)[j].1),
        decreases filter.len() - i,
    {
        let ghost wanted = pair_views(filter@)[i as int];
        assert(wanted == (filter@[i as int].0@, filter@[i as int].1@));
        match lookup_value(entries, filter[i].0.as_str()) {
            Some(v) => {
                if *v != filter[i].1 {
                    assert(lookup(pair_views(entries@), wanted.0) != Some(wanted.1));
                    return false;
                }
            },
            None => {
                assert(lookup(pair_views(entries@), wanted.0) != Some(wanted.1));
                return false;
            },
        }
        i = i + 1;
    }
    true
}

/// The row of a benchmark in a table of `metric` by `row`.
pub fn benchmark_to_row(row: &str, metric: &str, entries: &Vec<(String, String)>) -> (r: Option<
    (String, String),
>)
    ensures
        r is Some <==> row_of(pair_views(entries@), row@, metric@) is Some,
        r matches Some(p) ==> row_of(pair_views(entries@), row@, metric@) == Some((p.0@, p.1@)),
{
    match (lookup_value(entries, row), lookup_value(entries, metric)) {
        (Some(r), Some(m)) => Some((r.clone(), m.clone())),
        _ => None,
    }
}

/// Relies on itertools' `sorted_by_key`, keyed by the first text of each
/// row: the rows rearranged into the order of `String`, which compares the
/// bytes of the texts.
#[verifier::external_body]
fn sort_rows(rows: Vec<(String, String)>) -> (r: Vec<(String, String)>)
    ensures
        pair_views(r@).to_multiset() == pair_views(rows@).to_multiset(),
        sorted_by_row(pair_views(r@)),
{
    rows.into_iter().sorted_by_key(|(row, _)| row.clone()).collect()
}

/// The rows of a one-dimensional table, sorted by their row text, and the
/// number of benchmarks that gave no row.
pub struct TableData1d {
    pub rows: Vec<(String, String)>,
    pub empty_matches: usize,
}

/// Arranges the benchmarks that pass the filter into rows of `row` and
/// `metric`.
pub fn compute_table_data_1d(
    benchmarks: &Vec<Vec<(String, String)>>,
    row: &str,
    metric: &str,
    filter: &Vec<(String, String)>,
) -> (t: TableData1d)
    ensures
        pair_views(t.rows@).to_multiset() == rows_1d(
            benchmark_views(benchmarks@),
            row@,
            metric@,
            pair_views(filter@),
        ).to_multiset(),
        sorted_by_row(pair_views(t.rows@)),
        t.empty_matches + t.rows@.len() == benchmarks@.len(),
{
    let ghost views = benchmark_views(benchmarks@);
    let mut rows: Vec<(String, String)> = Vec::new();
    let mut i: usize = 0;
    assert(views.take(0).len() == 0);
    assert(pair_views(rows@) =~= rows_1d(views.take(0), row@, metric@, pair_views(filter@)));
    while i < benchmarks.len()
        invariant
            i <= benchmarks.len(),
            views == benchmark_views(benchmarks@),
            rows@.len() <= i,
            pair_views(rows@) == rows_1d(views.take(i as int), row@, metric@, pair_views(filter@)),
        decreases benchmarks.len() - i,
    {
        assert(views.take(i + 1).drop_last() =~= views.take(i as int));
        assert(views.take(i + 1).last() == pair_views(benchmarks@[i as int]@));
        if apply_filter(&benchmarks[i], filter) {
            if let Some(r) = benchmark_to_row(row, metric, &benchmarks[i]) {
                let ghost before = rows@;
                rows.push(r);
                assert(pair_views(rows@) =~= pair_views(before).push((r.0@, r.1@)));
            }
        }
        i = i + 1;
    }
    assert(views.take(benchmarks.len() as int) =~= views);
    let n: usize = rows.len();
    let sorted = sort_rows(rows);
    proof {
        vstd::seq_lib::to_multiset_len(pair_views(sorted@));
        vstd::seq_lib::to_multiset_len(pair_views(rows@));
    }
    TableData1d { rows: sorted, empty_matches: benchmarks.len() - n }
}

/// How a list of example values is shown: up to three, comma-separated,
/// and `,...` after the third where there are more.
pub open spec fn examples_text(values: Seq<Seq<char>>) -> Seq<char> {
    let sep = seq![',', ' '];
    if values.len() == 0 {
        Seq::empty()
    } else if values.len() == 1 {
        values[0]
    } else if values.len() == 2 {
        values[0] + sep + values[1]
    } else {
        values[0] + sep + values[1] + sep + values[2] + seq![',', '.', '.', '.']
    }
}

/// Shows up to three example values.
pub fn display_example_values(values: &Vec<String>) -> (r: String)
    ensures
        r@ == examples_text(string_views(values@)),
{
    proof {
        reveal_strlit(", ");
        reveal_strlit(",...");
    }
    if values.len() == 0 {
        String::new()
    } else if values.len() == 1 {
        values[0].clone()
    } else if values.len() == 2 {
        let s = concat(&values[0], ", ");
        concat(&s, values[1].as_str())
    } else {
        let s = concat(&values[0], ", ");
        let s = concat(&s, values[1].as_str());
        let s = concat(&s, ", ");
        let s = concat(&s, values[2].as_str());
        concat(&s, ",...")
    }
}

/// The texts of `values` with `sep` between each two.
pub open spec fn join_with(values: Seq<Seq<char>>, sep: Seq<char>) -> Seq<char>
    decreases values.len(),
{
    if values.len() == 0 {
        Seq::empty()
    } else if values.len() == 1 {
        values[0]
    } else {
        join_with(values.drop_last(), sep) + sep + values.last()
    }
}

/// Joins texts with `sep` between each two.
fn join_texts(values: &Vec<String>, sep: &str) -> (r: String)
    ensures
        r@ == join_with(string_views(values@), sep@),
{
    let ghost views = string_views(values@);
    if values.len() == 0 {
        return String::new();
    }
    let mut out = values[0].clone();
    let mut i: usize = 1;
    assert(views.take(1) =~= seq![views[0]]);
    while i < values.len()
        invariant
            1 <= i <= values.len(),
            views == string_views(values@),
            out@ == join_with(views.take(i as int), sep@),
        decreases values.len() - i,
    {
        assert(views.take(i + 1).drop_last() =~= views.take(i as int));
        let s = concat(&out, sep);
        out = concat(&s, values[i].as_str());
        assert(views[i as int] == values@[i as int]@);
        assert(out@ =~= join_with(views.take(i as int), sep@) + sep@ + views[i as int]);
        assert(views.take(i + 1).last() == views[i as int]);
        i = i + 1;
    }
    assert(views.take(values.len() as int) =~= views);
    out
}

/// How the values of one table cell are shown: a single value as it is,
/// several in braces, separated by `", "`.
pub open spec fn cell_text(values: Seq<Seq<char>>) -> Seq<char> {
    let joined = join_with(values, seq![',', ' ']);
    if values.len() > 1 {
        seq!['{'] + joined + seq!['}']
    } else {
        joined
    }
}

/// Shows the values of one table cell.
pub fn join_values(values: &Vec<String>) -> (r: String)
    ensures
        r@ == cell_text(string_views(values@)),
{
    proof {
        reveal_strlit(", ");
        reveal_strlit("{");
        reveal_strlit("}");
    }
    assert(", "@ =~= seq![',', ' ']);
    let joined = join_texts(values, ", ");
    if values.len() > 1 {
        let open = String::from_str("{");
        let s = concat(&open, joined.as_str());
        concat(&s, "}")
    } else {
        joined
    }
}

/// A command as it is shown: its words separated by single spaces.
pub fn display_command(command: &Vec<String>) -> (r: String)
    ensures
        r@ == join_with(string_views(command@), seq![' ']),
{
    proof {
        reveal_strlit(" ");
    }
    assert(" "@ =~= seq![' ']);
    join_texts(command, " ")
}

/// The row, column and metric values of a benchmark, where it holds all
/// three keys.
pub open spec fn triple_of(
    entries: Seq<(Seq<char>, Seq<char>)>,
    row: Seq<char>,
    col: Seq<char>,
    metric: Seq<char>,
) -> Option<(Seq<char>, Seq<char>, Seq<char>)> {
    match (lookup(entries, row), lookup(entries, col), lookup(entries, metric)) {
        (Some(r), Some(c), Some(m)) => Some((r, c, m)),
        _ => None,
    }
}

/// The row, column and metric values of the benchmarks that pass the filter
/// and hold all three keys, in the order of the benchmarks.
pub open spec fn triples_2d(
    benchmarks: Seq<Seq<(Seq<char>, Seq<char>)>>,
    row: Seq<char>,
    col: Seq<char>,
    metric: Seq<char>,
    filter: Seq<(Seq<char>, Seq<char>)>,
) -> Seq<(Seq<char>, Seq<char>, Seq<char>)>
    decreases benchmarks.len(),
{
    if benchmarks.len() == 0 {
        seq![]
    } else {
        let rest = triples_2d(benchmarks.drop_last(), row, col, metric, filter);
        let b = benchmarks.last();
        if passes(b, filter) && triple_of(b, row, col, metric) is Some {
            rest.push(triple_of(b, row, col, metric)->Some_0)
        } else {
            rest
        }
    }
}

/// The views of a vector of text triples.
pub open spec fn triple_views(v: Seq<(String, String, String)>) -> Seq<
    (Seq<char>, Seq<char>, Seq<char>),
> {
    v.map_values(|t: (String, String, String)| (t.0@, t.1@, t.2@))
}

/// The texts of `s`, each once, in the order of their first occurrence.
pub open spec fn distinct_in_order(s: Seq<Seq<char>>) -> Seq<Seq<char>>
    decreases s.len(),
{
    if s.len() == 0 {
        seq![]
    } else {
        let d = distinct_in_order(s.drop_last());
        if d.contains(s.last()) {
            d
        } else {
            d.push(s.last())
        }
    }
}

/// The row values of a sequence of triples.
pub open spec fn row_texts(ts: Seq<(Seq<char>, Seq<char>, Seq<char>)>) -> Seq<Seq<char>> {
    ts.map_values(|t: (Seq<char>, Seq<char>, Seq<char>)| t.0)
}

/// The column values of a sequence of triples.
pub open spec fn col_texts(ts: Seq<(Seq<char>, Seq<char>, Seq<char>)>) -> Seq<Seq<char>> {
    ts.map_values(|t: (Seq<char>, Seq<char>, Seq<char>)| t.1)
}

/// The metric values that fall in the cell of row `r` and column `c`, in
/// order.
pub open spec fn cell_values(
    ts: Seq<(Seq<char>, Seq<char>, Seq<char>)>,
    r: Seq<char>,
    c: Seq<char>,
) -> Seq<Seq<char>>
    decreases ts.len(),
{
    if ts.len() == 0 {
        seq![]
    } else {
        let rest = cell_values(ts.drop_last(), r, c);
        if ts.last().0 == r && ts.last().1 == c {
            rest.push(ts.last().2)
        } else {
            rest
        }
    }
}

/// The first cell of each row.
pub open spec fn first_cells(rows: Seq<Vec<String>>) -> Seq<Seq<char>> {
    rows.map_values(|r: Vec<String>| r@[0]@)
}

/// Whether texts are in order.
pub open spec fn sorted_texts(s: Seq<Seq<char>>) -> bool {
    forall|i: int, j: int| 0 <= i < j < s.len() ==> text_le(#[trigger] s[i], #[trigger] s[j])
}

/// Relies on itertools' `sorted`: the texts rearranged into the order of
/// `String`, which compares their bytes.
#[verifier::external_body]
fn sort_texts(texts: Vec<String>) -> (r: Vec<String>)
    ensures
        string_views(r@).to_multiset() == string_views(texts@).to_multiset(),
        sorted_texts(string_views(r@)),
{
    texts.into_iter().sorted().collect()
}

/// Whether `texts` holds `t`.
fn contains_text(texts: &Vec<String>, t: &String) -> (b: bool)
    ensures
        b <==> string_views(texts@).contains(t@),
{
    let mut i: usize = 0;
    while i < texts.len()
        invariant
            i <= texts.len(),
            forall|j: int| 0 <= j < i ==> string_views(texts@)[j] != t@,
        decreases texts.len() - i,
    {
        if texts[i] == *t {
            assert(string_views(texts@)[i as int] == t@);
            return true;
        }
        i = i + 1;
    }
    false
}

/// The texts of `texts`, each once, in the order of their first occurrence.
fn distinct_texts(texts: &Vec<String>) -> (r: Vec<String>)
    ensures
        string_views(r@) == distinct_in_order(string_views(texts@)),
{
    let ghost views = string_views(texts@);
    let mut r: Vec<String> = Vec::new();
    let mut i: usize = 0;
    assert(string_views(r@) =~= distinct_in_order(views.take(0)));
    while i < texts.len()
        invariant
            i <= texts.len(),
            views == string_views(texts@),
            string_views(r@) == distinct_in_order(views.take(i as int)),
        decreases texts.len() - i,
    {
        assert(views.take(i + 1).drop_last() =~= views.take(i as int));
        assert(views.take(i + 1).last() == texts@[i as int]@);
        if !contains_text(&r, &texts[i]) {
            let ghost before = r@;
            r.push(texts[i].clone());
            assert(string_views(r@) =~= string_views(before).push(texts@[i as int]@));
        }
        i = i + 1;
    }
    assert(views.take(texts.len() as int) =~= views);
    r
}

/// The metric values in the cell of row `r` and column `c`.
fn values_at(triples: &Vec<(String, String, String)>, r: &String, c: &String) -> (v: Vec<String>)
    ensures
        string_views(v@) == cell_values(triple_views(triples@), r@, c@),
{
    let ghost ts = triple_views(triples@);
    let mut v: Vec<String> = Vec::new();
    let mut i: usize = 0;
    assert(string_views(v@) =~= cell_values(ts.take(0), r@, c@));
    while i < triples.len()
        invariant
            i <= triples.len(),
            ts == triple_views(triples@),
            string_views(v@) == cell_values(ts.take(i as int), r@, c@),
        decreases triples.len() - i,
    {
        assert(ts.take(i + 1).drop_last() =~= ts.take(i as int));
        assert(ts.take(i + 1).last() == ts[i as int]);
        if triples[i].0 == *r && triples[i].1 == *c {
            let ghost before = v@;
            v.push(triples[i].2.clone());
            assert(string_views(v@) =~= string_views(before).push(ts[i as int].2));
        }
        i = i + 1;
    }
    assert(ts.take(triples.len() as int) =~= ts);
    v
}

/// A two-dimensional table: the column headers, the first one empty, and
/// the rows, each its row text followed by one cell per column.
pub struct TableData2d {
    pub headers: Vec<String>,
    pub rows: Vec<Vec<String>>,
}

/// Arranges the metric values of the benchmarks that pass the filter by
/// their `row` and `col` values.
///
/// The columns come in the order in which their values first occur; the
/// rows are sorted by their row text; a cell shows the metric values that
/// fall in it, and is empty where none does.
pub fn compute_2d_table_data(
    benchmarks: &Vec<Vec<(String, String)>>,
    row: &str,
    col: &str,
    metric: &str,
    filter: &Vec<(String, String)>,
) -> (t: TableData2d)
    ensures
        ({
            let ts = triples_2d(
                benchmark_views(benchmarks@),
                row@,
                col@,
                metric@,
                pair_views(filter@),
            );
            &&& string_views(t.headers@) == seq![Seq::<char>::empty()] + distinct_in_order(
                col_texts(ts),
            )
            &&& forall|i: int|
                0 <= i < t.rows@.len() ==> (#[trigger] t.rows@[i])@.len() == t.headers@.len()
            &&& first_cells(t.rows@).to_multiset() == distinct_in_order(row_texts(ts)).to_multiset()
            &&& sorted_texts(first_cells(t.rows@))
            &&& forall|i: int, k: int|
                0 <= i < t.rows@.len() && 1 <= k < t.headers@.len() ==> (#[trigger] t.rows@[i]@[k])@
                    == cell_text(cell_values(ts, t.rows@[i]@[0]@, t.headers@[k]@))
        }),
{
    let ghost views = benchmark_views(benchmarks@);
    let ghost fv = pair_views(filter@);
    let mut triples: Vec<(String, String, String)> = Vec::new();
    let mut i: usize = 0;
    assert(triple_views(triples@) =~= triples_2d(views.take(0), row@, col@, metric@, fv));
    while i < benchmarks.len()
        invariant
            i <= benchmarks.len(),
            views == benchmark_views(benchmarks@),
            fv == pair_views(filter@),
            triple_views(triples@) == triples_2d(views.take(i as int), row@, col@, metric@, fv),
        decreases benchmarks.len() - i,
    {
        assert(views.take(i + 1).drop_last() =~= views.take(i as int));
        assert(views.take(i + 1).last() == pair_views(benchmarks@[i as int]@));
        if apply_filter(&benchmarks[i], filter) {
            let b = &benchmarks[i];
            match (lookup_value(b, row), lookup_value(b, col), lookup_value(b, metric)) {
                (Some(r), Some(c), Some(m)) => {
                    let ghost before = triples@;
                    triples.push((r.clone(), c.clone(), m.clone()));
                    assert(triple_views(triples@) =~= triple_views(before).push((r@, c@, m@)));
                },
                _ => {},
            }
        }
        i = i + 1;
    }
    assert(views.take(benchmarks.len() as int) =~= views);
    let ghost ts = triple_views(triples@);

    let mut rows_seen: Vec<String> = Vec::new();
    let mut cols_seen: Vec<String> = Vec::new();
    let mut j: usize = 0;
    while j < triples.len()
        invariant
            j <= triples.len(),
            ts == triple_views(triples@),
            string_views(rows_seen@) == row_texts(ts).take(j as int),
            string_views(cols_seen@) == col_texts(ts).take(j as int),
        decreases triples.len() - j,
    {
        let ghost (r0, c0) = (rows_seen@, cols_seen@);
        rows_seen.push(triples[j].0.clone());
        cols_seen.push(triples[j].1.clone());
        assert(string_views(rows_seen@) =~= row_texts(ts).take(j + 1)) by {
            assert(string_views(rows_seen@) =~= string_views(r0).push(ts[j as int].0));
        }
        assert(string_views(cols_seen@) =~= col_texts(ts).take(j + 1)) by {
            assert(string_views(cols_seen@) =~= string_views(c0).push(ts[j as int].1));
        }
        j = j + 1;
    }
    assert(row_texts(ts).take(triples.len() as int) =~= row_texts(ts));
    assert(col_texts(ts).take(triples.len() as int) =~= col_texts(ts));

    let columns = distinct_texts(&cols_seen);
    let keys = sort_texts(distinct_texts(&rows_seen));

    let mut headers: Vec<String> = Vec::new();
    headers.push(String::new());
    let mut k: usize = 0;
    while k < columns.len()
        invariant
            k <= columns.len(),
            headers@.len() == k + 1,
            string_views(headers@) == seq![Seq::<char>::empty()] + string_views(columns@).take(
                k as int,
            ),
        decreases columns.len() - k,
    {
        let ghost before = headers@;
        headers.push(columns[k].clone());
        assert(string_views(headers@) =~= seq![Seq::<char>::empty()] + string_views(
            columns@,
        ).take(k + 1)) by {
            assert(string_views(headers@) =~= string_views(before).push(columns@[k as int]@));
        }
        k = k + 1;
    }
    assert(string_views(columns@).take(columns.len() as int) =~= string_views(columns@));

    let mut rows: Vec<Vec<String>> = Vec::new();
    let mut i: usize = 0;
    while i < keys.len()
        invariant
            i <= keys.len(),
            ts == triple_views(triples@),
            headers@.len() == columns@.len() + 1,
            string_views(headers@) == seq![Seq::<char>::empty()] + string_views(columns@),
            rows@.len() == i,
            forall|a: int|
                0 <= a < i ==> (#[trigger] rows@[a])@.len() == headers@.len() && rows@[a]@[0]@
                    == keys@[a]@,
            forall|a: int, b: int|
                0 <= a < i && 1 <= b < headers@.len() ==> (#[trigger] rows@[a]@[b])@ == cell_text(
                    cell_values(ts, keys@[a]@, headers@[b]@),
                ),
        decreases keys.len() - i,
    {
        let mut line: Vec<String> = Vec::new();
        line.push(keys[i].clone());
        let mut c: usize = 0;
        while c < columns.len()
            invariant
                c <= columns.len(),
                i < keys.len(),
                ts == triple_views(triples@),
                headers@.len() == columns@.len() + 1,
                string_views(headers@) == seq![Seq::<char>::empty()] + string_views(columns@),
                line@.len() == c + 1,
                line@[0]@ == keys@[i as int]@,
                forall|b: int| 1 <= b < c + 1 ==> (#[trigger] line@[b])@ == cell_text(
                    cell_values(ts, keys@[i as int]@, headers@[b]@),
                ),
            decreases columns.len() - c,
        {
            let values = values_at(&triples, &keys[i], &columns[c]);
            let cell = join_values(&values);
            assert(headers@[c + 1]@ == columns@[c as int]@) by {
                assert(string_views(headers@)[c + 1] == string_views(columns@)[c as int]);
            }
            line.push(cell);
            c = c + 1;
        }
        rows.push(line);
        i = i + 1;
    }
    proof {
        assert(first_cells(rows@) =~= string_views(keys@));
    }
    TableData2d { headers, rows }
}

} // verus!
