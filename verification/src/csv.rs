//! The CSV-to-columnar ingestion engine: schema inference over a sample,
//! a row index for random access, partitioned reading, and ordered
//! reassembly into one table.
use crate::builder::{
    Builder, add_to_builders, batch_col, builder_cells, builder_dtype, builder_name, builders_to_df,
    init_builders, parse_cell, supported_dtype,
};
use crate::datatypes::{DataType, Field, Schema};
use crate::error::PolarsError;
use crate::frame::{DataFrame, accumulate_dataframes, concat_cells};
use crate::parse::{infer_field_schema, spec_infer_field};
use crate::series::CellValue;
use crate::tokenize::{
    build_offsets, csv_cells, csv_offsets, field_to_string, new_reader, next_record, rdr_data,
    rdr_delim, rdr_row, seek_record, utf8_decode,
};
use vstd::prelude::*;

verus! {

/// A record the byte-structure policy accepts: its field count is the
/// first record's, and its fields are UTF-8.
pub open spec fn row_ok(cells: Seq<Seq<Seq<u8>>>, r: int) -> bool {
    &&& cells[r].len() == cells[0].len()
    &&& forall|f: int| 0 <= f < cells[r].len() ==> utf8_decode(#[trigger] cells[r][f]) is Some
}

/// The rows of `[a, b)` that the policy accepts, in order.
pub open spec fn good_rows(cells: Seq<Seq<Seq<u8>>>, a: int, b: int) -> Seq<int>
    decreases b - a,
{
    if a >= b {
        Seq::empty()
    } else {
        let rest = good_rows(cells, a, b - 1);
        if row_ok(cells, b - 1) {
            rest.push(b - 1)
        } else {
            rest
        }
    }
}

/// The records at the given rows.
pub open spec fn rows_of(cells: Seq<Seq<Seq<u8>>>, rs: Seq<int>) -> Seq<Seq<Seq<u8>>> {
    Seq::new(rs.len(), |i: int| cells[rs[i]])
}

/// The row numbers as mathematical integers.
pub open spec fn ints_view(a: Seq<usize>) -> Seq<int> {
    Seq::new(a.len(), |i: int| a[i] as int)
}

/// The raw records a buffer of exec rows holds.
pub open spec fn recs_deep(s: Seq<Vec<Vec<u8>>>) -> Seq<Seq<Seq<u8>>> {
    Seq::new(s.len(), |i: int| s[i].deep_view())
}

/// Splitting a row range splits its accepted rows.
pub proof fn lemma_good_rows_concat(cells: Seq<Seq<Seq<u8>>>, a: int, b: int, c: int)
    requires
        a <= b <= c,
    ensures
        good_rows(cells, a, c) == good_rows(cells, a, b) + good_rows(cells, b, c),
    decreases c - b,
{
    if b == c {
        assert(good_rows(cells, b, c) =~= Seq::<int>::empty());
        assert(good_rows(cells, a, c) =~= good_rows(cells, a, b) + good_rows(cells, b, c));
    } else {
        lemma_good_rows_concat(cells, a, b, c - 1);
        if row_ok(cells, c - 1) {
            assert((good_rows(cells, a, b) + good_rows(cells, b, c - 1)).push(c - 1)
                =~= good_rows(cells, a, b) + good_rows(cells, b, c - 1).push(c - 1));
        }
        assert(good_rows(cells, a, c) =~= good_rows(cells, a, b) + good_rows(cells, b, c));
    }
}

/// Every accepted row lies in its range.
pub proof fn lemma_good_rows_bounds(cells: Seq<Seq<Seq<u8>>>, a: int, b: int)
    ensures
        forall|k: int|
            0 <= k < good_rows(cells, a, b).len() ==> a <= #[trigger] good_rows(cells, a, b)[k] < b
                && row_ok(cells, good_rows(cells, a, b)[k]),
    decreases b - a,
{
    if a < b {
        lemma_good_rows_bounds(cells, a, b - 1);
        let g0 = good_rows(cells, a, b - 1);
        let g = good_rows(cells, a, b);
        assert forall|k: int| 0 <= k < g.len() implies a <= #[trigger] g[k] < b && row_ok(
            cells,
            g[k],
        ) by {
            if row_ok(cells, b - 1) {
                if k < g0.len() {
                    assert(g[k] == g0[k]);
                } else {
                    assert(g[k] == b - 1);
                }
            } else {
                assert(g[k] == g0[k]);
            }
        }
    }
}

/// An accepted row of the range stands among its accepted rows.
pub proof fn lemma_good_rows_complete(cells: Seq<Seq<Seq<u8>>>, a: int, b: int, rr: int)
    requires
        a <= rr < b,
        row_ok(cells, rr),
    ensures
        exists|i: int|
            0 <= i < good_rows(cells, a, b).len() && #[trigger] good_rows(cells, a, b)[i] == rr,
    decreases b - a,
{
    let g = good_rows(cells, a, b);
    let g0 = good_rows(cells, a, b - 1);
    if rr == b - 1 {
        assert(g == g0.push(rr));
        assert(g[g.len() - 1] == rr);
    } else {
        lemma_good_rows_complete(cells, a, b - 1, rr);
        let i = choose|i: int| 0 <= i < g0.len() && #[trigger] g0[i] == rr;
        assert(g[i] == rr);
    }
}

/// The accepted rows of a range stand in increasing order.
pub proof fn lemma_good_rows_increasing(cells: Seq<Seq<Seq<u8>>>, a: int, b: int)
    ensures
        forall|k1: int, k2: int|
            #![trigger good_rows(cells, a, b)[k1], good_rows(cells, a, b)[k2]]
            0 <= k1 < k2 < good_rows(cells, a, b).len() ==> good_rows(cells, a, b)[k1] < good_rows(
                cells,
                a,
                b,
            )[k2],
    decreases b - a,
{
    if a < b {
        lemma_good_rows_increasing(cells, a, b - 1);
        lemma_good_rows_bounds(cells, a, b - 1);
        let g0 = good_rows(cells, a, b - 1);
        let g = good_rows(cells, a, b);
        assert forall|k1: int, k2: int|
            #![trigger g[k1], g[k2]]
            0 <= k1 < k2 < g.len() implies g[k1] < g[k2] by {
            if row_ok(cells, b - 1) {
                assert(g == g0.push(b - 1));
                if k2 < g0.len() {
                    assert(g[k1] == g0[k1] && g[k2] == g0[k2]);
                } else {
                    assert(g[k2] == b - 1);
                    assert(g[k1] == g0[k1]);
                    assert(g0[k1] < b - 1);
                }
            } else {
                assert(g == g0);
            }
        }
    }
}

/// The smaller of two row positions.
pub open spec fn min_int(a: int, b: int) -> int {
    if a < b {
        a
    } else {
        b
    }
}

/// Read up to `batch_size` records, keeping the accepted ones in `rows`
/// and their row numbers in `rows_abs`.  Under the strict policy a
/// record the policy refuses stops the read with its 1-based line.
fn next_rows(
    r: &mut csv::Reader<std::io::Cursor<Vec<u8>>>,
    rows: &mut Vec<Vec<Vec<u8>>>,
    rows_abs: &mut Vec<usize>,
    start_abs: usize,
    batch_size: usize,
    expected_len: usize,
    tolerant: bool,
) -> (res: Result<usize, usize>)
    requires
        rdr_row(*old(r)) == start_abs,
        rdr_row(*old(r)) <= csv_cells(rdr_data(*old(r)), rdr_delim(*old(r))).len(),
        csv_cells(rdr_data(*old(r)), rdr_delim(*old(r))).len() + 16 < usize::MAX,
        csv_cells(rdr_data(*old(r)), rdr_delim(*old(r))).len() > 0 ==> expected_len == csv_cells(
            rdr_data(*old(r)),
            rdr_delim(*old(r)),
        )[0].len(),
        old(rows).deep_view() == rows_of(
            csv_cells(rdr_data(*old(r)), rdr_delim(*old(r))),
            ints_view(old(rows_abs)@),
        ),
    ensures
        rdr_data(*final(r)) == rdr_data(*old(r)),
        rdr_delim(*final(r)) == rdr_delim(*old(r)),
        ({
            let cells = csv_cells(rdr_data(*old(r)), rdr_delim(*old(r)));
            let k0 = rdr_row(*old(r));
            let k1 = rdr_row(*final(r));
            match res {
                Ok(n) => {
                    &&& k0 + n == k1
                    &&& k1 == min_int(k0 + batch_size, cells.len() as int)
                    &&& !tolerant ==> range_rows_ok(cells, k0, k1)
                    &&& ints_view(final(rows_abs)@) == ints_view(old(rows_abs)@) + good_rows(
                        cells,
                        k0,
                        k1,
                    )
                    &&& final(rows).deep_view() == rows_of(cells, ints_view(final(rows_abs)@))
                },
                Err(line) => {
                    &&& !tolerant
                    &&& k0 <= line - 1 < min_int(k0 + batch_size, cells.len() as int)
                    &&& !row_ok(cells, line - 1)
                },
            }
        }),
{
    let ghost cells = csv_cells(rdr_data(*old(r)), rdr_delim(*old(r)));
    let ghost k0 = rdr_row(*old(r));
    proof {
        assert(recs_deep(rows@) =~= rows.deep_view());
    }
    let mut i: usize = 0;
    let mut stop: bool = false;
    while i < batch_size && !stop
        invariant
            0 <= i <= batch_size,
            cells.len() + 16 < usize::MAX,
            cells == csv_cells(rdr_data(*r), rdr_delim(*r)),
            rdr_data(*r) == rdr_data(*old(r)),
            rdr_delim(*r) == rdr_delim(*old(r)),
            k0 == rdr_row(*old(r)),
            k0 == start_abs,
            cells.len() > 0 ==> expected_len == cells[0].len(),
            !stop ==> rdr_row(*r) == k0 + i && k0 + i <= cells.len(),
            stop ==> rdr_row(*r) == cells.len() && rdr_row(*r) == k0 + i,
            !tolerant ==> range_rows_ok(cells, k0, rdr_row(*r)),
            ints_view(rows_abs@) == ints_view(old(rows_abs)@) + good_rows(cells, k0, rdr_row(*r)),
            recs_deep(rows@) == rows_of(cells, ints_view(rows_abs@)),
        decreases
                batch_size - i + (if stop {
                    0int
                } else {
                    1int
                }),
    {
        let ghost cur = rdr_row(*r);
        let abs: usize = start_abs + i;
        match next_record(r) {
            None => {
                proof {
                    assert(cur >= cells.len());
                    assert(cur == cells.len());
                }
                stop = true;
            },
            Some(rec) => {
                proof {
                    assert(0 <= cur < cells.len());
                    assert(rec.deep_view() == cells[cur]);
                }
                // The policy: the first record's field count, and UTF-8
                // fields.
                let mut ok: bool = rec.len() == expected_len;
                let mut fi: usize = 0;
                while fi < rec.len() && ok
                    invariant
                        0 <= fi <= rec@.len(),
                        rec.deep_view() == cells[cur as int],
                        0 <= cur < cells.len(),
                        cells.len() > 0 ==> expected_len == cells[0].len(),
                        ok ==> rec@.len() == cells[0].len(),
                        ok ==> forall|f: int|
                            0 <= f < fi ==> utf8_decode(#[trigger] cells[cur as int][f]) is Some,
                        !ok ==> !row_ok(cells, cur as int),
                    decreases
                            rec@.len() - fi + (if ok {
                                1int
                            } else {
                                0int
                            }),
                {
                    match field_to_string(&rec[fi]) {
                        Some(_) => {
                            proof {
                                assert(cells[cur as int][fi as int] =~= rec@[fi as int]@);
                            }
                            fi = fi + 1;
                        },
                        None => {
                            proof {
                                assert(cells[cur as int][fi as int] =~= rec@[fi as int]@);
                                assert(utf8_decode(cells[cur as int][fi as int]) is None);
                                assert(!row_ok(cells, cur as int));
                            }
                            ok = false;
                        },
                    }
                }
                proof {
                    if ok {
                        assert(rec@.len() == cells[cur as int].len());
                        assert(row_ok(cells, cur as int));
                    }
                }
                if ok {
                    let ghost pre_abs = rows_abs@;
                    let ghost pre_rows = rows@;
                    let ghost rec_v = rec.deep_view();
                    rows_abs.push(abs);
                    rows.push(rec);
                    proof {
                        assert(rows@ == pre_rows.push(rec));
                        assert(rec_v == cells[cur]);
                        assert(ints_view(rows_abs@) =~= ints_view(pre_abs).push(cur));
                        assert(good_rows(cells, k0, cur + 1) =~= good_rows(cells, k0, cur).push(
                            cur,
                        ));
                        assert(ints_view(rows_abs@) =~= ints_view(old(rows_abs)@) + good_rows(
                            cells,
                            k0,
                            cur + 1,
                        ));
                        let n = pre_rows.len() as int;
                        assert(recs_deep(pre_rows) == rows_of(cells, ints_view(pre_abs)));
                        assert(recs_deep(pre_rows).len() == n);
                        assert(rows_of(cells, ints_view(pre_abs)).len() == pre_abs.len());
                        assert(pre_abs.len() == n);
                        assert(ints_view(rows_abs@).len() == n + 1);
                        assert forall|k: int| 0 <= k < n + 1 implies recs_deep(rows@)[k]
                            == rows_of(cells, ints_view(rows_abs@))[k] by {
                            assert(recs_deep(rows@)[k] == rows@[k].deep_view());
                            assert(ints_view(rows_abs@)[k] == ints_view(pre_abs).push(cur)[k]);
                            if k < n {
                                assert(rows@[k] == pre_rows[k]);
                                assert(recs_deep(pre_rows)[k] == pre_rows[k].deep_view());
                                assert(recs_deep(pre_rows)[k] == rows_of(
                                    cells,
                                    ints_view(pre_abs),
                                )[k]);
                                assert(rows_of(cells, ints_view(pre_abs))[k] == cells[ints_view(
                                    pre_abs,
                                )[k]]);
                                assert(rows_of(cells, ints_view(rows_abs@))[k] == cells[ints_view(
                                    rows_abs@,
                                )[k]]);
                            } else {
                                assert(rows@[k] == rec);
                                assert(rows_of(cells, ints_view(rows_abs@))[k] == cells[ints_view(
                                    rows_abs@,
                                )[k]]);
                                assert(ints_view(rows_abs@)[k] == cur);
                            }
                        }
                        assert(recs_deep(rows@) =~= rows_of(cells, ints_view(rows_abs@)));
                        if !tolerant {
                            assert forall|rr: int| k0 <= rr < cur + 1 implies #[trigger] row_ok(
                                cells,
                                rr,
                            ) by {}
                        }
                    }
                } else {
                    if !tolerant {
                        return Err(abs + 1);
                    }
                    proof {
                        assert(good_rows(cells, k0, cur + 1) =~= good_rows(cells, k0, cur));
                    }
                }
                i = i + 1;
            },
        }
    }
    proof {
        if stop {
            assert(rdr_row(*r) == min_int(k0 + batch_size, cells.len() as int));
        } else {
            assert(i == batch_size);
            assert(rdr_row(*r) == min_int(k0 + batch_size, cells.len() as int));
        }
        assert(recs_deep(rows@) =~= rows.deep_view());
    }
    Ok(i)
}

} // verus!

verus! {

use crate::datatypes::FieldSpec;
use crate::series::SeriesSpec;

/// The columns a read over rows `[start, end)` produces: one column per
/// projected index, named and typed by the schema, holding the parsed
/// cells of the accepted rows.
pub open spec fn built_ok(
    df: Seq<SeriesSpec>,
    cells: Seq<Seq<Seq<u8>>>,
    start: int,
    end: int,
    projection: Seq<usize>,
    schema: Seq<FieldSpec>,
) -> bool {
    &&& df.len() == projection.len()
    &&& forall|j: int|
        #![trigger df[j]]
        0 <= j < projection.len() ==> {
            &&& df[j].name == schema[projection[j] as int].name
            &&& df[j].dtype == schema[projection[j] as int].dtype
            &&& df[j].cells == batch_col(
                rows_of(cells, good_rows(cells, start, end)),
                projection[j] as int,
                schema[projection[j] as int].dtype,
            )
        }
}

/// Every row of the range is accepted by the byte-structure policy.
pub open spec fn range_rows_ok(cells: Seq<Seq<Seq<u8>>>, start: int, end: int) -> bool {
    forall|rr: int| start <= rr < end ==> #[trigger] row_ok(cells, rr)
}

/// Every projected field of the accepted rows of the range parses.
pub open spec fn range_parses(
    cells: Seq<Seq<Seq<u8>>>,
    start: int,
    end: int,
    projection: Seq<usize>,
    schema: Seq<FieldSpec>,
) -> bool {
    forall|j: int, rr: int|
        0 <= j < projection.len() && start <= rr < end && row_ok(cells, rr) && projection[j]
            < cells[rr].len() ==> #[trigger] parse_cell(
            schema[projection[j] as int].dtype,
            cells[rr][projection[j] as int],
        ) is Some
}

/// What a reported parse failure means: the line is in range and
/// accepted, the column is projected and its raw value (carried in the
/// error) does not parse under the column's type, and no earlier
/// accepted row of the range fails in that column — the first failure
/// is the one reported.
pub open spec fn parse_error_ok(
    column: usize,
    line: int,
    value: Seq<u8>,
    cells: Seq<Seq<Seq<u8>>>,
    start: int,
    end: int,
    projection: Seq<usize>,
    schema: Seq<FieldSpec>,
) -> bool {
    &&& start <= line - 1 < end
    &&& row_ok(cells, line - 1)
    &&& (column as int) < cells[line - 1].len()
    &&& (column as int) < schema.len()
    &&& value == cells[line - 1][column as int]
    &&& exists|j: int|
        0 <= j < projection.len() && #[trigger] projection[j] == column && parse_cell(
            schema[column as int].dtype,
            cells[line - 1][column as int],
        ) is None
    &&& forall|rr: int|
        start <= rr < line - 1 && row_ok(cells, rr) && (column as int) < cells[rr].len()
            ==> #[trigger] parse_cell(schema[column as int].dtype, cells[rr][column as int]) is Some
}

/// The errors a read can end with, each with its witness: a type the
/// builders do not support, or — under the strict policy only — a
/// record the byte-structure policy refuses, or a field that does not
/// parse, reported with column, line, and raw value.
pub open spec fn reader_err_ok(
    e: PolarsError,
    cells: Seq<Seq<Seq<u8>>>,
    start: int,
    end: int,
    projection: Seq<usize>,
    schema: Seq<FieldSpec>,
    tolerant: bool,
) -> bool {
    ||| (e == PolarsError::UnsupportedType && exists|j: int|
        0 <= j < projection.len() && !supported_dtype(
            schema[#[trigger] projection[j] as int].dtype,
        ))
    ||| (!tolerant && (e matches PolarsError::MalformedRecord { line } && {
        &&& start <= line - 1 < end
        &&& !row_ok(cells, line - 1)
    }))
    ||| (!tolerant && (e matches PolarsError::ParseError { column, line, value }
        && parse_error_ok(column, line as int, value@, cells, start, end, projection, schema)))
}

/// One field of a raw record, copied out for an error report.
fn copy_field(row: &Vec<Vec<u8>>, c: usize) -> (r: Vec<u8>)
    requires
        (c as int) < row@.len(),
    ensures
        r@ == row@[c as int]@,
        r@ == row.deep_view()[c as int],
{
    let src: &Vec<u8> = &row[c];
    let mut r: Vec<u8> = Vec::new();
    let mut i: usize = 0;
    while i < src.len()
        invariant
            i <= src@.len(),
            src == row@[c as int],
            r@ =~= src@.subrange(0, i as int),
        decreases src@.len() - i,
    {
        r.push(src[i]);
        proof {
            assert(r@ =~= src@.subrange(0, i + 1));
        }
        i = i + 1;
    }
    proof {
        assert(r@ =~= src@);
        assert(row.deep_view()[c as int] == row@[c as int].deep_view());
        assert(row@[c as int].deep_view() =~= row@[c as int]@);
    }
    r
}

/// At a reported parse failure, the error's witnesses hold over the
/// whole range read so far: the line is the batch row's absolute row,
/// the value is that row's field, and no earlier accepted row of the
/// range fails in the reported column.
proof fn lemma_parse_error_site(
    cells: Seq<Seq<Seq<u8>>>,
    start: int,
    end: int,
    c0: int,
    c1: int,
    projection: Seq<usize>,
    schema: Seq<FieldSpec>,
    bs: Seq<Builder>,
    rows_deep: Seq<Seq<Seq<u8>>>,
    c: usize,
    ri: int,
    value: Seq<u8>,
)
    requires
        0 <= start <= c0 <= c1 <= end,
        bs.len() == projection.len(),
        forall|j: int|
            #![trigger bs[j]]
            0 <= j < projection.len() ==> builder_dtype(bs[j]) == schema[projection[j] as int].dtype,
        forall|j: int| 0 <= j < projection.len() ==> #[trigger] projection[j] < schema.len(),
        rows_deep == rows_of(cells, good_rows(cells, c0, c1)),
        range_parses(cells, start, c0, projection, schema),
        0 <= ri < rows_deep.len(),
        value == rows_deep[ri][c as int],
        exists|j: int|
            0 <= j < projection.len() && #[trigger] projection[j] == c && ri < rows_deep.len() && (
            c as int) < rows_deep[ri].len() && parse_cell(
                builder_dtype(bs[j]),
                rows_deep[ri][c as int],
            ) is None && (forall|r2: int|
                0 <= r2 < ri && (c as int) < rows_deep[r2].len() ==> #[trigger] parse_cell(
                    builder_dtype(bs[j]),
                    rows_deep[r2][c as int],
                ) is Some),
    ensures
        parse_error_ok(
            c,
            good_rows(cells, c0, c1)[ri] + 1,
            value,
            cells,
            start,
            end,
            projection,
            schema,
        ),
{
    let gr = good_rows(cells, c0, c1);
    lemma_good_rows_bounds(cells, c0, c1);
    lemma_good_rows_increasing(cells, c0, c1);
    let abs = gr[ri];
    assert(rows_deep[ri] == cells[abs]);
    let jx = choose|j: int|
        0 <= j < projection.len() && #[trigger] projection[j] == c && ri < rows_deep.len() && (
        c as int) < rows_deep[ri].len() && parse_cell(
            builder_dtype(bs[j]),
            rows_deep[ri][c as int],
        ) is None && (forall|r2: int|
            0 <= r2 < ri && (c as int) < rows_deep[r2].len() ==> #[trigger] parse_cell(
                builder_dtype(bs[j]),
                rows_deep[r2][c as int],
            ) is Some);
    assert(builder_dtype(bs[jx]) == schema[c as int].dtype);
    assert(parse_cell(schema[c as int].dtype, cells[abs][c as int]) is None);
    assert forall|rr: int|
        start <= rr < abs && row_ok(cells, rr) && (c as int) < cells[rr].len() implies #[trigger]
        parse_cell(schema[c as int].dtype, cells[rr][c as int]) is Some by {
        if rr < c0 {
            assert(parse_cell(
                schema[projection[jx] as int].dtype,
                cells[rr][projection[jx] as int],
            ) is Some);
        } else {
            lemma_good_rows_complete(cells, c0, c1, rr);
            let idx = choose|i: int| 0 <= i < gr.len() && #[trigger] gr[i] == rr;
            assert(idx < ri) by {
                if idx == ri {
                    assert(rr == abs);
                } else if idx > ri {
                    assert(gr[ri] < gr[idx]);
                }
            }
            assert(rows_deep[idx] == cells[rr]);
            assert(parse_cell(builder_dtype(bs[jx]), rows_deep[idx][c as int]) is Some);
        }
    }
}

/// A read error witnessed over a sub-range is witnessed over the whole
/// range, given that everything before the sub-range parsed.
proof fn lemma_extend_reader_err(
    e: PolarsError,
    cells: Seq<Seq<Seq<u8>>>,
    start: int,
    p_start: int,
    p_end: int,
    end: int,
    projection: Seq<usize>,
    schema: Seq<FieldSpec>,
    tolerant: bool,
)
    requires
        0 <= start <= p_start <= p_end <= end,
        reader_err_ok(e, cells, p_start, p_end, projection, schema, tolerant),
        !tolerant ==> range_parses(cells, start, p_start, projection, schema),
    ensures
        reader_err_ok(e, cells, start, end, projection, schema, tolerant),
{
    match e {
        PolarsError::ParseError { column, line, value } => {
            if !tolerant && parse_error_ok(
                column,
                line as int,
                value@,
                cells,
                p_start,
                p_end,
                projection,
                schema,
            ) {
                let jx = choose|j: int|
                    0 <= j < projection.len() && #[trigger] projection[j] == column && parse_cell(
                        schema[column as int].dtype,
                        cells[line - 1][column as int],
                    ) is None;
                assert forall|rr: int|
                    start <= rr < line - 1 && row_ok(cells, rr) && (column as int)
                        < cells[rr].len() implies #[trigger] parse_cell(
                    schema[column as int].dtype,
                    cells[rr][column as int],
                ) is Some by {
                    if rr < p_start {
                        assert(parse_cell(
                            schema[projection[jx] as int].dtype,
                            cells[rr][projection[jx] as int],
                        ) is Some);
                    }
                }
                assert(parse_error_ok(
                    column,
                    line as int,
                    value@,
                    cells,
                    start,
                    end,
                    projection,
                    schema,
                ));
            }
        },
        _ => {},
    }
}

proof fn lemma_rows_of_concat(cells: Seq<Seq<Seq<u8>>>, a: Seq<int>, b: Seq<int>)
    ensures
        rows_of(cells, a + b) == rows_of(cells, a) + rows_of(cells, b),
{
    assert(rows_of(cells, a + b) =~= rows_of(cells, a) + rows_of(cells, b));
}

proof fn lemma_batch_col_concat(a: Seq<Seq<Seq<u8>>>, b: Seq<Seq<Seq<u8>>>, col: int, dt: DataType)
    ensures
        batch_col(a + b, col, dt) == batch_col(a, col, dt) + batch_col(b, col, dt),
{
    assert(batch_col(a + b, col, dt) =~= batch_col(a, col, dt) + batch_col(b, col, dt));
}

/// Run one partition: seek to its starting row and read its row budget in
/// batches, feeding each batch to a fresh builder set, as the worker of
/// the parallel path does.
#[verifier::rlimit(100)]
fn process_partition(
    data: &Vec<u8>,
    delimiter: u8,
    offsets: &Vec<u64>,
    schema: &Schema,
    projection: &Vec<usize>,
    start_row: usize,
    budget: usize,
    batch_size: usize,
    tolerant: bool,
    expected_len: usize,
) -> (r: Result<DataFrame, PolarsError>)
    requires
        offsets@ == csv_offsets(data@, delimiter),
        csv_offsets(data@, delimiter).len() == csv_cells(data@, delimiter).len(),
        forall|j: int| 0 <= j < projection@.len() ==> #[trigger] projection@[j] < schema@.len(),
        csv_cells(data@, delimiter).len() > 0 ==> expected_len == csv_cells(
            data@,
            delimiter,
        )[0].len(),
        start_row <= csv_cells(data@, delimiter).len(),
        start_row + budget < usize::MAX,
        csv_cells(data@, delimiter).len() + 16 < usize::MAX,
        batch_size >= 1,
    ensures
        ({
            let cells = csv_cells(data@, delimiter);
            let end = min_int(start_row + budget, cells.len() as int);
            match r {
                Ok(df) => {
                    &&& built_ok(df@, cells, start_row as int, end, projection@, schema@)
                    &&& forall|j: int|
                        0 <= j < projection@.len() ==> supported_dtype(
                            schema@[#[trigger] projection@[j] as int].dtype,
                        )
                    &&& !tolerant ==> range_rows_ok(cells, start_row as int, end) && range_parses(
                        cells,
                        start_row as int,
                        end,
                        projection@,
                        schema@,
                    )
                },
                Err(e) => reader_err_ok(
                    e,
                    cells,
                    start_row as int,
                    end,
                    projection@,
                    schema@,
                    tolerant,
                ),
            }
        }),
{
    let ghost cells = csv_cells(data@, delimiter);
    let ghost end = min_int(start_row + budget, cells.len() as int);
    let mut builders = match init_builders(projection, budget, schema) {
        Ok(bs) => bs,
        Err(e) => {
            return Err(e);
        },
    };
    let ghost builders0 = builders@;
    if budget == 0 || start_row >= offsets.len() {
        let df = builders_to_df(builders);
        proof {
            assert(end == start_row as int);
            assert(good_rows(cells, start_row as int, end) =~= Seq::<int>::empty());
            assert forall|j: int| 0 <= j < projection@.len() implies #[trigger] df@[j].cells
                == batch_col(
                rows_of(cells, good_rows(cells, start_row as int, end)),
                projection@[j] as int,
                schema@[projection@[j] as int].dtype,
            ) by {
                assert(rows_of(cells, Seq::<int>::empty()) =~= Seq::<Seq<Seq<u8>>>::empty());
                assert(batch_col(
                    Seq::<Seq<Seq<u8>>>::empty(),
                    projection@[j] as int,
                    schema@[projection@[j] as int].dtype,
                ) =~= Seq::<Option<CellValue>>::empty());
            }
        }
        return Ok(df);
    }
    let mut rdr = new_reader(data, delimiter);
    seek_record(&mut rdr, offsets[start_row], start_row);
    let mut rows: Vec<Vec<Vec<u8>>> = Vec::new();
    let mut rows_abs: Vec<usize> = Vec::new();
    let mut consumed: usize = 0;
    let mut eof: bool = false;
    while consumed < budget && !eof
        invariant
            0 <= consumed <= budget,
            start_row + budget < usize::MAX,
            cells.len() + 16 < usize::MAX,
            batch_size >= 1,
            cells == csv_cells(data@, delimiter),
            end == min_int(start_row + budget, cells.len() as int),
            rdr_data(rdr) == data@,
            rdr_delim(rdr) == delimiter,
            rdr_row(rdr) == start_row + consumed,
            start_row + consumed <= cells.len(),
            eof ==> start_row + consumed == cells.len(),
            cells.len() > 0 ==> expected_len == cells[0].len(),
            builders@.len() == projection@.len(),
            builders0.len() == projection@.len(),
            forall|j: int| 0 <= j < projection@.len() ==> #[trigger] projection@[j] < schema@.len(),
            forall|j: int|
                #![trigger builders@[j]]
                0 <= j < projection@.len() ==> {
                    &&& builder_dtype(builders@[j]) == schema@[projection@[j] as int].dtype
                    &&& builder_name(builders@[j]) == schema@[projection@[j] as int].name
                    &&& builder_cells(builders@[j]) == batch_col(
                        rows_of(
                            cells,
                            good_rows(cells, start_row as int, start_row + consumed),
                        ),
                        projection@[j] as int,
                        schema@[projection@[j] as int].dtype,
                    )
                },
            !tolerant ==> range_rows_ok(cells, start_row as int, start_row + consumed),
            !tolerant ==> range_parses(
                cells,
                start_row as int,
                start_row + consumed,
                projection@,
                schema@,
            ),
        decreases budget - consumed + (if eof {
            0int
        } else {
            1int
        }),
    {
        rows.clear();
        rows_abs.clear();
        let this_batch: usize = if batch_size < budget - consumed {
            batch_size
        } else {
            budget - consumed
        };
        proof {
            assert(rows.deep_view() =~= rows_of(cells, ints_view(rows_abs@)));
        }
        let n = match next_rows(
            &mut rdr,
            &mut rows,
            &mut rows_abs,
            start_row + consumed,
            this_batch,
            expected_len,
            tolerant,
        ) {
            Ok(n) => n,
            Err(line) => {
                proof {
                    assert(min_int(
                        start_row + consumed + this_batch,
                        cells.len() as int,
                    ) <= end);
                    assert(start_row <= line - 1 < end);
                }
                return Err(PolarsError::MalformedRecord { line });
            },
        };
        let ghost c0 = start_row + consumed;
        let ghost c1 = rdr_row(rdr);
        proof {
            lemma_good_rows_bounds(cells, c0, c1);
        }
        let ghost pre_builders = builders@;
        let new_builders = match add_to_builders(builders, projection, &rows, tolerant) {
            Ok(bs) => bs,
            Err((c, ri)) => {
                proof {
                    let gr = good_rows(cells, c0, c1);
                    assert(ints_view(rows_abs@) == gr);
                    assert(ri < rows@.len());
                    assert(rows@.len() == rows.deep_view().len());
                    assert(rows.deep_view().len() == gr.len());
                    assert(rows_abs@.len() == gr.len());
                    assert(ints_view(rows_abs@)[ri as int] == gr[ri as int]);
                    assert(rows.deep_view()[ri as int] == cells[gr[ri as int]]);
                    assert(rows.deep_view()[ri as int] == rows@[ri as int].deep_view());
                    assert(rows@[ri as int].deep_view().len() == rows@[ri as int]@.len());
                }
                let line: usize = rows_abs[ri] + 1;
                let value: Vec<u8> = copy_field(&rows[ri], c);
                proof {
                    lemma_parse_error_site(
                        cells,
                        start_row as int,
                        end,
                        c0,
                        c1,
                        projection@,
                        schema@,
                        pre_builders,
                        rows.deep_view(),
                        c,
                        ri as int,
                        value@,
                    );
                }
                return Err(PolarsError::ParseError { column: c, line, value });
            },
        };
        builders = new_builders;
        proof {
            let gr0 = good_rows(cells, start_row as int, c0);
            let grb = good_rows(cells, c0, c1);
            lemma_good_rows_concat(cells, start_row as int, c0, c1);
            lemma_rows_of_concat(cells, gr0, grb);
            assert(rows.deep_view() == rows_of(cells, grb));
            assert forall|j: int| 0 <= j < projection@.len() implies #[trigger] builder_cells(
                builders@[j],
            ) == batch_col(
                rows_of(cells, good_rows(cells, start_row as int, c1)),
                projection@[j] as int,
                schema@[projection@[j] as int].dtype,
            ) by {
                lemma_batch_col_concat(
                    rows_of(cells, gr0),
                    rows_of(cells, grb),
                    projection@[j] as int,
                    schema@[projection@[j] as int].dtype,
                );
            }
            if !tolerant {
                assert(range_rows_ok(cells, c0, c1));
                assert forall|rr: int| start_row <= rr < c1 implies #[trigger] row_ok(
                    cells,
                    rr,
                ) by {}
                assert forall|j: int, rr: int|
                    0 <= j < projection@.len() && start_row <= rr < c1 && row_ok(cells, rr)
                        && projection@[j] < cells[rr].len() implies #[trigger] parse_cell(
                    schema@[projection@[j] as int].dtype,
                    cells[rr][projection@[j] as int],
                ) is Some by {
                    if rr >= c0 {
                        lemma_good_rows_complete(cells, c0, c1, rr);
                        let idx = choose|i: int|
                            0 <= i < grb.len() && #[trigger] grb[i] == rr;
                        assert(rows.deep_view()[idx] == cells[rr]);
                        assert(crate::builder::builder_dtypes(pre_builders)[j] == builder_dtype(
                            pre_builders[j],
                        ));
                        assert(parse_cell(
                            crate::builder::builder_dtypes(pre_builders)[j],
                            rows.deep_view()[idx][projection@[j] as int],
                        ) is Some);
                    }
                }
            }
        }
        consumed = consumed + n;
        if n < this_batch {
            eof = true;
            proof {
                assert(start_row + consumed == cells.len());
            }
        }
    }
    proof {
        assert(start_row + consumed == end);
    }
    let df = builders_to_df(builders);
    proof {
        assert forall|j: int| 0 <= j < projection@.len() implies {
            &&& #[trigger] df@[j].name == schema@[projection@[j] as int].name
            &&& df@[j].dtype == schema@[projection@[j] as int].dtype
            &&& df@[j].cells == batch_col(
                rows_of(cells, good_rows(cells, start_row as int, end)),
                projection@[j] as int,
                schema@[projection@[j] as int].dtype,
            )
        } by {
            assert(df@[j].cells == builder_cells(builders@[j]));
        }
    }
    Ok(df)
}

} // verus!

verus! {

use vstd::pervasive::VecAdditionalExecFns;

/// How many rows a sample scan covers: the rows after the first, capped
/// by `max_records` when given.
pub open spec fn scan_limit(cells_len: int, max_records: Option<usize>) -> int {
    let avail = cells_len - 1;
    match max_records {
        Some(m) => if m as int <= avail {
            m as int
        } else {
            avail
        },
        None => avail,
    }
}

/// Whether a non-empty value of column `col` in sample rows `1..=scan`
/// classifies as `dt`.
pub open spec fn col_has_kind(
    cells: Seq<Seq<Seq<u8>>>,
    col: int,
    scan: int,
    dt: DataType,
) -> bool {
    exists|rr: int|
        1 <= rr <= scan && col < #[trigger] cells[rr].len() && cells[rr][col].len() > 0
            && spec_infer_field(cells[rr][col]) == dt
}

/// Whether column `col` holds a blank value in sample rows `1..=scan`.
pub open spec fn col_nullable(cells: Seq<Seq<Seq<u8>>>, col: int, scan: int) -> bool {
    exists|rr: int|
        1 <= rr <= scan && col < #[trigger] cells[rr].len() && cells[rr][col].len() == 0
}

/// Resolve the set of observed kinds: one kind stands; integers and
/// decimals together widen to `Float64`; any other mix, or nothing
/// observed, falls back to `Utf8`.
pub open spec fn resolve_dtype(saw_b: bool, saw_i: bool, saw_f: bool, saw_u: bool) -> DataType {
    let count = (if saw_b {
        1int
    } else {
        0int
    }) + (if saw_i {
        1int
    } else {
        0int
    }) + (if saw_f {
        1int
    } else {
        0int
    }) + (if saw_u {
        1int
    } else {
        0int
    });
    if count == 1 {
        if saw_b {
            DataType::Boolean
        } else if saw_i {
            DataType::Int64
        } else if saw_f {
            DataType::Float64
        } else {
            DataType::Utf8
        }
    } else if count == 2 && saw_i && saw_f {
        DataType::Float64
    } else {
        DataType::Utf8
    }
}

/// The type inference resolves for column `col` of the sample.
pub open spec fn inferred_dtype(cells: Seq<Seq<Seq<u8>>>, col: int, scan: int) -> DataType {
    resolve_dtype(
        col_has_kind(cells, col, scan, DataType::Boolean),
        col_has_kind(cells, col, scan, DataType::Int64),
        col_has_kind(cells, col, scan, DataType::Float64),
        col_has_kind(cells, col, scan, DataType::Utf8),
    )
}

pub open spec fn digit_char(d: int) -> char {
    if d == 0 {
        '0'
    } else if d == 1 {
        '1'
    } else if d == 2 {
        '2'
    } else if d == 3 {
        '3'
    } else if d == 4 {
        '4'
    } else if d == 5 {
        '5'
    } else if d == 6 {
        '6'
    } else if d == 7 {
        '7'
    } else if d == 8 {
        '8'
    } else {
        '9'
    }
}

/// The decimal digits of `n`, highest first.
pub open spec fn dec_chars(n: nat) -> Seq<char>
    decreases n,
{
    if n < 10 {
        seq![digit_char(n as int)]
    } else {
        dec_chars(n / 10).push(digit_char((n % 10) as int))
    }
}

/// The name synthesized for column `i` when no header is present,
/// 1-based.
pub open spec fn synth_name(i: int) -> Seq<char> {
    "column_"@ + dec_chars((i + 1) as nat)
}

fn digit_str(d: usize) -> (r: &'static str)
    requires
        d < 10,
    ensures
        r@ == seq![digit_char(d as int)],
{
    if d == 0 {
        proof {
            reveal_strlit("0");
        }
        "0"
    } else if d == 1 {
        proof {
            reveal_strlit("1");
        }
        "1"
    } else if d == 2 {
        proof {
            reveal_strlit("2");
        }
        "2"
    } else if d == 3 {
        proof {
            reveal_strlit("3");
        }
        "3"
    } else if d == 4 {
        proof {
            reveal_strlit("4");
        }
        "4"
    } else if d == 5 {
        proof {
            reveal_strlit("5");
        }
        "5"
    } else if d == 6 {
        proof {
            reveal_strlit("6");
        }
        "6"
    } else if d == 7 {
        proof {
            reveal_strlit("7");
        }
        "7"
    } else if d == 8 {
        proof {
            reveal_strlit("8");
        }
        "8"
    } else {
        proof {
            reveal_strlit("9");
        }
        "9"
    }
}

fn usize_to_string(n: usize) -> (r: String)
    ensures
        r@ == dec_chars(n as nat),
    decreases n,
{
    if n < 10 {
        String::from_str(digit_str(n))
    } else {
        let mut s = usize_to_string(n / 10);
        s.append(digit_str(n % 10));
        proof {
            assert(s@ =~= dec_chars(n as nat));
        }
        s
    }
}

fn column_name(i: usize) -> (r: String)
    requires
        i < usize::MAX,
    ensures
        r@ == synth_name(i as int),
{
    let mut s = String::from_str("column_");
    let digits = usize_to_string(i + 1);
    s.append(digits.as_str());
    s
}

proof fn lemma_kind_step(cells: Seq<Seq<Seq<u8>>>, col: int, s: int, dt: DataType)
    requires
        s >= 0,
    ensures
        col_has_kind(cells, col, s + 1, dt) == (col_has_kind(cells, col, s, dt) || (col < cells[s
            + 1].len() && cells[s + 1][col].len() > 0 && spec_infer_field(cells[s + 1][col])
            == dt)),
{
    if col_has_kind(cells, col, s + 1, dt) {
        let rr = choose|rr: int|
            1 <= rr <= s + 1 && col < #[trigger] cells[rr].len() && cells[rr][col].len() > 0
                && spec_infer_field(cells[rr][col]) == dt;
        if rr <= s {
            assert(col_has_kind(cells, col, s, dt));
        }
    }
    if col_has_kind(cells, col, s, dt) {
        let rr = choose|rr: int|
            1 <= rr <= s && col < #[trigger] cells[rr].len() && cells[rr][col].len() > 0
                && spec_infer_field(cells[rr][col]) == dt;
        assert(1 <= rr <= s + 1 && col < cells[rr].len() && cells[rr][col].len() > 0
            && spec_infer_field(cells[rr][col]) == dt);
    }
    if col < cells[s + 1].len() && cells[s + 1][col].len() > 0 && spec_infer_field(cells[s + 1][col])
        == dt {
        assert(1 <= s + 1 <= s + 1 && col < cells[s + 1].len() && cells[s + 1][col].len() > 0
            && spec_infer_field(cells[s + 1][col]) == dt);
        assert(col_has_kind(cells, col, s + 1, dt));
    }
}

proof fn lemma_null_step(cells: Seq<Seq<Seq<u8>>>, col: int, s: int)
    requires
        s >= 0,
    ensures
        col_nullable(cells, col, s + 1) == (col_nullable(cells, col, s) || (col < cells[s
            + 1].len() && cells[s + 1][col].len() == 0)),
{
    if col_nullable(cells, col, s + 1) {
        let rr = choose|rr: int|
            1 <= rr <= s + 1 && col < #[trigger] cells[rr].len() && cells[rr][col].len() == 0;
        if rr <= s {
            assert(col_nullable(cells, col, s));
        }
    }
    if col_nullable(cells, col, s) {
        let rr = choose|rr: int|
            1 <= rr <= s && col < #[trigger] cells[rr].len() && cells[rr][col].len() == 0;
        assert(1 <= rr <= s + 1 && col < cells[rr].len() && cells[rr][col].len() == 0);
    }
    if col < cells[s + 1].len() && cells[s + 1][col].len() == 0 {
        assert(1 <= s + 1 <= s + 1 && col < cells[s + 1].len() && cells[s + 1][col].len() == 0);
        assert(col_nullable(cells, col, s + 1));
    }
}

fn under_limit(max_read_records: Option<usize>, count: usize) -> (r: bool)
    ensures
        r == (match max_read_records {
            Some(m) => count < m,
            None => true,
        }),
{
    match max_read_records {
        Some(m) => count < m,
        None => true,
    }
}

fn resolve_exec(saw_b: bool, saw_i: bool, saw_f: bool, saw_u: bool) -> (r: DataType)
    ensures
        r == resolve_dtype(saw_b, saw_i, saw_f, saw_u),
{
    let count: usize = (if saw_b {
        1
    } else {
        0
    }) + (if saw_i {
        1
    } else {
        0
    }) + (if saw_f {
        1
    } else {
        0
    }) + (if saw_u {
        1
    } else {
        0
    });
    if count == 1 {
        if saw_b {
            DataType::Boolean
        } else if saw_i {
            DataType::Int64
        } else if saw_f {
            DataType::Float64
        } else {
            DataType::Utf8
        }
    } else if count == 2 && saw_i && saw_f {
        DataType::Float64
    } else {
        DataType::Utf8
    }
}

} // verus!

verus! {

/// Infer the schema of delimited byte data by reading through its first
/// records, `max_read_records` controlling how many are read; all of
/// them when it is not set.
///
/// The first record carries the column names when `has_header` is set;
/// else names `column_1`, `column_2`, ... are synthesized from its
/// width.  The sample rows after it are scanned, accumulating the kinds
/// seen and the blanks seen per column; each column's type is then
/// resolved and its nullability set.  Returns the schema and the number
/// of records scanned.
#[verifier::rlimit(100)]
pub fn infer_file_schema(
    data: &Vec<u8>,
    delimiter: u8,
    max_read_records: Option<usize>,
    has_header: bool,
) -> (r: Result<(Schema, usize), PolarsError>)
    requires
        data@.len() + 16 < usize::MAX,
    ensures
        ({
            let cells = csv_cells(data@, delimiter);
            match r {
                Ok((schema, cnt)) => {
                    if cells.len() == 0 {
                        schema@.len() == 0 && cnt == 0
                    } else {
                        let scan = scan_limit(cells.len() as int, max_read_records);
                        &&& cnt == scan
                        &&& schema@.len() == cells[0].len()
                        &&& forall|i: int|
                            #![trigger schema@[i]]
                            0 <= i < schema@.len() ==> {
                                &&& schema@[i].dtype == inferred_dtype(cells, i, scan)
                                &&& schema@[i].nullable == col_nullable(cells, i, scan)
                                &&& (if has_header {
                                    utf8_decode(cells[0][i]) == Some(schema@[i].name)
                                } else {
                                    schema@[i].name == synth_name(i)
                                })
                            }
                        &&& forall|f: int|
                            0 <= f < cells[0].len() ==> utf8_decode(#[trigger] cells[0][f]) is Some
                        &&& forall|rr: int| 1 <= rr <= scan ==> #[trigger] row_ok(cells, rr)
                    }
                },
                Err(e) => {
                    &&& cells.len() > 0
                    &&& (e matches PolarsError::BadHeader || e matches
                        PolarsError::MalformedRecord { .. })
                    &&& (e matches PolarsError::BadHeader ==> exists|f: int|
                        0 <= f < cells[0].len() && utf8_decode(#[trigger] cells[0][f]) is None)
                    &&& (e matches PolarsError::MalformedRecord { line } ==> 1 <= line - 1
                        <= scan_limit(cells.len() as int, max_read_records) && !row_ok(
                        cells,
                        line - 1,
                    ))
                },
            }
        }),
{
    let ghost cells = csv_cells(data@, delimiter);
    let mut rdr = new_reader(data, delimiter);
    let header = match next_record(&mut rdr) {
        Some(h) => h,
        None => {
            let fields: Vec<Field> = Vec::new();
            return Ok((Schema::new(fields), 0));
        },
    };
    proof {
        assert(header.deep_view() == cells[0]);
    }
    let n: usize = header.len();
    // Column names; the header must be readable text either way.
    let mut names: Vec<String> = Vec::new();
    let mut hi: usize = 0;
    while hi < n
        invariant
            cells == csv_cells(data@, delimiter),
            cells.len() > 0,
            hi <= n,
            n == cells[0].len(),
            header.deep_view() == cells[0],
            n == header@.len(),
            names@.len() == hi,
            forall|k: int|
                0 <= k < hi ==> utf8_decode(#[trigger] cells[0][k]) is Some,
            forall|k: int|
                #![trigger names@[k]]
                0 <= k < hi ==> (if has_header {
                    utf8_decode(cells[0][k]) == Some(names@[k]@)
                } else {
                    names@[k]@ == synth_name(k)
                }),
        decreases n - hi,
    {
        proof {
            assert(cells[0][hi as int] == header@[hi as int].deep_view());
            assert(header@[hi as int].deep_view() =~= header@[hi as int]@);
        }
        match field_to_string(&header[hi]) {
            Some(s) => {
                if has_header {
                    names.push(s);
                } else {
                    names.push(column_name(hi));
                }
            },
            None => {
                proof {
                    assert(utf8_decode(cells[0][hi as int]) is None);
                    assert(exists|f: int|
                        0 <= f < cells[0].len() && utf8_decode(#[trigger] cells[0][f]) is None);
                }
                return Err(PolarsError::BadHeader);
            },
        }
        hi = hi + 1;
    }
    // Kind and blank observations per column.
    let mut saw_b: Vec<bool> = vec![false; n];
    let mut saw_i: Vec<bool> = vec![false; n];
    let mut saw_f: Vec<bool> = vec![false; n];
    let mut saw_u: Vec<bool> = vec![false; n];
    let mut nulls: Vec<bool> = vec![false; n];
    let mut records_count: usize = 0;
    let mut eof: bool = false;
    while !eof && under_limit(max_read_records, records_count)
        invariant
            data@.len() + 16 < usize::MAX,
            cells.len() <= data@.len() + 1,
            cells == csv_cells(data@, delimiter),
            rdr_data(rdr) == data@,
            rdr_delim(rdr) == delimiter,
            cells.len() > 0,
            n == cells[0].len(),
            records_count + 1 <= cells.len(),
            rdr_row(rdr) == records_count + 1,
            eof ==> records_count + 1 == cells.len(),
            match max_read_records {
                Some(m) => records_count <= m,
                None => true,
            },
            saw_b@.len() == n && saw_i@.len() == n && saw_f@.len() == n && saw_u@.len() == n
                && nulls@.len() == n,
            forall|i: int|
                0 <= i < n ==> #[trigger] saw_b@[i] == col_has_kind(
                    cells,
                    i,
                    records_count as int,
                    DataType::Boolean,
                ),
            forall|i: int|
                0 <= i < n ==> #[trigger] saw_i@[i] == col_has_kind(
                    cells,
                    i,
                    records_count as int,
                    DataType::Int64,
                ),
            forall|i: int|
                0 <= i < n ==> #[trigger] saw_f@[i] == col_has_kind(
                    cells,
                    i,
                    records_count as int,
                    DataType::Float64,
                ),
            forall|i: int|
                0 <= i < n ==> #[trigger] saw_u@[i] == col_has_kind(
                    cells,
                    i,
                    records_count as int,
                    DataType::Utf8,
                ),
            forall|i: int|
                0 <= i < n ==> #[trigger] nulls@[i] == col_nullable(
                    cells,
                    i,
                    records_count as int,
                ),
            forall|rr: int| 1 <= rr <= records_count ==> #[trigger] row_ok(cells, rr),
        decreases cells.len() - records_count + (if eof {
            0int
        } else {
            1int
        }),
    {
        let ghost rr = records_count + 1;
        let rec = match next_record(&mut rdr) {
            Some(rec) => rec,
            None => {
                eof = true;
                continue;
            },
        };
        proof {
            assert(0 <= rr < cells.len());
            assert(rec.deep_view() == cells[rr]);
        }
        if rec.len() != n {
            proof {
                assert(cells[rr].len() == rec@.len());
                assert(!row_ok(cells, rr));
                assert(records_count + 2 <= cells.len());
                assert(1 <= rr <= scan_limit(cells.len() as int, max_read_records));
            }
            return Err(PolarsError::MalformedRecord { line: records_count + 2 });
        }
        let mut i: usize = 0;
        while i < n
            invariant
                cells == csv_cells(data@, delimiter),
                i <= n,
                n == cells[0].len(),
                cells.len() > 0,
                0 <= rr < cells.len(),
                match max_read_records {
                    Some(m) => records_count < m,
                    None => true,
                },
                records_count + 1 == rr,
                records_count + 1 < cells.len() + 1,
                records_count + 2 <= cells.len(),
                cells.len() <= data@.len() + 1,
                data@.len() + 16 < usize::MAX,
                rec.deep_view() == cells[rr],
                n == rec@.len(),
                saw_b@.len() == n && saw_i@.len() == n && saw_f@.len() == n && saw_u@.len() == n
                    && nulls@.len() == n,
                forall|f: int| 0 <= f < i ==> utf8_decode(#[trigger] cells[rr][f]) is Some,
                forall|k: int|
                    0 <= k < n ==> #[trigger] saw_b@[k] == (col_has_kind(
                        cells,
                        k,
                        records_count as int,
                        DataType::Boolean,
                    ) || (k < i && cells[rr][k].len() > 0 && spec_infer_field(cells[rr][k])
                        == DataType::Boolean)),
                forall|k: int|
                    0 <= k < n ==> #[trigger] saw_i@[k] == (col_has_kind(
                        cells,
                        k,
                        records_count as int,
                        DataType::Int64,
                    ) || (k < i && cells[rr][k].len() > 0 && spec_infer_field(cells[rr][k])
                        == DataType::Int64)),
                forall|k: int|
                    0 <= k < n ==> #[trigger] saw_f@[k] == (col_has_kind(
                        cells,
                        k,
                        records_count as int,
                        DataType::Float64,
                    ) || (k < i && cells[rr][k].len() > 0 && spec_infer_field(cells[rr][k])
                        == DataType::Float64)),
                forall|k: int|
                    0 <= k < n ==> #[trigger] saw_u@[k] == (col_has_kind(
                        cells,
                        k,
                        records_count as int,
                        DataType::Utf8,
                    ) || (k < i && cells[rr][k].len() > 0 && spec_infer_field(cells[rr][k])
                        == DataType::Utf8)),
                forall|k: int|
                    0 <= k < n ==> #[trigger] nulls@[k] == (col_nullable(
                        cells,
                        k,
                        records_count as int,
                    ) || (k < i && cells[rr][k].len() == 0)),
            decreases n - i,
        {
            proof {
                assert(cells[rr][i as int] == rec@[i as int].deep_view());
                assert(rec@[i as int].deep_view() =~= rec@[i as int]@);
            }
            match field_to_string(&rec[i]) {
                Some(_) => {},
                None => {
                    proof {
                        assert(utf8_decode(cells[rr][i as int]) is None);
                        assert(!row_ok(cells, rr));
                        assert(1 <= rr <= scan_limit(cells.len() as int, max_read_records));
                    }
                    return Err(PolarsError::MalformedRecord { line: records_count + 2 });
                },
            }
            if rec[i].len() == 0 {
                nulls.set(i, true);
            } else {
                let dt = infer_field_schema(&rec[i]);
                if dt == DataType::Boolean {
                    saw_b.set(i, true);
                } else if dt == DataType::Int64 {
                    saw_i.set(i, true);
                } else if dt == DataType::Float64 {
                    saw_f.set(i, true);
                } else {
                    saw_u.set(i, true);
                }
            }
            i = i + 1;
        }
        proof {
            assert(row_ok(cells, rr));
            assert forall|k: int| 0 <= k < n implies #[trigger] saw_b@[k] == col_has_kind(
                cells,
                k,
                rr,
                DataType::Boolean,
            ) by {
                lemma_kind_step(cells, k, records_count as int, DataType::Boolean);
            }
            assert forall|k: int| 0 <= k < n implies #[trigger] saw_i@[k] == col_has_kind(
                cells,
                k,
                rr,
                DataType::Int64,
            ) by {
                lemma_kind_step(cells, k, records_count as int, DataType::Int64);
            }
            assert forall|k: int| 0 <= k < n implies #[trigger] saw_f@[k] == col_has_kind(
                cells,
                k,
                rr,
                DataType::Float64,
            ) by {
                lemma_kind_step(cells, k, records_count as int, DataType::Float64);
            }
            assert forall|k: int| 0 <= k < n implies #[trigger] saw_u@[k] == col_has_kind(
                cells,
                k,
                rr,
                DataType::Utf8,
            ) by {
                lemma_kind_step(cells, k, records_count as int, DataType::Utf8);
            }
            assert forall|k: int| 0 <= k < n implies #[trigger] nulls@[k] == col_nullable(
                cells,
                k,
                rr,
            ) by {
                lemma_null_step(cells, k, records_count as int);
            }
        }
        records_count = records_count + 1;
    }
    proof {
        assert(records_count as int == scan_limit(cells.len() as int, max_read_records));
    }
    // Resolve each column.
    let mut fields: Vec<Field> = Vec::new();
    let mut i: usize = 0;
    while i < n
        invariant
            cells == csv_cells(data@, delimiter),
            i <= n,
            n == cells[0].len(),
            cells.len() > 0,
            names@.len() == n,
            saw_b@.len() == n && saw_i@.len() == n && saw_f@.len() == n && saw_u@.len() == n
                && nulls@.len() == n,
            forall|k: int|
                0 <= k < n ==> #[trigger] saw_b@[k] == col_has_kind(
                    cells,
                    k,
                    records_count as int,
                    DataType::Boolean,
                ),
            forall|k: int|
                0 <= k < n ==> #[trigger] saw_i@[k] == col_has_kind(
                    cells,
                    k,
                    records_count as int,
                    DataType::Int64,
                ),
            forall|k: int|
                0 <= k < n ==> #[trigger] saw_f@[k] == col_has_kind(
                    cells,
                    k,
                    records_count as int,
                    DataType::Float64,
                ),
            forall|k: int|
                0 <= k < n ==> #[trigger] saw_u@[k] == col_has_kind(
                    cells,
                    k,
                    records_count as int,
                    DataType::Utf8,
                ),
            forall|k: int|
                0 <= k < n ==> #[trigger] nulls@[k] == col_nullable(
                    cells,
                    k,
                    records_count as int,
                ),
            forall|k: int|
                #![trigger names@[k]]
                0 <= k < n ==> (if has_header {
                    utf8_decode(cells[0][k]) == Some(names@[k]@)
                } else {
                    names@[k]@ == synth_name(k)
                }),
            fields@.len() == i,
            forall|k: int|
                #![trigger fields@[k]]
                0 <= k < i ==> {
                    &&& fields@[k]@.dtype == inferred_dtype(cells, k, records_count as int)
                    &&& fields@[k]@.nullable == col_nullable(cells, k, records_count as int)
                    &&& (if has_header {
                        utf8_decode(cells[0][k]) == Some(fields@[k]@.name)
                    } else {
                        fields@[k]@.name == synth_name(k)
                    })
                },
        decreases n - i,
    {
        let dtype = resolve_exec(saw_b[i], saw_i[i], saw_f[i], saw_u[i]);
        fields.push(Field::new(names[i].as_str(), dtype, nulls[i]));
        i = i + 1;
    }
    let schema = Schema::new(fields);
    proof {
        assert forall|k: int| 0 <= k < n implies #[trigger] schema@[k] == fields@[k]@ by {}
    }
    Ok((schema, records_count))
}

} // verus!

verus! {

use vstd::arithmetic::div_mod::lemma_fundamental_div_mod;
use vstd::arithmetic::mul::lemma_mul_inequality;

/// The projection that selects every column of a schema, in order.
pub open spec fn all_cols(n: int) -> Seq<usize> {
    Seq::new(n as nat, |i: int| i as usize)
}

/// The first row a read covers: the rows skipped plus the header row,
/// clamped to the row count.
pub open spec fn plan_start(skip_rows: int, header_offset: int, total: int) -> int {
    min_int(skip_rows + header_offset, total)
}

/// One past the last row a read covers.
pub open spec fn plan_end(start: int, n_rows: Option<usize>, total: int) -> int {
    match n_rows {
        Some(nr) => min_int(start + nr, total),
        None => total,
    }
}

/// Take the configured projection, or every column of the schema.
fn take_projection(projection: Option<Vec<usize>>, schema: &Schema) -> (r: Vec<usize>)
    ensures
        r@ == (match projection {
            Some(v) => v@,
            None => all_cols(schema@.len() as int),
        }),
{
    match projection {
        Some(v) => v,
        None => {
            let mut r: Vec<usize> = Vec::new();
            let mut i: usize = 0;
            let n: usize = schema.len();
            while i < n
                invariant
                    i <= n,
                    r@.len() == i,
                    forall|k: int| 0 <= k < i ==> #[trigger] r@[k] == k as usize,
                decreases n - i,
            {
                r.push(i);
                i = i + 1;
            }
            proof {
                assert(r@ =~= all_cols(n as int));
            }
            r
        },
    }
}

/// The number of fields of the first record, read off a fresh reader, as
/// the byte-structure policy needs it.
fn peek_first_len(data: &Vec<u8>, delimiter: u8) -> (r: usize)
    ensures
        csv_cells(data@, delimiter).len() > 0 ==> r == csv_cells(data@, delimiter)[0].len(),
{
    let mut rdr = new_reader(data, delimiter);
    match next_record(&mut rdr) {
        Some(rec) => {
            proof {
                assert(rec.deep_view() == csv_cells(data@, delimiter)[0]);
            }
            rec.len()
        },
        None => 0,
    }
}

/// The parallel-path reader: resolves the configuration into per-thread
/// partitions over the row index, runs each partition, and reassembles
/// the partition tables in partition order.
pub struct ParReader {
    pub schema: Schema,
    pub projection: Option<Vec<usize>>,
    pub batch_size: usize,
    pub ignore_parser_errors: bool,
    pub header_offset: usize,
    pub skip_rows: usize,
    pub n_rows: Option<usize>,
    pub data: Vec<u8>,
    pub has_header: bool,
    pub delimiter: u8,
    pub offsets: Vec<u64>,
    pub n_threads: usize,
}

/// What construction establishes and the read relies on: the row index
/// matches the data, the projection stays inside the schema, and the
/// counts stay workable.
pub open spec fn par_wf(s: ParReader) -> bool {
    &&& s.offsets@ == csv_offsets(s.data@, s.delimiter)
    &&& csv_offsets(s.data@, s.delimiter).len() == csv_cells(s.data@, s.delimiter).len()
    &&& csv_cells(s.data@, s.delimiter).len() <= s.data@.len() + 1
    &&& s.n_threads >= 1
    &&& s.header_offset == (if s.has_header {
        1int
    } else {
        0int
    })
    &&& (match s.projection {
        Some(v) => forall|j: int| 0 <= j < v@.len() ==> #[trigger] v@[j] < s.schema@.len(),
        None => true,
    })
    &&& s.data@.len() + 32 < usize::MAX
    &&& s.skip_rows + 16 < usize::MAX
}

/// The projection a reader's read runs over.
pub open spec fn eff_projection(projection: Option<Vec<usize>>, schema: Seq<FieldSpec>) -> Seq<
    usize,
> {
    match projection {
        Some(v) => v@,
        None => all_cols(schema.len() as int),
    }
}

impl ParReader {
    /// Build the reader: index the byte stream so any row can be seeked
    /// to, and record the configuration.
    pub fn from_reader(
        data: Vec<u8>,
        schema: Schema,
        has_header: bool,
        delimiter: u8,
        batch_size: usize,
        projection: Option<Vec<usize>>,
        ignore_parser_errors: bool,
        n_rows: Option<usize>,
        skip_rows: usize,
        n_threads: usize,
    ) -> (r: Result<ParReader, PolarsError>)
        requires
            n_threads >= 1,
            data@.len() + 32 < usize::MAX,
            skip_rows + 16 < usize::MAX,
            match projection {
                Some(v) => forall|j: int| 0 <= j < v@.len() ==> #[trigger] v@[j] < schema@.len(),
                None => true,
            },
        ensures
            r is Ok,
            match r {
                Ok(s) => {
                    &&& par_wf(s)
                    &&& s.schema@ == schema@
                    &&& s.projection == projection
                    &&& s.data@ == data@
                    &&& s.delimiter == delimiter
                    &&& s.has_header == has_header
                    &&& s.skip_rows == skip_rows
                    &&& s.n_rows == n_rows
                    &&& s.n_threads == n_threads
                    &&& s.ignore_parser_errors == ignore_parser_errors
                },
                Err(e) => false,
            },
    {
        let offsets = match build_offsets(&data, delimiter) {
            Ok(v) => v,
            Err(e) => {
                proof {
                    assert(false);
                }
                return Err(e);
            },
        };
        let header_offset: usize = if has_header {
            1
        } else {
            0
        };
        let s = ParReader {
            schema,
            projection,
            batch_size,
            ignore_parser_errors,
            header_offset,
            skip_rows,
            n_rows,
            data,
            has_header,
            delimiter,
            offsets,
            n_threads,
        };
        Ok(s)
    }
}

} // verus!

verus! {

impl ParReader {
    /// Materialize the read: plan one contiguous row range per thread,
    /// run each partition over its own reader, and concatenate the
    /// partition tables in partition order, so the output rows stand in
    /// source order.
    #[verifier::rlimit(100)]
    pub fn into_df(self) -> (r: Result<DataFrame, PolarsError>)
        requires
            par_wf(self),
        ensures
            ({
                let cells = csv_cells(self.data@, self.delimiter);
                let start = plan_start(
                    self.skip_rows as int,
                    self.header_offset as int,
                    cells.len() as int,
                );
                let end = plan_end(start, self.n_rows, cells.len() as int);
                let proj = eff_projection(self.projection, self.schema@);
                match r {
                    Ok(df) => {
                        &&& built_ok(df@, cells, start, end, proj, self.schema@)
                        &&& !self.ignore_parser_errors ==> range_rows_ok(cells, start, end)
                            && range_parses(cells, start, end, proj, self.schema@)
                    },
                    Err(e) => reader_err_ok(
                        e,
                        cells,
                        start,
                        end,
                        proj,
                        self.schema@,
                        self.ignore_parser_errors,
                    ),
                }
            }),
    {
        let ghost cells = csv_cells(self.data@, self.delimiter);
        let ParReader {
            schema,
            projection,
            batch_size,
            ignore_parser_errors,
            header_offset,
            skip_rows,
            n_rows,
            data,
            has_header,
            delimiter,
            offsets,
            n_threads,
        } = self;
        let tolerant = ignore_parser_errors;
        let projection = take_projection(projection, &schema);
        let total: usize = offsets.len();
        let expected_len: usize = peek_first_len(&data, delimiter);
        // The planned row range.
        let raw_offset: usize = skip_rows + header_offset;
        let start: usize = if raw_offset < total {
            raw_offset
        } else {
            total
        };
        let end: usize = match n_rows {
            Some(nr) => {
                if nr < total - start {
                    start + nr
                } else {
                    total
                }
            },
            None => total,
        };
        let ghost gstart = plan_start(skip_rows as int, header_offset as int, cells.len() as int);
        let ghost gend = plan_end(gstart, n_rows, cells.len() as int);
        proof {
            assert(start as int == gstart);
            assert(end as int == gend);
        }
        let span: usize = end - start;
        let chunk_size: usize = span / n_threads;
        let batch0: usize = if batch_size < chunk_size {
            batch_size
        } else {
            chunk_size
        };
        let batch: usize = if batch0 == 0 {
            1
        } else {
            batch0
        };
        proof {
            lemma_fundamental_div_mod(span as int, n_threads as int);
        }
        let mut dfs: Vec<DataFrame> = Vec::new();
        let mut p_start: usize = start;
        let mut i: usize = 0;
        while i < n_threads
            invariant
                i <= n_threads,
                n_threads >= 1,
                cells == csv_cells(data@, delimiter),
                offsets@ == csv_offsets(data@, delimiter),
                csv_offsets(data@, delimiter).len() == cells.len(),
                cells.len() <= data@.len() + 1,
                data@.len() + 32 < usize::MAX,
                cells.len() > 0 ==> expected_len == cells[0].len(),
                total == cells.len(),
                start <= end <= total,
                span == end - start,
                chunk_size == span as int / n_threads as int,
                n_threads * chunk_size <= span,
                batch >= 1,
                p_start as int == (if i < n_threads {
                    start + i * chunk_size
                } else {
                    end as int
                }),
                p_start <= end,
                data@ == self.data@,
                delimiter == self.delimiter,
                schema@ == self.schema@,
                tolerant == self.ignore_parser_errors,
                projection@ == eff_projection(self.projection, self.schema@),
                start as int == plan_start(
                    self.skip_rows as int,
                    self.header_offset as int,
                    cells.len() as int,
                ),
                end as int == plan_end(start as int, self.n_rows, cells.len() as int),
                forall|j: int|
                    0 <= j < projection@.len() ==> #[trigger] projection@[j] < schema@.len(),
                dfs@.len() == i,
                forall|p: int|
                    #![trigger dfs@[p]]
                    0 <= p < i ==> {
                        &&& dfs@[p]@.len() == projection@.len()
                        &&& forall|j: int|
                            #![trigger dfs@[p]@[j]]
                            0 <= j < projection@.len() ==> {
                                &&& dfs@[p]@[j].name == schema@[projection@[j] as int].name
                                &&& dfs@[p]@[j].dtype == schema@[projection@[j] as int].dtype
                            }
                    },
                forall|j: int|
                    #![trigger projection@[j]]
                    0 <= j < projection@.len() && i > 0 ==> concat_cells(dfs@, j) == batch_col(
                        rows_of(cells, good_rows(cells, start as int, p_start as int)),
                        projection@[j] as int,
                        schema@[projection@[j] as int].dtype,
                    ),
                i > 0 ==> forall|j: int|
                    0 <= j < projection@.len() ==> supported_dtype(
                        schema@[#[trigger] projection@[j] as int].dtype,
                    ),
                !tolerant && i > 0 ==> range_rows_ok(cells, start as int, p_start as int)
                    && range_parses(cells, start as int, p_start as int, projection@, schema@),
                tolerant == ignore_parser_errors,
            decreases n_threads - i,
        {
            let budget: usize = if i + 1 == n_threads {
                end - p_start
            } else {
                chunk_size
            };
            proof {
                lemma_mul_inequality(i as int + 1, n_threads as int, chunk_size as int);
                assert((i + 1) * chunk_size == i * chunk_size + chunk_size) by (nonlinear_arith);
                assert(p_start + budget <= end);
                assert(min_int(p_start + budget, cells.len() as int) <= end as int);
            }
            let part = match process_partition(
                &data,
                delimiter,
                &offsets,
                &schema,
                &projection,
                p_start,
                budget,
                batch,
                tolerant,
                expected_len,
            ) {
                Ok(df) => df,
                Err(e) => {
                    proof {
                        lemma_extend_reader_err(
                            e,
                            cells,
                            start as int,
                            p_start as int,
                            min_int(p_start + budget, cells.len() as int),
                            end as int,
                            projection@,
                            schema@,
                            tolerant,
                        );
                    }
                    return Err(e);
                },
            };
            let ghost p_end = min_int(p_start + budget, cells.len() as int);
            proof {
                assert(p_start + budget <= total);
                assert(p_end == p_start + budget);
            }
            let ghost dfs_pre = dfs@;
            dfs.push(part);
            proof {
                assert(dfs@.drop_last() =~= dfs_pre);
                assert(dfs@.last() == part);
                let np_start = p_start + budget;
                lemma_good_rows_concat(cells, start as int, p_start as int, np_start as int);
                assert forall|j: int|
                    #![trigger projection@[j]]
                    0 <= j < projection@.len() implies concat_cells(dfs@, j) == batch_col(
                    rows_of(cells, good_rows(cells, start as int, np_start as int)),
                    projection@[j] as int,
                    schema@[projection@[j] as int].dtype,
                ) by {
                    let g0 = good_rows(cells, start as int, p_start as int);
                    let gb = good_rows(cells, p_start as int, np_start as int);
                    lemma_rows_of_concat(cells, g0, gb);
                    lemma_batch_col_concat(
                        rows_of(cells, g0),
                        rows_of(cells, gb),
                        projection@[j] as int,
                        schema@[projection@[j] as int].dtype,
                    );
                    if i == 0 {
                        assert(g0 =~= Seq::<int>::empty());
                        assert(rows_of(cells, g0) =~= Seq::<Seq<Seq<u8>>>::empty());
                        assert(batch_col(
                            rows_of(cells, g0),
                            projection@[j] as int,
                            schema@[projection@[j] as int].dtype,
                        ) =~= Seq::<Option<CellValue>>::empty());
                        assert(concat_cells(dfs_pre, j) =~= Seq::<Option<CellValue>>::empty());
                        assert(Seq::<Option<CellValue>>::empty() + dfs@.last()@[j].cells
                            =~= dfs@.last()@[j].cells);
                    }
                }
            }
            p_start = p_start + budget;
            i = i + 1;
        }
        proof {
            assert(p_start == end);
        }
        let df = match accumulate_dataframes(dfs) {
            Ok(df) => df,
            Err(e) => {
                proof {
                    assert(false);
                }
                return Err(e);
            },
        };
        Ok(df)
    }
}

} // verus!

verus! {

/// The fallback single-pass reader, used when the source is not
/// file-backed or a row limit was asked for: it skips, then reads
/// batches single-threaded, flushing full builder sets into partial
/// tables to bound memory, and concatenates the flushes in order.
pub struct SequentialReader {
    pub schema: Schema,
    pub projection: Option<Vec<usize>>,
    pub batch_size: usize,
    pub ignore_parser_errors: bool,
    pub header_offset: usize,
    pub skip_rows: usize,
    pub n_rows: Option<usize>,
    pub data: Vec<u8>,
    pub has_header: bool,
    pub delimiter: u8,
    pub capacity: usize,
}

pub open spec fn seq_wf(s: SequentialReader) -> bool {
    &&& s.header_offset == (if s.has_header {
        1int
    } else {
        0int
    })
    &&& (match s.projection {
        Some(v) => forall|j: int| 0 <= j < v@.len() ==> #[trigger] v@[j] < s.schema@.len(),
        None => true,
    })
    &&& s.data@.len() + 32 < usize::MAX
    &&& s.skip_rows + 16 < usize::MAX
}

impl SequentialReader {
    /// Record the configuration of a single-pass read.
    pub fn from_reader(
        data: Vec<u8>,
        schema: Schema,
        has_header: bool,
        delimiter: u8,
        batch_size: usize,
        projection: Option<Vec<usize>>,
        ignore_parser_errors: bool,
        n_rows: Option<usize>,
        skip_rows: usize,
        capacity: usize,
    ) -> (r: SequentialReader)
        requires
            data@.len() + 32 < usize::MAX,
            skip_rows + 16 < usize::MAX,
            match projection {
                Some(v) => forall|j: int| 0 <= j < v@.len() ==> #[trigger] v@[j] < schema@.len(),
                None => true,
            },
        ensures
            seq_wf(r),
            r.schema@ == schema@,
            r.projection == projection,
            r.data@ == data@,
            r.delimiter == delimiter,
            r.has_header == has_header,
            r.skip_rows == skip_rows,
            r.n_rows == n_rows,
            r.ignore_parser_errors == ignore_parser_errors,
            r.capacity == capacity,
    {
        let header_offset: usize = if has_header {
            1
        } else {
            0
        };
        SequentialReader {
            schema,
            projection,
            batch_size,
            ignore_parser_errors,
            header_offset,
            skip_rows,
            n_rows,
            data,
            has_header,
            delimiter,
            capacity,
        }
    }

    /// Materialize the read single-threaded.  The output equals what the
    /// parallel path produces over the same planned row range.
    #[verifier::rlimit(100)]
    pub fn into_df(self) -> (r: Result<DataFrame, PolarsError>)
        requires
            seq_wf(self),
        ensures
            ({
                let cells = csv_cells(self.data@, self.delimiter);
                let start = plan_start(
                    self.skip_rows as int,
                    self.header_offset as int,
                    cells.len() as int,
                );
                let end = plan_end(start, self.n_rows, cells.len() as int);
                let proj = eff_projection(self.projection, self.schema@);
                match r {
                    Ok(df) => {
                        &&& built_ok(df@, cells, start, end, proj, self.schema@)
                        &&& !self.ignore_parser_errors ==> range_rows_ok(cells, start, end)
                            && range_parses(cells, start, end, proj, self.schema@)
                    },
                    Err(e) => reader_err_ok(
                        e,
                        cells,
                        start,
                        end,
                        proj,
                        self.schema@,
                        self.ignore_parser_errors,
                    ),
                }
            }),
    {
        let ghost cells = csv_cells(self.data@, self.delimiter);
        let SequentialReader {
            schema,
            projection,
            batch_size,
            ignore_parser_errors,
            header_offset,
            skip_rows,
            n_rows,
            data,
            has_header,
            delimiter,
            capacity,
        } = self;
        let tolerant = ignore_parser_errors;
        let projection = take_projection(projection, &schema);
        let expected_len: usize = peek_first_len(&data, delimiter);
        let mut rdr = new_reader(&data, delimiter);
        // Apply the header offset and the skipped rows by discarding.
        let to_skip: usize = header_offset + skip_rows;
        let mut skipped: usize = 0;
        let mut eof: bool = false;
        while skipped < to_skip && !eof
            invariant
                skipped <= to_skip,
                to_skip == header_offset + skip_rows,
                cells == csv_cells(data@, delimiter),
                rdr_data(rdr) == data@,
                rdr_delim(rdr) == delimiter,
                !eof ==> rdr_row(rdr) == skipped && skipped <= cells.len(),
                eof ==> rdr_row(rdr) == cells.len() && rdr_row(rdr) == skipped,
                cells.len() <= data@.len() + 1,
                data@.len() + 32 < usize::MAX,
                data@ == self.data@,
                delimiter == self.delimiter,
                schema@ == self.schema@,
                tolerant == self.ignore_parser_errors,
                projection@ == eff_projection(self.projection, self.schema@),
                n_rows == self.n_rows,
                skip_rows == self.skip_rows,
                header_offset == self.header_offset,
                capacity == self.capacity,
                cells.len() > 0 ==> expected_len == cells[0].len(),
                forall|j: int|
                    0 <= j < projection@.len() ==> #[trigger] projection@[j] < schema@.len(),
            decreases to_skip - skipped + (if eof {
                0int
            } else {
                1int
            }),
        {
            match next_record(&mut rdr) {
                Some(_) => {
                    skipped = skipped + 1;
                },
                None => {
                    eof = true;
                },
            }
        }
        let start: usize = skipped;
        let ghost gstart = plan_start(skip_rows as int, header_offset as int, cells.len() as int);
        proof {
            assert(start as int == gstart || (eof && start as int == cells.len()));
            if eof {
                assert(gstart == cells.len());
            }
            assert(start as int == gstart);
        }
        let mut builders = match init_builders(&projection, capacity, &schema) {
            Ok(bs) => bs,
            Err(e) => {
                return Err(e);
            },
        };
        let batch1: usize = if batch_size == 0 {
            1
        } else {
            batch_size
        };
        let mut parsed_dfs: Vec<DataFrame> = Vec::new();
        let mut rows: Vec<Vec<Vec<u8>>> = Vec::new();
        let mut rows_abs: Vec<usize> = Vec::new();
        let mut consumed: usize = 0;
        let mut since_flush: usize = 0;
        let ghost gend = plan_end(gstart, n_rows, cells.len() as int);
        let mut more: bool = match n_rows {
            Some(nr) => consumed < nr,
            None => true,
        };
        while !eof && more
            invariant
                cells == csv_cells(data@, delimiter),
                rdr_data(rdr) == data@,
                rdr_delim(rdr) == delimiter,
                data@ == self.data@,
                delimiter == self.delimiter,
                schema@ == self.schema@,
                tolerant == self.ignore_parser_errors,
                projection@ == eff_projection(self.projection, self.schema@),
                n_rows == self.n_rows,
                gstart == plan_start(
                    self.skip_rows as int,
                    self.header_offset as int,
                    cells.len() as int,
                ),
                gend == plan_end(gstart, n_rows, cells.len() as int),
                start as int == gstart,
                cells.len() <= data@.len() + 1,
                data@.len() + 32 < usize::MAX,
                cells.len() > 0 ==> expected_len == cells[0].len(),
                batch1 >= 1,
                since_flush <= capacity,
                rdr_row(rdr) == start + consumed,
                start + consumed <= cells.len(),
                match n_rows {
                    Some(nr) => consumed <= nr,
                    None => true,
                },
                more == (match n_rows {
                    Some(nr) => consumed < nr,
                    None => true,
                }),
                eof ==> start + consumed == cells.len(),
                forall|j: int|
                    0 <= j < projection@.len() ==> #[trigger] projection@[j] < schema@.len(),
                forall|j: int|
                    0 <= j < projection@.len() ==> supported_dtype(
                        schema@[#[trigger] projection@[j] as int].dtype,
                    ),
                builders@.len() == projection@.len(),
                forall|j: int|
                    #![trigger builders@[j]]
                    0 <= j < projection@.len() ==> {
                        &&& builder_dtype(builders@[j]) == schema@[projection@[j] as int].dtype
                        &&& builder_name(builders@[j]) == schema@[projection@[j] as int].name
                    },
                forall|p: int|
                    #![trigger parsed_dfs@[p]]
                    0 <= p < parsed_dfs@.len() ==> {
                        &&& parsed_dfs@[p]@.len() == projection@.len()
                        &&& forall|j: int|
                            #![trigger parsed_dfs@[p]@[j]]
                            0 <= j < projection@.len() ==> {
                                &&& parsed_dfs@[p]@[j].name == schema@[projection@[j] as int].name
                                &&& parsed_dfs@[p]@[j].dtype == schema@[projection@[j] as int].dtype
                            }
                    },
                forall|j: int|
                    #![trigger projection@[j]]
                    0 <= j < projection@.len() ==> concat_cells(parsed_dfs@, j) + builder_cells(
                        builders@[j],
                    ) == batch_col(
                        rows_of(cells, good_rows(cells, start as int, start + consumed)),
                        projection@[j] as int,
                        schema@[projection@[j] as int].dtype,
                    ),
                !tolerant ==> range_rows_ok(cells, start as int, start + consumed) && range_parses(
                    cells,
                    start as int,
                    start + consumed,
                    projection@,
                    schema@,
                ),
            decreases cells.len() - (start + consumed) + (match n_rows {
                Some(nr) => nr - consumed,
                None => 0int,
            }) + (if eof {
                0int
            } else {
                1int
            }),
        {
            rows.clear();
            rows_abs.clear();
            let this_batch: usize = match n_rows {
                Some(nr) => {
                    if batch1 < nr - consumed {
                        batch1
                    } else {
                        nr - consumed
                    }
                },
                None => batch1,
            };
            proof {
                assert(rows.deep_view() =~= rows_of(cells, ints_view(rows_abs@)));
            }
            let ghost c0 = start + consumed;
            let n = match next_rows(
                &mut rdr,
                &mut rows,
                &mut rows_abs,
                start + consumed,
                this_batch,
                expected_len,
                tolerant,
            ) {
                Ok(n) => n,
                Err(line) => {
                    proof {
                        assert(min_int(c0 + this_batch, cells.len() as int) <= gend);
                    }
                    return Err(PolarsError::MalformedRecord { line });
                },
            };
            let ghost c1 = rdr_row(rdr);
            proof {
                lemma_good_rows_bounds(cells, c0, c1);
            }
            let ghost pre_builders = builders@;
            let new_builders = match add_to_builders(builders, &projection, &rows, tolerant) {
                Ok(bs) => bs,
                Err((c, ri)) => {
                    proof {
                        let gr = good_rows(cells, c0, c1);
                        assert(ints_view(rows_abs@) == gr);
                        assert(ri < rows@.len());
                        assert(rows@.len() == rows.deep_view().len());
                        assert(rows.deep_view().len() == gr.len());
                        assert(rows_abs@.len() == gr.len());
                        assert(ints_view(rows_abs@)[ri as int] == gr[ri as int]);
                        assert(rows.deep_view()[ri as int] == cells[gr[ri as int]]);
                        assert(rows.deep_view()[ri as int] == rows@[ri as int].deep_view());
                        assert(rows@[ri as int].deep_view().len() == rows@[ri as int]@.len());
                    }
                    let line: usize = rows_abs[ri] + 1;
                    let value: Vec<u8> = copy_field(&rows[ri], c);
                    proof {
                        assert(c1 <= gend);
                        lemma_parse_error_site(
                            cells,
                            start as int,
                            gend,
                            c0,
                            c1,
                            projection@,
                            schema@,
                            pre_builders,
                            rows.deep_view(),
                            c,
                            ri as int,
                            value@,
                        );
                    }
                    return Err(PolarsError::ParseError { column: c, line, value });
                },
            };
            builders = new_builders;
            proof {
                let gr0 = good_rows(cells, start as int, c0);
                let grb = good_rows(cells, c0, c1);
                lemma_good_rows_concat(cells, start as int, c0, c1);
                lemma_rows_of_concat(cells, gr0, grb);
                assert(rows.deep_view() == rows_of(cells, grb));
                assert forall|j: int|
                    #![trigger projection@[j]]
                    0 <= j < projection@.len() implies concat_cells(parsed_dfs@, j)
                    + builder_cells(builders@[j]) == batch_col(
                    rows_of(cells, good_rows(cells, start as int, c1)),
                    projection@[j] as int,
                    schema@[projection@[j] as int].dtype,
                ) by {
                    lemma_batch_col_concat(
                        rows_of(cells, gr0),
                        rows_of(cells, grb),
                        projection@[j] as int,
                        schema@[projection@[j] as int].dtype,
                    );
                    assert(concat_cells(parsed_dfs@, j) + (builder_cells(pre_builders[j])
                        + batch_col(
                        rows_of(cells, grb),
                        projection@[j] as int,
                        schema@[projection@[j] as int].dtype,
                    )) =~= (concat_cells(parsed_dfs@, j) + builder_cells(pre_builders[j]))
                        + batch_col(
                        rows_of(cells, grb),
                        projection@[j] as int,
                        schema@[projection@[j] as int].dtype,
                    ));
                }
                if !tolerant {
                    assert(range_rows_ok(cells, c0, c1));
                    assert forall|rr: int| start as int <= rr < c1 implies #[trigger] row_ok(
                        cells,
                        rr,
                    ) by {}
                    assert forall|j: int, rr: int|
                        0 <= j < projection@.len() && start as int <= rr < c1 && row_ok(cells, rr)
                            && projection@[j] < cells[rr].len() implies #[trigger] parse_cell(
                        schema@[projection@[j] as int].dtype,
                        cells[rr][projection@[j] as int],
                    ) is Some by {
                        if rr >= c0 {
                            lemma_good_rows_complete(cells, c0, c1, rr);
                            let idx = choose|i: int| 0 <= i < grb.len() && #[trigger] grb[i] == rr;
                            assert(rows.deep_view()[idx] == cells[rr]);
                            assert(crate::builder::builder_dtypes(pre_builders)[j]
                                == builder_dtype(pre_builders[j]));
                            assert(parse_cell(
                                crate::builder::builder_dtypes(pre_builders)[j],
                                rows.deep_view()[idx][projection@[j] as int],
                            ) is Some);
                        }
                    }
                }
            }
            consumed = consumed + n;
            if n < this_batch {
                eof = true;
                proof {
                    assert(start + consumed == cells.len());
                }
            }
            // Flush a full builder set into a partial table to bound
            // memory.
            if n > capacity - since_flush {
                let flushed = builders_to_df(builders);
                let ghost dfs_pre = parsed_dfs@;
                parsed_dfs.push(flushed);
                builders = match init_builders(&projection, capacity, &schema) {
                    Ok(bs) => bs,
                    Err(e) => {
                        proof {
                            assert(false);
                        }
                        return Err(e);
                    },
                };
                since_flush = 0;
                proof {
                    assert(parsed_dfs@.drop_last() =~= dfs_pre);
                    assert forall|j: int|
                        #![trigger projection@[j]]
                        0 <= j < projection@.len() implies concat_cells(parsed_dfs@, j)
                        + builder_cells(builders@[j]) == batch_col(
                        rows_of(cells, good_rows(cells, start as int, start + consumed)),
                        projection@[j] as int,
                        schema@[projection@[j] as int].dtype,
                    ) by {
                        assert(concat_cells(parsed_dfs@, j) == concat_cells(dfs_pre, j)
                            + parsed_dfs@.last()@[j].cells);
                        assert(builder_cells(builders@[j]) == Seq::<Option<CellValue>>::empty());
                        assert(concat_cells(parsed_dfs@, j) + Seq::<Option<CellValue>>::empty()
                            =~= concat_cells(parsed_dfs@, j));
                    }
                }
            }
            else {
                since_flush = since_flush + n;
            }
            more = match n_rows {
                Some(nr) => consumed < nr,
                None => true,
            };
        }
        proof {
            assert(start + consumed == gend);
        }
        let flushed = builders_to_df(builders);
        let ghost dfs_pre = parsed_dfs@;
        parsed_dfs.push(flushed);
        proof {
            assert(parsed_dfs@.drop_last() =~= dfs_pre);
            assert forall|j: int|
                #![trigger projection@[j]]
                0 <= j < projection@.len() implies concat_cells(parsed_dfs@, j) == batch_col(
                rows_of(cells, good_rows(cells, start as int, gend)),
                projection@[j] as int,
                schema@[projection@[j] as int].dtype,
            ) by {
                assert(concat_cells(parsed_dfs@, j) == concat_cells(dfs_pre, j)
                    + parsed_dfs@.last()@[j].cells);
            }
        }
        let df = match accumulate_dataframes(parsed_dfs) {
            Ok(df) => df,
            Err(e) => {
                proof {
                    assert(false);
                }
                return Err(e);
            },
        };
        Ok(df)
    }
}

} // verus!

verus! {

/// A schema as inference resolves it over a sample of `cells`: one field
/// per column of the first record, typed and marked nullable by the
/// kinds and blanks seen in rows `1..=scan`, named from the header row
/// or synthesized.
pub open spec fn inferred_schema_ok(
    sch: Seq<FieldSpec>,
    cells: Seq<Seq<Seq<u8>>>,
    max_records: Option<usize>,
    has_header: bool,
) -> bool {
    if cells.len() == 0 {
        sch.len() == 0
    } else {
        let scan = scan_limit(cells.len() as int, max_records);
        &&& sch.len() == cells[0].len()
        &&& forall|i: int|
            #![trigger sch[i]]
            0 <= i < sch.len() ==> {
                &&& sch[i].dtype == inferred_dtype(cells, i, scan)
                &&& sch[i].nullable == col_nullable(cells, i, scan)
                &&& (if has_header {
                    utf8_decode(cells[0][i]) == Some(sch[i].name)
                } else {
                    sch[i].name == synth_name(i)
                })
            }
    }
}

/// The reader a configuration resolves to: the parallel path over the
/// row index, or the single-pass fallback.
pub enum CsvReader {
    Parallel(ParReader),
    Sequential(SequentialReader),
}

pub open spec fn reader_wf(r: CsvReader) -> bool {
    match r {
        CsvReader::Parallel(p) => par_wf(p),
        CsvReader::Sequential(s) => seq_wf(s),
    }
}

/// The fields of the configuration a reader runs with.
pub open spec fn reader_schema(r: CsvReader) -> Seq<FieldSpec> {
    match r {
        CsvReader::Parallel(p) => p.schema@,
        CsvReader::Sequential(s) => s.schema@,
    }
}

pub open spec fn reader_data(r: CsvReader) -> Seq<u8> {
    match r {
        CsvReader::Parallel(p) => p.data@,
        CsvReader::Sequential(s) => s.data@,
    }
}

pub open spec fn reader_delim(r: CsvReader) -> u8 {
    match r {
        CsvReader::Parallel(p) => p.delimiter,
        CsvReader::Sequential(s) => s.delimiter,
    }
}

pub open spec fn reader_plan_start(r: CsvReader) -> int {
    let cells = csv_cells(reader_data(r), reader_delim(r));
    match r {
        CsvReader::Parallel(p) => plan_start(
            p.skip_rows as int,
            p.header_offset as int,
            cells.len() as int,
        ),
        CsvReader::Sequential(s) => plan_start(
            s.skip_rows as int,
            s.header_offset as int,
            cells.len() as int,
        ),
    }
}

pub open spec fn reader_plan_end(r: CsvReader) -> int {
    let cells = csv_cells(reader_data(r), reader_delim(r));
    match r {
        CsvReader::Parallel(p) => plan_end(reader_plan_start(r), p.n_rows, cells.len() as int),
        CsvReader::Sequential(s) => plan_end(reader_plan_start(r), s.n_rows, cells.len() as int),
    }
}

pub open spec fn reader_projection(r: CsvReader) -> Seq<usize> {
    match r {
        CsvReader::Parallel(p) => eff_projection(p.projection, p.schema@),
        CsvReader::Sequential(s) => eff_projection(s.projection, s.schema@),
    }
}

pub open spec fn reader_tolerant(r: CsvReader) -> bool {
    match r {
        CsvReader::Parallel(p) => p.ignore_parser_errors,
        CsvReader::Sequential(s) => s.ignore_parser_errors,
    }
}

impl CsvReader {
    /// Materialize the configured read into one table.  Whichever path
    /// runs, the output holds, per projected column, the parsed cells of
    /// the accepted rows of the planned range, in source order.
    pub fn into_df(self) -> (r: Result<DataFrame, PolarsError>)
        requires
            reader_wf(self),
        ensures
            ({
                let cells = csv_cells(reader_data(self), reader_delim(self));
                let start = reader_plan_start(self);
                let end = reader_plan_end(self);
                let proj = reader_projection(self);
                match r {
                    Ok(df) => {
                        &&& built_ok(df@, cells, start, end, proj, reader_schema(self))
                        &&& !reader_tolerant(self) ==> range_rows_ok(cells, start, end)
                            && range_parses(cells, start, end, proj, reader_schema(self))
                    },
                    Err(e) => reader_err_ok(
                        e,
                        cells,
                        start,
                        end,
                        proj,
                        reader_schema(self),
                        reader_tolerant(self),
                    ),
                }
            }),
    {
        match self {
            CsvReader::Parallel(p) => p.into_df(),
            CsvReader::Sequential(s) => s.into_df(),
        }
    }
}

/// The thread count the parallel path runs with: the given one, a zero
/// raised to one, or the default of four.
pub open spec fn thread_count_of(n_threads: Option<usize>) -> int {
    match n_threads {
        Some(t) => {
            if t == 0 {
                1int
            } else {
                t as int
            }
        },
        None => 4int,
    }
}

/// The width of the schema a configuration resolves to: the given
/// schema's, or the first record's field count when it is inferred.
pub open spec fn resolved_width(schema: Option<Schema>, cells: Seq<Seq<Seq<u8>>>) -> int {
    match schema {
        Some(s) => s@.len() as int,
        None => {
            if cells.len() == 0 {
                0int
            } else {
                cells[0].len() as int
            }
        },
    }
}

/// How the schema a read runs with relates to the configuration: the
/// given schema as it stands, or one that inference resolves.
pub open spec fn resolved_rel(
    schema: Option<Schema>,
    sch: Seq<FieldSpec>,
    cells: Seq<Seq<Seq<u8>>>,
    max_records: Option<usize>,
    has_header: bool,
) -> bool {
    match schema {
        Some(s) => sch == s@,
        None => inferred_schema_ok(sch, cells, max_records, has_header),
    }
}

/// The errors resolving a configuration can end with, each with its
/// witness: a header or sample row inference refuses, or a projection
/// naming a column at or past the resolved schema's width.
pub open spec fn build_err_ok(
    e: PolarsError,
    cells: Seq<Seq<Seq<u8>>>,
    schema: Option<Schema>,
    projection: Option<Vec<usize>>,
    max_records: Option<usize>,
) -> bool {
    ||| (schema is None && (e matches PolarsError::BadHeader && cells.len() > 0 && exists|f: int|
        0 <= f < cells[0].len() && utf8_decode(#[trigger] cells[0][f]) is None))
    ||| (schema is None && (e matches PolarsError::MalformedRecord { line } && {
        &&& cells.len() > 0
        &&& 1 <= line - 1 <= scan_limit(cells.len() as int, max_records)
        &&& !row_ok(cells, line - 1)
    }))
    ||| (e == PolarsError::InvalidOperation && (match projection {
        Some(p) => exists|j: int|
            0 <= j < p@.len() && #[trigger] p@[j] as int >= resolved_width(schema, cells),
        None => false,
    }))
}

/// Resolve a whole read: take or infer the schema, then choose the
/// parallel path when the source is file-backed and no row limit was
/// asked for, else the single-pass path.
pub fn build_csv_reader(
    data: Vec<u8>,
    n_rows: Option<usize>,
    skip_rows: usize,
    projection: Option<Vec<usize>>,
    batch_size: usize,
    max_records: Option<usize>,
    delimiter: Option<u8>,
    has_header: bool,
    ignore_parser_errors: bool,
    schema: Option<Schema>,
    file_backed: bool,
    n_threads: Option<usize>,
) -> (r: Result<CsvReader, PolarsError>)
    requires
        data@.len() + 32 < usize::MAX,
        skip_rows + 16 < usize::MAX,
    ensures
        ({
            let delim = match delimiter {
                Some(d) => d,
                None => 44u8,
            };
            match r {
                Ok(rd) => {
                    &&& reader_wf(rd)
                    &&& reader_data(rd) == data@
                    &&& reader_delim(rd) == delim
                    &&& reader_tolerant(rd) == ignore_parser_errors
                    &&& (match schema {
                        Some(s) => reader_schema(rd) == s@,
                        None => inferred_schema_ok(
                            reader_schema(rd),
                            csv_cells(data@, delim),
                            max_records,
                            has_header,
                        ),
                    })
                    &&& (rd is Parallel <==> (file_backed && n_rows is None))
                    &&& (match rd {
                        CsvReader::Parallel(p) => {
                            &&& p.skip_rows == skip_rows
                            &&& p.n_rows == n_rows
                            &&& p.has_header == has_header
                            &&& p.projection == projection
                            &&& p.n_threads as int == thread_count_of(n_threads)
                        },
                        CsvReader::Sequential(s) => {
                            &&& s.skip_rows == skip_rows
                            &&& s.n_rows == n_rows
                            &&& s.has_header == has_header
                            &&& s.projection == projection
                        },
                    })
                },
                Err(e) => build_err_ok(
                    e,
                    csv_cells(data@, delim),
                    schema,
                    projection,
                    max_records,
                ),
            }
        }),
{
    let delim: u8 = match delimiter {
        Some(d) => d,
        None => 44,
    };
    let ghost cells = csv_cells(data@, delim);
    let resolved: Schema = match &schema {
        Some(s) => s.clone(),
        None => {
            let (inferred, _cnt) = match infer_file_schema(&data, delim, max_records, has_header) {
                Ok(pair) => pair,
                Err(e) => {
                    return Err(e);
                },
            };
            inferred
        },
    };
    proof {
        assert(resolved@.len() as int == resolved_width(schema, cells));
    }
    // A projection outside the schema cannot be read.
    let mut out_of_range: bool = false;
    match &projection {
        Some(p) => {
            let mut j: usize = 0;
            while j < p.len()
                invariant
                    j <= p@.len(),
                    out_of_range ==> exists|k: int|
                        0 <= k < p@.len() && #[trigger] p@[k] as int >= resolved@.len(),
                    !out_of_range ==> forall|k: int|
                        0 <= k < j ==> #[trigger] p@[k] < resolved@.len(),
                decreases p@.len() - j,
            {
                if p[j] >= resolved.len() {
                    out_of_range = true;
                }
                j = j + 1;
            }
        },
        None => {},
    }
    if out_of_range {
        return Err(PolarsError::InvalidOperation);
    }
    if file_backed && matches!(n_rows, None) {
        let threads: usize = match n_threads {
            Some(t) => {
                if t == 0 {
                    1
                } else {
                    t
                }
            },
            None => 4,
        };
        match ParReader::from_reader(
            data,
            resolved,
            has_header,
            delim,
            batch_size,
            projection,
            ignore_parser_errors,
            n_rows,
            skip_rows,
            threads,
        ) {
            Ok(p) => Ok(CsvReader::Parallel(p)),
            Err(e) => Err(e),
        }
    } else {
        let capacity: usize = match n_rows {
            Some(n) => n,
            None => 512 * 1024,
        };
        let s = SequentialReader::from_reader(
            data,
            resolved,
            has_header,
            delim,
            batch_size,
            projection,
            ignore_parser_errors,
            n_rows,
            skip_rows,
            capacity,
        );
        Ok(CsvReader::Sequential(s))
    }
}

/// A table that some well-formed reader over `data` with `delim`
/// produced: its planned range's accepted rows, parsed per its schema.
pub open spec fn read_result_ok(df: Seq<SeriesSpec>, data: Seq<u8>, delim: u8) -> bool {
    exists|rd: CsvReader|
        {
            &&& reader_wf(rd)
            &&& reader_data(rd) == data
            &&& reader_delim(rd) == delim
            &&& #[trigger] built_ok(
                df,
                csv_cells(data, delim),
                reader_plan_start(rd),
                reader_plan_end(rd),
                reader_projection(rd),
                reader_schema(rd),
            )
        }
}

/// The errors a whole read can end with, each with its witness: one of
/// the configuration-stage errors, or one of the read-stage errors over
/// the planned range under the schema the configuration resolves to.
pub open spec fn read_plan_start(data: Seq<u8>, delim: u8, skip_rows: usize, has_header: bool) -> int {
    plan_start(
        skip_rows as int,
        if has_header {
            1int
        } else {
            0int
        },
        csv_cells(data, delim).len() as int,
    )
}

pub open spec fn read_err_ok(
    e: PolarsError,
    data: Seq<u8>,
    delim: u8,
    n_rows: Option<usize>,
    skip_rows: usize,
    projection: Option<Vec<usize>>,
    max_records: Option<usize>,
    has_header: bool,
    ignore_parser_errors: bool,
    schema: Option<Schema>,
) -> bool {
    ||| build_err_ok(e, csv_cells(data, delim), schema, projection, max_records)
    ||| exists|sch: Seq<FieldSpec>|
        resolved_rel(schema, sch, csv_cells(data, delim), max_records, has_header)
            && #[trigger] reader_err_ok(
            e,
            csv_cells(data, delim),
            read_plan_start(data, delim, skip_rows, has_header),
            plan_end(
                read_plan_start(data, delim, skip_rows, has_header),
                n_rows,
                csv_cells(data, delim).len() as int,
            ),
            eff_projection(projection, sch),
            sch,
            ignore_parser_errors,
        )
}

/// The one operation the engine offers: materialize a configured read
/// into a table.
pub fn read_csv(
    data: Vec<u8>,
    n_rows: Option<usize>,
    skip_rows: usize,
    projection: Option<Vec<usize>>,
    batch_size: usize,
    max_records: Option<usize>,
    delimiter: Option<u8>,
    has_header: bool,
    ignore_parser_errors: bool,
    schema: Option<Schema>,
    file_backed: bool,
    n_threads: Option<usize>,
) -> (r: Result<DataFrame, PolarsError>)
    requires
        data@.len() + 32 < usize::MAX,
        skip_rows + 16 < usize::MAX,
    ensures
        ({
            let delim = match delimiter {
                Some(d) => d,
                None => 44u8,
            };
            match r {
                Ok(df) => read_result_ok(df@, data@, delim),
                Err(e) => read_err_ok(
                    e,
                    data@,
                    delim,
                    n_rows,
                    skip_rows,
                    projection,
                    max_records,
                    has_header,
                    ignore_parser_errors,
                    schema,
                ),
            }
        }),
{
    let ghost gdata = data@;
    let reader = match build_csv_reader(
        data,
        n_rows,
        skip_rows,
        projection,
        batch_size,
        max_records,
        delimiter,
        has_header,
        ignore_parser_errors,
        schema,
        file_backed,
        n_threads,
    ) {
        Ok(rd) => rd,
        Err(e) => {
            proof {
                let gdelim0 = (match delimiter {
                    Some(d) => d,
                    None => 44u8,
                });
                assert(build_err_ok(
                    e,
                    csv_cells(gdata, gdelim0),
                    schema,
                    projection,
                    max_records,
                ));
                assert(read_err_ok(
                    e,
                    gdata,
                    gdelim0,
                    n_rows,
                    skip_rows,
                    projection,
                    max_records,
                    has_header,
                    ignore_parser_errors,
                    schema,
                ));
            }
            return Err(e);
        },
    };
    let ghost rd0 = reader;
    let ghost gdelim = (match delimiter {
        Some(d) => d,
        None => 44u8,
    });
    match reader.into_df() {
        Ok(df) => {
            proof {
                assert(reader_delim(rd0) == gdelim);
                assert(reader_data(rd0) == gdata);
                assert(csv_cells(reader_data(rd0), reader_delim(rd0)) == csv_cells(gdata, gdelim));
                assert(built_ok(
                    df@,
                    csv_cells(gdata, gdelim),
                    reader_plan_start(rd0),
                    reader_plan_end(rd0),
                    reader_projection(rd0),
                    reader_schema(rd0),
                ));
                assert(read_result_ok(df@, gdata, gdelim));
            }
            Ok(df)
        },
        Err(e) => {
            proof {
                let cells = csv_cells(gdata, gdelim);
                let sch = reader_schema(rd0);
                let hdr: int = if has_header {
                    1int
                } else {
                    0int
                };
                let start = plan_start(skip_rows as int, hdr, cells.len() as int);
                let end = plan_end(start, n_rows, cells.len() as int);
                assert(resolved_rel(schema, sch, cells, max_records, has_header));
                assert(reader_plan_start(rd0) == start);
                assert(reader_plan_end(rd0) == end);
                assert(reader_projection(rd0) == eff_projection(projection, sch));
                assert(reader_tolerant(rd0) == ignore_parser_errors);
                assert(reader_err_ok(
                    e,
                    cells,
                    start,
                    end,
                    eff_projection(projection, sch),
                    sch,
                    ignore_parser_errors,
                ));
                assert(reader_err_ok(
                    e,
                    csv_cells(gdata, gdelim),
                    read_plan_start(gdata, gdelim, skip_rows, has_header),
                    plan_end(
                        read_plan_start(gdata, gdelim, skip_rows, has_header),
                        n_rows,
                        csv_cells(gdata, gdelim).len() as int,
                    ),
                    eff_projection(projection, reader_schema(rd0)),
                    reader_schema(rd0),
                    ignore_parser_errors,
                ));
                assert(resolved_rel(
                    schema,
                    reader_schema(rd0),
                    csv_cells(gdata, gdelim),
                    max_records,
                    has_header,
                ));
                assert(read_err_ok(
                    e,
                    gdata,
                    gdelim,
                    n_rows,
                    skip_rows,
                    projection,
                    max_records,
                    has_header,
                    ignore_parser_errors,
                    schema,
                ));
            }
            Err(e)
        },
    }
}

} // verus!
