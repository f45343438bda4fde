//! The general properties the reader keeps, each proved once and for
//! all over the specification functions the contracts use.
use crate::builder::{batch_col, built_cell, parse_cell};
use crate::csv::{
    built_ok, col_has_kind, col_nullable, inferred_dtype, inferred_schema_ok, scan_limit,
};
use crate::datatypes::{DataType, FieldSpec};
use crate::series::SeriesSpec;
use crate::tokenize::utf8_decode;
use vstd::arithmetic::div_mod::lemma_fundamental_div_mod;
use vstd::arithmetic::mul::lemma_mul_inequality;
use vstd::prelude::*;

verus! {

/// Schema resolution is deterministic: over one sample, one record
/// limit and one header flag, any two resolved schemas are the same
/// schema, field for field.
pub proof fn lemma_schema_resolution_deterministic(
    a: Seq<FieldSpec>,
    b: Seq<FieldSpec>,
    cells: Seq<Seq<Seq<u8>>>,
    max_records: Option<usize>,
    has_header: bool,
)
    requires
        inferred_schema_ok(a, cells, max_records, has_header),
        inferred_schema_ok(b, cells, max_records, has_header),
    ensures
        a == b,
{
    assert(a.len() == b.len());
    assert forall|i: int| 0 <= i < a.len() implies a[i] == b[i] by {
        assert(a[i].dtype == b[i].dtype);
        assert(a[i].nullable == b[i].nullable);
        assert(a[i].name == b[i].name);
        assert(a[i] =~= b[i]);
    }
    assert(a =~= b);
}

/// Type widening: a column where only integer-looking and
/// decimal-looking values were seen resolves to `Float64`; one mixing
/// boolean-looking and integer-looking values resolves to `Utf8`.
pub proof fn lemma_type_widening(cells: Seq<Seq<Seq<u8>>>, col: int, scan: int)
    ensures
        (col_has_kind(cells, col, scan, DataType::Int64) && col_has_kind(
            cells,
            col,
            scan,
            DataType::Float64,
        ) && !col_has_kind(cells, col, scan, DataType::Boolean) && !col_has_kind(
            cells,
            col,
            scan,
            DataType::Utf8,
        )) ==> inferred_dtype(cells, col, scan) == DataType::Float64,
        (col_has_kind(cells, col, scan, DataType::Boolean) && col_has_kind(
            cells,
            col,
            scan,
            DataType::Int64,
        ) && !col_has_kind(cells, col, scan, DataType::Float64) && !col_has_kind(
            cells,
            col,
            scan,
            DataType::Utf8,
        )) ==> inferred_dtype(cells, col, scan) == DataType::Utf8,
{
}

/// Null detection: a blank value anywhere in the scanned sample marks
/// its column nullable in the resolved schema, wherever the blank
/// stands.
pub proof fn lemma_null_detection(
    sch: Seq<FieldSpec>,
    cells: Seq<Seq<Seq<u8>>>,
    max_records: Option<usize>,
    has_header: bool,
    rr: int,
    col: int,
)
    requires
        inferred_schema_ok(sch, cells, max_records, has_header),
        cells.len() > 0,
        1 <= rr <= scan_limit(cells.len() as int, max_records),
        0 <= col < cells[rr].len(),
        0 <= col < sch.len(),
        cells[rr][col].len() == 0,
    ensures
        sch[col].nullable,
{
    assert(col_nullable(cells, col, scan_limit(cells.len() as int, max_records)));
}

/// Row-order invariance: two tables built over the same byte stream,
/// row range, projection and schema are the same table, whatever path
/// produced them; the parallel and sequential paths both ensure
/// `built_ok`, so their outputs agree column for column and row for
/// row.
pub proof fn lemma_row_order_invariance(
    df1: Seq<SeriesSpec>,
    df2: Seq<SeriesSpec>,
    cells: Seq<Seq<Seq<u8>>>,
    start: int,
    end: int,
    projection: Seq<usize>,
    schema: Seq<FieldSpec>,
)
    requires
        built_ok(df1, cells, start, end, projection, schema),
        built_ok(df2, cells, start, end, projection, schema),
    ensures
        df1 == df2,
{
    assert forall|j: int| 0 <= j < df1.len() implies df1[j] == df2[j] by {
        assert(df1[j].name == df2[j].name);
        assert(df1[j].dtype == df2[j].dtype);
        assert(df1[j].cells == df2[j].cells);
        assert(df1[j] =~= df2[j]);
    }
    assert(df1 =~= df2);
}

/// Where partition `i` of `k` begins when each takes `chunk` rows.
pub open spec fn part_start(start: int, chunk: int, i: int) -> int {
    start + i * chunk
}

/// Where partition `i` of `k` ends: the next partition's start, except
/// that the last runs to the end of the planned range.
pub open spec fn part_end(start: int, end: int, chunk: int, k: int, i: int) -> int {
    if i == k - 1 {
        end
    } else {
        start + (i + 1) * chunk
    }
}

/// Partition coverage: the per-thread row ranges tile `[start, end)`
/// exactly — the first begins at `start`, the last ends at `end`, each
/// ends where the next begins, and none runs backwards — for any thread
/// count.
pub proof fn lemma_partition_coverage(start: int, end: int, k: int)
    requires
        0 <= start <= end,
        k >= 1,
    ensures
        ({
            let chunk = (end - start) / k;
            &&& part_start(start, chunk, 0) == start
            &&& part_end(start, end, chunk, k, k - 1) == end
            &&& forall|i: int|
                0 <= i < k - 1 ==> #[trigger] part_end(start, end, chunk, k, i) == part_start(
                    start,
                    chunk,
                    i + 1,
                )
            &&& forall|i: int|
                0 <= i < k ==> #[trigger] part_start(start, chunk, i) <= part_end(
                    start,
                    end,
                    chunk,
                    k,
                    i,
                )
        }),
{
    let span = end - start;
    let chunk = span / k;
    lemma_fundamental_div_mod(span, k);
    assert forall|i: int| 0 <= i < k implies #[trigger] part_start(start, chunk, i) <= part_end(
        start,
        end,
        chunk,
        k,
        i,
    ) by {
        lemma_mul_inequality(i + 1, k, chunk);
        assert((i + 1) * chunk == i * chunk + chunk) by (nonlinear_arith);
        assert(k * chunk <= span);
    }
}

/// Tolerant-mode null substitution: a non-empty value that does not
/// parse under its column's type is stored as a null under the tolerant
/// policy; the readers' contracts state that under the strict policy
/// the same value ends the read with a `ParseError` naming its column
/// and line.
pub proof fn lemma_tolerant_null_substitution(dt: DataType, f: Seq<u8>)
    requires
        f.len() > 0,
        parse_cell(dt, f) is None,
    ensures
        built_cell(dt, f) is None,
{
}

/// A batch column holds, row for row, exactly the tolerant parse of the
/// projected field.
pub proof fn lemma_batch_col_cells(rows: Seq<Seq<Seq<u8>>>, col: int, dt: DataType, i: int)
    requires
        0 <= i < rows.len(),
    ensures
        batch_col(rows, col, dt)[i] == (if col < rows[i].len() {
            built_cell(dt, rows[i][col])
        } else {
            None
        }),
{
}

} // verus!
