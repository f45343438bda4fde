//! Filtering, masking and reductions of a series.
use crate::arithmetic::{dtype_hi, dtype_lo};
use crate::casting::{build_cast_target, cell_opt_int, opt_int, series_ints};
use crate::chunked::{ChunkedArray, mask_filter};
use crate::datatypes::DataType;
use crate::error::PolarsError;
use crate::floatval::FloatValue;
use crate::series::{
    CellValue, Series, cell_int_of, cells_bool, cells_float, cells_i16, cells_i32, cells_i64,
    cells_i8, cells_str, cells_u16, cells_u32, cells_u64, cells_u8, int_to_cell,
};
use vstd::prelude::*;

verus! {

/// A single cell of a series, taken out of its column.
pub enum AnyValue {
    Null,
    Boolean(bool),
    UInt8(u8),
    UInt16(u16),
    UInt32(u32),
    UInt64(u64),
    Int8(i8),
    Int16(i16),
    Int32(i32),
    Int64(i64),
    Float(FloatValue),
    Utf8(String),
}

/// The cell an [`AnyValue`] stands for.
pub open spec fn any_cell(v: AnyValue) -> Option<CellValue> {
    match v {
        AnyValue::Null => None,
        AnyValue::Boolean(x) => Some(CellValue::B(x)),
        AnyValue::UInt8(x) => Some(CellValue::U8(x)),
        AnyValue::UInt16(x) => Some(CellValue::U16(x)),
        AnyValue::UInt32(x) => Some(CellValue::U32(x)),
        AnyValue::UInt64(x) => Some(CellValue::U64(x)),
        AnyValue::Int8(x) => Some(CellValue::I8(x)),
        AnyValue::Int16(x) => Some(CellValue::I16(x)),
        AnyValue::Int32(x) => Some(CellValue::I32(x)),
        AnyValue::Int64(x) => Some(CellValue::I64(x)),
        AnyValue::Float(x) => Some(CellValue::F(x)),
        AnyValue::Utf8(x) => Some(CellValue::S(x@)),
    }
}

/// Filtering commutes with mapping each kept element.
proof fn lemma_mask_filter_map<A, B>(
    vs: Seq<Option<A>>,
    mask: Seq<Option<bool>>,
    f: spec_fn(Option<A>) -> Option<B>,
)
    requires
        vs.len() == mask.len(),
    ensures
        mask_filter(vs, mask).map_values(f) == mask_filter(vs.map_values(f), mask),
    decreases vs.len(),
{
    if vs.len() == 0 {
        assert(mask_filter(vs, mask).map_values(f) =~= mask_filter(vs.map_values(f), mask));
    } else {
        lemma_mask_filter_map(vs.drop_last(), mask.drop_last(), f);
        assert(vs.map_values(f).drop_last() =~= vs.drop_last().map_values(f));
        if mask.last() == Some(true) {
            assert(mask_filter(vs, mask).map_values(f) =~= mask_filter(
                vs.drop_last(),
                mask.drop_last(),
            ).map_values(f).push(f(vs.last())));
            assert(mask_filter(vs.map_values(f), mask) =~= mask_filter(
                vs.drop_last().map_values(f),
                mask.drop_last(),
            ).push(vs.map_values(f).last()));
            assert(vs.map_values(f).last() == f(vs.last()));
        } else {
            assert(mask_filter(vs, mask).map_values(f) =~= mask_filter(
                vs.drop_last(),
                mask.drop_last(),
            ).map_values(f));
            assert(mask_filter(vs.map_values(f), mask) =~= mask_filter(
                vs.drop_last().map_values(f),
                mask.drop_last(),
            ));
        }
    }
}

/// The rows of `[0, b)` whose cell holds `true`, in increasing order.
pub open spec fn true_cell_rows(cells: Seq<Option<CellValue>>, b: int) -> Seq<int>
    decreases b,
{
    if b <= 0 {
        Seq::empty()
    } else {
        let rest = true_cell_rows(cells, b - 1);
        if cells[b - 1] == Some(CellValue::B(true)) {
            rest.push(b - 1)
        } else {
            rest
        }
    }
}

/// The sum of the integer-axis values of the non-null cells of
/// `[0, b)`.
pub open spec fn int_sum_of(cells: Seq<Option<CellValue>>, b: int) -> int
    decreases b,
{
    if b <= 0 {
        0
    } else {
        int_sum_of(cells, b - 1) + (match cells[b - 1] {
            Some(c) => match cell_int_of(c) {
                Some(v) => v,
                None => 0,
            },
            None => 0,
        })
    }
}

/// The largest integer-axis value among the non-null cells of `[0, b)`.
pub open spec fn int_max_of(cells: Seq<Option<CellValue>>, b: int) -> Option<int>
    decreases b,
{
    if b <= 0 {
        None
    } else {
        let rest = int_max_of(cells, b - 1);
        match cells[b - 1] {
            Some(c) => match cell_int_of(c) {
                Some(v) => match rest {
                    None => Some(v),
                    Some(m) => if v > m {
                        Some(v)
                    } else {
                        Some(m)
                    },
                },
                None => rest,
            },
            None => rest,
        }
    }
}

/// The smallest integer-axis value among the non-null cells of `[0, b)`.
pub open spec fn int_min_of(cells: Seq<Option<CellValue>>, b: int) -> Option<int>
    decreases b,
{
    if b <= 0 {
        None
    } else {
        let rest = int_min_of(cells, b - 1);
        match cells[b - 1] {
            Some(c) => match cell_int_of(c) {
                Some(v) => match rest {
                    None => Some(v),
                    Some(m) => if v < m {
                        Some(v)
                    } else {
                        Some(m)
                    },
                },
                None => rest,
            },
            None => rest,
        }
    }
}

impl Series {

    /// Keep the cells where the mask holds `Some(true)`.  Fails when the
    /// mask's length differs from the series'.
    pub fn filter(&self, mask: &ChunkedArray<bool>) -> (r: Result<Series, PolarsError>)
        ensures
            match r {
                Ok(out) => {
                    &&& mask@.values.len() == self@.cells.len()
                    &&& out@.name == self@.name
                    &&& out@.dtype == self@.dtype
                    &&& out@.cells == mask_filter(self@.cells, mask@.values)
                },
                Err(e) => {
                    &&& e == PolarsError::ShapeMisMatch
                    &&& mask@.values.len() != self@.cells.len()
                },
            },
    {
        match self {
            Series::UInt8(ca) => {
                let c = ca.filter(mask)?;
                let out = Series::UInt8(c);
                proof {
                    let f = |v: Option<u8>| match v {
                        Some(x) => Some(CellValue::U8(x)),
                        None => None,
                    };
                    lemma_mask_filter_map(ca@.values, mask@.values, f);
                    assert(cells_u8(ca@.values) =~= ca@.values.map_values(f));
                    assert(cells_u8(c@.values) =~= c@.values.map_values(f));
                    assert(out@.cells =~= mask_filter(self@.cells, mask@.values));
                }
                Ok(out)
            },
            Series::UInt16(ca) => {
                let c = ca.filter(mask)?;
                let out = Series::UInt16(c);
                proof {
                    let f = |v: Option<u16>| match v {
                        Some(x) => Some(CellValue::U16(x)),
                        None => None,
                    };
                    lemma_mask_filter_map(ca@.values, mask@.values, f);
                    assert(cells_u16(ca@.values) =~= ca@.values.map_values(f));
                    assert(cells_u16(c@.values) =~= c@.values.map_values(f));
                    assert(out@.cells =~= mask_filter(self@.cells, mask@.values));
                }
                Ok(out)
            },
            Series::UInt32(ca) => {
                let c = ca.filter(mask)?;
                let out = Series::UInt32(c);
                proof {
                    let f = |v: Option<u32>| match v {
                        Some(x) => Some(CellValue::U32(x)),
                        None => None,
                    };
                    lemma_mask_filter_map(ca@.values, mask@.values, f);
                    assert(cells_u32(ca@.values) =~= ca@.values.map_values(f));
                    assert(cells_u32(c@.values) =~= c@.values.map_values(f));
                    assert(out@.cells =~= mask_filter(self@.cells, mask@.values));
                }
                Ok(out)
            },
            Series::UInt64(ca) => {
                let c = ca.filter(mask)?;
                let out = Series::UInt64(c);
                proof {
                    let f = |v: Option<u64>| match v {
                        Some(x) => Some(CellValue::U64(x)),
                        None => None,
                    };
                    lemma_mask_filter_map(ca@.values, mask@.values, f);
                    assert(cells_u64(ca@.values) =~= ca@.values.map_values(f));
                    assert(cells_u64(c@.values) =~= c@.values.map_values(f));
                    assert(out@.cells =~= mask_filter(self@.cells, mask@.values));
                }
                Ok(out)
            },
            Series::Int8(ca) => {
                let c = ca.filter(mask)?;
                let out = Series::Int8(c);
                proof {
                    let f = |v: Option<i8>| match v {
                        Some(x) => Some(CellValue::I8(x)),
                        None => None,
                    };
                    lemma_mask_filter_map(ca@.values, mask@.values, f);
                    assert(cells_i8(ca@.values) =~= ca@.values.map_values(f));
                    assert(cells_i8(c@.values) =~= c@.values.map_values(f));
                    assert(out@.cells =~= mask_filter(self@.cells, mask@.values));
                }
                Ok(out)
            },
            Series::Int16(ca) => {
                let c = ca.filter(mask)?;
                let out = Series::Int16(c);
                proof {
                    let f = |v: Option<i16>| match v {
                        Some(x) => Some(CellValue::I16(x)),
                        None => None,
                    };
                    lemma_mask_filter_map(ca@.values, mask@.values, f);
                    assert(cells_i16(ca@.values) =~= ca@.values.map_values(f));
                    assert(cells_i16(c@.values) =~= c@.values.map_values(f));
                    assert(out@.cells =~= mask_filter(self@.cells, mask@.values));
                }
                Ok(out)
            },
            Series::Int32(ca) => {
                let c = ca.filter(mask)?;
                let out = Series::Int32(c);
                proof {
                    let f = |v: Option<i32>| match v {
                        Some(x) => Some(CellValue::I32(x)),
                        None => None,
                    };
                    lemma_mask_filter_map(ca@.values, mask@.values, f);
                    assert(cells_i32(ca@.values) =~= ca@.values.map_values(f));
                    assert(cells_i32(c@.values) =~= c@.values.map_values(f));
                    assert(out@.cells =~= mask_filter(self@.cells, mask@.values));
                }
                Ok(out)
            },
            Series::Int64(ca) => {
                let c = ca.filter(mask)?;
                let out = Series::Int64(c);
                proof {
                    let f = |v: Option<i64>| match v {
                        Some(x) => Some(CellValue::I64(x)),
                        None => None,
                    };
                    lemma_mask_filter_map(ca@.values, mask@.values, f);
                    assert(cells_i64(ca@.values) =~= ca@.values.map_values(f));
                    assert(cells_i64(c@.values) =~= c@.values.map_values(f));
                    assert(out@.cells =~= mask_filter(self@.cells, mask@.values));
                }
                Ok(out)
            },
            Series::Float32(ca) => {
                let c = ca.filter(mask)?;
                let out = Series::Float32(c);
                proof {
                    let f = |v: Option<FloatValue>| match v {
                        Some(x) => Some(CellValue::F(x)),
                        None => None,
                    };
                    lemma_mask_filter_map(ca@.values, mask@.values, f);
                    assert(cells_float(ca@.values) =~= ca@.values.map_values(f));
                    assert(cells_float(c@.values) =~= c@.values.map_values(f));
                    assert(out@.cells =~= mask_filter(self@.cells, mask@.values));
                }
                Ok(out)
            },
            Series::Float64(ca) => {
                let c = ca.filter(mask)?;
                let out = Series::Float64(c);
                proof {
                    let f = |v: Option<FloatValue>| match v {
                        Some(x) => Some(CellValue::F(x)),
                        None => None,
                    };
                    lemma_mask_filter_map(ca@.values, mask@.values, f);
                    assert(cells_float(ca@.values) =~= ca@.values.map_values(f));
                    assert(cells_float(c@.values) =~= c@.values.map_values(f));
                    assert(out@.cells =~= mask_filter(self@.cells, mask@.values));
                }
                Ok(out)
            },
            Series::Utf8(ca) => {
                let c = ca.filter(mask)?;
                let out = Series::Utf8(c);
                proof {
                    let f = |v: Option<String>| match v {
                        Some(x) => Some(CellValue::S(x@)),
                        None => None,
                    };
                    lemma_mask_filter_map(ca@.values, mask@.values, f);
                    assert(cells_str(ca@.values) =~= ca@.values.map_values(f));
                    assert(cells_str(c@.values) =~= c@.values.map_values(f));
                    assert(out@.cells =~= mask_filter(self@.cells, mask@.values));
                }
                Ok(out)
            },
            Series::Bool(ca) => {
                let c = ca.filter(mask)?;
                let out = Series::Bool(c);
                proof {
                    let f = |v: Option<bool>| match v {
                        Some(x) => Some(CellValue::B(x)),
                        None => None,
                    };
                    lemma_mask_filter_map(ca@.values, mask@.values, f);
                    assert(cells_bool(ca@.values) =~= ca@.values.map_values(f));
                    assert(cells_bool(c@.values) =~= c@.values.map_values(f));
                    assert(out@.cells =~= mask_filter(self@.cells, mask@.values));
                }
                Ok(out)
            },
            Series::Date32(ca) => {
                let c = ca.filter(mask)?;
                let out = Series::Date32(c);
                proof {
                    let f = |v: Option<i32>| match v {
                        Some(x) => Some(CellValue::I32(x)),
                        None => None,
                    };
                    lemma_mask_filter_map(ca@.values, mask@.values, f);
                    assert(cells_i32(ca@.values) =~= ca@.values.map_values(f));
                    assert(cells_i32(c@.values) =~= c@.values.map_values(f));
                    assert(out@.cells =~= mask_filter(self@.cells, mask@.values));
                }
                Ok(out)
            },
            Series::Date64(ca) => {
                let c = ca.filter(mask)?;
                let out = Series::Date64(c);
                proof {
                    let f = |v: Option<i64>| match v {
                        Some(x) => Some(CellValue::I64(x)),
                        None => None,
                    };
                    lemma_mask_filter_map(ca@.values, mask@.values, f);
                    assert(cells_i64(ca@.values) =~= ca@.values.map_values(f));
                    assert(cells_i64(c@.values) =~= c@.values.map_values(f));
                    assert(out@.cells =~= mask_filter(self@.cells, mask@.values));
                }
                Ok(out)
            },
        }
    }

    /// The non-null cells, in order.
    pub fn drop_nulls(&self) -> (r: Series)
        ensures
            r@.name == self@.name,
            r@.dtype == self@.dtype,
            r@.cells == mask_filter(
                self@.cells,
                self@.cells.map_values(|v: Option<CellValue>| Some(v is Some)),
            ),
    {
        let mask = self.is_not_null();
        proof {
            assert(mask@.values =~= self@.cells.map_values(
                |v: Option<CellValue>| Some(v is Some),
            ));
        }
        match self.filter(&mask) {
            Ok(out) => out,
            Err(_) => {
                proof {
                    assert(false);
                }
                self.duplicate()
            },
        }
    }

    /// Cell from `self` where the mask holds `Some(true)`, from `other`
    /// elsewhere.  Fails on a type mismatch or disagreeing lengths.
    #[verifier::rlimit(100)]
    pub fn zip_with(&self, mask: &ChunkedArray<bool>, other: &Series) -> (r: Result<
        Series,
        PolarsError,
    >)
        ensures
            match r {
                Ok(out) => {
                    &&& self@.dtype == other@.dtype
                    &&& mask@.values.len() == self@.cells.len()
                    &&& other@.cells.len() == self@.cells.len()
                    &&& out@.name == self@.name
                    &&& out@.dtype == self@.dtype
                    &&& out@.cells.len() == self@.cells.len()
                    &&& forall|k: int|
                        0 <= k < self@.cells.len() ==> #[trigger] out@.cells[k] == (if mask@.values[k]
                            == Some(true) {
                            self@.cells[k]
                        } else {
                            other@.cells[k]
                        })
                },
                Err(e) => {
                    ||| (e == PolarsError::DataTypeMisMatch && self@.dtype != other@.dtype)
                    ||| (e == PolarsError::ShapeMisMatch && (mask@.values.len()
                        != self@.cells.len() || other@.cells.len() != self@.cells.len()))
                },
            },
    {
        match (self, other) {
            (Series::UInt8(ca), Series::UInt8(cb)) => {
                let c = ca.zip_with(mask, cb)?;
                let out = Series::UInt8(c);
                proof {
                    assert forall|k: int| 0 <= k < self@.cells.len() implies #[trigger] out@.cells[k]
                        == (if mask@.values[k] == Some(true) {
                        self@.cells[k]
                    } else {
                        other@.cells[k]
                    }) by {}
                }
                Ok(out)
            },
            (Series::UInt16(ca), Series::UInt16(cb)) => {
                let c = ca.zip_with(mask, cb)?;
                let out = Series::UInt16(c);
                proof {
                    assert forall|k: int| 0 <= k < self@.cells.len() implies #[trigger] out@.cells[k]
                        == (if mask@.values[k] == Some(true) {
                        self@.cells[k]
                    } else {
                        other@.cells[k]
                    }) by {}
                }
                Ok(out)
            },
            (Series::UInt32(ca), Series::UInt32(cb)) => {
                let c = ca.zip_with(mask, cb)?;
                let out = Series::UInt32(c);
                proof {
                    assert forall|k: int| 0 <= k < self@.cells.len() implies #[trigger] out@.cells[k]
                        == (if mask@.values[k] == Some(true) {
                        self@.cells[k]
                    } else {
                        other@.cells[k]
                    }) by {}
                }
                Ok(out)
            },
            (Series::UInt64(ca), Series::UInt64(cb)) => {
                let c = ca.zip_with(mask, cb)?;
                let out = Series::UInt64(c);
                proof {
                    assert forall|k: int| 0 <= k < self@.cells.len() implies #[trigger] out@.cells[k]
                        == (if mask@.values[k] == Some(true) {
                        self@.cells[k]
                    } else {
                        other@.cells[k]
                    }) by {}
                }
                Ok(out)
            },
            (Series::Int8(ca), Series::Int8(cb)) => {
                let c = ca.zip_with(mask, cb)?;
                let out = Series::Int8(c);
                proof {
                    assert forall|k: int| 0 <= k < self@.cells.len() implies #[trigger] out@.cells[k]
                        == (if mask@.values[k] == Some(true) {
                        self@.cells[k]
                    } else {
                        other@.cells[k]
                    }) by {}
                }
                Ok(out)
            },
            (Series::Int16(ca), Series::Int16(cb)) => {
                let c = ca.zip_with(mask, cb)?;
                let out = Series::Int16(c);
                proof {
                    assert forall|k: int| 0 <= k < self@.cells.len() implies #[trigger] out@.cells[k]
                        == (if mask@.values[k] == Some(true) {
                        self@.cells[k]
                    } else {
                        other@.cells[k]
                    }) by {}
                }
                Ok(out)
            },
            (Series::Int32(ca), Series::Int32(cb)) => {
                let c = ca.zip_with(mask, cb)?;
                let out = Series::Int32(c);
                proof {
                    assert forall|k: int| 0 <= k < self@.cells.len() implies #[trigger] out@.cells[k]
                        == (if mask@.values[k] == Some(true) {
                        self@.cells[k]
                    } else {
                        other@.cells[k]
                    }) by {}
                }
                Ok(out)
            },
            (Series::Int64(ca), Series::Int64(cb)) => {
                let c = ca.zip_with(mask, cb)?;
                let out = Series::Int64(c);
                proof {
                    assert forall|k: int| 0 <= k < self@.cells.len() implies #[trigger] out@.cells[k]
                        == (if mask@.values[k] == Some(true) {
                        self@.cells[k]
                    } else {
                        other@.cells[k]
                    }) by {}
                }
                Ok(out)
            },
            (Series::Float32(ca), Series::Float32(cb)) => {
                let c = ca.zip_with(mask, cb)?;
                let out = Series::Float32(c);
                proof {
                    assert forall|k: int| 0 <= k < self@.cells.len() implies #[trigger] out@.cells[k]
                        == (if mask@.values[k] == Some(true) {
                        self@.cells[k]
                    } else {
                        other@.cells[k]
                    }) by {}
                }
                Ok(out)
            },
            (Series::Float64(ca), Series::Float64(cb)) => {
                let c = ca.zip_with(mask, cb)?;
                let out = Series::Float64(c);
                proof {
                    assert forall|k: int| 0 <= k < self@.cells.len() implies #[trigger] out@.cells[k]
                        == (if mask@.values[k] == Some(true) {
                        self@.cells[k]
                    } else {
                        other@.cells[k]
                    }) by {}
                }
                Ok(out)
            },
            (Series::Utf8(ca), Series::Utf8(cb)) => {
                let c = ca.zip_with(mask, cb)?;
                let out = Series::Utf8(c);
                proof {
                    assert forall|k: int| 0 <= k < self@.cells.len() implies #[trigger] out@.cells[k]
                        == (if mask@.values[k] == Some(true) {
                        self@.cells[k]
                    } else {
                        other@.cells[k]
                    }) by {}
                }
                Ok(out)
            },
            (Series::Bool(ca), Series::Bool(cb)) => {
                let c = ca.zip_with(mask, cb)?;
                let out = Series::Bool(c);
                proof {
                    assert forall|k: int| 0 <= k < self@.cells.len() implies #[trigger] out@.cells[k]
                        == (if mask@.values[k] == Some(true) {
                        self@.cells[k]
                    } else {
                        other@.cells[k]
                    }) by {}
                }
                Ok(out)
            },
            (Series::Date32(ca), Series::Date32(cb)) => {
                let c = ca.zip_with(mask, cb)?;
                let out = Series::Date32(c);
                proof {
                    assert forall|k: int| 0 <= k < self@.cells.len() implies #[trigger] out@.cells[k]
                        == (if mask@.values[k] == Some(true) {
                        self@.cells[k]
                    } else {
                        other@.cells[k]
                    }) by {}
                }
                Ok(out)
            },
            (Series::Date64(ca), Series::Date64(cb)) => {
                let c = ca.zip_with(mask, cb)?;
                let out = Series::Date64(c);
                proof {
                    assert forall|k: int| 0 <= k < self@.cells.len() implies #[trigger] out@.cells[k]
                        == (if mask@.values[k] == Some(true) {
                        self@.cells[k]
                    } else {
                        other@.cells[k]
                    }) by {}
                }
                Ok(out)
            },
            _ => Err(PolarsError::DataTypeMisMatch),
        }
    }

    /// The row numbers whose cell holds `true`, in increasing order and
    /// complete; defined on a boolean series whose length fits the index
    /// type.
    pub fn arg_true(&self) -> (r: Result<ChunkedArray<u32>, PolarsError>)
        requires
            self@.cells.len() <= 4294967295,
        ensures
            match r {
                Ok(out) => {
                    &&& self is Bool
                    &&& out@.name == self@.name
                    &&& out@.values.len() == true_cell_rows(
                        self@.cells,
                        self@.cells.len() as int,
                    ).len()
                    &&& forall|k: int|
                        0 <= k < out@.values.len() ==> #[trigger] out@.values[k] == Some(
                            true_cell_rows(self@.cells, self@.cells.len() as int)[k] as u32,
                        )
                },
                Err(e) => {
                    &&& e == PolarsError::DataTypeMisMatch
                    &&& !(self is Bool)
                },
            },
    {
        match self {
            Series::Bool(ca) => {
                let mut out: Vec<Option<u32>> = Vec::new();
                let mut i: usize = 0;
                while i < ca.values.len()
                    invariant
                        i <= ca@.values.len(),
                        ca@.values.len() <= 4294967295,
                        self == Series::Bool(*ca),
                        self@.cells.len() == ca@.values.len(),
                        out@.len() == true_cell_rows(self@.cells, i as int).len(),
                        forall|k: int|
                            0 <= k < out@.len() ==> #[trigger] out@[k] == Some(
                                true_cell_rows(self@.cells, i as int)[k] as u32,
                            ),
                    decreases ca@.values.len() - i,
                {
                    proof {
                        assert(self@.cells[i as int] == (match ca@.values[i as int] {
                            Some(x) => Some(CellValue::B(x)),
                            None => None,
                        }));
                    }
                    match &ca.values[i] {
                        Some(b) => {
                            if *b {
                                out.push(Some(i as u32));
                            }
                        },
                        None => {},
                    }
                    i = i + 1;
                }
                Ok(ChunkedArray { name: ca.name.clone(), values: out })
            },
            _ => Err(PolarsError::DataTypeMisMatch),
        }
    }

    /// Get a single value by index.
    pub fn get(&self, index: usize) -> (r: AnyValue)
        requires
            index < self@.cells.len(),
        ensures
            any_cell(r) == self@.cells[index as int],
    {
        match self {
            Series::UInt8(ca) => match ca.get(index) {
                Some(x) => AnyValue::UInt8(x),
                None => AnyValue::Null,
            },
            Series::UInt16(ca) => match ca.get(index) {
                Some(x) => AnyValue::UInt16(x),
                None => AnyValue::Null,
            },
            Series::UInt32(ca) => match ca.get(index) {
                Some(x) => AnyValue::UInt32(x),
                None => AnyValue::Null,
            },
            Series::UInt64(ca) => match ca.get(index) {
                Some(x) => AnyValue::UInt64(x),
                None => AnyValue::Null,
            },
            Series::Int8(ca) => match ca.get(index) {
                Some(x) => AnyValue::Int8(x),
                None => AnyValue::Null,
            },
            Series::Int16(ca) => match ca.get(index) {
                Some(x) => AnyValue::Int16(x),
                None => AnyValue::Null,
            },
            Series::Int32(ca) => match ca.get(index) {
                Some(x) => AnyValue::Int32(x),
                None => AnyValue::Null,
            },
            Series::Int64(ca) => match ca.get(index) {
                Some(x) => AnyValue::Int64(x),
                None => AnyValue::Null,
            },
            Series::Float32(ca) => match ca.get(index) {
                Some(x) => AnyValue::Float(x),
                None => AnyValue::Null,
            },
            Series::Float64(ca) => match ca.get(index) {
                Some(x) => AnyValue::Float(x),
                None => AnyValue::Null,
            },
            Series::Utf8(ca) => match ca.get(index) {
                Some(x) => AnyValue::Utf8(x),
                None => AnyValue::Null,
            },
            Series::Bool(ca) => match ca.get(index) {
                Some(x) => AnyValue::Boolean(x),
                None => AnyValue::Null,
            },
            Series::Date32(ca) => match ca.get(index) {
                Some(x) => AnyValue::Int32(x),
                None => AnyValue::Null,
            },
            Series::Date64(ca) => match ca.get(index) {
                Some(x) => AnyValue::Int64(x),
                None => AnyValue::Null,
            },
        }
    }

    /// Take the cells at the row numbers an index list yields; one past
    /// the end takes a null.
    pub fn take_iter(&self, indices: &Vec<usize>, capacity: Option<usize>) -> (r: Series)
        ensures
            r@.name == self@.name,
            r@.dtype == self@.dtype,
            r@.cells.len() == indices@.len(),
            forall|k: int|
                0 <= k < indices@.len() ==> #[trigger] r@.cells[k] == (if indices@[k]
                    < self@.cells.len() {
                    self@.cells[indices@[k] as int]
                } else {
                    None
                }),
    {
        self.take(indices)
    }

    /// As `take_iter`, over optional row numbers: a `None` takes a null.
    pub fn take_opt_iter(&self, indices: &Vec<Option<usize>>, capacity: Option<usize>) -> (r:
        Series)
        ensures
            r@.name == self@.name,
            r@.dtype == self@.dtype,
            r@.cells.len() == indices@.len(),
            forall|k: int|
                0 <= k < indices@.len() ==> #[trigger] r@.cells[k] == (match indices@[k] {
                    Some(ix) => if ix < self@.cells.len() {
                        self@.cells[ix as int]
                    } else {
                        None
                    },
                    None => None,
                }),
    {
        let n: usize = self.len();
        let mut plain: Vec<usize> = Vec::new();
        let mut i: usize = 0;
        while i < indices.len()
            invariant
                i <= indices@.len(),
                n == self@.cells.len(),
                plain@.len() == i,
                forall|k: int|
                    0 <= k < i ==> #[trigger] plain@[k] == (match indices@[k] {
                        Some(ix) => if ix < n {
                            ix
                        } else {
                            n
                        },
                        None => n,
                    }),
            decreases indices@.len() - i,
        {
            match &indices[i] {
                Some(ix) => {
                    if *ix < n {
                        plain.push(*ix);
                    } else {
                        plain.push(n);
                    }
                },
                None => plain.push(n),
            }
            i = i + 1;
        }
        let r = self.take(&plain);
        proof {
            assert forall|k: int| 0 <= k < indices@.len() implies #[trigger] r@.cells[k] == (
            match indices@[k] {
                Some(ix) => if ix < self@.cells.len() {
                    self@.cells[ix as int]
                } else {
                    None
                },
                None => None,
            }) by {
                assert(r@.cells[k] == (if plain@[k] < self@.cells.len() {
                    self@.cells[plain@[k] as int]
                } else {
                    None
                }));
            }
        }
        r
    }

    /// The sum of the non-null cells as a series of length one, over the
    /// integer axis; the cell is null when the sum leaves the type.
    pub fn sum_as_series(&self) -> (r: Result<Series, PolarsError>)
        ensures
            match r {
                Ok(out) => {
                    &&& out@.name == self@.name
                    &&& out@.dtype == self@.dtype
                    &&& out@.cells.len() == 1
                    &&& out@.cells[0] == (if -18446744073709551615
                        <= int_sum_of(self@.cells, self@.cells.len() as int)
                        <= 18446744073709551615 {
                        int_to_cell(
                            self@.dtype,
                            int_sum_of(self@.cells, self@.cells.len() as int),
                        )
                    } else {
                        None
                    })
                },
                Err(e) => {
                    &&& e == PolarsError::InvalidOperation
                    &&& (crate::arithmetic::arith_unsupported(self@.dtype) || exists|i: int|
                        0 <= i <= self@.cells.len() && !(-1237940039285380274899124224 <= #[trigger]
                        int_sum_of(self@.cells, i) <= 1237940039285380274899124224))
                },
            },
    {
        let ints = match series_ints(self) {
            Some(v) => v,
            None => {
                return Err(PolarsError::InvalidOperation);
            },
        };
        let mut acc: i128 = 0;
        let mut i: usize = 0;
        while i < ints.len()
            invariant
                i <= ints@.len(),
                ints@.len() == self@.cells.len(),
                forall|k: int|
                    0 <= k < ints@.len() ==> cell_opt_int(self@.cells[k]) == #[trigger] opt_int(
                        ints@[k],
                    ),
                acc as int == int_sum_of(self@.cells, i as int),
                -1237940039285380274899124224i128 <= acc <= 1237940039285380274899124224i128,
                forall|k: int|
                    0 <= k < ints@.len() ==> (match #[trigger] ints@[k] {
                        Some(v) => -18446744073709551615i128 <= v <= 18446744073709551615i128,
                        None => true,
                    }),
            decreases ints@.len() - i,
        {
            proof {
                assert(cell_opt_int(self@.cells[i as int]) == opt_int(ints@[i as int]));
            }
            match &ints[i] {
                Some(v) => {
                    acc = acc + *v;
                    if acc < -1237940039285380274899124224i128
                        || acc > 1237940039285380274899124224i128 {
                        proof {
                            assert(!(-1237940039285380274899124224 <= int_sum_of(
                                self@.cells,
                                i + 1,
                            ) <= 1237940039285380274899124224));
                        }
                        return Err(PolarsError::InvalidOperation);
                    }
                },
                None => {},
            }
            i = i + 1;
        }
        let dt = self.dtype();
        let one = sum_cell(acc);
        let name: String = self.name().clone();
        match build_cast_target(&name, &one, dt) {
            Some(out) => Ok(out),
            None => {
                proof {
                    assert(crate::arithmetic::arith_unsupported(self@.dtype));
                }
                Err(PolarsError::InvalidOperation)
            },
        }
    }

    /// The largest non-null cell as a series of length one, over the
    /// integer axis; a null when every cell is null.
    pub fn max_as_series(&self) -> (r: Result<Series, PolarsError>)
        ensures
            match r {
                Ok(out) => {
                    &&& out@.name == self@.name
                    &&& out@.dtype == self@.dtype
                    &&& out@.cells.len() == 1
                    &&& out@.cells[0] == (match int_max_of(self@.cells, self@.cells.len() as int) {
                        Some(v) => int_to_cell(self@.dtype, v),
                        None => None,
                    })
                },
                Err(e) => {
                    &&& e == PolarsError::InvalidOperation
                    &&& crate::arithmetic::arith_unsupported(self@.dtype)
                },
            },
    {
        let ints = match series_ints(self) {
            Some(v) => v,
            None => {
                return Err(PolarsError::InvalidOperation);
            },
        };
        let mut best: Option<i128> = None;
        let mut i: usize = 0;
        while i < ints.len()
            invariant
                i <= ints@.len(),
                ints@.len() == self@.cells.len(),
                forall|k: int|
                    0 <= k < ints@.len() ==> cell_opt_int(self@.cells[k]) == #[trigger] opt_int(
                        ints@[k],
                    ),
                match best {
                    Some(b) => -18446744073709551615i128 <= b <= 18446744073709551615i128 && int_max_of(
                        self@.cells,
                        i as int,
                    ) == Some(b as int),
                    None => int_max_of(self@.cells, i as int) is None,
                },
                forall|k: int|
                    0 <= k < ints@.len() ==> (match #[trigger] ints@[k] {
                        Some(v) => -18446744073709551615i128 <= v <= 18446744073709551615i128,
                        None => true,
                    }),
            decreases ints@.len() - i,
        {
            proof {
                assert(cell_opt_int(self@.cells[i as int]) == opt_int(ints@[i as int]));
            }
            match &ints[i] {
                Some(v) => {
                    best = match best {
                        Some(b) => if *v > b {
                            Some(*v)
                        } else {
                            Some(b)
                        },
                        None => Some(*v),
                    };
                },
                None => {},
            }
            i = i + 1;
        }
        let dt = self.dtype();
        let mut one: Vec<Option<i128>> = Vec::new();
        one.push(best);
        let name: String = self.name().clone();
        match build_cast_target(&name, &one, dt) {
            Some(out) => Ok(out),
            None => {
                proof {
                    assert(crate::arithmetic::arith_unsupported(self@.dtype));
                }
                Err(PolarsError::InvalidOperation)
            },
        }
    }

    /// The smallest non-null cell as a series of length one, over the
    /// integer axis; a null when every cell is null.
    pub fn min_as_series(&self) -> (r: Result<Series, PolarsError>)
        ensures
            match r {
                Ok(out) => {
                    &&& out@.name == self@.name
                    &&& out@.dtype == self@.dtype
                    &&& out@.cells.len() == 1
                    &&& out@.cells[0] == (match int_min_of(self@.cells, self@.cells.len() as int) {
                        Some(v) => int_to_cell(self@.dtype, v),
                        None => None,
                    })
                },
                Err(e) => {
                    &&& e == PolarsError::InvalidOperation
                    &&& crate::arithmetic::arith_unsupported(self@.dtype)
                },
            },
    {
        let ints = match series_ints(self) {
            Some(v) => v,
            None => {
                return Err(PolarsError::InvalidOperation);
            },
        };
        let mut best: Option<i128> = None;
        let mut i: usize = 0;
        while i < ints.len()
            invariant
                i <= ints@.len(),
                ints@.len() == self@.cells.len(),
                forall|k: int|
                    0 <= k < ints@.len() ==> cell_opt_int(self@.cells[k]) == #[trigger] opt_int(
                        ints@[k],
                    ),
                match best {
                    Some(b) => -18446744073709551615i128 <= b <= 18446744073709551615i128 && int_min_of(
                        self@.cells,
                        i as int,
                    ) == Some(b as int),
                    None => int_min_of(self@.cells, i as int) is None,
                },
                forall|k: int|
                    0 <= k < ints@.len() ==> (match #[trigger] ints@[k] {
                        Some(v) => -18446744073709551615i128 <= v <= 18446744073709551615i128,
                        None => true,
                    }),
            decreases ints@.len() - i,
        {
            proof {
                assert(cell_opt_int(self@.cells[i as int]) == opt_int(ints@[i as int]));
            }
            match &ints[i] {
                Some(v) => {
                    best = match best {
                        Some(b) => if *v < b {
                            Some(*v)
                        } else {
                            Some(b)
                        },
                        None => Some(*v),
                    };
                },
                None => {},
            }
            i = i + 1;
        }
        let dt = self.dtype();
        let mut one: Vec<Option<i128>> = Vec::new();
        one.push(best);
        let name: String = self.name().clone();
        match build_cast_target(&name, &one, dt) {
            Some(out) => Ok(out),
            None => {
                proof {
                    assert(crate::arithmetic::arith_unsupported(self@.dtype));
                }
                Err(PolarsError::InvalidOperation)
            },
        }
    }
}

/// The sum as a single optional cell, nulled when it leaves the type.
fn sum_cell(acc: i128) -> (r: Vec<Option<i128>>)
    requires
        -1237940039285380274899124224i128 <= acc <= 1237940039285380274899124224i128,
    ensures
        r@.len() == 1,
        r@[0] == (if -18446744073709551615i128 <= acc <= 18446744073709551615i128 {
            Some(acc)
        } else {
            None::<i128>
        }),
        forall|k: int|
            0 <= k < 1 ==> (match #[trigger] r@[k] {
                Some(v) => -18446744073709551615i128 <= v <= 18446744073709551615i128,
                None => true,
            }),
{
    let mut one: Vec<Option<i128>> = Vec::new();
    if acc < -18446744073709551615i128 || acc > 18446744073709551615i128 {
        one.push(None);
    } else {
        one.push(Some(acc));
    }
    one
}

} // verus!
