//! The type-agnostic column: one enum over the typed columns.
use crate::chunked::{ChunkedArray, Utf8Chunked, count_nulls};
use crate::datatypes::{DataType, Field};
use crate::error::PolarsError;
use crate::floatval::FloatValue;
use vstd::prelude::*;

verus! {

/// One cell of a series, with its type, as a mathematical value.
pub enum CellValue {
    B(bool),
    U8(u8),
    U16(u16),
    U32(u32),
    U64(u64),
    I8(i8),
    I16(i16),
    I32(i32),
    I64(i64),
    F(FloatValue),
    S(Seq<char>),
}

/// The mathematical value of a series: its name, its type, and its cells.
#[verifier::ext_equal]
pub struct SeriesSpec {
    pub name: Seq<char>,
    pub dtype: DataType,
    pub cells: Seq<Option<CellValue>>,
}

/// The columnar data type of one column of a table: a typed column behind
/// one tag per supported type.
#[derive(Debug)]
pub enum Series {
    UInt8(ChunkedArray<u8>),
    UInt16(ChunkedArray<u16>),
    UInt32(ChunkedArray<u32>),
    UInt64(ChunkedArray<u64>),
    Int8(ChunkedArray<i8>),
    Int16(ChunkedArray<i16>),
    Int32(ChunkedArray<i32>),
    Int64(ChunkedArray<i64>),
    Float32(ChunkedArray<FloatValue>),
    Float64(ChunkedArray<FloatValue>),
    Utf8(Utf8Chunked),
    Bool(ChunkedArray<bool>),
    Date32(ChunkedArray<i32>),
    Date64(ChunkedArray<i64>),
}

pub open spec fn cells_bool(vs: Seq<Option<bool>>) -> Seq<Option<CellValue>> {
    vs.map_values(
        |v: Option<bool>|
            match v {
                Some(x) => Some(CellValue::B(x)),
                None => None,
            },
    )
}

pub open spec fn cells_u8(vs: Seq<Option<u8>>) -> Seq<Option<CellValue>> {
    vs.map_values(
        |v: Option<u8>|
            match v {
                Some(x) => Some(CellValue::U8(x)),
                None => None,
            },
    )
}

pub open spec fn cells_u16(vs: Seq<Option<u16>>) -> Seq<Option<CellValue>> {
    vs.map_values(
        |v: Option<u16>|
            match v {
                Some(x) => Some(CellValue::U16(x)),
                None => None,
            },
    )
}

pub open spec fn cells_u32(vs: Seq<Option<u32>>) -> Seq<Option<CellValue>> {
    vs.map_values(
        |v: Option<u32>|
            match v {
                Some(x) => Some(CellValue::U32(x)),
                None => None,
            },
    )
}

pub open spec fn cells_u64(vs: Seq<Option<u64>>) -> Seq<Option<CellValue>> {
    vs.map_values(
        |v: Option<u64>|
            match v {
                Some(x) => Some(CellValue::U64(x)),
                None => None,
            },
    )
}

pub open spec fn cells_i8(vs: Seq<Option<i8>>) -> Seq<Option<CellValue>> {
    vs.map_values(
        |v: Option<i8>|
            match v {
                Some(x) => Some(CellValue::I8(x)),
                None => None,
            },
    )
}

pub open spec fn cells_i16(vs: Seq<Option<i16>>) -> Seq<Option<CellValue>> {
    vs.map_values(
        |v: Option<i16>|
            match v {
                Some(x) => Some(CellValue::I16(x)),
                None => None,
            },
    )
}

pub open spec fn cells_i32(vs: Seq<Option<i32>>) -> Seq<Option<CellValue>> {
    vs.map_values(
        |v: Option<i32>|
            match v {
                Some(x) => Some(CellValue::I32(x)),
                None => None,
            },
    )
}

pub open spec fn cells_i64(vs: Seq<Option<i64>>) -> Seq<Option<CellValue>> {
    vs.map_values(
        |v: Option<i64>|
            match v {
                Some(x) => Some(CellValue::I64(x)),
                None => None,
            },
    )
}

pub open spec fn cells_float(vs: Seq<Option<FloatValue>>) -> Seq<Option<CellValue>> {
    vs.map_values(
        |v: Option<FloatValue>|
            match v {
                Some(x) => Some(CellValue::F(x)),
                None => None,
            },
    )
}

pub open spec fn cells_str(vs: Seq<Option<String>>) -> Seq<Option<CellValue>> {
    vs.map_values(
        |v: Option<String>|
            match v {
                Some(x) => Some(CellValue::S(x@)),
                None => None,
            },
    )
}

impl View for Series {
    type V = SeriesSpec;

    open spec fn view(&self) -> SeriesSpec {
        match self {
            Series::UInt8(ca) => SeriesSpec {
                name: ca@.name,
                dtype: DataType::UInt8,
                cells: cells_u8(ca@.values),
            },
            Series::UInt16(ca) => SeriesSpec {
                name: ca@.name,
                dtype: DataType::UInt16,
                cells: cells_u16(ca@.values),
            },
            Series::UInt32(ca) => SeriesSpec {
                name: ca@.name,
                dtype: DataType::UInt32,
                cells: cells_u32(ca@.values),
            },
            Series::UInt64(ca) => SeriesSpec {
                name: ca@.name,
                dtype: DataType::UInt64,
                cells: cells_u64(ca@.values),
            },
            Series::Int8(ca) => SeriesSpec {
                name: ca@.name,
                dtype: DataType::Int8,
                cells: cells_i8(ca@.values),
            },
            Series::Int16(ca) => SeriesSpec {
                name: ca@.name,
                dtype: DataType::Int16,
                cells: cells_i16(ca@.values),
            },
            Series::Int32(ca) => SeriesSpec {
                name: ca@.name,
                dtype: DataType::Int32,
                cells: cells_i32(ca@.values),
            },
            Series::Int64(ca) => SeriesSpec {
                name: ca@.name,
                dtype: DataType::Int64,
                cells: cells_i64(ca@.values),
            },
            Series::Float32(ca) => SeriesSpec {
                name: ca@.name,
                dtype: DataType::Float32,
                cells: cells_float(ca@.values),
            },
            Series::Float64(ca) => SeriesSpec {
                name: ca@.name,
                dtype: DataType::Float64,
                cells: cells_float(ca@.values),
            },
            Series::Utf8(ca) => SeriesSpec {
                name: ca@.name,
                dtype: DataType::Utf8,
                cells: cells_str(ca@.values),
            },
            Series::Bool(ca) => SeriesSpec {
                name: ca@.name,
                dtype: DataType::Boolean,
                cells: cells_bool(ca@.values),
            },
            Series::Date32(ca) => SeriesSpec {
                name: ca@.name,
                dtype: DataType::Date32,
                cells: cells_i32(ca@.values),
            },
            Series::Date64(ca) => SeriesSpec {
                name: ca@.name,
                dtype: DataType::Date64,
                cells: cells_i64(ca@.values),
            },
        }
    }
}

impl Series {
    /// Name of series.
    pub fn name(&self) -> (r: &String)
        ensures
            r@ == self@.name,
    {
        match self {
            Series::UInt8(ca) => ca.name(),
            Series::UInt16(ca) => ca.name(),
            Series::UInt32(ca) => ca.name(),
            Series::UInt64(ca) => ca.name(),
            Series::Int8(ca) => ca.name(),
            Series::Int16(ca) => ca.name(),
            Series::Int32(ca) => ca.name(),
            Series::Int64(ca) => ca.name(),
            Series::Float32(ca) => ca.name(),
            Series::Float64(ca) => ca.name(),
            Series::Utf8(ca) => ca.name(),
            Series::Bool(ca) => ca.name(),
            Series::Date32(ca) => ca.name(),
            Series::Date64(ca) => ca.name(),
        }
    }

    /// Rename series.
    pub fn rename(&mut self, name: &str)
        ensures
            final(self)@.name == name@,
            final(self)@.dtype == old(self)@.dtype,
            final(self)@.cells == old(self)@.cells,
    {
        match self {
            Series::UInt8(ca) => ca.rename(name),
            Series::UInt16(ca) => ca.rename(name),
            Series::UInt32(ca) => ca.rename(name),
            Series::UInt64(ca) => ca.rename(name),
            Series::Int8(ca) => ca.rename(name),
            Series::Int16(ca) => ca.rename(name),
            Series::Int32(ca) => ca.rename(name),
            Series::Int64(ca) => ca.rename(name),
            Series::Float32(ca) => ca.rename(name),
            Series::Float64(ca) => ca.rename(name),
            Series::Utf8(ca) => ca.rename(name),
            Series::Bool(ca) => ca.rename(name),
            Series::Date32(ca) => ca.rename(name),
            Series::Date64(ca) => ca.rename(name),
        }
    }

    /// Get datatype of series.
    pub fn dtype(&self) -> (r: DataType)
        ensures
            r == self@.dtype,
    {
        match self {
            Series::UInt8(_) => DataType::UInt8,
            Series::UInt16(_) => DataType::UInt16,
            Series::UInt32(_) => DataType::UInt32,
            Series::UInt64(_) => DataType::UInt64,
            Series::Int8(_) => DataType::Int8,
            Series::Int16(_) => DataType::Int16,
            Series::Int32(_) => DataType::Int32,
            Series::Int64(_) => DataType::Int64,
            Series::Float32(_) => DataType::Float32,
            Series::Float64(_) => DataType::Float64,
            Series::Utf8(_) => DataType::Utf8,
            Series::Bool(_) => DataType::Boolean,
            Series::Date32(_) => DataType::Date32,
            Series::Date64(_) => DataType::Date64,
        }
    }

    /// Get field (used in schema).  A series on its own may hold nulls, so
    /// its field is nullable.
    pub fn field(&self) -> (r: Field)
        ensures
            r@.name == self@.name,
            r@.dtype == self@.dtype,
            r@.nullable,
    {
        Field::new(self.name().as_str(), self.dtype(), true)
    }

    /// Get length of series.
    pub fn len(&self) -> (r: usize)
        ensures
            r == self@.cells.len(),
    {
        match self {
            Series::UInt8(ca) => ca.len(),
            Series::UInt16(ca) => ca.len(),
            Series::UInt32(ca) => ca.len(),
            Series::UInt64(ca) => ca.len(),
            Series::Int8(ca) => ca.len(),
            Series::Int16(ca) => ca.len(),
            Series::Int32(ca) => ca.len(),
            Series::Int64(ca) => ca.len(),
            Series::Float32(ca) => ca.len(),
            Series::Float64(ca) => ca.len(),
            Series::Utf8(ca) => ca.len(),
            Series::Bool(ca) => ca.len(),
            Series::Date32(ca) => ca.len(),
            Series::Date64(ca) => ca.len(),
        }
    }

    /// Check if Series is empty.
    pub fn is_empty(&self) -> (r: bool)
        ensures
            r == (self@.cells.len() == 0),
    {
        self.len() == 0
    }

    /// The lengths of the underlying chunks; the data is held contiguously,
    /// as one chunk.
    pub fn chunk_lengths(&self) -> (r: Vec<usize>)
        ensures
            r@ == seq![self@.cells.len() as usize],
    {
        let mut r: Vec<usize> = Vec::new();
        r.push(self.len());
        proof {
            assert(r@ =~= seq![self@.cells.len() as usize]);
        }
        r
    }

    /// No. of chunks; the data is held contiguously, as one chunk.
    pub fn n_chunks(&self) -> (r: usize)
        ensures
            r == 1,
    {
        1
    }

    /// A copy of the series.
    pub fn duplicate(&self) -> (r: Self)
        ensures
            r@ == self@,
    {
        let r = match self {
            Series::UInt8(ca) => Series::UInt8(ca.duplicate()),
            Series::UInt16(ca) => Series::UInt16(ca.duplicate()),
            Series::UInt32(ca) => Series::UInt32(ca.duplicate()),
            Series::UInt64(ca) => Series::UInt64(ca.duplicate()),
            Series::Int8(ca) => Series::Int8(ca.duplicate()),
            Series::Int16(ca) => Series::Int16(ca.duplicate()),
            Series::Int32(ca) => Series::Int32(ca.duplicate()),
            Series::Int64(ca) => Series::Int64(ca.duplicate()),
            Series::Float32(ca) => Series::Float32(ca.duplicate()),
            Series::Float64(ca) => Series::Float64(ca.duplicate()),
            Series::Utf8(ca) => Series::Utf8(ca.duplicate()),
            Series::Bool(ca) => Series::Bool(ca.duplicate()),
            Series::Date32(ca) => Series::Date32(ca.duplicate()),
            Series::Date64(ca) => Series::Date64(ca.duplicate()),
        };
        r
    }

    /// Append a Series of the same type in place; fails on a type mismatch.
    pub fn append(&mut self, other: &Self) -> (r: Result<(), PolarsError>)
        ensures
            match r {
                Ok(()) => {
                    &&& old(self)@.dtype == other@.dtype
                    &&& final(self)@.name == old(self)@.name
                    &&& final(self)@.dtype == old(self)@.dtype
                    &&& final(self)@.cells == old(self)@.cells + other@.cells
                },
                Err(e) => {
                    &&& e == PolarsError::DataTypeMisMatch
                    &&& old(self)@.dtype != other@.dtype
                    &&& final(self)@ == old(self)@
                },
            },
    {
        let matched: bool = match (&*self, other) {
            (Series::UInt8(_), Series::UInt8(_)) => true,
            (Series::UInt16(_), Series::UInt16(_)) => true,
            (Series::UInt32(_), Series::UInt32(_)) => true,
            (Series::UInt64(_), Series::UInt64(_)) => true,
            (Series::Int8(_), Series::Int8(_)) => true,
            (Series::Int16(_), Series::Int16(_)) => true,
            (Series::Int32(_), Series::Int32(_)) => true,
            (Series::Int64(_), Series::Int64(_)) => true,
            (Series::Float32(_), Series::Float32(_)) => true,
            (Series::Float64(_), Series::Float64(_)) => true,
            (Series::Utf8(_), Series::Utf8(_)) => true,
            (Series::Bool(_), Series::Bool(_)) => true,
            (Series::Date32(_), Series::Date32(_)) => true,
            (Series::Date64(_), Series::Date64(_)) => true,
            _ => false,
        };
        if !matched {
            return Err(PolarsError::DataTypeMisMatch);
        }
        match (self, other) {
            (Series::UInt8(ca), Series::UInt8(cb)) => {
                let ghost before = ca@.values;
                ca.append(cb);
                proof {
                    assert(cells_u8(ca@.values) =~= cells_u8(before) + cells_u8(cb@.values));
                }
            },
            (Series::UInt16(ca), Series::UInt16(cb)) => {
                let ghost before = ca@.values;
                ca.append(cb);
                proof {
                    assert(cells_u16(ca@.values) =~= cells_u16(before) + cells_u16(cb@.values));
                }
            },
            (Series::UInt32(ca), Series::UInt32(cb)) => {
                let ghost before = ca@.values;
                ca.append(cb);
                proof {
                    assert(cells_u32(ca@.values) =~= cells_u32(before) + cells_u32(cb@.values));
                }
            },
            (Series::UInt64(ca), Series::UInt64(cb)) => {
                let ghost before = ca@.values;
                ca.append(cb);
                proof {
                    assert(cells_u64(ca@.values) =~= cells_u64(before) + cells_u64(cb@.values));
                }
            },
            (Series::Int8(ca), Series::Int8(cb)) => {
                let ghost before = ca@.values;
                ca.append(cb);
                proof {
                    assert(cells_i8(ca@.values) =~= cells_i8(before) + cells_i8(cb@.values));
                }
            },
            (Series::Int16(ca), Series::Int16(cb)) => {
                let ghost before = ca@.values;
                ca.append(cb);
                proof {
                    assert(cells_i16(ca@.values) =~= cells_i16(before) + cells_i16(cb@.values));
                }
            },
            (Series::Int32(ca), Series::Int32(cb)) => {
                let ghost before = ca@.values;
                ca.append(cb);
                proof {
                    assert(cells_i32(ca@.values) =~= cells_i32(before) + cells_i32(cb@.values));
                }
            },
            (Series::Int64(ca), Series::Int64(cb)) => {
                let ghost before = ca@.values;
                ca.append(cb);
                proof {
                    assert(cells_i64(ca@.values) =~= cells_i64(before) + cells_i64(cb@.values));
                }
            },
            (Series::Float32(ca), Series::Float32(cb)) => {
                let ghost before = ca@.values;
                ca.append(cb);
                proof {
                    assert(cells_float(ca@.values) =~= cells_float(before) + cells_float(cb@.values));
                }
            },
            (Series::Float64(ca), Series::Float64(cb)) => {
                let ghost before = ca@.values;
                ca.append(cb);
                proof {
                    assert(cells_float(ca@.values) =~= cells_float(before) + cells_float(cb@.values));
                }
            },
            (Series::Utf8(ca), Series::Utf8(cb)) => {
                let ghost before = ca@.values;
                ca.append(cb);
                proof {
                    assert(cells_str(ca@.values) =~= cells_str(before) + cells_str(cb@.values));
                }
            },
            (Series::Bool(ca), Series::Bool(cb)) => {
                let ghost before = ca@.values;
                ca.append(cb);
                proof {
                    assert(cells_bool(ca@.values) =~= cells_bool(before) + cells_bool(cb@.values));
                }
            },
            (Series::Date32(ca), Series::Date32(cb)) => {
                let ghost before = ca@.values;
                ca.append(cb);
                proof {
                    assert(cells_i32(ca@.values) =~= cells_i32(before) + cells_i32(cb@.values));
                }
            },
            (Series::Date64(ca), Series::Date64(cb)) => {
                let ghost before = ca@.values;
                ca.append(cb);
                proof {
                    assert(cells_i64(ca@.values) =~= cells_i64(before) + cells_i64(cb@.values));
                }
            },
            _ => {},
        }
        Ok(())
    }

    /// Count the null values.
    pub fn null_count(&self) -> (r: usize)
        ensures
            r == count_nulls(self@.cells),
    {
        match self {
            Series::UInt8(ca) => {
                let c = ca.null_count();
                proof {
                    lemma_count_nulls_same(ca@.values, self@.cells);
                }
                c
            },
            Series::UInt16(ca) => {
                let c = ca.null_count();
                proof {
                    lemma_count_nulls_same(ca@.values, self@.cells);
                }
                c
            },
            Series::UInt32(ca) => {
                let c = ca.null_count();
                proof {
                    lemma_count_nulls_same(ca@.values, self@.cells);
                }
                c
            },
            Series::UInt64(ca) => {
                let c = ca.null_count();
                proof {
                    lemma_count_nulls_same(ca@.values, self@.cells);
                }
                c
            },
            Series::Int8(ca) => {
                let c = ca.null_count();
                proof {
                    lemma_count_nulls_same(ca@.values, self@.cells);
                }
                c
            },
            Series::Int16(ca) => {
                let c = ca.null_count();
                proof {
                    lemma_count_nulls_same(ca@.values, self@.cells);
                }
                c
            },
            Series::Int32(ca) => {
                let c = ca.null_count();
                proof {
                    lemma_count_nulls_same(ca@.values, self@.cells);
                }
                c
            },
            Series::Int64(ca) => {
                let c = ca.null_count();
                proof {
                    lemma_count_nulls_same(ca@.values, self@.cells);
                }
                c
            },
            Series::Float32(ca) => {
                let c = ca.null_count();
                proof {
                    lemma_count_nulls_same(ca@.values, self@.cells);
                }
                c
            },
            Series::Float64(ca) => {
                let c = ca.null_count();
                proof {
                    lemma_count_nulls_same(ca@.values, self@.cells);
                }
                c
            },
            Series::Utf8(ca) => {
                let c = ca.null_count();
                proof {
                    lemma_count_nulls_same(ca@.values, self@.cells);
                }
                c
            },
            Series::Bool(ca) => {
                let c = ca.null_count();
                proof {
                    lemma_count_nulls_same(ca@.values, self@.cells);
                }
                c
            },
            Series::Date32(ca) => {
                let c = ca.null_count();
                proof {
                    lemma_count_nulls_same(ca@.values, self@.cells);
                }
                c
            },
            Series::Date64(ca) => {
                let c = ca.null_count();
                proof {
                    lemma_count_nulls_same(ca@.values, self@.cells);
                }
                c
            },
        }
    }
}

impl Series {
    /// Unpack to ChunkedArray
    pub fn i8(&self) -> (r: Result<&ChunkedArray<i8>, PolarsError>)
        ensures
            match r {
                Ok(ca) => {
                    &&& self is Int8
                    &&& self@.dtype == DataType::Int8
                    &&& ca@.name == self@.name
                    &&& cells_i8(ca@.values) == self@.cells
                },
                Err(e) => e == PolarsError::DataTypeMisMatch && !(self is Int8),
            },
    {
        match self {
            Series::Int8(ca) => Ok(ca),
            _ => Err(PolarsError::DataTypeMisMatch),
        }
    }

    /// Unpack to ChunkedArray
    pub fn i16(&self) -> (r: Result<&ChunkedArray<i16>, PolarsError>)
        ensures
            match r {
                Ok(ca) => {
                    &&& self is Int16
                    &&& self@.dtype == DataType::Int16
                    &&& ca@.name == self@.name
                    &&& cells_i16(ca@.values) == self@.cells
                },
                Err(e) => e == PolarsError::DataTypeMisMatch && !(self is Int16),
            },
    {
        match self {
            Series::Int16(ca) => Ok(ca),
            _ => Err(PolarsError::DataTypeMisMatch),
        }
    }

    /// Unpack to ChunkedArray
    pub fn i32(&self) -> (r: Result<&ChunkedArray<i32>, PolarsError>)
        ensures
            match r {
                Ok(ca) => {
                    &&& self is Int32
                    &&& self@.dtype == DataType::Int32
                    &&& ca@.name == self@.name
                    &&& cells_i32(ca@.values) == self@.cells
                },
                Err(e) => e == PolarsError::DataTypeMisMatch && !(self is Int32),
            },
    {
        match self {
            Series::Int32(ca) => Ok(ca),
            _ => Err(PolarsError::DataTypeMisMatch),
        }
    }

    /// Unpack to ChunkedArray
    pub fn i64(&self) -> (r: Result<&ChunkedArray<i64>, PolarsError>)
        ensures
            match r {
                Ok(ca) => {
                    &&& self is Int64
                    &&& self@.dtype == DataType::Int64
                    &&& ca@.name == self@.name
                    &&& cells_i64(ca@.values) == self@.cells
                },
                Err(e) => e == PolarsError::DataTypeMisMatch && !(self is Int64),
            },
    {
        match self {
            Series::Int64(ca) => Ok(ca),
            _ => Err(PolarsError::DataTypeMisMatch),
        }
    }

    /// Unpack to ChunkedArray
    pub fn u8(&self) -> (r: Result<&ChunkedArray<u8>, PolarsError>)
        ensures
            match r {
                Ok(ca) => {
                    &&& self is UInt8
                    &&& self@.dtype == DataType::UInt8
                    &&& ca@.name == self@.name
                    &&& cells_u8(ca@.values) == self@.cells
                },
                Err(e) => e == PolarsError::DataTypeMisMatch && !(self is UInt8),
            },
    {
        match self {
            Series::UInt8(ca) => Ok(ca),
            _ => Err(PolarsError::DataTypeMisMatch),
        }
    }

    /// Unpack to ChunkedArray
    pub fn u16(&self) -> (r: Result<&ChunkedArray<u16>, PolarsError>)
        ensures
            match r {
                Ok(ca) => {
                    &&& self is UInt16
                    &&& self@.dtype == DataType::UInt16
                    &&& ca@.name == self@.name
                    &&& cells_u16(ca@.values) == self@.cells
                },
                Err(e) => e == PolarsError::DataTypeMisMatch && !(self is UInt16),
            },
    {
        match self {
            Series::UInt16(ca) => Ok(ca),
            _ => Err(PolarsError::DataTypeMisMatch),
        }
    }

    /// Unpack to ChunkedArray
    pub fn u32(&self) -> (r: Result<&ChunkedArray<u32>, PolarsError>)
        ensures
            match r {
                Ok(ca) => {
                    &&& self is UInt32
                    &&& self@.dtype == DataType::UInt32
                    &&& ca@.name == self@.name
                    &&& cells_u32(ca@.values) == self@.cells
                },
                Err(e) => e == PolarsError::DataTypeMisMatch && !(self is UInt32),
            },
    {
        match self {
            Series::UInt32(ca) => Ok(ca),
            _ => Err(PolarsError::DataTypeMisMatch),
        }
    }

    /// Unpack to ChunkedArray
    pub fn u64(&self) -> (r: Result<&ChunkedArray<u64>, PolarsError>)
        ensures
            match r {
                Ok(ca) => {
                    &&& self is UInt64
                    &&& self@.dtype == DataType::UInt64
                    &&& ca@.name == self@.name
                    &&& cells_u64(ca@.values) == self@.cells
                },
                Err(e) => e == PolarsError::DataTypeMisMatch && !(self is UInt64),
            },
    {
        match self {
            Series::UInt64(ca) => Ok(ca),
            _ => Err(PolarsError::DataTypeMisMatch),
        }
    }

    /// Unpack to ChunkedArray
    pub fn bool(&self) -> (r: Result<&ChunkedArray<bool>, PolarsError>)
        ensures
            match r {
                Ok(ca) => {
                    &&& self is Bool
                    &&& self@.dtype == DataType::Boolean
                    &&& ca@.name == self@.name
                    &&& cells_bool(ca@.values) == self@.cells
                },
                Err(e) => e == PolarsError::DataTypeMisMatch && !(self is Bool),
            },
    {
        match self {
            Series::Bool(ca) => Ok(ca),
            _ => Err(PolarsError::DataTypeMisMatch),
        }
    }

    /// Unpack to ChunkedArray
    pub fn date32(&self) -> (r: Result<&ChunkedArray<i32>, PolarsError>)
        ensures
            match r {
                Ok(ca) => {
                    &&& self is Date32
                    &&& self@.dtype == DataType::Date32
                    &&& ca@.name == self@.name
                    &&& cells_i32(ca@.values) == self@.cells
                },
                Err(e) => e == PolarsError::DataTypeMisMatch && !(self is Date32),
            },
    {
        match self {
            Series::Date32(ca) => Ok(ca),
            _ => Err(PolarsError::DataTypeMisMatch),
        }
    }

    /// Unpack to ChunkedArray
    pub fn date64(&self) -> (r: Result<&ChunkedArray<i64>, PolarsError>)
        ensures
            match r {
                Ok(ca) => {
                    &&& self is Date64
                    &&& self@.dtype == DataType::Date64
                    &&& ca@.name == self@.name
                    &&& cells_i64(ca@.values) == self@.cells
                },
                Err(e) => e == PolarsError::DataTypeMisMatch && !(self is Date64),
            },
    {
        match self {
            Series::Date64(ca) => Ok(ca),
            _ => Err(PolarsError::DataTypeMisMatch),
        }
    }

    /// Unpack to ChunkedArray
    pub fn utf8(&self) -> (r: Result<&Utf8Chunked, PolarsError>)
        ensures
            match r {
                Ok(ca) => {
                    &&& self is Utf8
                    &&& self@.dtype == DataType::Utf8
                    &&& ca@.name == self@.name
                    &&& cells_str(ca@.values) == self@.cells
                },
                Err(e) => e == PolarsError::DataTypeMisMatch && !(self is Utf8),
            },
    {
        match self {
            Series::Utf8(ca) => Ok(ca),
            _ => Err(PolarsError::DataTypeMisMatch),
        }
    }

    /// Unpack to ChunkedArray
    pub fn float32(&self) -> (r: Result<&ChunkedArray<FloatValue>, PolarsError>)
        ensures
            match r {
                Ok(ca) => {
                    &&& self is Float32
                    &&& self@.dtype == DataType::Float32
                    &&& ca@.name == self@.name
                    &&& cells_float(ca@.values) == self@.cells
                },
                Err(e) => e == PolarsError::DataTypeMisMatch && !(self is Float32),
            },
    {
        match self {
            Series::Float32(ca) => Ok(ca),
            _ => Err(PolarsError::DataTypeMisMatch),
        }
    }

    /// Unpack to ChunkedArray
    pub fn float64(&self) -> (r: Result<&ChunkedArray<FloatValue>, PolarsError>)
        ensures
            match r {
                Ok(ca) => {
                    &&& self is Float64
                    &&& self@.dtype == DataType::Float64
                    &&& ca@.name == self@.name
                    &&& cells_float(ca@.values) == self@.cells
                },
                Err(e) => e == PolarsError::DataTypeMisMatch && !(self is Float64),
            },
    {
        match self {
            Series::Float64(ca) => Ok(ca),
            _ => Err(PolarsError::DataTypeMisMatch),
        }
    }

}

/// Two option sequences that are null at the same places hold the same
/// number of nulls.
pub proof fn lemma_count_nulls_same<A, B>(a: Seq<Option<A>>, b: Seq<Option<B>>)
    requires
        a.len() == b.len(),
        forall|i: int| 0 <= i < a.len() ==> (a[i] is None) == (#[trigger] b[i] is None),
    ensures
        count_nulls(a) == count_nulls(b),
    decreases a.len(),
{
    if a.len() > 0 {
        lemma_count_nulls_same(a.drop_last(), b.drop_last());
    }
}

} // verus!

verus! {

/// The value a cell holds on the integer axis: integers and dates as
/// themselves, booleans as 0 or 1; floats and text have none.
pub open spec fn cell_int_of(c: CellValue) -> Option<int> {
    match c {
        CellValue::B(b) => Some(
            if b {
                1int
            } else {
                0int
            },
        ),
        CellValue::U8(x) => Some(x as int),
        CellValue::U16(x) => Some(x as int),
        CellValue::U32(x) => Some(x as int),
        CellValue::U64(x) => Some(x as int),
        CellValue::I8(x) => Some(x as int),
        CellValue::I16(x) => Some(x as int),
        CellValue::I32(x) => Some(x as int),
        CellValue::I64(x) => Some(x as int),
        CellValue::F(_) => None,
        CellValue::S(_) => None,
    }
}

/// The cell an integer casts to under a type: the value when it fits,
/// a null when it does not; for a float type, the exact decimal.
pub open spec fn int_to_cell(to: DataType, v: int) -> Option<CellValue> {
    match to {
        DataType::UInt8 => if 0 <= v <= 255 {
            Some(CellValue::U8(v as u8))
        } else {
            None
        },
        DataType::UInt16 => if 0 <= v <= 65535 {
            Some(CellValue::U16(v as u16))
        } else {
            None
        },
        DataType::UInt32 => if 0 <= v <= 4294967295 {
            Some(CellValue::U32(v as u32))
        } else {
            None
        },
        DataType::UInt64 => if 0 <= v <= 18446744073709551615 {
            Some(CellValue::U64(v as u64))
        } else {
            None
        },
        DataType::Int8 => if -128 <= v <= 127 {
            Some(CellValue::I8(v as i8))
        } else {
            None
        },
        DataType::Int16 => if -32768 <= v <= 32767 {
            Some(CellValue::I16(v as i16))
        } else {
            None
        },
        DataType::Int32 => if -2147483648 <= v <= 2147483647 {
            Some(CellValue::I32(v as i32))
        } else {
            None
        },
        DataType::Date32 => if -2147483648 <= v <= 2147483647 {
            Some(CellValue::I32(v as i32))
        } else {
            None
        },
        DataType::Int64 => if -9223372036854775808 <= v <= 9223372036854775807 {
            Some(CellValue::I64(v as i64))
        } else {
            None
        },
        DataType::Date64 => if -9223372036854775808 <= v <= 9223372036854775807 {
            Some(CellValue::I64(v as i64))
        } else {
            None
        },
        DataType::Float32 => Some(
            CellValue::F(
                FloatValue::Num {
                    negative: v < 0,
                    mantissa: (if v < 0 {
                        -v
                    } else {
                        v
                    }) as u64,
                    exponent: 0,
                },
            ),
        ),
        DataType::Float64 => Some(
            CellValue::F(
                FloatValue::Num {
                    negative: v < 0,
                    mantissa: (if v < 0 {
                        -v
                    } else {
                        v
                    }) as u64,
                    exponent: 0,
                },
            ),
        ),
        _ => None,
    }
}

/// Whether a cast between two column types goes through the integer
/// axis.
pub open spec fn int_castable(from: DataType, to: DataType) -> bool {
    &&& (from == DataType::Boolean || from == DataType::UInt8 || from == DataType::UInt16 || from
        == DataType::UInt32 || from == DataType::UInt64 || from == DataType::Int8 || from
        == DataType::Int16 || from == DataType::Int32 || from == DataType::Int64 || from
        == DataType::Date32 || from == DataType::Date64)
    &&& (to == DataType::UInt8 || to == DataType::UInt16 || to == DataType::UInt32 || to
        == DataType::UInt64 || to == DataType::Int8 || to == DataType::Int16 || to
        == DataType::Int32 || to == DataType::Int64 || to == DataType::Date32 || to
        == DataType::Date64 || to == DataType::Float32 || to == DataType::Float64)
}

} // verus!
