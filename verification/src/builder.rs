//! The column builder set: one growable typed buffer per projected
//! column, filling itself from raw fields.
use crate::chunked::{ChunkedArray, Utf8Chunked};
use crate::datatypes::{DataType, Schema};
use crate::error::PolarsError;
use crate::floatval::spec_parse_float;
use crate::frame::DataFrame;
use crate::parse::{parse_bool_bytes, parse_int_bytes, spec_parse_bool, spec_parse_int};
use crate::series::{
    CellValue, Series, cells_bool, cells_float, cells_i32, cells_i64, cells_str,
};
use crate::tokenize::{field_to_string, utf8_decode};
use crate::floatval::{FloatValue, parse_float_bytes};
use vstd::prelude::*;

verus! {

/// One typed builder, selected by the column's resolved type.
pub enum Builder {
    Boolean(ChunkedArray<bool>),
    Int32(ChunkedArray<i32>),
    Int64(ChunkedArray<i64>),
    Float32(ChunkedArray<FloatValue>),
    Float64(ChunkedArray<FloatValue>),
    Utf8(Utf8Chunked),
}

pub open spec fn builder_dtype(b: Builder) -> DataType {
    match b {
        Builder::Boolean(_) => DataType::Boolean,
        Builder::Int32(_) => DataType::Int32,
        Builder::Int64(_) => DataType::Int64,
        Builder::Float32(_) => DataType::Float32,
        Builder::Float64(_) => DataType::Float64,
        Builder::Utf8(_) => DataType::Utf8,
    }
}

pub open spec fn builder_name(b: Builder) -> Seq<char> {
    match b {
        Builder::Boolean(ca) => ca@.name,
        Builder::Int32(ca) => ca@.name,
        Builder::Int64(ca) => ca@.name,
        Builder::Float32(ca) => ca@.name,
        Builder::Float64(ca) => ca@.name,
        Builder::Utf8(ca) => ca@.name,
    }
}

pub open spec fn builder_cells(b: Builder) -> Seq<Option<CellValue>> {
    match b {
        Builder::Boolean(ca) => cells_bool(ca@.values),
        Builder::Int32(ca) => cells_i32(ca@.values),
        Builder::Int64(ca) => cells_i64(ca@.values),
        Builder::Float32(ca) => cells_float(ca@.values),
        Builder::Float64(ca) => cells_float(ca@.values),
        Builder::Utf8(ca) => cells_str(ca@.values),
    }
}

/// A type the builder set can build.
pub open spec fn supported_dtype(dt: DataType) -> bool {
    dt == DataType::Boolean || dt == DataType::Int32 || dt == DataType::Int64 || dt
        == DataType::Float32 || dt == DataType::Float64 || dt == DataType::Utf8
}

/// What parsing a raw field under a column type yields: `None` for a
/// parse failure, otherwise the cell, where a blank field is the null
/// cell under every type.
pub open spec fn parse_cell(dt: DataType, f: Seq<u8>) -> Option<Option<CellValue>> {
    if f.len() == 0 {
        Some(None)
    } else {
        match dt {
            DataType::Boolean => match spec_parse_bool(f) {
                Some(b) => Some(Some(CellValue::B(b))),
                None => None,
            },
            DataType::Int32 => match spec_parse_int(f, -2147483648, 2147483647) {
                Some(v) => Some(Some(CellValue::I32(v as i32))),
                None => None,
            },
            DataType::Int64 => match spec_parse_int(
                f,
                -9223372036854775808,
                9223372036854775807,
            ) {
                Some(v) => Some(Some(CellValue::I64(v as i64))),
                None => None,
            },
            DataType::Float32 => match spec_parse_float(f) {
                Some(v) => Some(Some(CellValue::F(v))),
                None => None,
            },
            DataType::Float64 => match spec_parse_float(f) {
                Some(v) => Some(Some(CellValue::F(v))),
                None => None,
            },
            DataType::Utf8 => match utf8_decode(f) {
                Some(cs) => Some(Some(CellValue::S(cs))),
                None => None,
            },
            _ => None,
        }
    }
}

/// The cell stored under the tolerant policy: a failed parse becomes a
/// null.
pub open spec fn built_cell(dt: DataType, f: Seq<u8>) -> Option<CellValue> {
    match parse_cell(dt, f) {
        Some(v) => v,
        None => None,
    }
}

/// The cells column `col` takes from a batch of rows: the parsed field,
/// or a null where the row is too short.
pub open spec fn batch_col(rows: Seq<Seq<Seq<u8>>>, col: int, dt: DataType) -> Seq<
    Option<CellValue>,
> {
    rows.map_values(
        |row: Seq<Seq<u8>>|
            if col < row.len() {
                built_cell(dt, row[col])
            } else {
                None
            },
    )
}

/// Whether every projected field of the batch parses under its builder's
/// type, so that the strict policy has nothing to report.
pub open spec fn batch_parses(
    rows: Seq<Seq<Seq<u8>>>,
    projection: Seq<usize>,
    dts: Seq<DataType>,
) -> bool {
    forall|j: int, ri: int|
        0 <= j < projection.len() && 0 <= ri < rows.len() && projection[j] < rows[ri].len()
            ==> #[trigger] parse_cell(dts[j], rows[ri][projection[j] as int]) is Some
}

/// The type of each builder of a set.
pub open spec fn builder_dtypes(bs: Seq<Builder>) -> Seq<DataType> {
    Seq::new(bs.len(), |j: int| builder_dtype(bs[j]))
}

impl Builder {
    /// A fresh builder for field `i` of the schema, pre-sized to
    /// `capacity`.  Fails on a type outside the supported set.
    pub fn field_to_builder(i: usize, capacity: usize, schema: &Schema) -> (r: Result<
        Builder,
        PolarsError,
    >)
        requires
            i < schema@.len(),
        ensures
            match r {
                Ok(b) => {
                    &&& supported_dtype(schema@[i as int].dtype)
                    &&& builder_dtype(b) == schema@[i as int].dtype
                    &&& builder_name(b) == schema@[i as int].name
                    &&& builder_cells(b) == Seq::<Option<CellValue>>::empty()
                },
                Err(e) => {
                    &&& e == PolarsError::UnsupportedType
                    &&& !supported_dtype(schema@[i as int].dtype)
                },
            },
    {
        let field = schema.field(i);
        let name: &str = field.name().as_str();
        let b = match field.data_type() {
            DataType::Boolean => Builder::Boolean(ChunkedArray::with_capacity(name, capacity)),
            DataType::Int32 => Builder::Int32(ChunkedArray::with_capacity(name, capacity)),
            DataType::Int64 => Builder::Int64(ChunkedArray::with_capacity(name, capacity)),
            DataType::Float32 => Builder::Float32(ChunkedArray::with_capacity(name, capacity)),
            DataType::Float64 => Builder::Float64(ChunkedArray::with_capacity(name, capacity)),
            DataType::Utf8 => Builder::Utf8(ChunkedArray::with_capacity(name, capacity)),
            _ => {
                return Err(PolarsError::UnsupportedType);
            },
        };
        proof {
            assert(builder_cells(b) =~= Seq::<Option<CellValue>>::empty());
        }
        Ok(b)
    }

    /// Append one raw field.  A blank field appends a null.  A field that
    /// does not parse appends a null under the tolerant policy and
    /// reports failure, leaving the builder unchanged, under the strict
    /// one.
    pub fn append_field(&mut self, f: &Vec<u8>, tolerant: bool) -> (r: Result<(), ()>)
        ensures
            builder_dtype(*final(self)) == builder_dtype(*old(self)),
            builder_name(*final(self)) == builder_name(*old(self)),
            match parse_cell(builder_dtype(*old(self)), f@) {
                Some(v) => r is Ok && builder_cells(*final(self)) == builder_cells(
                    *old(self),
                ).push(v),
                None => {
                    if tolerant {
                        r is Ok && builder_cells(*final(self)) == builder_cells(*old(self)).push(
                            None,
                        )
                    } else {
                        r is Err && builder_cells(*final(self)) == builder_cells(*old(self))
                    }
                },
            },
    {
        if f.len() == 0 {
            match self {
                Builder::Boolean(ca) => ca.append_null(),
                Builder::Int32(ca) => ca.append_null(),
                Builder::Int64(ca) => ca.append_null(),
                Builder::Float32(ca) => ca.append_null(),
                Builder::Float64(ca) => ca.append_null(),
                Builder::Utf8(ca) => ca.append_null(),
            }
            proof {
                lemma_builder_push(*self, *old(self), None);
            }
            return Ok(());
        }
        match self {
            Builder::Boolean(ca) => {
                match parse_bool_bytes(f) {
                    Some(v) => {
                        ca.append_value(v);
                        proof {
                            lemma_builder_push(*self, *old(self), Some(CellValue::B(v)));
                        }
                        Ok(())
                    },
                    None => {
                        if tolerant {
                            ca.append_null();
                            proof {
                                lemma_builder_push(*self, *old(self), None);
                            }
                            Ok(())
                        } else {
                            Err(())
                        }
                    },
                }
            },
            Builder::Int32(ca) => {
                match parse_int_bytes(f, -2147483648i64, 2147483647i64) {
                    Some(v) => {
                        ca.append_value(v as i32);
                        proof {
                            lemma_builder_push(*self, *old(self), Some(CellValue::I32(v as i32)));
                        }
                        Ok(())
                    },
                    None => {
                        if tolerant {
                            ca.append_null();
                            proof {
                                lemma_builder_push(*self, *old(self), None);
                            }
                            Ok(())
                        } else {
                            Err(())
                        }
                    },
                }
            },
            Builder::Int64(ca) => {
                match parse_int_bytes(f, -9223372036854775807i64 - 1, 9223372036854775807i64) {
                    Some(v) => {
                        ca.append_value(v);
                        proof {
                            lemma_builder_push(*self, *old(self), Some(CellValue::I64(v)));
                        }
                        Ok(())
                    },
                    None => {
                        if tolerant {
                            ca.append_null();
                            proof {
                                lemma_builder_push(*self, *old(self), None);
                            }
                            Ok(())
                        } else {
                            Err(())
                        }
                    },
                }
            },
            Builder::Float32(ca) => {
                match parse_float_bytes(f) {
                    Some(v) => {
                        ca.append_value(v);
                        proof {
                            lemma_builder_push(*self, *old(self), Some(CellValue::F(v)));
                        }
                        Ok(())
                    },
                    None => {
                        if tolerant {
                            ca.append_null();
                            proof {
                                lemma_builder_push(*self, *old(self), None);
                            }
                            Ok(())
                        } else {
                            Err(())
                        }
                    },
                }
            },
            Builder::Float64(ca) => {
                match parse_float_bytes(f) {
                    Some(v) => {
                        ca.append_value(v);
                        proof {
                            lemma_builder_push(*self, *old(self), Some(CellValue::F(v)));
                        }
                        Ok(())
                    },
                    None => {
                        if tolerant {
                            ca.append_null();
                            proof {
                                lemma_builder_push(*self, *old(self), None);
                            }
                            Ok(())
                        } else {
                            Err(())
                        }
                    },
                }
            },
            Builder::Utf8(ca) => {
                match field_to_string(f) {
                    Some(v) => {
                        let ghost cs = v@;
                        ca.append_value(v);
                        proof {
                            lemma_builder_push(*self, *old(self), Some(CellValue::S(cs)));
                        }
                        Ok(())
                    },
                    None => {
                        if tolerant {
                            ca.append_null();
                            proof {
                                lemma_builder_push(*self, *old(self), None);
                            }
                            Ok(())
                        } else {
                            Err(())
                        }
                    },
                }
            },
        }
    }

    /// The finished builder as an immutable column.
    pub fn into_series(self) -> (r: Series)
        ensures
            r@.name == builder_name(self),
            r@.dtype == builder_dtype(self),
            r@.cells == builder_cells(self),
    {
        match self {
            Builder::Boolean(ca) => Series::Bool(ca),
            Builder::Int32(ca) => Series::Int32(ca),
            Builder::Int64(ca) => Series::Int64(ca),
            Builder::Float32(ca) => Series::Float32(ca),
            Builder::Float64(ca) => Series::Float64(ca),
            Builder::Utf8(ca) => Series::Utf8(ca),
        }
    }
}

/// Pushing one value onto the typed buffer pushes the cell onto the
/// builder's cells.
proof fn lemma_builder_push(new: Builder, prev: Builder, v: Option<CellValue>)
    requires
        match (new, prev) {
            (Builder::Boolean(a), Builder::Boolean(b)) => a@.name == b@.name && (match v {
                Some(CellValue::B(x)) => a@.values == b@.values.push(Some(x)),
                None => a@.values == b@.values.push(None::<bool>),
                _ => false,
            }),
            (Builder::Int32(a), Builder::Int32(b)) => a@.name == b@.name && (match v {
                Some(CellValue::I32(x)) => a@.values == b@.values.push(Some(x)),
                None => a@.values == b@.values.push(None::<i32>),
                _ => false,
            }),
            (Builder::Int64(a), Builder::Int64(b)) => a@.name == b@.name && (match v {
                Some(CellValue::I64(x)) => a@.values == b@.values.push(Some(x)),
                None => a@.values == b@.values.push(None::<i64>),
                _ => false,
            }),
            (Builder::Float32(a), Builder::Float32(b)) => a@.name == b@.name && (match v {
                Some(CellValue::F(x)) => a@.values == b@.values.push(Some(x)),
                None => a@.values == b@.values.push(None::<FloatValue>),
                _ => false,
            }),
            (Builder::Float64(a), Builder::Float64(b)) => a@.name == b@.name && (match v {
                Some(CellValue::F(x)) => a@.values == b@.values.push(Some(x)),
                None => a@.values == b@.values.push(None::<FloatValue>),
                _ => false,
            }),
            (Builder::Utf8(a), Builder::Utf8(b)) => a@.name == b@.name && (match v {
                Some(CellValue::S(x)) => exists|s: String|
                    s@ == x && #[trigger] a@.values == b@.values.push(Some(s)),
                None => a@.values == b@.values.push(None::<String>),
                _ => false,
            }),
            _ => false,
        },
    ensures
        builder_cells(new) == builder_cells(prev).push(v),
        builder_name(new) == builder_name(prev),
        builder_dtype(new) == builder_dtype(prev),
{
    assert(builder_cells(new) =~= builder_cells(prev).push(v));
}

/// One builder per projected column, typed by the schema.
pub fn init_builders(projection: &Vec<usize>, capacity: usize, schema: &Schema) -> (r: Result<
    Vec<Builder>,
    PolarsError,
>)
    requires
        forall|j: int| 0 <= j < projection@.len() ==> #[trigger] projection@[j] < schema@.len(),
    ensures
        match r {
            Ok(bs) => {
                &&& bs@.len() == projection@.len()
                &&& forall|j: int|
                    0 <= j < projection@.len() ==> supported_dtype(
                        schema@[#[trigger] projection@[j] as int].dtype,
                    )
                &&& forall|j: int|
                    #![trigger bs@[j]]
                    0 <= j < projection@.len() ==> {
                        &&& builder_dtype(bs@[j]) == schema@[projection@[j] as int].dtype
                        &&& builder_name(bs@[j]) == schema@[projection@[j] as int].name
                        &&& builder_cells(bs@[j]) == Seq::<Option<CellValue>>::empty()
                    }
            },
            Err(e) => {
                &&& e == PolarsError::UnsupportedType
                &&& exists|j: int|
                    0 <= j < projection@.len() && !supported_dtype(
                        schema@[#[trigger] projection@[j] as int].dtype,
                    )
            },
        },
{
    let mut bs: Vec<Builder> = Vec::new();
    let mut j: usize = 0;
    while j < projection.len()
        invariant
            j <= projection@.len(),
            forall|k: int| 0 <= k < projection@.len() ==> #[trigger] projection@[k] < schema@.len(),
            bs@.len() == j,
            forall|k: int|
                0 <= k < j ==> supported_dtype(schema@[#[trigger] projection@[k] as int].dtype),
            forall|k: int|
                #![trigger bs@[k]]
                0 <= k < j ==> {
                    &&& builder_dtype(bs@[k]) == schema@[projection@[k] as int].dtype
                    &&& builder_name(bs@[k]) == schema@[projection@[k] as int].name
                    &&& builder_cells(bs@[k]) == Seq::<Option<CellValue>>::empty()
                },
        decreases projection@.len() - j,
    {
        match Builder::field_to_builder(projection[j], capacity, schema) {
            Ok(b) => bs.push(b),
            Err(e) => {
                return Err(e);
            },
        }
        j = j + 1;
    }
    Ok(bs)
}

/// Feed one batch of raw rows to the builder set: for every projected
/// column, append the parsed field of each row in order.  Under the
/// strict policy the first failing field is reported with its column and
/// its place in the batch.
pub fn add_to_builders(
    builders: Vec<Builder>,
    projection: &Vec<usize>,
    rows: &Vec<Vec<Vec<u8>>>,
    tolerant: bool,
) -> (r: Result<Vec<Builder>, (usize, usize)>)
    requires
        builders@.len() == projection@.len(),
    ensures
        match r {
            Ok(bs) => {
                &&& bs@.len() == builders@.len()
                &&& forall|j: int|
                    #![trigger bs@[j]]
                    0 <= j < builders@.len() ==> {
                        &&& builder_dtype(bs@[j]) == builder_dtype(builders@[j])
                        &&& builder_name(bs@[j]) == builder_name(builders@[j])
                        &&& builder_cells(bs@[j]) == builder_cells(builders@[j]) + batch_col(
                            rows.deep_view(),
                            projection@[j] as int,
                            builder_dtype(builders@[j]),
                        )
                    }
                &&& !tolerant ==> batch_parses(
                    rows.deep_view(),
                    projection@,
                    builder_dtypes(builders@),
                )
            },
            Err((c, ri)) => {
                &&& !tolerant
                &&& exists|j: int|
                    0 <= j < projection@.len() && #[trigger] projection@[j] == c && ri
                        < rows@.len() && (c as int) < rows.deep_view()[ri as int].len()
                        && parse_cell(
                        builder_dtype(builders@[j]),
                        rows.deep_view()[ri as int][c as int],
                    ) is None && (forall|r2: int|
                        0 <= r2 < ri && (c as int) < rows.deep_view()[r2].len()
                            ==> #[trigger] parse_cell(
                            builder_dtype(builders@[j]),
                            rows.deep_view()[r2][c as int],
                        ) is Some) && (forall|j2: int, r2: int|
                        0 <= j2 < j && 0 <= r2 < rows@.len() && projection@[j2]
                            < rows.deep_view()[r2].len() ==> #[trigger] parse_cell(
                            builder_dtype(builders@[j2]),
                            rows.deep_view()[r2][projection@[j2] as int],
                        ) is Some)
            },
        },
{
    let ghost rows_spec = rows.deep_view();
    let ghost all = builders@;
    let empty_field: Vec<u8> = Vec::new();
    let mut rest = builders;
    let nb: usize = rest.len();
    let mut done: Vec<Builder> = Vec::new();
    let mut j: usize = 0;
    while rest.len() > 0
        invariant
            builders@ == all,
            j == all.len() - rest@.len(),
            0 <= j <= all.len(),
            all.len() == nb,
            all.len() == projection@.len(),
            rest@ == all.subrange(j as int, all.len() as int),
            rows_spec == rows.deep_view(),
            empty_field@ == Seq::<u8>::empty(),
            done@.len() == j,
            forall|k: int|
                #![trigger done@[k]]
                0 <= k < j ==> {
                    &&& builder_dtype(done@[k]) == builder_dtype(all[k])
                    &&& builder_name(done@[k]) == builder_name(all[k])
                    &&& builder_cells(done@[k]) == builder_cells(all[k]) + batch_col(
                        rows_spec,
                        projection@[k] as int,
                        builder_dtype(all[k]),
                    )
                },
            !tolerant ==> forall|k: int, ri: int|
                0 <= k < j && 0 <= ri < rows_spec.len() && projection@[k] < rows_spec[ri].len()
                    ==> #[trigger] parse_cell(
                    builder_dtype(all[k]),
                    rows_spec[ri][projection@[k] as int],
                ) is Some,
        decreases rest@.len(),
    {
        let col: usize = projection[j];
        let mut b = rest.remove(0);
        proof {
            assert(b == all[j as int]);
            assert(rest@ =~= all.subrange(j + 1, all.len() as int));
        }
        let ghost b0 = b;
        let mut ri: usize = 0;
        while ri < rows.len()
            invariant
                ri <= rows@.len(),
                rows_spec == rows.deep_view(),
                empty_field@ == Seq::<u8>::empty(),
                builders@ == all,
                col == projection@[j as int],
                0 <= j < projection@.len(),
                all.len() == projection@.len(),
                b0 == all[j as int],
                !tolerant ==> forall|k: int, r2: int|
                    0 <= k < j && 0 <= r2 < rows_spec.len() && projection@[k]
                        < rows_spec[r2].len() ==> #[trigger] parse_cell(
                        builder_dtype(all[k]),
                        rows_spec[r2][projection@[k] as int],
                    ) is Some,
                builder_dtype(b) == builder_dtype(b0),
                builder_name(b) == builder_name(b0),
                builder_cells(b) == builder_cells(b0) + batch_col(
                    rows_spec.subrange(0, ri as int),
                    col as int,
                    builder_dtype(b0),
                ),
                !tolerant ==> forall|rj: int|
                    0 <= rj < ri && (col as int) < rows_spec[rj].len() ==> #[trigger] parse_cell(
                        builder_dtype(b0),
                        rows_spec[rj][col as int],
                    ) is Some,
            decreases rows@.len() - ri,
        {
            let row = &rows[ri];
            proof {
                assert(rows_spec[ri as int] == rows@[ri as int].deep_view());
                if (col as int) < rows_spec[ri as int].len() {
                    assert(rows_spec[ri as int][col as int] =~= rows@[ri as int]@[col as int]@);
                }
            }
            let res: Result<(), ()> = if col < row.len() {
                b.append_field(&row[col], tolerant)
            } else {
                b.append_field(&empty_field, tolerant)
            };
            match res {
                Ok(()) => {
                    proof {
                        if !tolerant && (col as int) < rows_spec[ri as int].len() {
                            assert(parse_cell(
                                builder_dtype(b0),
                                rows_spec[ri as int][col as int],
                            ) is Some);
                        }
                    }
                },
                Err(()) => {
                    proof {
                        assert(!tolerant);
                        assert(all == builders@);
                        assert(0 <= (j as int) && (j as int) < projection@.len()
                            && projection@[j as int] == col && ri < rows@.len() && (col as int)
                            < rows_spec[ri as int].len() && parse_cell(
                            builder_dtype(all[j as int]),
                            rows_spec[ri as int][col as int],
                        ) is None);
                        assert(forall|r2: int|
                            0 <= r2 < ri && (col as int) < rows_spec[r2].len()
                                ==> #[trigger] parse_cell(
                                builder_dtype(all[j as int]),
                                rows_spec[r2][col as int],
                            ) is Some);
                        assert(forall|j2: int, r2: int|
                            0 <= j2 < j && 0 <= r2 < rows@.len() && projection@[j2]
                                < rows_spec[r2].len() ==> #[trigger] parse_cell(
                                builder_dtype(all[j2]),
                                rows_spec[r2][projection@[j2] as int],
                            ) is Some);
                        assert(exists|jj: int|
                            0 <= jj < projection@.len() && #[trigger] projection@[jj] == col && ri
                                < rows@.len() && (col as int) < rows_spec[ri as int].len()
                                && parse_cell(
                                builder_dtype(all[jj]),
                                rows_spec[ri as int][col as int],
                            ) is None && (forall|r2: int|
                                0 <= r2 < ri && (col as int) < rows_spec[r2].len()
                                    ==> #[trigger] parse_cell(
                                    builder_dtype(all[jj]),
                                    rows_spec[r2][col as int],
                                ) is Some) && (forall|j2: int, r2: int|
                                0 <= j2 < jj && 0 <= r2 < rows@.len() && projection@[j2]
                                    < rows_spec[r2].len() ==> #[trigger] parse_cell(
                                    builder_dtype(all[j2]),
                                    rows_spec[r2][projection@[j2] as int],
                                ) is Some));
                    }
                    return Err((col, ri));
                },
            }
            proof {
                assert(rows_spec.subrange(0, ri + 1).drop_last() =~= rows_spec.subrange(
                    0,
                    ri as int,
                ));
                assert(batch_col(rows_spec.subrange(0, ri + 1), col as int, builder_dtype(b0))
                    =~= batch_col(
                    rows_spec.subrange(0, ri as int),
                    col as int,
                    builder_dtype(b0),
                ).push(
                    if (col as int) < rows_spec[ri as int].len() {
                        built_cell(builder_dtype(b0), rows_spec[ri as int][col as int])
                    } else {
                        None
                    },
                ));
                assert(builder_cells(b) =~= builder_cells(b0) + batch_col(
                    rows_spec.subrange(0, ri + 1),
                    col as int,
                    builder_dtype(b0),
                ));
            }
            ri = ri + 1;
        }
        proof {
            assert(rows_spec.subrange(0, rows_spec.len() as int) =~= rows_spec);
        }
        done.push(b);
        j = j + 1;
    }
    proof {
        if !tolerant {
            assert forall|k: int, ri: int|
                0 <= k < projection@.len() && 0 <= ri < rows_spec.len() && projection@[k]
                    < rows_spec[ri].len() implies #[trigger] parse_cell(
                builder_dtypes(all)[k],
                rows_spec[ri][projection@[k] as int],
            ) is Some by {
                assert(builder_dtypes(all)[k] == builder_dtype(all[k]));
                assert(parse_cell(builder_dtype(all[k]), rows_spec[ri][projection@[k] as int])
                    is Some);
            }
        }
    }
    Ok(done)
}

/// The finished builder set as a table, columns in projection order.
pub fn builders_to_df(builders: Vec<Builder>) -> (r: DataFrame)
    ensures
        r@.len() == builders@.len(),
        forall|j: int|
            #![trigger r@[j]]
            0 <= j < builders@.len() ==> {
                &&& r@[j].name == builder_name(builders@[j])
                &&& r@[j].dtype == builder_dtype(builders@[j])
                &&& r@[j].cells == builder_cells(builders@[j])
            },
{
    let mut columns: Vec<Series> = Vec::new();
    let mut builders = builders;
    let nb: usize = builders.len();
    let ghost all = builders@;
    let mut j: usize = 0;
    while builders.len() > 0
        invariant
            j == all.len() - builders@.len(),
            0 <= j <= all.len(),
            all.len() == nb,
            builders@ == all.subrange(j as int, all.len() as int),
            columns@.len() == j,
            forall|k: int|
                #![trigger columns@[k]]
                0 <= k < j ==> {
                    &&& columns@[k]@.name == builder_name(all[k])
                    &&& columns@[k]@.dtype == builder_dtype(all[k])
                    &&& columns@[k]@.cells == builder_cells(all[k])
                },
        decreases builders@.len(),
    {
        let b = builders.remove(0);
        proof {
            assert(b == all[j as int]);
            assert(builders@ =~= all.subrange(j + 1, all.len() as int));
        }
        columns.push(b.into_series());
        j = j + 1;
    }
    let r = DataFrame::new_no_checks(columns);
    r
}

} // verus!
