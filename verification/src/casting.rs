//! Casting a series to another primitive type, with the marker types
//! the cast is selected by.
use crate::chunked::{ChunkedArray, Utf8Chunked};
use crate::datatypes::DataType;
use crate::error::PolarsError;
use crate::floatval::FloatValue;
use crate::series::{
    CellValue, Series, cell_int_of, cells_float, cells_i16, cells_i32, cells_i64, cells_i8,
    cells_u16, cells_u32, cells_u64, cells_u8, int_castable, int_to_cell,
};
use vstd::prelude::*;

verus! {

/// A column type as a type, so a cast can be written `cast::<Int64Type>()`.
pub trait PolarsDataType {
    spec fn dtype_spec() -> DataType;

    fn get_data_type() -> (r: DataType)
        ensures
            r == Self::dtype_spec(),
    ;
}

pub struct BooleanType;

pub struct UInt8Type;

pub struct UInt16Type;

pub struct UInt32Type;

pub struct UInt64Type;

pub struct Int8Type;

pub struct Int16Type;

pub struct Int32Type;

pub struct Int64Type;

pub struct Float32Type;

pub struct Float64Type;

pub struct Utf8Type;

pub struct Date32Type;

pub struct Date64Type;

impl PolarsDataType for BooleanType {
    open spec fn dtype_spec() -> DataType {
        DataType::Boolean
    }

    fn get_data_type() -> (r: DataType)
        ensures
            r == Self::dtype_spec(),
    {
        DataType::Boolean
    }
}

impl PolarsDataType for UInt8Type {
    open spec fn dtype_spec() -> DataType {
        DataType::UInt8
    }

    fn get_data_type() -> (r: DataType)
        ensures
            r == Self::dtype_spec(),
    {
        DataType::UInt8
    }
}

impl PolarsDataType for UInt16Type {
    open spec fn dtype_spec() -> DataType {
        DataType::UInt16
    }

    fn get_data_type() -> (r: DataType)
        ensures
            r == Self::dtype_spec(),
    {
        DataType::UInt16
    }
}

impl PolarsDataType for UInt32Type {
    open spec fn dtype_spec() -> DataType {
        DataType::UInt32
    }

    fn get_data_type() -> (r: DataType)
        ensures
            r == Self::dtype_spec(),
    {
        DataType::UInt32
    }
}

impl PolarsDataType for UInt64Type {
    open spec fn dtype_spec() -> DataType {
        DataType::UInt64
    }

    fn get_data_type() -> (r: DataType)
        ensures
            r == Self::dtype_spec(),
    {
        DataType::UInt64
    }
}

impl PolarsDataType for Int8Type {
    open spec fn dtype_spec() -> DataType {
        DataType::Int8
    }

    fn get_data_type() -> (r: DataType)
        ensures
            r == Self::dtype_spec(),
    {
        DataType::Int8
    }
}

impl PolarsDataType for Int16Type {
    open spec fn dtype_spec() -> DataType {
        DataType::Int16
    }

    fn get_data_type() -> (r: DataType)
        ensures
            r == Self::dtype_spec(),
    {
        DataType::Int16
    }
}

impl PolarsDataType for Int32Type {
    open spec fn dtype_spec() -> DataType {
        DataType::Int32
    }

    fn get_data_type() -> (r: DataType)
        ensures
            r == Self::dtype_spec(),
    {
        DataType::Int32
    }
}

impl PolarsDataType for Int64Type {
    open spec fn dtype_spec() -> DataType {
        DataType::Int64
    }

    fn get_data_type() -> (r: DataType)
        ensures
            r == Self::dtype_spec(),
    {
        DataType::Int64
    }
}

impl PolarsDataType for Float32Type {
    open spec fn dtype_spec() -> DataType {
        DataType::Float32
    }

    fn get_data_type() -> (r: DataType)
        ensures
            r == Self::dtype_spec(),
    {
        DataType::Float32
    }
}

impl PolarsDataType for Float64Type {
    open spec fn dtype_spec() -> DataType {
        DataType::Float64
    }

    fn get_data_type() -> (r: DataType)
        ensures
            r == Self::dtype_spec(),
    {
        DataType::Float64
    }
}

impl PolarsDataType for Utf8Type {
    open spec fn dtype_spec() -> DataType {
        DataType::Utf8
    }

    fn get_data_type() -> (r: DataType)
        ensures
            r == Self::dtype_spec(),
    {
        DataType::Utf8
    }
}

impl PolarsDataType for Date32Type {
    open spec fn dtype_spec() -> DataType {
        DataType::Date32
    }

    fn get_data_type() -> (r: DataType)
        ensures
            r == Self::dtype_spec(),
    {
        DataType::Date32
    }
}

impl PolarsDataType for Date64Type {
    open spec fn dtype_spec() -> DataType {
        DataType::Date64
    }

    fn get_data_type() -> (r: DataType)
        ensures
            r == Self::dtype_spec(),
    {
        DataType::Date64
    }
}

/// How one cast cell relates to its source cell: a null stays a null, a
/// value on the integer axis becomes what the target holds of it, and a
/// value off that axis casts only to its own type.
pub open spec fn cast_cell_rel(a: Option<CellValue>, b: Option<CellValue>, to: DataType) -> bool {
    match a {
        None => b is None,
        Some(c) => match cell_int_of(c) {
            Some(v) => b == int_to_cell(to, v),
            None => b == a,
        },
    }
}

impl Series {
    /// Cast to some primitive type: the identity on the series' own
    /// type; otherwise through the integer axis, an out-of-range value
    /// becoming a null.  A cast with no such path fails.
    pub fn cast<N: PolarsDataType>(&self) -> (r: Result<Series, PolarsError>)
        ensures
            match r {
                Ok(out) => {
                    &&& out@.name == self@.name
                    &&& out@.dtype == N::dtype_spec()
                    &&& out@.cells.len() == self@.cells.len()
                    &&& (self@.dtype == N::dtype_spec() ==> out@.cells == self@.cells)
                    &&& (self@.dtype != N::dtype_spec() ==> forall|i: int|
                        0 <= i < self@.cells.len() ==> cast_cell_rel(
                            self@.cells[i],
                            #[trigger] out@.cells[i],
                            N::dtype_spec(),
                        ))
                },
                Err(e) => {
                    &&& e == PolarsError::InvalidOperation
                    &&& self@.dtype != N::dtype_spec()
                    &&& !int_castable(self@.dtype, N::dtype_spec())
                },
            },
    {
        let to = N::get_data_type();
        self.cast_with_arrow_datatype(to)
    }

    /// Cast to the type given as a value; see [`Series::cast`].
    pub fn cast_with_arrow_datatype(&self, to: DataType) -> (r: Result<Series, PolarsError>)
        ensures
            match r {
                Ok(out) => {
                    &&& out@.name == self@.name
                    &&& out@.dtype == to
                    &&& out@.cells.len() == self@.cells.len()
                    &&& (self@.dtype == to ==> out@.cells == self@.cells)
                    &&& (self@.dtype != to ==> forall|i: int|
                        0 <= i < self@.cells.len() ==> cast_cell_rel(
                            self@.cells[i],
                            #[trigger] out@.cells[i],
                            to,
                        ))
                },
                Err(e) => {
                    &&& e == PolarsError::InvalidOperation
                    &&& self@.dtype != to
                    &&& !int_castable(self@.dtype, to)
                },
            },
    {
        if self.dtype() == to {
            return Ok(self.duplicate());
        }
        let ints = match series_ints(self) {
            Some(v) => v,
            None => {
                return Err(PolarsError::InvalidOperation);
            },
        };
        proof {
            assert forall|k: int|
                0 <= k < ints@.len() implies (match #[trigger] ints@[k] {
                Some(v) => -18446744073709551615i128 <= v <= 18446744073709551615i128,
                None => true,
            }) by {
                assert(cell_opt_int(self@.cells[k]) == opt_int(ints@[k]));
            }
        }
        let name: String = self.name().clone();
        let out = build_cast_target(&name, &ints, to);
        match out {
            Some(s) => {
                proof {
                    assert forall|i: int| 0 <= i < self@.cells.len() implies cast_cell_rel(
                        self@.cells[i],
                        #[trigger] s@.cells[i],
                        to,
                    ) by {
                        assert(cell_opt_int(self@.cells[i]) == opt_int(ints@[i]));
                    }
                }
                Ok(s)
            },
            None => Err(PolarsError::InvalidOperation),
        }
    }
}

/// The series' values on the integer axis, when its type lies on it.
pub(crate) fn series_ints(s: &Series) -> (r: Option<Vec<Option<i128>>>)
    ensures
        match r {
            Some(ints) => {
                &&& ints@.len() == s@.cells.len()
                &&& forall|k: int|
                    0 <= k < ints@.len() ==> cell_opt_int(s@.cells[k]) == #[trigger] opt_int(
                        ints@[k],
                    )
                &&& forall|k: int|
                    0 <= k < ints@.len() ==> (match #[trigger] ints@[k] {
                        Some(v) => -18446744073709551615i128 <= v <= 18446744073709551615i128,
                        None => true,
                    })
            },
            None => s@.dtype == DataType::Float32 || s@.dtype == DataType::Float64 || s@.dtype
                == DataType::Utf8,
        },
{
    let mut ints: Vec<Option<i128>> = Vec::new();
    match s {
            Series::Bool(ca) => {
                let mut i: usize = 0;
                while i < ca.values.len()
                    invariant
                        i <= ca@.values.len(),
                        ints@.len() == i,
                        s == Series::Bool(*ca),
                        forall|k: int|
                            0 <= k < i ==> cell_opt_int(s@.cells[k]) == #[trigger] opt_int(
                                ints@[k],
                            ),
                    decreases ca@.values.len() - i,
                {
                    match &ca.values[i] {
                        Some(b) => ints.push(
                            Some(
                                if *b {
                                    1
                                } else {
                                    0
                                },
                            ),
                        ),
                        None => ints.push(None),
                    }
                    i = i + 1;
                }
            },
            Series::UInt8(ca) => {
                let mut i: usize = 0;
                while i < ca.values.len()
                    invariant
                        i <= ca@.values.len(),
                        ints@.len() == i,
                        s == Series::UInt8(*ca),
                        forall|k: int|
                            0 <= k < i ==> cell_opt_int(s@.cells[k]) == #[trigger] opt_int(
                                ints@[k],
                            ),
                    decreases ca@.values.len() - i,
                {
                    match &ca.values[i] {
                        Some(x) => ints.push(Some(*x as i128)),
                        None => ints.push(None),
                    }
                    i = i + 1;
                }
            },
            Series::UInt16(ca) => {
                let mut i: usize = 0;
                while i < ca.values.len()
                    invariant
                        i <= ca@.values.len(),
                        ints@.len() == i,
                        s == Series::UInt16(*ca),
                        forall|k: int|
                            0 <= k < i ==> cell_opt_int(s@.cells[k]) == #[trigger] opt_int(
                                ints@[k],
                            ),
                    decreases ca@.values.len() - i,
                {
                    match &ca.values[i] {
                        Some(x) => ints.push(Some(*x as i128)),
                        None => ints.push(None),
                    }
                    i = i + 1;
                }
            },
            Series::UInt32(ca) => {
                let mut i: usize = 0;
                while i < ca.values.len()
                    invariant
                        i <= ca@.values.len(),
                        ints@.len() == i,
                        s == Series::UInt32(*ca),
                        forall|k: int|
                            0 <= k < i ==> cell_opt_int(s@.cells[k]) == #[trigger] opt_int(
                                ints@[k],
                            ),
                    decreases ca@.values.len() - i,
                {
                    match &ca.values[i] {
                        Some(x) => ints.push(Some(*x as i128)),
                        None => ints.push(None),
                    }
                    i = i + 1;
                }
            },
            Series::UInt64(ca) => {
                let mut i: usize = 0;
                while i < ca.values.len()
                    invariant
                        i <= ca@.values.len(),
                        ints@.len() == i,
                        s == Series::UInt64(*ca),
                        forall|k: int|
                            0 <= k < i ==> cell_opt_int(s@.cells[k]) == #[trigger] opt_int(
                                ints@[k],
                            ),
                    decreases ca@.values.len() - i,
                {
                    match &ca.values[i] {
                        Some(x) => ints.push(Some(*x as i128)),
                        None => ints.push(None),
                    }
                    i = i + 1;
                }
            },
            Series::Int8(ca) => {
                let mut i: usize = 0;
                while i < ca.values.len()
                    invariant
                        i <= ca@.values.len(),
                        ints@.len() == i,
                        s == Series::Int8(*ca),
                        forall|k: int|
                            0 <= k < i ==> cell_opt_int(s@.cells[k]) == #[trigger] opt_int(
                                ints@[k],
                            ),
                    decreases ca@.values.len() - i,
                {
                    match &ca.values[i] {
                        Some(x) => ints.push(Some(*x as i128)),
                        None => ints.push(None),
                    }
                    i = i + 1;
                }
            },
            Series::Int16(ca) => {
                let mut i: usize = 0;
                while i < ca.values.len()
                    invariant
                        i <= ca@.values.len(),
                        ints@.len() == i,
                        s == Series::Int16(*ca),
                        forall|k: int|
                            0 <= k < i ==> cell_opt_int(s@.cells[k]) == #[trigger] opt_int(
                                ints@[k],
                            ),
                    decreases ca@.values.len() - i,
                {
                    match &ca.values[i] {
                        Some(x) => ints.push(Some(*x as i128)),
                        None => ints.push(None),
                    }
                    i = i + 1;
                }
            },
            Series::Int32(ca) => {
                let mut i: usize = 0;
                while i < ca.values.len()
                    invariant
                        i <= ca@.values.len(),
                        ints@.len() == i,
                        s == Series::Int32(*ca),
                        forall|k: int|
                            0 <= k < i ==> cell_opt_int(s@.cells[k]) == #[trigger] opt_int(
                                ints@[k],
                            ),
                    decreases ca@.values.len() - i,
                {
                    match &ca.values[i] {
                        Some(x) => ints.push(Some(*x as i128)),
                        None => ints.push(None),
                    }
                    i = i + 1;
                }
            },
            Series::Int64(ca) => {
                let mut i: usize = 0;
                while i < ca.values.len()
                    invariant
                        i <= ca@.values.len(),
                        ints@.len() == i,
                        s == Series::Int64(*ca),
                        forall|k: int|
                            0 <= k < i ==> cell_opt_int(s@.cells[k]) == #[trigger] opt_int(
                                ints@[k],
                            ),
                    decreases ca@.values.len() - i,
                {
                    match &ca.values[i] {
                        Some(x) => ints.push(Some(*x as i128)),
                        None => ints.push(None),
                    }
                    i = i + 1;
                }
            },
            Series::Date32(ca) => {
                let mut i: usize = 0;
                while i < ca.values.len()
                    invariant
                        i <= ca@.values.len(),
                        ints@.len() == i,
                        s == Series::Date32(*ca),
                        forall|k: int|
                            0 <= k < i ==> cell_opt_int(s@.cells[k]) == #[trigger] opt_int(
                                ints@[k],
                            ),
                    decreases ca@.values.len() - i,
                {
                    match &ca.values[i] {
                        Some(x) => ints.push(Some(*x as i128)),
                        None => ints.push(None),
                    }
                    i = i + 1;
                }
            },
            Series::Date64(ca) => {
                let mut i: usize = 0;
                while i < ca.values.len()
                    invariant
                        i <= ca@.values.len(),
                        ints@.len() == i,
                        s == Series::Date64(*ca),
                        forall|k: int|
                            0 <= k < i ==> cell_opt_int(s@.cells[k]) == #[trigger] opt_int(
                                ints@[k],
                            ),
                    decreases ca@.values.len() - i,
                {
                    match &ca.values[i] {
                        Some(x) => ints.push(Some(*x as i128)),
                        None => ints.push(None),
                    }
                    i = i + 1;
                }
            },
            _ => {
                return None;
            },
        }
        proof {
            assert(ints@.len() == s@.cells.len());
        }

    proof {
        assert(ints@.len() == s@.cells.len());
        assert forall|k: int|
            0 <= k < ints@.len() implies (match #[trigger] ints@[k] {
            Some(v) => -18446744073709551615i128 <= v <= 18446744073709551615i128,
            None => true,
        }) by {
            assert(cell_opt_int(s@.cells[k]) == opt_int(ints@[k]));
        }
    }
    Some(ints)
}

/// The cell's integer value, stepping over a null.
pub open spec fn cell_opt_int(c: Option<CellValue>) -> Option<Option<int>> {
    match c {
        None => None,
        Some(cc) => Some(cell_int_of(cc)),
    }
}

pub open spec fn opt_int(v: Option<i128>) -> Option<Option<int>> {
    match v {
        None => None,
        Some(x) => Some(Some(x as int)),
    }
}

/// Build the target column of a cast off the integer axis.
pub(crate) fn build_cast_target(name: &String, ints: &Vec<Option<i128>>, to: DataType) -> (r: Option<Series>)
    requires
        forall|k: int|
            0 <= k < ints@.len() ==> (match #[trigger] ints@[k] {
                Some(v) => -18446744073709551615i128 <= v <= 18446744073709551615i128,
                None => true,
            }),
    ensures
        match r {
            Some(s) => {
                &&& s@.name == name@
                &&& s@.dtype == to
                &&& s@.cells.len() == ints@.len()
                &&& forall|i: int|
                    0 <= i < ints@.len() ==> #[trigger] s@.cells[i] == (match ints@[i] {
                        Some(v) => int_to_cell(to, v as int),
                        None => None,
                    })
            },
            None => !(to == DataType::UInt8 || to == DataType::UInt16 || to == DataType::UInt32
                || to == DataType::UInt64 || to == DataType::Int8 || to == DataType::Int16 || to
                == DataType::Int32 || to == DataType::Int64 || to == DataType::Date32 || to
                == DataType::Date64 || to == DataType::Float32 || to == DataType::Float64),
        },
{
    match to {
        DataType::Int64 => {
            let mut vs: Vec<Option<i64>> = Vec::new();
            let mut i: usize = 0;
            while i < ints.len()
                invariant
                    i <= ints@.len(),
                    vs@.len() == i,
                    forall|k: int|
                        0 <= k < i ==> #[trigger] vs@[k] == (match ints@[k] {
                            Some(v) => if -9223372036854775807i128 - 1 <= v <= 9223372036854775807i128 {
                                Some(v as i64)
                            } else {
                                None
                            },
                            None => None,
                        }),
                decreases ints@.len() - i,
            {
                match &ints[i] {
                    Some(v) => {
                        if -9223372036854775807i128 - 1 <= *v && *v <= 9223372036854775807i128 {
                            vs.push(Some(*v as i64));
                        } else {
                            vs.push(None);
                        }
                    },
                    None => vs.push(None),
                }
                i = i + 1;
            }
            proof {
                assert forall|k: int| 0 <= k < ints@.len() implies cells_i64(vs@)[k] == (match ints@[k] {
                    Some(v) => int_to_cell(DataType::Int64, v as int),
                    None => None,
                }) by {
                    assert(vs@[k] == (match ints@[k] {
                        Some(v) => if -9223372036854775807i128 - 1 <= v <= 9223372036854775807i128 {
                            Some(v as i64)
                        } else {
                            None
                        },
                        None => None,
                    }));
                }
            }
            Some(Series::Int64(ChunkedArray { name: name.clone(), values: vs }))
        },
        DataType::Int32 => {
            let mut vs: Vec<Option<i32>> = Vec::new();
            let mut i: usize = 0;
            while i < ints.len()
                invariant
                    i <= ints@.len(),
                    vs@.len() == i,
                    forall|k: int|
                        0 <= k < i ==> #[trigger] vs@[k] == (match ints@[k] {
                            Some(v) => if -2147483648i128 <= v <= 2147483647i128 {
                                Some(v as i32)
                            } else {
                                None
                            },
                            None => None,
                        }),
                decreases ints@.len() - i,
            {
                match &ints[i] {
                    Some(v) => {
                        if -2147483648i128 <= *v && *v <= 2147483647i128 {
                            vs.push(Some(*v as i32));
                        } else {
                            vs.push(None);
                        }
                    },
                    None => vs.push(None),
                }
                i = i + 1;
            }
            proof {
                assert forall|k: int| 0 <= k < ints@.len() implies cells_i32(vs@)[k] == (match ints@[k] {
                    Some(v) => int_to_cell(DataType::Int32, v as int),
                    None => None,
                }) by {
                    assert(vs@[k] == (match ints@[k] {
                        Some(v) => if -2147483648i128 <= v <= 2147483647i128 {
                            Some(v as i32)
                        } else {
                            None
                        },
                        None => None,
                    }));
                }
            }
            Some(Series::Int32(ChunkedArray { name: name.clone(), values: vs }))
        },
        DataType::Date32 => {
            let mut vs: Vec<Option<i32>> = Vec::new();
            let mut i: usize = 0;
            while i < ints.len()
                invariant
                    i <= ints@.len(),
                    vs@.len() == i,
                    forall|k: int|
                        0 <= k < i ==> #[trigger] vs@[k] == (match ints@[k] {
                            Some(v) => if -2147483648i128 <= v <= 2147483647i128 {
                                Some(v as i32)
                            } else {
                                None
                            },
                            None => None,
                        }),
                decreases ints@.len() - i,
            {
                match &ints[i] {
                    Some(v) => {
                        if -2147483648i128 <= *v && *v <= 2147483647i128 {
                            vs.push(Some(*v as i32));
                        } else {
                            vs.push(None);
                        }
                    },
                    None => vs.push(None),
                }
                i = i + 1;
            }
            proof {
                assert forall|k: int| 0 <= k < ints@.len() implies cells_i32(vs@)[k] == (match ints@[k] {
                    Some(v) => int_to_cell(DataType::Date32, v as int),
                    None => None,
                }) by {
                    assert(vs@[k] == (match ints@[k] {
                        Some(v) => if -2147483648i128 <= v <= 2147483647i128 {
                            Some(v as i32)
                        } else {
                            None
                        },
                        None => None,
                    }));
                }
            }
            Some(Series::Date32(ChunkedArray { name: name.clone(), values: vs }))
        },
        DataType::Date64 => {
            let mut vs: Vec<Option<i64>> = Vec::new();
            let mut i: usize = 0;
            while i < ints.len()
                invariant
                    i <= ints@.len(),
                    vs@.len() == i,
                    forall|k: int|
                        0 <= k < i ==> #[trigger] vs@[k] == (match ints@[k] {
                            Some(v) => if -9223372036854775807i128 - 1 <= v <= 9223372036854775807i128 {
                                Some(v as i64)
                            } else {
                                None
                            },
                            None => None,
                        }),
                decreases ints@.len() - i,
            {
                match &ints[i] {
                    Some(v) => {
                        if -9223372036854775807i128 - 1 <= *v && *v <= 9223372036854775807i128 {
                            vs.push(Some(*v as i64));
                        } else {
                            vs.push(None);
                        }
                    },
                    None => vs.push(None),
                }
                i = i + 1;
            }
            proof {
                assert forall|k: int| 0 <= k < ints@.len() implies cells_i64(vs@)[k] == (match ints@[k] {
                    Some(v) => int_to_cell(DataType::Date64, v as int),
                    None => None,
                }) by {
                    assert(vs@[k] == (match ints@[k] {
                        Some(v) => if -9223372036854775807i128 - 1 <= v <= 9223372036854775807i128 {
                            Some(v as i64)
                        } else {
                            None
                        },
                        None => None,
                    }));
                }
            }
            Some(Series::Date64(ChunkedArray { name: name.clone(), values: vs }))
        },
        DataType::Int8 => {
            let mut vs: Vec<Option<i8>> = Vec::new();
            let mut i: usize = 0;
            while i < ints.len()
                invariant
                    i <= ints@.len(),
                    vs@.len() == i,
                    forall|k: int|
                        0 <= k < i ==> #[trigger] vs@[k] == (match ints@[k] {
                            Some(v) => if -128i128 <= v <= 127i128 {
                                Some(v as i8)
                            } else {
                                None
                            },
                            None => None,
                        }),
                decreases ints@.len() - i,
            {
                match &ints[i] {
                    Some(v) => {
                        if -128i128 <= *v && *v <= 127i128 {
                            vs.push(Some(*v as i8));
                        } else {
                            vs.push(None);
                        }
                    },
                    None => vs.push(None),
                }
                i = i + 1;
            }
            proof {
                assert forall|k: int| 0 <= k < ints@.len() implies cells_i8(vs@)[k] == (match ints@[k] {
                    Some(v) => int_to_cell(DataType::Int8, v as int),
                    None => None,
                }) by {
                    assert(vs@[k] == (match ints@[k] {
                        Some(v) => if -128i128 <= v <= 127i128 {
                            Some(v as i8)
                        } else {
                            None
                        },
                        None => None,
                    }));
                }
            }
            Some(Series::Int8(ChunkedArray { name: name.clone(), values: vs }))
        },
        DataType::Int16 => {
            let mut vs: Vec<Option<i16>> = Vec::new();
            let mut i: usize = 0;
            while i < ints.len()
                invariant
                    i <= ints@.len(),
                    vs@.len() == i,
                    forall|k: int|
                        0 <= k < i ==> #[trigger] vs@[k] == (match ints@[k] {
                            Some(v) => if -32768i128 <= v <= 32767i128 {
                                Some(v as i16)
                            } else {
                                None
                            },
                            None => None,
                        }),
                decreases ints@.len() - i,
            {
                match &ints[i] {
                    Some(v) => {
                        if -32768i128 <= *v && *v <= 32767i128 {
                            vs.push(Some(*v as i16));
                        } else {
                            vs.push(None);
                        }
                    },
                    None => vs.push(None),
                }
                i = i + 1;
            }
            proof {
                assert forall|k: int| 0 <= k < ints@.len() implies cells_i16(vs@)[k] == (match ints@[k] {
                    Some(v) => int_to_cell(DataType::Int16, v as int),
                    None => None,
                }) by {
                    assert(vs@[k] == (match ints@[k] {
                        Some(v) => if -32768i128 <= v <= 32767i128 {
                            Some(v as i16)
                        } else {
                            None
                        },
                        None => None,
                    }));
                }
            }
            Some(Series::Int16(ChunkedArray { name: name.clone(), values: vs }))
        },
        DataType::UInt8 => {
            let mut vs: Vec<Option<u8>> = Vec::new();
            let mut i: usize = 0;
            while i < ints.len()
                invariant
                    i <= ints@.len(),
                    vs@.len() == i,
                    forall|k: int|
                        0 <= k < i ==> #[trigger] vs@[k] == (match ints@[k] {
                            Some(v) => if 0i128 <= v <= 255i128 {
                                Some(v as u8)
                            } else {
                                None
                            },
                            None => None,
                        }),
                decreases ints@.len() - i,
            {
                match &ints[i] {
                    Some(v) => {
                        if 0i128 <= *v && *v <= 255i128 {
                            vs.push(Some(*v as u8));
                        } else {
                            vs.push(None);
                        }
                    },
                    None => vs.push(None),
                }
                i = i + 1;
            }
            proof {
                assert forall|k: int| 0 <= k < ints@.len() implies cells_u8(vs@)[k] == (match ints@[k] {
                    Some(v) => int_to_cell(DataType::UInt8, v as int),
                    None => None,
                }) by {
                    assert(vs@[k] == (match ints@[k] {
                        Some(v) => if 0i128 <= v <= 255i128 {
                            Some(v as u8)
                        } else {
                            None
                        },
                        None => None,
                    }));
                }
            }
            Some(Series::UInt8(ChunkedArray { name: name.clone(), values: vs }))
        },
        DataType::UInt16 => {
            let mut vs: Vec<Option<u16>> = Vec::new();
            let mut i: usize = 0;
            while i < ints.len()
                invariant
                    i <= ints@.len(),
                    vs@.len() == i,
                    forall|k: int|
                        0 <= k < i ==> #[trigger] vs@[k] == (match ints@[k] {
                            Some(v) => if 0i128 <= v <= 65535i128 {
                                Some(v as u16)
                            } else {
                                None
                            },
                            None => None,
                        }),
                decreases ints@.len() - i,
            {
                match &ints[i] {
                    Some(v) => {
                        if 0i128 <= *v && *v <= 65535i128 {
                            vs.push(Some(*v as u16));
                        } else {
                            vs.push(None);
                        }
                    },
                    None => vs.push(None),
                }
                i = i + 1;
            }
            proof {
                assert forall|k: int| 0 <= k < ints@.len() implies cells_u16(vs@)[k] == (match ints@[k] {
                    Some(v) => int_to_cell(DataType::UInt16, v as int),
                    None => None,
                }) by {
                    assert(vs@[k] == (match ints@[k] {
                        Some(v) => if 0i128 <= v <= 65535i128 {
                            Some(v as u16)
                        } else {
                            None
                        },
                        None => None,
                    }));
                }
            }
            Some(Series::UInt16(ChunkedArray { name: name.clone(), values: vs }))
        },
        DataType::UInt32 => {
            let mut vs: Vec<Option<u32>> = Vec::new();
            let mut i: usize = 0;
            while i < ints.len()
                invariant
                    i <= ints@.len(),
                    vs@.len() == i,
                    forall|k: int|
                        0 <= k < i ==> #[trigger] vs@[k] == (match ints@[k] {
                            Some(v) => if 0i128 <= v <= 4294967295i128 {
                                Some(v as u32)
                            } else {
                                None
                            },
                            None => None,
                        }),
                decreases ints@.len() - i,
            {
                match &ints[i] {
                    Some(v) => {
                        if 0i128 <= *v && *v <= 4294967295i128 {
                            vs.push(Some(*v as u32));
                        } else {
                            vs.push(None);
                        }
                    },
                    None => vs.push(None),
                }
                i = i + 1;
            }
            proof {
                assert forall|k: int| 0 <= k < ints@.len() implies cells_u32(vs@)[k] == (match ints@[k] {
                    Some(v) => int_to_cell(DataType::UInt32, v as int),
                    None => None,
                }) by {
                    assert(vs@[k] == (match ints@[k] {
                        Some(v) => if 0i128 <= v <= 4294967295i128 {
                            Some(v as u32)
                        } else {
                            None
                        },
                        None => None,
                    }));
                }
            }
            Some(Series::UInt32(ChunkedArray { name: name.clone(), values: vs }))
        },
        DataType::UInt64 => {
            let mut vs: Vec<Option<u64>> = Vec::new();
            let mut i: usize = 0;
            while i < ints.len()
                invariant
                    i <= ints@.len(),
                    vs@.len() == i,
                    forall|k: int|
                        0 <= k < i ==> #[trigger] vs@[k] == (match ints@[k] {
                            Some(v) => if 0i128 <= v <= 18446744073709551615i128 {
                                Some(v as u64)
                            } else {
                                None
                            },
                            None => None,
                        }),
                decreases ints@.len() - i,
            {
                match &ints[i] {
                    Some(v) => {
                        if 0i128 <= *v && *v <= 18446744073709551615i128 {
                            vs.push(Some(*v as u64));
                        } else {
                            vs.push(None);
                        }
                    },
                    None => vs.push(None),
                }
                i = i + 1;
            }
            proof {
                assert forall|k: int| 0 <= k < ints@.len() implies cells_u64(vs@)[k] == (match ints@[k] {
                    Some(v) => int_to_cell(DataType::UInt64, v as int),
                    None => None,
                }) by {
                    assert(vs@[k] == (match ints@[k] {
                        Some(v) => if 0i128 <= v <= 18446744073709551615i128 {
                            Some(v as u64)
                        } else {
                            None
                        },
                        None => None,
                    }));
                }
            }
            Some(Series::UInt64(ChunkedArray { name: name.clone(), values: vs }))
        },
        DataType::Float32 => {
            let vs = ints_to_float(ints);
            Some(Series::Float32(ChunkedArray { name: name.clone(), values: vs }))
        },
        DataType::Float64 => {
            let vs = ints_to_float(ints);
            Some(Series::Float64(ChunkedArray { name: name.clone(), values: vs }))
        },
        _ => None,
    }
}

fn ints_to_float(ints: &Vec<Option<i128>>) -> (vs: Vec<Option<FloatValue>>)
    requires
        forall|k: int|
            0 <= k < ints@.len() ==> (match #[trigger] ints@[k] {
                Some(v) => -18446744073709551615i128 <= v <= 18446744073709551615i128,
                None => true,
            }),
    ensures
        vs@.len() == ints@.len(),
        forall|k: int|
            0 <= k < ints@.len() ==> cells_float(vs@)[k] == (match ints@[k] {
                Some(v) => int_to_cell(DataType::Float64, v as int),
                None => None,
            }),
        forall|k: int|
            0 <= k < ints@.len() ==> cells_float(vs@)[k] == (match ints@[k] {
                Some(v) => int_to_cell(DataType::Float32, v as int),
                None => None,
            }),
{
    let mut vs: Vec<Option<FloatValue>> = Vec::new();
    let mut i: usize = 0;
    while i < ints.len()
        invariant
            i <= ints@.len(),
            vs@.len() == i,
            forall|k: int|
                0 <= k < ints@.len() ==> (match #[trigger] ints@[k] {
                    Some(v) => -18446744073709551615i128 <= v <= 18446744073709551615i128,
                    None => true,
                }),
            forall|k: int|
                0 <= k < i ==> #[trigger] vs@[k] == (match ints@[k] {
                    Some(v) => Some(
                        FloatValue::Num {
                            negative: v < 0,
                            mantissa: (if v < 0 {
                                -(v as int)
                            } else {
                                v as int
                            }) as u64,
                            exponent: 0,
                        },
                    ),
                    None => None,
                }),
        decreases ints@.len() - i,
    {
        match &ints[i] {
            Some(v) => {
                let neg: bool = *v < 0;
                let mag: i128 = if *v < 0 {
                    -*v
                } else {
                    *v
                };
                vs.push(Some(FloatValue::Num { negative: neg, mantissa: mag as u64, exponent: 0 }));
            },
            None => vs.push(None),
        }
        i = i + 1;
    }
    proof {
        assert forall|k: int| 0 <= k < ints@.len() implies cells_float(vs@)[k] == (match ints@[k] {
            Some(v) => int_to_cell(DataType::Float64, v as int),
            None => None,
        }) && cells_float(vs@)[k] == (match ints@[k] {
            Some(v) => int_to_cell(DataType::Float32, v as int),
            None => None,
        }) by {
            assert(vs@[k] == (match ints@[k] {
                Some(v) => Some(
                    FloatValue::Num {
                        negative: v < 0,
                        mantissa: (if v < 0 {
                            -(v as int)
                        } else {
                            v as int
                        }) as u64,
                        exponent: 0,
                    },
                ),
                None => None,
            }));
        }
    }
    vs
}

} // verus!
