//! Element-wise arithmetic on series, over the integer axis.
use crate::casting::{build_cast_target, cell_opt_int, opt_int, series_ints};
use crate::datatypes::DataType;
use crate::error::PolarsError;
use crate::series::{CellValue, Series, cell_int_of, int_to_cell};
use vstd::prelude::*;

verus! {

/// An element-wise arithmetic operation.
#[derive(Clone, Copy, PartialEq, Eq, Structural, Debug)]
pub enum ArithOp {
    Add,
    Sub,
    Mul,
    Div,
    Rem,
}

/// Division truncated toward zero, as machine division works.
pub open spec fn trunc_div(x: int, y: int) -> int {
    let q = abs_int(x) / abs_int(y);
    if (x < 0) != (y < 0) {
        -q
    } else {
        q
    }
}

pub open spec fn trunc_rem(x: int, y: int) -> int {
    x - y * trunc_div(x, y)
}

pub open spec fn abs_int(x: int) -> int {
    if x < 0 {
        -x
    } else {
        x
    }
}

pub open spec fn arith_op_val(op: ArithOp, x: int, y: int) -> int {
    match op {
        ArithOp::Add => x + y,
        ArithOp::Sub => x - y,
        ArithOp::Mul => x * y,
        ArithOp::Div => trunc_div(x, y),
        ArithOp::Rem => trunc_rem(x, y),
    }
}

/// The smallest value a column of this type holds.
pub open spec fn dtype_lo(dt: DataType) -> int {
    match dt {
        DataType::UInt8 => 0,
        DataType::UInt16 => 0,
        DataType::UInt32 => 0,
        DataType::UInt64 => 0,
        DataType::Int8 => -128,
        DataType::Int16 => -32768,
        DataType::Int32 => -2147483648,
        DataType::Int64 => -9223372036854775808,
        DataType::Date32 => -2147483648,
        DataType::Date64 => -9223372036854775808,
        _ => 0,
    }
}

pub open spec fn dtype_hi(dt: DataType) -> int {
    match dt {
        DataType::UInt8 => 255,
        DataType::UInt16 => 65535,
        DataType::UInt32 => 4294967295,
        DataType::UInt64 => 18446744073709551615,
        DataType::Int8 => 127,
        DataType::Int16 => 32767,
        DataType::Int32 => 2147483647,
        DataType::Int64 => 9223372036854775807,
        DataType::Date32 => 2147483647,
        DataType::Date64 => 9223372036854775807,
        _ => 0,
    }
}

/// Whether one element-wise step is defined and lands inside the type:
/// no zero divisor, factors small enough to multiply, and a result in
/// range.
pub open spec fn arith_pair_ok(op: ArithOp, x: int, y: int, dt: DataType) -> bool {
    &&& ((op == ArithOp::Div || op == ArithOp::Rem) ==> y != 0)
    &&& (op == ArithOp::Mul ==> abs_int(x) <= 9223372036854775808 && abs_int(y)
        <= 9223372036854775808)
    &&& dtype_lo(dt) <= arith_op_val(op, x, y) <= dtype_hi(dt)
}

/// A column type arithmetic does not run on: the float and text types,
/// which are off the integer axis, and booleans.
pub open spec fn arith_unsupported(dt: DataType) -> bool {
    dt == DataType::Float32 || dt == DataType::Float64 || dt == DataType::Utf8 || dt
        == DataType::Boolean
}

/// Some pair of cells on which the operation is undefined or leaves the
/// type: the witness behind an arithmetic failure.
pub open spec fn arith_bad_pair(
    a: Series,
    b: Series,
    op: ArithOp,
) -> bool {
    exists|i: int|
        0 <= i < a@.cells.len() && 0 <= i < b@.cells.len() && (match (
            cell_opt_int(#[trigger] a@.cells[i]),
            cell_opt_int(b@.cells[i]),
        ) {
            (Some(Some(x)), Some(Some(y))) => !arith_pair_ok(op, x, y, a@.dtype),
            _ => false,
        })
}

/// How one output cell relates to its input cells.
pub open spec fn arith_cell_rel(
    a: Option<CellValue>,
    b: Option<CellValue>,
    c: Option<CellValue>,
    op: ArithOp,
    dt: DataType,
) -> bool {
    match (cell_opt_int(a), cell_opt_int(b)) {
        (Some(Some(x)), Some(Some(y))) => c == int_to_cell(dt, arith_op_val(op, x, y)),
        _ => c is None,
    }
}

/// One element-wise step over the integer axis.  Fails where the step
/// is undefined or overflows the type.
fn arith_step(op: ArithOp, x: i128, y: i128, lo: i128, hi: i128) -> (r: Option<i128>)
    requires
        -18446744073709551615i128 <= x <= 18446744073709551615i128,
        -18446744073709551615i128 <= y <= 18446744073709551615i128,
        -9223372036854775807i128 - 1 <= lo <= hi <= 18446744073709551615i128,
    ensures
        match r {
            Some(v) => arith_pair_ok_bounds(op, x as int, y as int, lo as int, hi as int) && v
                as int == arith_op_val(op, x as int, y as int),
            None => !arith_pair_ok_bounds(op, x as int, y as int, lo as int, hi as int),
        },
{
    let val: i128 = match op {
        ArithOp::Add => x + y,
        ArithOp::Sub => x - y,
        ArithOp::Mul => {
            let xm: i128 = if x < 0 {
                -x
            } else {
                x
            };
            let ym: i128 = if y < 0 {
                -y
            } else {
                y
            };
            if xm > 9223372036854775808i128 || ym > 9223372036854775808i128 {
                return None;
            }
            proof {
                assert(-170141183460469231731687303715884105728 <= x * y
                    < 170141183460469231731687303715884105728) by (nonlinear_arith)
                    requires
                        -9223372036854775808 <= x <= 9223372036854775808,
                        -9223372036854775808 <= y <= 9223372036854775808,
                ;
            }
            x * y
        },
        ArithOp::Div => {
            if y == 0 {
                return None;
            }
            let xm: u128 = if x < 0 {
                (-x) as u128
            } else {
                x as u128
            };
            let ym: u128 = if y < 0 {
                (-y) as u128
            } else {
                y as u128
            };
            let q: u128 = xm / ym;
            if (x < 0) != (y < 0) {
                -(q as i128)
            } else {
                q as i128
            }
        },
        ArithOp::Rem => {
            if y == 0 {
                return None;
            }
            let xm: u128 = if x < 0 {
                (-x) as u128
            } else {
                x as u128
            };
            let ym: u128 = if y < 0 {
                (-y) as u128
            } else {
                y as u128
            };
            let q: u128 = xm / ym;
            let qs: i128 = if (x < 0) != (y < 0) {
                -(q as i128)
            } else {
                q as i128
            };
            proof {
                lemma_trunc_div_bound(x as int, y as int);
            }
            x - y * qs
        },
    };
    if val < lo || val > hi {
        return None;
    }
    Some(val)
}

/// The same bound condition, phrased over given bounds.
pub open spec fn arith_pair_ok_bounds(op: ArithOp, x: int, y: int, lo: int, hi: int) -> bool {
    &&& ((op == ArithOp::Div || op == ArithOp::Rem) ==> y != 0)
    &&& (op == ArithOp::Mul ==> abs_int(x) <= 9223372036854775808 && abs_int(y)
        <= 9223372036854775808)
    &&& lo <= arith_op_val(op, x, y) <= hi
}

/// The truncated quotient's magnitude stays within the dividend's.
proof fn lemma_trunc_div_bound(x: int, y: int)
    requires
        y != 0,
    ensures
        abs_int(trunc_div(x, y)) <= abs_int(x),
        abs_int(y * trunc_div(x, y)) <= abs_int(x),
        abs_int(trunc_rem(x, y)) <= abs_int(x) + abs_int(y * trunc_div(x, y)),
{
    let xm = abs_int(x);
    let ym = abs_int(y);
    let q = xm / ym;
    vstd::arithmetic::div_mod::lemma_fundamental_div_mod(xm, ym);
    assert(ym * q <= xm);
    assert(q <= xm) by {
        if q > xm {
            assert(ym * q >= q) by (nonlinear_arith)
                requires
                    ym >= 1,
                    q >= 0,
            ;
        }
    }
    assert(abs_int(y * trunc_div(x, y)) == ym * q) by {
        assert(y * trunc_div(x, y) == if (x < 0) != (y < 0) {
            y * (-q)
        } else {
            y * q
        });
        assert(y * (-q) == -(y * q)) by (nonlinear_arith);
        if y < 0 {
            assert(y * q == -(ym * q)) by (nonlinear_arith)
                requires
                    ym == -y,
            ;
        } else {
            assert(y * q == ym * q);
        }
    }
}

impl Series {
    /// Element-wise arithmetic with a series of the same type, over the
    /// integer axis.
    fn arith(&self, rhs: &Series, op: ArithOp) -> (r: Result<Series, PolarsError>)
        ensures
            match r {
                Ok(out) => {
                    &&& self@.dtype == rhs@.dtype
                    &&& self@.cells.len() == rhs@.cells.len()
                    &&& out@.name == self@.name
                    &&& out@.dtype == self@.dtype
                    &&& out@.cells.len() == self@.cells.len()
                    &&& forall|i: int|
                        0 <= i < self@.cells.len() ==> arith_cell_rel(
                            self@.cells[i],
                            rhs@.cells[i],
                            #[trigger] out@.cells[i],
                            op,
                            self@.dtype,
                        )
                },
                Err(e) => {
                    ||| (e == PolarsError::DataTypeMisMatch && self@.dtype != rhs@.dtype)
                    ||| (e == PolarsError::ShapeMisMatch && self@.cells.len() != rhs@.cells.len())
                    ||| (e == PolarsError::InvalidOperation && (arith_unsupported(self@.dtype)
                        || arith_bad_pair(*self, *rhs, op)))
                },
            },
    {
        if self.dtype() != rhs.dtype() {
            return Err(PolarsError::DataTypeMisMatch);
        }
        let a = match series_ints(self) {
            Some(v) => v,
            None => {
                return Err(PolarsError::InvalidOperation);
            },
        };
        let b = match series_ints(rhs) {
            Some(v) => v,
            None => {
                return Err(PolarsError::InvalidOperation);
            },
        };
        if a.len() != b.len() {
            return Err(PolarsError::ShapeMisMatch);
        }
        let dt = self.dtype();
        let (lo, hi) = dtype_bounds(dt);
        let mut c: Vec<Option<i128>> = Vec::new();
        let mut i: usize = 0;
        while i < a.len()
            invariant
                i <= a@.len(),
                a@.len() == b@.len(),
                a@.len() == self@.cells.len(),
                b@.len() == rhs@.cells.len(),
                dt == self@.dtype,
                forall|k: int|
                    0 <= k < a@.len() ==> cell_opt_int(self@.cells[k]) == #[trigger] opt_int(
                        a@[k],
                    ),
                forall|k: int|
                    0 <= k < b@.len() ==> cell_opt_int(rhs@.cells[k]) == #[trigger] opt_int(
                        b@[k],
                    ),
                c@.len() == i,
                lo as int == dtype_lo(dt),
                hi as int == dtype_hi(dt),
                -9223372036854775807i128 - 1 <= lo <= hi <= 18446744073709551615i128,
                forall|k: int|
                    0 <= k < a@.len() ==> (match #[trigger] a@[k] {
                        Some(v) => -18446744073709551615i128 <= v <= 18446744073709551615i128,
                        None => true,
                    }),
                forall|k: int|
                    0 <= k < b@.len() ==> (match #[trigger] b@[k] {
                        Some(v) => -18446744073709551615i128 <= v <= 18446744073709551615i128,
                        None => true,
                    }),
                forall|k: int|
                    0 <= k < i ==> (match (#[trigger] a@[k], b@[k]) {
                        (Some(x), Some(y)) => arith_pair_ok_bounds(
                            op,
                            x as int,
                            y as int,
                            lo as int,
                            hi as int,
                        ),
                        _ => true,
                    }),
                forall|k: int|
                    0 <= k < i ==> #[trigger] c@[k] == (match (a@[k], b@[k]) {
                        (Some(x), Some(y)) => if arith_pair_ok_bounds(
                            op,
                            x as int,
                            y as int,
                            lo as int,
                            hi as int,
                        ) {
                            Some(spec_arith_i128(op, x, y))
                        } else {
                            None
                        },
                        _ => None,
                    }),
                forall|k: int|
                    0 <= k < i ==> (match #[trigger] c@[k] {
                        Some(v) => -18446744073709551615i128 <= v <= 18446744073709551615i128 && v
                            as int == (match (a@[k], b@[k]) {
                            (Some(x), Some(y)) => arith_op_val(op, x as int, y as int),
                            _ => 0,
                        }),
                        None => true,
                    }),
            decreases a@.len() - i,
        {
            let av = a[i];
            let bv = b[i];
            match (av, bv) {
                (Some(x), Some(y)) => {
                    match arith_step(op, x, y, lo, hi) {
                        Some(v) => {
                            c.push(Some(v));
                        },
                        None => {
                            proof {
                                assert(cell_opt_int(self@.cells[i as int]) == opt_int(
                                    a@[i as int],
                                ));
                                assert(cell_opt_int(rhs@.cells[i as int]) == opt_int(b@[i as int]));
                                assert(arith_bad_pair(*self, *rhs, op));
                            }
                            return Err(PolarsError::InvalidOperation);
                        },
                    }
                },
                _ => c.push(None),
            }
            i = i + 1;
        }
        let name: String = self.name().clone();
        match build_cast_target(&name, &c, dt) {
            Some(out) => {
                proof {
                    assert forall|i2: int| 0 <= i2 < self@.cells.len() implies arith_cell_rel(
                        self@.cells[i2],
                        rhs@.cells[i2],
                        #[trigger] out@.cells[i2],
                        op,
                        self@.dtype,
                    ) by {
                        assert(cell_opt_int(self@.cells[i2]) == opt_int(a@[i2]));
                        assert(cell_opt_int(rhs@.cells[i2]) == opt_int(b@[i2]));
                    }
                }
                Ok(out)
            },
            None => Err(PolarsError::InvalidOperation),
        }
    }

    /// Element-wise addition with a series of the same type.
    pub fn add_to(&self, rhs: &Series) -> (r: Result<Series, PolarsError>)
        ensures
            arith_result(*self, *rhs, r, ArithOp::Add),
    {
        self.arith(rhs, ArithOp::Add)
    }

    /// Element-wise subtraction of a series of the same type.
    pub fn subtract(&self, rhs: &Series) -> (r: Result<Series, PolarsError>)
        ensures
            arith_result(*self, *rhs, r, ArithOp::Sub),
    {
        self.arith(rhs, ArithOp::Sub)
    }

    /// Element-wise multiplication with a series of the same type.
    pub fn multiply(&self, rhs: &Series) -> (r: Result<Series, PolarsError>)
        ensures
            arith_result(*self, *rhs, r, ArithOp::Mul),
    {
        self.arith(rhs, ArithOp::Mul)
    }

    /// Element-wise division by a series of the same type.
    pub fn divide(&self, rhs: &Series) -> (r: Result<Series, PolarsError>)
        ensures
            arith_result(*self, *rhs, r, ArithOp::Div),
    {
        self.arith(rhs, ArithOp::Div)
    }

    /// Element-wise remainder by a series of the same type.
    pub fn remainder(&self, rhs: &Series) -> (r: Result<Series, PolarsError>)
        ensures
            arith_result(*self, *rhs, r, ArithOp::Rem),
    {
        self.arith(rhs, ArithOp::Rem)
    }
}

/// What the public arithmetic methods promise: on success the output
/// holds, cell for cell, the operation of the two inputs.
pub open spec fn arith_result(
    a: Series,
    b: Series,
    r: Result<Series, PolarsError>,
    op: ArithOp,
) -> bool {
    match r {
        Ok(out) => {
            &&& a@.dtype == b@.dtype
            &&& a@.cells.len() == b@.cells.len()
            &&& out@.name == a@.name
            &&& out@.dtype == a@.dtype
            &&& out@.cells.len() == a@.cells.len()
            &&& forall|i: int|
                0 <= i < a@.cells.len() ==> arith_cell_rel(
                    a@.cells[i],
                    b@.cells[i],
                    #[trigger] out@.cells[i],
                    op,
                    a@.dtype,
                )
        },
        Err(e) => {
            ||| (e == PolarsError::DataTypeMisMatch && a@.dtype != b@.dtype)
            ||| (e == PolarsError::ShapeMisMatch && a@.cells.len() != b@.cells.len())
            ||| (e == PolarsError::InvalidOperation && (arith_unsupported(a@.dtype) || arith_bad_pair(
                a,
                b,
                op,
            )))
        },
    }
}

/// What the operation computes on two in-range machine values.
pub open spec fn spec_arith_i128(op: ArithOp, x: i128, y: i128) -> i128 {
    arith_op_val(op, x as int, y as int) as i128
}

/// The bounds of an integer column type, as machine values.
fn dtype_bounds(dt: DataType) -> (r: (i128, i128))
    ensures
        r.0 as int == dtype_lo(dt),
        r.1 as int == dtype_hi(dt),
{
    match dt {
        DataType::UInt8 => (0, 255),
        DataType::UInt16 => (0, 65535),
        DataType::UInt32 => (0, 4294967295),
        DataType::UInt64 => (0, 18446744073709551615),
        DataType::Int8 => (-128, 127),
        DataType::Int16 => (-32768, 32767),
        DataType::Int32 => (-2147483648, 2147483647),
        DataType::Int64 => (-9223372036854775807 - 1, 9223372036854775807),
        DataType::Date32 => (-2147483648, 2147483647),
        DataType::Date64 => (-9223372036854775807 - 1, 9223372036854775807),
        _ => (0, 0),
    }
}

} // verus!

verus! {

/// How one output cell relates to its input cell under a scalar step,
/// the scalar standing on the given side.
pub open spec fn scalar_cell_rel(
    a: Option<CellValue>,
    k: int,
    c: Option<CellValue>,
    op: ArithOp,
    dt: DataType,
    scalar_on_left: bool,
) -> bool {
    match cell_opt_int(a) {
        Some(Some(x)) => c == (if scalar_on_left {
            int_to_cell(dt, arith_op_val(op, k, x))
        } else {
            int_to_cell(dt, arith_op_val(op, x, k))
        }),
        _ => c is None,
    }
}

/// What the scalar arithmetic methods promise.
pub open spec fn scalar_result(
    a: Series,
    k: int,
    r: Result<Series, PolarsError>,
    op: ArithOp,
    scalar_on_left: bool,
) -> bool {
    match r {
        Ok(out) => {
            &&& dtype_lo(a@.dtype) <= k <= dtype_hi(a@.dtype)
            &&& out@.name == a@.name
            &&& out@.dtype == a@.dtype
            &&& out@.cells.len() == a@.cells.len()
            &&& forall|i: int|
                0 <= i < a@.cells.len() ==> scalar_cell_rel(
                    a@.cells[i],
                    k,
                    #[trigger] out@.cells[i],
                    op,
                    a@.dtype,
                    scalar_on_left,
                )
        },
        Err(e) => e == PolarsError::InvalidOperation,
    }
}

impl Series {
    /// A series of this one's type and length holding the scalar in
    /// every cell.
    fn broadcast_scalar(&self, k: i64) -> (r: Option<Series>)
        ensures
            match r {
                Some(out) => {
                    &&& dtype_lo(self@.dtype) <= k as int <= dtype_hi(self@.dtype)
                    &&& out@.dtype == self@.dtype
                    &&& out@.cells.len() == self@.cells.len()
                    &&& forall|i: int|
                        0 <= i < out@.cells.len() ==> #[trigger] out@.cells[i] == int_to_cell(
                            self@.dtype,
                            k as int,
                        )
                },
                None => true,
            },
    {
        let dt = self.dtype();
        let (lo, hi) = dtype_bounds(dt);
        if (k as i128) < lo || (k as i128) > hi {
            return None;
        }
        let n = self.len();
        let mut ints: Vec<Option<i128>> = Vec::new();
        let mut i: usize = 0;
        while i < n
            invariant
                i <= n,
                ints@.len() == i,
                forall|j: int| 0 <= j < i ==> #[trigger] ints@[j] == Some(k as i128),
            decreases n - i,
        {
            ints.push(Some(k as i128));
            i = i + 1;
        }
        let name: String = self.name().clone();
        match build_cast_target(&name, &ints, dt) {
            Some(out) => Some(out),
            None => None,
        }
    }

    /// Add a number to every cell.
    pub fn add_number(&self, rhs: i64) -> (r: Result<Series, PolarsError>)
        ensures
            scalar_result(*self, rhs as int, r, ArithOp::Add, false),
    {
        match self.broadcast_scalar(rhs) {
            Some(b) => self.arith(&b, ArithOp::Add),
            None => Err(PolarsError::InvalidOperation),
        }
    }

    /// Subtract a number from every cell.
    pub fn subtract_number(&self, rhs: i64) -> (r: Result<Series, PolarsError>)
        ensures
            scalar_result(*self, rhs as int, r, ArithOp::Sub, false),
    {
        match self.broadcast_scalar(rhs) {
            Some(b) => self.arith(&b, ArithOp::Sub),
            None => Err(PolarsError::InvalidOperation),
        }
    }

    /// Multiply every cell by a number.
    pub fn multiply_number(&self, rhs: i64) -> (r: Result<Series, PolarsError>)
        ensures
            scalar_result(*self, rhs as int, r, ArithOp::Mul, false),
    {
        match self.broadcast_scalar(rhs) {
            Some(b) => self.arith(&b, ArithOp::Mul),
            None => Err(PolarsError::InvalidOperation),
        }
    }

    /// Divide every cell by a number.
    pub fn divide_number(&self, rhs: i64) -> (r: Result<Series, PolarsError>)
        ensures
            scalar_result(*self, rhs as int, r, ArithOp::Div, false),
    {
        match self.broadcast_scalar(rhs) {
            Some(b) => self.arith(&b, ArithOp::Div),
            None => Err(PolarsError::InvalidOperation),
        }
    }

    /// Add every cell to a number on the left.
    pub fn lhs_add_number(&self, lhs: i64) -> (r: Result<Series, PolarsError>)
        ensures
            scalar_result(*self, lhs as int, r, ArithOp::Add, true),
    {
        match self.broadcast_scalar(lhs) {
            Some(b) => b.arith_with_name(self, ArithOp::Add),
            None => Err(PolarsError::InvalidOperation),
        }
    }

    /// Subtract every cell from a number on the left.
    pub fn lhs_subtract_number(&self, lhs: i64) -> (r: Result<Series, PolarsError>)
        ensures
            scalar_result(*self, lhs as int, r, ArithOp::Sub, true),
    {
        match self.broadcast_scalar(lhs) {
            Some(b) => b.arith_with_name(self, ArithOp::Sub),
            None => Err(PolarsError::InvalidOperation),
        }
    }

    /// Multiply a number on the left by every cell.
    pub fn lhs_multiply_number(&self, lhs: i64) -> (r: Result<Series, PolarsError>)
        ensures
            scalar_result(*self, lhs as int, r, ArithOp::Mul, true),
    {
        match self.broadcast_scalar(lhs) {
            Some(b) => b.arith_with_name(self, ArithOp::Mul),
            None => Err(PolarsError::InvalidOperation),
        }
    }

    /// Divide a number on the left by every cell.
    pub fn lhs_divide_number(&self, lhs: i64) -> (r: Result<Series, PolarsError>)
        ensures
            scalar_result(*self, lhs as int, r, ArithOp::Div, true),
    {
        match self.broadcast_scalar(lhs) {
            Some(b) => b.arith_with_name(self, ArithOp::Div),
            None => Err(PolarsError::InvalidOperation),
        }
    }

    /// As `arith`, but naming the output after the right-hand series,
    /// for steps whose left side is a broadcast scalar.
    fn arith_with_name(&self, rhs: &Series, op: ArithOp) -> (r: Result<Series, PolarsError>)
        ensures
            match r {
                Ok(out) => {
                    &&& self@.dtype == rhs@.dtype
                    &&& self@.cells.len() == rhs@.cells.len()
                    &&& out@.name == rhs@.name
                    &&& out@.dtype == self@.dtype
                    &&& out@.cells.len() == self@.cells.len()
                    &&& forall|i: int|
                        0 <= i < self@.cells.len() ==> arith_cell_rel(
                            self@.cells[i],
                            rhs@.cells[i],
                            #[trigger] out@.cells[i],
                            op,
                            self@.dtype,
                        )
                },
                Err(e) => {
                    ||| (e == PolarsError::DataTypeMisMatch && self@.dtype != rhs@.dtype)
                    ||| (e == PolarsError::ShapeMisMatch && self@.cells.len() != rhs@.cells.len())
                    ||| (e == PolarsError::InvalidOperation && (arith_unsupported(self@.dtype)
                        || arith_bad_pair(*self, *rhs, op)))
                },
            },
    {
        match self.arith(rhs, op) {
            Ok(mut out) => {
                out.rename(rhs.name().clone().as_str());
                Ok(out)
            },
            Err(e) => Err(e),
        }
    }
}

} // verus!
