//! Time-of-day extraction from timestamp series.
use crate::chunked::ChunkedArray;
use crate::error::PolarsError;
use crate::datatypes::DataType;
use crate::series::{CellValue, Series};
use vstd::arithmetic::div_mod::{
    lemma_fundamental_div_mod, lemma_fundamental_div_mod_converse,
};
use vstd::prelude::*;

verus! {

/// The millisecond of its day of a timestamp in milliseconds, the day
/// boundary taken by flooring, so that times before the epoch read like
/// any other.
pub open spec fn ms_of_day(ms: int) -> int {
    ms % 86400000
}

/// The hour a millisecond timestamp falls in, 0 to 23.
pub open spec fn hour_of(ms: int) -> int {
    ms_of_day(ms) / 3600000
}

/// The minute within the hour, 0 to 59.
pub open spec fn minute_of(ms: int) -> int {
    (ms % 3600000) / 60000
}

/// The second within the minute, 0 to 59.
pub open spec fn second_of(ms: int) -> int {
    (ms % 60000) / 1000
}

/// The nanoseconds past the whole second.
pub open spec fn nanosecond_of(ms: int) -> int {
    (ms % 1000) * 1000000
}

/// The timestamp's remainder modulo `m`, floored, as machine values.
fn euclid_mod(ms: i64, m: u64) -> (r: u64)
    requires
        1 <= m <= 86400000,
    ensures
        r as int == (ms as int) % (m as int),
        r < m,
{
    if ms >= 0 {
        let r = (ms as u64) % m;
        proof {
            lemma_fundamental_div_mod(ms as int, m as int);
        }
        r
    } else {
        let n: u128 = (-(ms as i128)) as u128;
        let rem: u64 = (n % (m as u128)) as u64;
        proof {
            let ni = n as int;
            let mi = m as int;
            lemma_fundamental_div_mod(ni, mi);
            let q = ni / mi;
            let rr = ni % mi;
            if rr > 0 {
                assert(ms as int == (-q - 1) * mi + (mi - rr)) by (nonlinear_arith)
                    requires
                        ni == mi * q + rr,
                        ms as int == -ni,
                ;
                lemma_fundamental_div_mod_converse(ms as int, mi, -q - 1, mi - rr);
            } else {
                assert(ms as int == (-q) * mi + 0) by (nonlinear_arith)
                    requires
                        ni == mi * q + rr,
                        rr == 0,
                        ms as int == -ni,
                ;
                lemma_fundamental_div_mod_converse(ms as int, mi, -q, 0);
            }
        }
        if rem == 0 {
            0
        } else {
            m - rem
        }
    }
}

impl Series {
    /// Extract the hour of day, 0 to 23, from a millisecond timestamp
    /// series.
    pub fn hour(&self) -> (r: Result<Series, PolarsError>)
        ensures
            match r {
                Ok(out) => {
                    &&& self is Date64
                    &&& out@.name == self@.name
                    &&& out@.dtype == DataType::UInt32
                    &&& out@.cells.len() == self@.cells.len()
                    &&& forall|k: int|
                        0 <= k < self@.cells.len() ==> #[trigger] out@.cells[k] == (match self@.cells[k] {
                            Some(CellValue::I64(ms)) => Some(
                                CellValue::U32(hour_of(ms as int) as u32),
                            ),
                            _ => None,
                        })
                },
                Err(e) => {
                    &&& e == PolarsError::InvalidOperation
                    &&& !(self is Date64)
                },
            },
    {
        match self {
            Series::Date64(ca) => {
                let mut out: Vec<Option<u32>> = Vec::new();
                let mut i: usize = 0;
                while i < ca.values.len()
                    invariant
                        i <= ca@.values.len(),
                        self == Series::Date64(*ca),
                        out@.len() == i,
                        forall|k: int|
                            0 <= k < i ==> #[trigger] out@[k] == (match ca@.values[k] {
                                Some(ms) => Some(hour_of(ms as int) as u32),
                                None => None,
                            }),
                    decreases ca@.values.len() - i,
                {
                    match &ca.values[i] {
                        Some(ms) => {
                            let md: u64 = euclid_mod(*ms, 86400000);
                            out.push(Some((md / 3600000) as u32));
                        },
                        None => out.push(None),
                    }
                    i = i + 1;
                }
                let r = Series::UInt32(ChunkedArray { name: ca.name.clone(), values: out });
                proof {
                    assert forall|k: int| 0 <= k < self@.cells.len() implies #[trigger] r@.cells[k]
                        == (match self@.cells[k] {
                        Some(CellValue::I64(ms)) => Some(CellValue::U32(hour_of(ms as int) as u32)),
                        _ => None,
                    }) by {}
                }
                Ok(r)
            },
            _ => Err(PolarsError::InvalidOperation),
        }
    }

    /// Extract the minute within the hour, 0 to 59.
    pub fn minute(&self) -> (r: Result<Series, PolarsError>)
        ensures
            match r {
                Ok(out) => {
                    &&& self is Date64
                    &&& out@.name == self@.name
                    &&& out@.dtype == DataType::UInt32
                    &&& out@.cells.len() == self@.cells.len()
                    &&& forall|k: int|
                        0 <= k < self@.cells.len() ==> #[trigger] out@.cells[k] == (match self@.cells[k] {
                            Some(CellValue::I64(ms)) => Some(
                                CellValue::U32(minute_of(ms as int) as u32),
                            ),
                            _ => None,
                        })
                },
                Err(e) => {
                    &&& e == PolarsError::InvalidOperation
                    &&& !(self is Date64)
                },
            },
    {
        match self {
            Series::Date64(ca) => {
                let mut out: Vec<Option<u32>> = Vec::new();
                let mut i: usize = 0;
                while i < ca.values.len()
                    invariant
                        i <= ca@.values.len(),
                        self == Series::Date64(*ca),
                        out@.len() == i,
                        forall|k: int|
                            0 <= k < i ==> #[trigger] out@[k] == (match ca@.values[k] {
                                Some(ms) => Some(minute_of(ms as int) as u32),
                                None => None,
                            }),
                    decreases ca@.values.len() - i,
                {
                    match &ca.values[i] {
                        Some(ms) => {
                            let md: u64 = euclid_mod(*ms, 3600000);
                            out.push(Some((md / 60000) as u32));
                        },
                        None => out.push(None),
                    }
                    i = i + 1;
                }
                let r = Series::UInt32(ChunkedArray { name: ca.name.clone(), values: out });
                proof {
                    assert forall|k: int| 0 <= k < self@.cells.len() implies #[trigger] r@.cells[k]
                        == (match self@.cells[k] {
                        Some(CellValue::I64(ms)) => Some(
                            CellValue::U32(minute_of(ms as int) as u32),
                        ),
                        _ => None,
                    }) by {}
                }
                Ok(r)
            },
            _ => Err(PolarsError::InvalidOperation),
        }
    }

    /// Extract the second within the minute, 0 to 59.
    pub fn second(&self) -> (r: Result<Series, PolarsError>)
        ensures
            match r {
                Ok(out) => {
                    &&& self is Date64
                    &&& out@.name == self@.name
                    &&& out@.dtype == DataType::UInt32
                    &&& out@.cells.len() == self@.cells.len()
                    &&& forall|k: int|
                        0 <= k < self@.cells.len() ==> #[trigger] out@.cells[k] == (match self@.cells[k] {
                            Some(CellValue::I64(ms)) => Some(
                                CellValue::U32(second_of(ms as int) as u32),
                            ),
                            _ => None,
                        })
                },
                Err(e) => {
                    &&& e == PolarsError::InvalidOperation
                    &&& !(self is Date64)
                },
            },
    {
        match self {
            Series::Date64(ca) => {
                let mut out: Vec<Option<u32>> = Vec::new();
                let mut i: usize = 0;
                while i < ca.values.len()
                    invariant
                        i <= ca@.values.len(),
                        self == Series::Date64(*ca),
                        out@.len() == i,
                        forall|k: int|
                            0 <= k < i ==> #[trigger] out@[k] == (match ca@.values[k] {
                                Some(ms) => Some(second_of(ms as int) as u32),
                                None => None,
                            }),
                    decreases ca@.values.len() - i,
                {
                    match &ca.values[i] {
                        Some(ms) => {
                            let md: u64 = euclid_mod(*ms, 60000);
                            out.push(Some((md / 1000) as u32));
                        },
                        None => out.push(None),
                    }
                    i = i + 1;
                }
                let r = Series::UInt32(ChunkedArray { name: ca.name.clone(), values: out });
                proof {
                    assert forall|k: int| 0 <= k < self@.cells.len() implies #[trigger] r@.cells[k]
                        == (match self@.cells[k] {
                        Some(CellValue::I64(ms)) => Some(
                            CellValue::U32(second_of(ms as int) as u32),
                        ),
                        _ => None,
                    }) by {}
                }
                Ok(r)
            },
            _ => Err(PolarsError::InvalidOperation),
        }
    }

    /// The nanoseconds past the whole second of each timestamp.
    pub fn nanosecond(&self) -> (r: Result<Series, PolarsError>)
        ensures
            match r {
                Ok(out) => {
                    &&& self is Date64
                    &&& out@.name == self@.name
                    &&& out@.dtype == DataType::UInt32
                    &&& out@.cells.len() == self@.cells.len()
                    &&& forall|k: int|
                        0 <= k < self@.cells.len() ==> #[trigger] out@.cells[k] == (match self@.cells[k] {
                            Some(CellValue::I64(ms)) => Some(
                                CellValue::U32(nanosecond_of(ms as int) as u32),
                            ),
                            _ => None,
                        })
                },
                Err(e) => {
                    &&& e == PolarsError::InvalidOperation
                    &&& !(self is Date64)
                },
            },
    {
        match self {
            Series::Date64(ca) => {
                let mut out: Vec<Option<u32>> = Vec::new();
                let mut i: usize = 0;
                while i < ca.values.len()
                    invariant
                        i <= ca@.values.len(),
                        self == Series::Date64(*ca),
                        out@.len() == i,
                        forall|k: int|
                            0 <= k < i ==> #[trigger] out@[k] == (match ca@.values[k] {
                                Some(ms) => Some(nanosecond_of(ms as int) as u32),
                                None => None,
                            }),
                    decreases ca@.values.len() - i,
                {
                    match &ca.values[i] {
                        Some(ms) => {
                            let md: u64 = euclid_mod(*ms, 1000);
                            out.push(Some((md * 1000000) as u32));
                        },
                        None => out.push(None),
                    }
                    i = i + 1;
                }
                let r = Series::UInt32(ChunkedArray { name: ca.name.clone(), values: out });
                proof {
                    assert forall|k: int| 0 <= k < self@.cells.len() implies #[trigger] r@.cells[k]
                        == (match self@.cells[k] {
                        Some(CellValue::I64(ms)) => Some(
                            CellValue::U32(nanosecond_of(ms as int) as u32),
                        ),
                        _ => None,
                    }) by {}
                }
                Ok(r)
            },
            _ => Err(PolarsError::InvalidOperation),
        }
    }
}

} // verus!
