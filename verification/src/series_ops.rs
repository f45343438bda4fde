//! The element-order operations of a series, dispatched to its typed
//! column.
use crate::chunked::ChunkedArray;
use crate::error::PolarsError;
use crate::series::Series;
use vstd::prelude::*;

verus! {

impl Series {
    /// The `length` cells from `offset` on, as a new series.
    pub fn slice(&self, offset: usize, length: usize) -> (r: Result<Series, PolarsError>)
        ensures
            match r {
                Ok(out) => {
                    &&& offset + length <= self@.cells.len()
                    &&& out@.name == self@.name
                    &&& out@.dtype == self@.dtype
                    &&& out@.cells == self@.cells.subrange(
                        offset as int,
                        offset as int + length as int,
                    )
                },
                Err(e) => {
                    &&& e == PolarsError::InvalidOperation
                    &&& offset + length > self@.cells.len()
                },
            },
    {
        match self {
            Series::UInt8(ca) => {
                let c = ca.slice(offset, length)?;
                let out = Series::UInt8(c);
                proof {
                    assert(out@.cells =~= self@.cells.subrange(
                        offset as int,
                        offset as int + length as int,
                    ));
                }
                Ok(out)
            },
            Series::UInt16(ca) => {
                let c = ca.slice(offset, length)?;
                let out = Series::UInt16(c);
                proof {
                    assert(out@.cells =~= self@.cells.subrange(
                        offset as int,
                        offset as int + length as int,
                    ));
                }
                Ok(out)
            },
            Series::UInt32(ca) => {
                let c = ca.slice(offset, length)?;
                let out = Series::UInt32(c);
                proof {
                    assert(out@.cells =~= self@.cells.subrange(
                        offset as int,
                        offset as int + length as int,
                    ));
                }
                Ok(out)
            },
            Series::UInt64(ca) => {
                let c = ca.slice(offset, length)?;
                let out = Series::UInt64(c);
                proof {
                    assert(out@.cells =~= self@.cells.subrange(
                        offset as int,
                        offset as int + length as int,
                    ));
                }
                Ok(out)
            },
            Series::Int8(ca) => {
                let c = ca.slice(offset, length)?;
                let out = Series::Int8(c);
                proof {
                    assert(out@.cells =~= self@.cells.subrange(
                        offset as int,
                        offset as int + length as int,
                    ));
                }
                Ok(out)
            },
            Series::Int16(ca) => {
                let c = ca.slice(offset, length)?;
                let out = Series::Int16(c);
                proof {
                    assert(out@.cells =~= self@.cells.subrange(
                        offset as int,
                        offset as int + length as int,
                    ));
                }
                Ok(out)
            },
            Series::Int32(ca) => {
                let c = ca.slice(offset, length)?;
                let out = Series::Int32(c);
                proof {
                    assert(out@.cells =~= self@.cells.subrange(
                        offset as int,
                        offset as int + length as int,
                    ));
                }
                Ok(out)
            },
            Series::Int64(ca) => {
                let c = ca.slice(offset, length)?;
                let out = Series::Int64(c);
                proof {
                    assert(out@.cells =~= self@.cells.subrange(
                        offset as int,
                        offset as int + length as int,
                    ));
                }
                Ok(out)
            },
            Series::Float32(ca) => {
                let c = ca.slice(offset, length)?;
                let out = Series::Float32(c);
                proof {
                    assert(out@.cells =~= self@.cells.subrange(
                        offset as int,
                        offset as int + length as int,
                    ));
                }
                Ok(out)
            },
            Series::Float64(ca) => {
                let c = ca.slice(offset, length)?;
                let out = Series::Float64(c);
                proof {
                    assert(out@.cells =~= self@.cells.subrange(
                        offset as int,
                        offset as int + length as int,
                    ));
                }
                Ok(out)
            },
            Series::Utf8(ca) => {
                let c = ca.slice(offset, length)?;
                let out = Series::Utf8(c);
                proof {
                    assert(out@.cells =~= self@.cells.subrange(
                        offset as int,
                        offset as int + length as int,
                    ));
                }
                Ok(out)
            },
            Series::Bool(ca) => {
                let c = ca.slice(offset, length)?;
                let out = Series::Bool(c);
                proof {
                    assert(out@.cells =~= self@.cells.subrange(
                        offset as int,
                        offset as int + length as int,
                    ));
                }
                Ok(out)
            },
            Series::Date32(ca) => {
                let c = ca.slice(offset, length)?;
                let out = Series::Date32(c);
                proof {
                    assert(out@.cells =~= self@.cells.subrange(
                        offset as int,
                        offset as int + length as int,
                    ));
                }
                Ok(out)
            },
            Series::Date64(ca) => {
                let c = ca.slice(offset, length)?;
                let out = Series::Date64(c);
                proof {
                    assert(out@.cells =~= self@.cells.subrange(
                        offset as int,
                        offset as int + length as int,
                    ));
                }
                Ok(out)
            },
        }
    }

    /// Take the first `num_elements` cells, or all of them when fewer.
    pub fn limit(&self, num_elements: usize) -> (r: Result<Series, PolarsError>)
        ensures
            match r {
                Ok(out) => {
                    &&& out@.name == self@.name
                    &&& out@.dtype == self@.dtype
                    &&& out@.cells == self@.cells.take(
                        min_len(num_elements as int, self@.cells.len() as int),
                    )
                },
                Err(e) => false,
            },
    {
        let n: usize = self.len();
        let take: usize = if num_elements < n {
            num_elements
        } else {
            n
        };
        let r = self.slice(0, take);
        match r {
            Ok(out) => {
                proof {
                    assert(out@.cells =~= self@.cells.take(
                        min_len(num_elements as int, self@.cells.len() as int),
                    ));
                }
                Ok(out)
            },
            Err(e) => Err(e),
        }
    }

    /// Get the head of the Series.
    pub fn head(&self, length: Option<usize>) -> (r: Series)
        ensures
            r@.name == self@.name,
            r@.dtype == self@.dtype,
            r@.cells == self@.cells.take(
                min_len(
                    (match length {
                        Some(l) => l as int,
                        None => 10,
                    }),
                    self@.cells.len() as int,
                ),
            ),
    {
        let n: usize = match length {
            Some(l) => l,
            None => 10,
        };
        let len: usize = self.len();
        let take: usize = if n < len {
            n
        } else {
            len
        };
        let r = self.slice(0, take);
        match r {
            Ok(out) => {
                proof {
                    assert(out@.cells =~= self@.cells.take(
                        min_len(
                            (match length {
                                Some(l) => l as int,
                                None => 10,
                            }),
                            self@.cells.len() as int,
                        ),
                    ));
                }
                out
            },
            Err(_) => {
                proof {
                    assert(false);
                }
                self.duplicate()
            },
        }
    }

    /// Get the tail of the Series.
    pub fn tail(&self, length: Option<usize>) -> (r: Series)
        ensures
            r@.name == self@.name,
            r@.dtype == self@.dtype,
            r@.cells == self@.cells.skip(
                self@.cells.len() - min_len(
                    (match length {
                        Some(l) => l as int,
                        None => 10,
                    }),
                    self@.cells.len() as int,
                ),
            ),
    {
        let n: usize = match length {
            Some(l) => l,
            None => 10,
        };
        let len: usize = self.len();
        let take: usize = if n < len {
            n
        } else {
            len
        };
        let r = self.slice(len - take, take);
        match r {
            Ok(out) => {
                proof {
                    assert(out@.cells =~= self@.cells.skip(
                        self@.cells.len() - min_len(
                            (match length {
                                Some(l) => l as int,
                                None => 10,
                            }),
                            self@.cells.len() as int,
                        ),
                    ));
                }
                out
            },
            Err(_) => {
                proof {
                    assert(false);
                }
                self.duplicate()
            },
        }
    }

    /// The series in reversed order.
    pub fn reverse(&self) -> (r: Series)
        ensures
            r@.name == self@.name,
            r@.dtype == self@.dtype,
            r@.cells.len() == self@.cells.len(),
            forall|k: int|
                0 <= k < self@.cells.len() ==> #[trigger] r@.cells[k] == self@.cells[self@.cells.len()
                    - 1 - k],
    {
        match self {
            Series::UInt8(ca) => {
                let out = Series::UInt8(ca.reverse());
                proof {
                    assert forall|k: int| 0 <= k < self@.cells.len() implies #[trigger] out@.cells[k]
                        == self@.cells[self@.cells.len() - 1 - k] by {}
                }
                out
            },
            Series::UInt16(ca) => {
                let out = Series::UInt16(ca.reverse());
                proof {
                    assert forall|k: int| 0 <= k < self@.cells.len() implies #[trigger] out@.cells[k]
                        == self@.cells[self@.cells.len() - 1 - k] by {}
                }
                out
            },
            Series::UInt32(ca) => {
                let out = Series::UInt32(ca.reverse());
                proof {
                    assert forall|k: int| 0 <= k < self@.cells.len() implies #[trigger] out@.cells[k]
                        == self@.cells[self@.cells.len() - 1 - k] by {}
                }
                out
            },
            Series::UInt64(ca) => {
                let out = Series::UInt64(ca.reverse());
                proof {
                    assert forall|k: int| 0 <= k < self@.cells.len() implies #[trigger] out@.cells[k]
                        == self@.cells[self@.cells.len() - 1 - k] by {}
                }
                out
            },
            Series::Int8(ca) => {
                let out = Series::Int8(ca.reverse());
                proof {
                    assert forall|k: int| 0 <= k < self@.cells.len() implies #[trigger] out@.cells[k]
                        == self@.cells[self@.cells.len() - 1 - k] by {}
                }
                out
            },
            Series::Int16(ca) => {
                let out = Series::Int16(ca.reverse());
                proof {
                    assert forall|k: int| 0 <= k < self@.cells.len() implies #[trigger] out@.cells[k]
                        == self@.cells[self@.cells.len() - 1 - k] by {}
                }
                out
            },
            Series::Int32(ca) => {
                let out = Series::Int32(ca.reverse());
                proof {
                    assert forall|k: int| 0 <= k < self@.cells.len() implies #[trigger] out@.cells[k]
                        == self@.cells[self@.cells.len() - 1 - k] by {}
                }
                out
            },
            Series::Int64(ca) => {
                let out = Series::Int64(ca.reverse());
                proof {
                    assert forall|k: int| 0 <= k < self@.cells.len() implies #[trigger] out@.cells[k]
                        == self@.cells[self@.cells.len() - 1 - k] by {}
                }
                out
            },
            Series::Float32(ca) => {
                let out = Series::Float32(ca.reverse());
                proof {
                    assert forall|k: int| 0 <= k < self@.cells.len() implies #[trigger] out@.cells[k]
                        == self@.cells[self@.cells.len() - 1 - k] by {}
                }
                out
            },
            Series::Float64(ca) => {
                let out = Series::Float64(ca.reverse());
                proof {
                    assert forall|k: int| 0 <= k < self@.cells.len() implies #[trigger] out@.cells[k]
                        == self@.cells[self@.cells.len() - 1 - k] by {}
                }
                out
            },
            Series::Utf8(ca) => {
                let out = Series::Utf8(ca.reverse());
                proof {
                    assert forall|k: int| 0 <= k < self@.cells.len() implies #[trigger] out@.cells[k]
                        == self@.cells[self@.cells.len() - 1 - k] by {}
                }
                out
            },
            Series::Bool(ca) => {
                let out = Series::Bool(ca.reverse());
                proof {
                    assert forall|k: int| 0 <= k < self@.cells.len() implies #[trigger] out@.cells[k]
                        == self@.cells[self@.cells.len() - 1 - k] by {}
                }
                out
            },
            Series::Date32(ca) => {
                let out = Series::Date32(ca.reverse());
                proof {
                    assert forall|k: int| 0 <= k < self@.cells.len() implies #[trigger] out@.cells[k]
                        == self@.cells[self@.cells.len() - 1 - k] by {}
                }
                out
            },
            Series::Date64(ca) => {
                let out = Series::Date64(ca.reverse());
                proof {
                    assert forall|k: int| 0 <= k < self@.cells.len() implies #[trigger] out@.cells[k]
                        == self@.cells[self@.cells.len() - 1 - k] by {}
                }
                out
            },
        }
    }

    /// A boolean mask holding `true` where this series is null.
    pub fn is_null(&self) -> (r: ChunkedArray<bool>)
        ensures
            r@.name == self@.name,
            r@.values.len() == self@.cells.len(),
            forall|k: int|
                0 <= k < self@.cells.len() ==> #[trigger] r@.values[k] == Some(
                    self@.cells[k] is None,
                ),
    {
        match self {
            Series::UInt8(ca) => {
                let out = ca.is_null();
                proof {
                    assert forall|k: int| 0 <= k < self@.cells.len() implies #[trigger] out@.values[k]
                        == Some(self@.cells[k] is None) by {}
                }
                out
            },
            Series::UInt16(ca) => {
                let out = ca.is_null();
                proof {
                    assert forall|k: int| 0 <= k < self@.cells.len() implies #[trigger] out@.values[k]
                        == Some(self@.cells[k] is None) by {}
                }
                out
            },
            Series::UInt32(ca) => {
                let out = ca.is_null();
                proof {
                    assert forall|k: int| 0 <= k < self@.cells.len() implies #[trigger] out@.values[k]
                        == Some(self@.cells[k] is None) by {}
                }
                out
            },
            Series::UInt64(ca) => {
                let out = ca.is_null();
                proof {
                    assert forall|k: int| 0 <= k < self@.cells.len() implies #[trigger] out@.values[k]
                        == Some(self@.cells[k] is None) by {}
                }
                out
            },
            Series::Int8(ca) => {
                let out = ca.is_null();
                proof {
                    assert forall|k: int| 0 <= k < self@.cells.len() implies #[trigger] out@.values[k]
                        == Some(self@.cells[k] is None) by {}
                }
                out
            },
            Series::Int16(ca) => {
                let out = ca.is_null();
                proof {
                    assert forall|k: int| 0 <= k < self@.cells.len() implies #[trigger] out@.values[k]
                        == Some(self@.cells[k] is None) by {}
                }
                out
            },
            Series::Int32(ca) => {
                let out = ca.is_null();
                proof {
                    assert forall|k: int| 0 <= k < self@.cells.len() implies #[trigger] out@.values[k]
                        == Some(self@.cells[k] is None) by {}
                }
                out
            },
            Series::Int64(ca) => {
                let out = ca.is_null();
                proof {
                    assert forall|k: int| 0 <= k < self@.cells.len() implies #[trigger] out@.values[k]
                        == Some(self@.cells[k] is None) by {}
                }
                out
            },
            Series::Float32(ca) => {
                let out = ca.is_null();
                proof {
                    assert forall|k: int| 0 <= k < self@.cells.len() implies #[trigger] out@.values[k]
                        == Some(self@.cells[k] is None) by {}
                }
                out
            },
            Series::Float64(ca) => {
                let out = ca.is_null();
                proof {
                    assert forall|k: int| 0 <= k < self@.cells.len() implies #[trigger] out@.values[k]
                        == Some(self@.cells[k] is None) by {}
                }
                out
            },
            Series::Utf8(ca) => {
                let out = ca.is_null();
                proof {
                    assert forall|k: int| 0 <= k < self@.cells.len() implies #[trigger] out@.values[k]
                        == Some(self@.cells[k] is None) by {}
                }
                out
            },
            Series::Bool(ca) => {
                let out = ca.is_null();
                proof {
                    assert forall|k: int| 0 <= k < self@.cells.len() implies #[trigger] out@.values[k]
                        == Some(self@.cells[k] is None) by {}
                }
                out
            },
            Series::Date32(ca) => {
                let out = ca.is_null();
                proof {
                    assert forall|k: int| 0 <= k < self@.cells.len() implies #[trigger] out@.values[k]
                        == Some(self@.cells[k] is None) by {}
                }
                out
            },
            Series::Date64(ca) => {
                let out = ca.is_null();
                proof {
                    assert forall|k: int| 0 <= k < self@.cells.len() implies #[trigger] out@.values[k]
                        == Some(self@.cells[k] is None) by {}
                }
                out
            },
        }
    }

    /// A boolean mask holding `true` where this series is not null.
    pub fn is_not_null(&self) -> (r: ChunkedArray<bool>)
        ensures
            r@.name == self@.name,
            r@.values.len() == self@.cells.len(),
            forall|k: int|
                0 <= k < self@.cells.len() ==> #[trigger] r@.values[k] == Some(
                    self@.cells[k] is Some,
                ),
    {
        match self {
            Series::UInt8(ca) => {
                let out = ca.is_not_null();
                proof {
                    assert forall|k: int| 0 <= k < self@.cells.len() implies #[trigger] out@.values[k]
                        == Some(self@.cells[k] is Some) by {}
                }
                out
            },
            Series::UInt16(ca) => {
                let out = ca.is_not_null();
                proof {
                    assert forall|k: int| 0 <= k < self@.cells.len() implies #[trigger] out@.values[k]
                        == Some(self@.cells[k] is Some) by {}
                }
                out
            },
            Series::UInt32(ca) => {
                let out = ca.is_not_null();
                proof {
                    assert forall|k: int| 0 <= k < self@.cells.len() implies #[trigger] out@.values[k]
                        == Some(self@.cells[k] is Some) by {}
                }
                out
            },
            Series::UInt64(ca) => {
                let out = ca.is_not_null();
                proof {
                    assert forall|k: int| 0 <= k < self@.cells.len() implies #[trigger] out@.values[k]
                        == Some(self@.cells[k] is Some) by {}
                }
                out
            },
            Series::Int8(ca) => {
                let out = ca.is_not_null();
                proof {
                    assert forall|k: int| 0 <= k < self@.cells.len() implies #[trigger] out@.values[k]
                        == Some(self@.cells[k] is Some) by {}
                }
                out
            },
            Series::Int16(ca) => {
                let out = ca.is_not_null();
                proof {
                    assert forall|k: int| 0 <= k < self@.cells.len() implies #[trigger] out@.values[k]
                        == Some(self@.cells[k] is Some) by {}
                }
                out
            },
            Series::Int32(ca) => {
                let out = ca.is_not_null();
                proof {
                    assert forall|k: int| 0 <= k < self@.cells.len() implies #[trigger] out@.values[k]
                        == Some(self@.cells[k] is Some) by {}
                }
                out
            },
            Series::Int64(ca) => {
                let out = ca.is_not_null();
                proof {
                    assert forall|k: int| 0 <= k < self@.cells.len() implies #[trigger] out@.values[k]
                        == Some(self@.cells[k] is Some) by {}
                }
                out
            },
            Series::Float32(ca) => {
                let out = ca.is_not_null();
                proof {
                    assert forall|k: int| 0 <= k < self@.cells.len() implies #[trigger] out@.values[k]
                        == Some(self@.cells[k] is Some) by {}
                }
                out
            },
            Series::Float64(ca) => {
                let out = ca.is_not_null();
                proof {
                    assert forall|k: int| 0 <= k < self@.cells.len() implies #[trigger] out@.values[k]
                        == Some(self@.cells[k] is Some) by {}
                }
                out
            },
            Series::Utf8(ca) => {
                let out = ca.is_not_null();
                proof {
                    assert forall|k: int| 0 <= k < self@.cells.len() implies #[trigger] out@.values[k]
                        == Some(self@.cells[k] is Some) by {}
                }
                out
            },
            Series::Bool(ca) => {
                let out = ca.is_not_null();
                proof {
                    assert forall|k: int| 0 <= k < self@.cells.len() implies #[trigger] out@.values[k]
                        == Some(self@.cells[k] is Some) by {}
                }
                out
            },
            Series::Date32(ca) => {
                let out = ca.is_not_null();
                proof {
                    assert forall|k: int| 0 <= k < self@.cells.len() implies #[trigger] out@.values[k]
                        == Some(self@.cells[k] is Some) by {}
                }
                out
            },
            Series::Date64(ca) => {
                let out = ca.is_not_null();
                proof {
                    assert forall|k: int| 0 <= k < self@.cells.len() implies #[trigger] out@.values[k]
                        == Some(self@.cells[k] is Some) by {}
                }
                out
            },
        }
    }

    /// A series of `length` copies of the cell at `index`.
    pub fn expand_at_index(&self, index: usize, length: usize) -> (r: Series)
        requires
            index < self@.cells.len(),
        ensures
            r@.name == self@.name,
            r@.dtype == self@.dtype,
            r@.cells.len() == length,
            forall|k: int| 0 <= k < length ==> #[trigger] r@.cells[k] == self@.cells[index as int],
    {
        match self {
            Series::UInt8(ca) => {
                let out = Series::UInt8(ca.expand_at_index(index, length));
                proof {
                    assert forall|k: int| 0 <= k < length implies #[trigger] out@.cells[k]
                        == self@.cells[index as int] by {}
                }
                out
            },
            Series::UInt16(ca) => {
                let out = Series::UInt16(ca.expand_at_index(index, length));
                proof {
                    assert forall|k: int| 0 <= k < length implies #[trigger] out@.cells[k]
                        == self@.cells[index as int] by {}
                }
                out
            },
            Series::UInt32(ca) => {
                let out = Series::UInt32(ca.expand_at_index(index, length));
                proof {
                    assert forall|k: int| 0 <= k < length implies #[trigger] out@.cells[k]
                        == self@.cells[index as int] by {}
                }
                out
            },
            Series::UInt64(ca) => {
                let out = Series::UInt64(ca.expand_at_index(index, length));
                proof {
                    assert forall|k: int| 0 <= k < length implies #[trigger] out@.cells[k]
                        == self@.cells[index as int] by {}
                }
                out
            },
            Series::Int8(ca) => {
                let out = Series::Int8(ca.expand_at_index(index, length));
                proof {
                    assert forall|k: int| 0 <= k < length implies #[trigger] out@.cells[k]
                        == self@.cells[index as int] by {}
                }
                out
            },
            Series::Int16(ca) => {
                let out = Series::Int16(ca.expand_at_index(index, length));
                proof {
                    assert forall|k: int| 0 <= k < length implies #[trigger] out@.cells[k]
                        == self@.cells[index as int] by {}
                }
                out
            },
            Series::Int32(ca) => {
                let out = Series::Int32(ca.expand_at_index(index, length));
                proof {
                    assert forall|k: int| 0 <= k < length implies #[trigger] out@.cells[k]
                        == self@.cells[index as int] by {}
                }
                out
            },
            Series::Int64(ca) => {
                let out = Series::Int64(ca.expand_at_index(index, length));
                proof {
                    assert forall|k: int| 0 <= k < length implies #[trigger] out@.cells[k]
                        == self@.cells[index as int] by {}
                }
                out
            },
            Series::Float32(ca) => {
                let out = Series::Float32(ca.expand_at_index(index, length));
                proof {
                    assert forall|k: int| 0 <= k < length implies #[trigger] out@.cells[k]
                        == self@.cells[index as int] by {}
                }
                out
            },
            Series::Float64(ca) => {
                let out = Series::Float64(ca.expand_at_index(index, length));
                proof {
                    assert forall|k: int| 0 <= k < length implies #[trigger] out@.cells[k]
                        == self@.cells[index as int] by {}
                }
                out
            },
            Series::Utf8(ca) => {
                let out = Series::Utf8(ca.expand_at_index(index, length));
                proof {
                    assert forall|k: int| 0 <= k < length implies #[trigger] out@.cells[k]
                        == self@.cells[index as int] by {}
                }
                out
            },
            Series::Bool(ca) => {
                let out = Series::Bool(ca.expand_at_index(index, length));
                proof {
                    assert forall|k: int| 0 <= k < length implies #[trigger] out@.cells[k]
                        == self@.cells[index as int] by {}
                }
                out
            },
            Series::Date32(ca) => {
                let out = Series::Date32(ca.expand_at_index(index, length));
                proof {
                    assert forall|k: int| 0 <= k < length implies #[trigger] out@.cells[k]
                        == self@.cells[index as int] by {}
                }
                out
            },
            Series::Date64(ca) => {
                let out = Series::Date64(ca.expand_at_index(index, length));
                proof {
                    assert forall|k: int| 0 <= k < length implies #[trigger] out@.cells[k]
                        == self@.cells[index as int] by {}
                }
                out
            },
        }
    }

    /// Take the cells at the given row numbers; one past the end takes a
    /// null.
    pub fn take(&self, indices: &Vec<usize>) -> (r: Series)
        ensures
            r@.name == self@.name,
            r@.dtype == self@.dtype,
            r@.cells.len() == indices@.len(),
            forall|k: int|
                0 <= k < indices@.len() ==> #[trigger] r@.cells[k] == (if indices@[k]
                    < self@.cells.len() {
                    self@.cells[indices@[k] as int]
                } else {
                    None
                }),
    {
        match self {
            Series::UInt8(ca) => {
                let out = Series::UInt8(ca.take(indices));
                proof {
                    assert forall|k: int| 0 <= k < indices@.len() implies #[trigger] out@.cells[k]
                        == (if indices@[k] < self@.cells.len() {
                        self@.cells[indices@[k] as int]
                    } else {
                        None
                    }) by {}
                }
                out
            },
            Series::UInt16(ca) => {
                let out = Series::UInt16(ca.take(indices));
                proof {
                    assert forall|k: int| 0 <= k < indices@.len() implies #[trigger] out@.cells[k]
                        == (if indices@[k] < self@.cells.len() {
                        self@.cells[indices@[k] as int]
                    } else {
                        None
                    }) by {}
                }
                out
            },
            Series::UInt32(ca) => {
                let out = Series::UInt32(ca.take(indices));
                proof {
                    assert forall|k: int| 0 <= k < indices@.len() implies #[trigger] out@.cells[k]
                        == (if indices@[k] < self@.cells.len() {
                        self@.cells[indices@[k] as int]
                    } else {
                        None
                    }) by {}
                }
                out
            },
            Series::UInt64(ca) => {
                let out = Series::UInt64(ca.take(indices));
                proof {
                    assert forall|k: int| 0 <= k < indices@.len() implies #[trigger] out@.cells[k]
                        == (if indices@[k] < self@.cells.len() {
                        self@.cells[indices@[k] as int]
                    } else {
                        None
                    }) by {}
                }
                out
            },
            Series::Int8(ca) => {
                let out = Series::Int8(ca.take(indices));
                proof {
                    assert forall|k: int| 0 <= k < indices@.len() implies #[trigger] out@.cells[k]
                        == (if indices@[k] < self@.cells.len() {
                        self@.cells[indices@[k] as int]
                    } else {
                        None
                    }) by {}
                }
                out
            },
            Series::Int16(ca) => {
                let out = Series::Int16(ca.take(indices));
                proof {
                    assert forall|k: int| 0 <= k < indices@.len() implies #[trigger] out@.cells[k]
                        == (if indices@[k] < self@.cells.len() {
                        self@.cells[indices@[k] as int]
                    } else {
                        None
                    }) by {}
                }
                out
            },
            Series::Int32(ca) => {
                let out = Series::Int32(ca.take(indices));
                proof {
                    assert forall|k: int| 0 <= k < indices@.len() implies #[trigger] out@.cells[k]
                        == (if indices@[k] < self@.cells.len() {
                        self@.cells[indices@[k] as int]
                    } else {
                        None
                    }) by {}
                }
                out
            },
            Series::Int64(ca) => {
                let out = Series::Int64(ca.take(indices));
                proof {
                    assert forall|k: int| 0 <= k < indices@.len() implies #[trigger] out@.cells[k]
                        == (if indices@[k] < self@.cells.len() {
                        self@.cells[indices@[k] as int]
                    } else {
                        None
                    }) by {}
                }
                out
            },
            Series::Float32(ca) => {
                let out = Series::Float32(ca.take(indices));
                proof {
                    assert forall|k: int| 0 <= k < indices@.len() implies #[trigger] out@.cells[k]
                        == (if indices@[k] < self@.cells.len() {
                        self@.cells[indices@[k] as int]
                    } else {
                        None
                    }) by {}
                }
                out
            },
            Series::Float64(ca) => {
                let out = Series::Float64(ca.take(indices));
                proof {
                    assert forall|k: int| 0 <= k < indices@.len() implies #[trigger] out@.cells[k]
                        == (if indices@[k] < self@.cells.len() {
                        self@.cells[indices@[k] as int]
                    } else {
                        None
                    }) by {}
                }
                out
            },
            Series::Utf8(ca) => {
                let out = Series::Utf8(ca.take(indices));
                proof {
                    assert forall|k: int| 0 <= k < indices@.len() implies #[trigger] out@.cells[k]
                        == (if indices@[k] < self@.cells.len() {
                        self@.cells[indices@[k] as int]
                    } else {
                        None
                    }) by {}
                }
                out
            },
            Series::Bool(ca) => {
                let out = Series::Bool(ca.take(indices));
                proof {
                    assert forall|k: int| 0 <= k < indices@.len() implies #[trigger] out@.cells[k]
                        == (if indices@[k] < self@.cells.len() {
                        self@.cells[indices@[k] as int]
                    } else {
                        None
                    }) by {}
                }
                out
            },
            Series::Date32(ca) => {
                let out = Series::Date32(ca.take(indices));
                proof {
                    assert forall|k: int| 0 <= k < indices@.len() implies #[trigger] out@.cells[k]
                        == (if indices@[k] < self@.cells.len() {
                        self@.cells[indices@[k] as int]
                    } else {
                        None
                    }) by {}
                }
                out
            },
            Series::Date64(ca) => {
                let out = Series::Date64(ca.take(indices));
                proof {
                    assert forall|k: int| 0 <= k < indices@.len() implies #[trigger] out@.cells[k]
                        == (if indices@[k] < self@.cells.len() {
                        self@.cells[indices@[k] as int]
                    } else {
                        None
                    }) by {}
                }
                out
            },
        }
    }

    /// Move the cells `periods` places, filling the uncovered places
    /// with nulls.
    pub fn shift(&self, periods: i32) -> (r: Result<Series, PolarsError>)
        ensures
            match r {
                Ok(out) => {
                    &&& out@.name == self@.name
                    &&& out@.dtype == self@.dtype
                    &&& out@.cells.len() == self@.cells.len()
                    &&& forall|k: int|
                        0 <= k < self@.cells.len() ==> #[trigger] out@.cells[k] == (if 0 <= k
                            - periods < self@.cells.len() {
                            self@.cells[k - periods]
                        } else {
                            None
                        })
                },
                Err(e) => false,
            },
    {
        match self {
            Series::UInt8(ca) => {
                let out = Series::UInt8(ca.shift(periods));
                proof {
                    assert forall|k: int| 0 <= k < self@.cells.len() implies #[trigger] out@.cells[k]
                        == (if 0 <= k - periods < self@.cells.len() {
                        self@.cells[k - periods]
                    } else {
                        None
                    }) by {}
                }
                Ok(out)
            },
            Series::UInt16(ca) => {
                let out = Series::UInt16(ca.shift(periods));
                proof {
                    assert forall|k: int| 0 <= k < self@.cells.len() implies #[trigger] out@.cells[k]
                        == (if 0 <= k - periods < self@.cells.len() {
                        self@.cells[k - periods]
                    } else {
                        None
                    }) by {}
                }
                Ok(out)
            },
            Series::UInt32(ca) => {
                let out = Series::UInt32(ca.shift(periods));
                proof {
                    assert forall|k: int| 0 <= k < self@.cells.len() implies #[trigger] out@.cells[k]
                        == (if 0 <= k - periods < self@.cells.len() {
                        self@.cells[k - periods]
                    } else {
                        None
                    }) by {}
                }
                Ok(out)
            },
            Series::UInt64(ca) => {
                let out = Series::UInt64(ca.shift(periods));
                proof {
                    assert forall|k: int| 0 <= k < self@.cells.len() implies #[trigger] out@.cells[k]
                        == (if 0 <= k - periods < self@.cells.len() {
                        self@.cells[k - periods]
                    } else {
                        None
                    }) by {}
                }
                Ok(out)
            },
            Series::Int8(ca) => {
                let out = Series::Int8(ca.shift(periods));
                proof {
                    assert forall|k: int| 0 <= k < self@.cells.len() implies #[trigger] out@.cells[k]
                        == (if 0 <= k - periods < self@.cells.len() {
                        self@.cells[k - periods]
                    } else {
                        None
                    }) by {}
                }
                Ok(out)
            },
            Series::Int16(ca) => {
                let out = Series::Int16(ca.shift(periods));
                proof {
                    assert forall|k: int| 0 <= k < self@.cells.len() implies #[trigger] out@.cells[k]
                        == (if 0 <= k - periods < self@.cells.len() {
                        self@.cells[k - periods]
                    } else {
                        None
                    }) by {}
                }
                Ok(out)
            },
            Series::Int32(ca) => {
                let out = Series::Int32(ca.shift(periods));
                proof {
                    assert forall|k: int| 0 <= k < self@.cells.len() implies #[trigger] out@.cells[k]
                        == (if 0 <= k - periods < self@.cells.len() {
                        self@.cells[k - periods]
                    } else {
                        None
                    }) by {}
                }
                Ok(out)
            },
            Series::Int64(ca) => {
                let out = Series::Int64(ca.shift(periods));
                proof {
                    assert forall|k: int| 0 <= k < self@.cells.len() implies #[trigger] out@.cells[k]
                        == (if 0 <= k - periods < self@.cells.len() {
                        self@.cells[k - periods]
                    } else {
                        None
                    }) by {}
                }
                Ok(out)
            },
            Series::Float32(ca) => {
                let out = Series::Float32(ca.shift(periods));
                proof {
                    assert forall|k: int| 0 <= k < self@.cells.len() implies #[trigger] out@.cells[k]
                        == (if 0 <= k - periods < self@.cells.len() {
                        self@.cells[k - periods]
                    } else {
                        None
                    }) by {}
                }
                Ok(out)
            },
            Series::Float64(ca) => {
                let out = Series::Float64(ca.shift(periods));
                proof {
                    assert forall|k: int| 0 <= k < self@.cells.len() implies #[trigger] out@.cells[k]
                        == (if 0 <= k - periods < self@.cells.len() {
                        self@.cells[k - periods]
                    } else {
                        None
                    }) by {}
                }
                Ok(out)
            },
            Series::Utf8(ca) => {
                let out = Series::Utf8(ca.shift(periods));
                proof {
                    assert forall|k: int| 0 <= k < self@.cells.len() implies #[trigger] out@.cells[k]
                        == (if 0 <= k - periods < self@.cells.len() {
                        self@.cells[k - periods]
                    } else {
                        None
                    }) by {}
                }
                Ok(out)
            },
            Series::Bool(ca) => {
                let out = Series::Bool(ca.shift(periods));
                proof {
                    assert forall|k: int| 0 <= k < self@.cells.len() implies #[trigger] out@.cells[k]
                        == (if 0 <= k - periods < self@.cells.len() {
                        self@.cells[k - periods]
                    } else {
                        None
                    }) by {}
                }
                Ok(out)
            },
            Series::Date32(ca) => {
                let out = Series::Date32(ca.shift(periods));
                proof {
                    assert forall|k: int| 0 <= k < self@.cells.len() implies #[trigger] out@.cells[k]
                        == (if 0 <= k - periods < self@.cells.len() {
                        self@.cells[k - periods]
                    } else {
                        None
                    }) by {}
                }
                Ok(out)
            },
            Series::Date64(ca) => {
                let out = Series::Date64(ca.shift(periods));
                proof {
                    assert forall|k: int| 0 <= k < self@.cells.len() implies #[trigger] out@.cells[k]
                        == (if 0 <= k - periods < self@.cells.len() {
                        self@.cells[k - periods]
                    } else {
                        None
                    }) by {}
                }
                Ok(out)
            },
        }
    }

    /// Aggregate all chunks to a contiguous array of memory; the data is
    /// already contiguous, so this is a copy.
    pub fn rechunk(&self, chunk_lengths: Option<&Vec<usize>>) -> (r: Result<Series, PolarsError>)
        ensures
            match r {
                Ok(out) => out@ == self@,
                Err(e) => false,
            },
    {
        Ok(self.duplicate())
    }
}

/// The smaller of two lengths.
pub open spec fn min_len(a: int, b: int) -> int {
    if a < b {
        a
    } else {
        b
    }
}

} // verus!
