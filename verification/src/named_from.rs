//! Construction of a series by name and values.
use crate::chunked::{ChunkedArray, Utf8Chunked};
use crate::floatval::FloatValue;
use crate::series::{Series, SeriesSpec};
use vstd::prelude::*;

verus! {

/// Initialize by name and values.
pub trait NamedFrom<T>: Sized + View<V = SeriesSpec> {
    fn new(name: &str, v: T) -> (r: Self)
        ensures
            r@.name == name@,
    ;
}

impl<'a> NamedFrom<&'a [bool]> for Series {
    fn new(name: &str, v: &'a [bool]) -> Self {
        Series::Bool(ChunkedArray::new_from_slice(name, v))
    }
}

impl<'a> NamedFrom<&'a [u8]> for Series {
    fn new(name: &str, v: &'a [u8]) -> Self {
        Series::UInt8(ChunkedArray::new_from_slice(name, v))
    }
}

impl<'a> NamedFrom<&'a [u16]> for Series {
    fn new(name: &str, v: &'a [u16]) -> Self {
        Series::UInt16(ChunkedArray::new_from_slice(name, v))
    }
}

impl<'a> NamedFrom<&'a [u32]> for Series {
    fn new(name: &str, v: &'a [u32]) -> Self {
        Series::UInt32(ChunkedArray::new_from_slice(name, v))
    }
}

impl<'a> NamedFrom<&'a [u64]> for Series {
    fn new(name: &str, v: &'a [u64]) -> Self {
        Series::UInt64(ChunkedArray::new_from_slice(name, v))
    }
}

impl<'a> NamedFrom<&'a [i8]> for Series {
    fn new(name: &str, v: &'a [i8]) -> Self {
        Series::Int8(ChunkedArray::new_from_slice(name, v))
    }
}

impl<'a> NamedFrom<&'a [i16]> for Series {
    fn new(name: &str, v: &'a [i16]) -> Self {
        Series::Int16(ChunkedArray::new_from_slice(name, v))
    }
}

impl<'a> NamedFrom<&'a [i32]> for Series {
    fn new(name: &str, v: &'a [i32]) -> Self {
        Series::Int32(ChunkedArray::new_from_slice(name, v))
    }
}

impl<'a> NamedFrom<&'a [i64]> for Series {
    fn new(name: &str, v: &'a [i64]) -> Self {
        Series::Int64(ChunkedArray::new_from_slice(name, v))
    }
}

impl<'a> NamedFrom<&'a [FloatValue]> for Series {
    fn new(name: &str, v: &'a [FloatValue]) -> Self {
        Series::Float64(ChunkedArray::new_from_slice(name, v))
    }
}

impl<'a> NamedFrom<&'a [Option<i32>]> for Series {
    fn new(name: &str, v: &'a [Option<i32>]) -> Self {
        Series::Int32(ChunkedArray::new_from_opt_slice(name, v))
    }
}

impl<'a> NamedFrom<&'a [Option<i64>]> for Series {
    fn new(name: &str, v: &'a [Option<i64>]) -> Self {
        Series::Int64(ChunkedArray::new_from_opt_slice(name, v))
    }
}

impl<'a> NamedFrom<&'a [Option<bool>]> for Series {
    fn new(name: &str, v: &'a [Option<bool>]) -> Self {
        Series::Bool(ChunkedArray::new_from_opt_slice(name, v))
    }
}

impl<'a, 'b> NamedFrom<&'a [&'b str]> for Series {
    fn new(name: &str, v: &'a [&'b str]) -> Self {
        let mut ca = Utf8Chunked::new(name);
        let mut i: usize = 0;
        while i < v.len()
            invariant
                ca@.name == name@,
            decreases v@.len() - i,
        {
            ca.append_value(String::from_str(v[i]));
            i = i + 1;
        }
        Series::Utf8(ca)
    }
}

impl Series {
    /// Wrap a typed integer column as the series of its type.
    pub fn from_chunked_array(ca: ChunkedArray<i32>) -> (r: Series)
        ensures
            r == Series::Int32(ca),
    {
        Series::Int32(ca)
    }
}

impl ChunkedArray<i32> {
    /// Wrap the typed column as the series of its type.
    pub fn into_series(self) -> (r: Series)
        ensures
            r == Series::Int32(self),
    {
        Series::Int32(self)
    }
}

} // verus!
