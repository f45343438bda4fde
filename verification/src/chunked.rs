//! The typed growable column: a name plus a buffer of optional values,
//! where `None` marks a null.
use crate::error::PolarsError;
use crate::floatval::FloatValue;
use vstd::prelude::*;

verus! {

/// A value that a column can hold: it can be duplicated, and the duplicate
/// equals the original.
pub trait Native: Sized {
    fn dup(&self) -> (r: Self)
        ensures
            r == *self,
    ;
}

impl Native for bool {
    fn dup(&self) -> (r: Self)
        ensures
            r == *self,
    {
        *self
    }
}

impl Native for u8 {
    fn dup(&self) -> (r: Self)
        ensures
            r == *self,
    {
        *self
    }
}

impl Native for u16 {
    fn dup(&self) -> (r: Self)
        ensures
            r == *self,
    {
        *self
    }
}

impl Native for u32 {
    fn dup(&self) -> (r: Self)
        ensures
            r == *self,
    {
        *self
    }
}

impl Native for u64 {
    fn dup(&self) -> (r: Self)
        ensures
            r == *self,
    {
        *self
    }
}

impl Native for i8 {
    fn dup(&self) -> (r: Self)
        ensures
            r == *self,
    {
        *self
    }
}

impl Native for i16 {
    fn dup(&self) -> (r: Self)
        ensures
            r == *self,
    {
        *self
    }
}

impl Native for i32 {
    fn dup(&self) -> (r: Self)
        ensures
            r == *self,
    {
        *self
    }
}

impl Native for i64 {
    fn dup(&self) -> (r: Self)
        ensures
            r == *self,
    {
        *self
    }
}

impl Native for FloatValue {
    fn dup(&self) -> (r: Self)
        ensures
            r == *self,
    {
        *self
    }
}

impl Native for String {
    fn dup(&self) -> (r: Self)
        ensures
            r == *self,
    {
        self.clone()
    }
}

/// The mathematical value of a column: its name and its optional values.
pub struct ChunkedSpec<T> {
    pub name: Seq<char>,
    pub values: Seq<Option<T>>,
}

/// A typed column: a growable buffer of optional values with a name.
/// `None` stands for a null.  The buffer and the null information always
/// have the same length, values and nulls being one sequence of options.
#[derive(Debug)]
pub struct ChunkedArray<T> {
    pub name: String,
    pub values: Vec<Option<T>>,
}

pub type BooleanChunked = ChunkedArray<bool>;

pub type UInt8Chunked = ChunkedArray<u8>;

pub type UInt16Chunked = ChunkedArray<u16>;

pub type UInt32Chunked = ChunkedArray<u32>;

pub type UInt64Chunked = ChunkedArray<u64>;

pub type Int8Chunked = ChunkedArray<i8>;

pub type Int16Chunked = ChunkedArray<i16>;

pub type Int32Chunked = ChunkedArray<i32>;

pub type Int64Chunked = ChunkedArray<i64>;

pub type Float32Chunked = ChunkedArray<FloatValue>;

pub type Float64Chunked = ChunkedArray<FloatValue>;

pub type Utf8Chunked = ChunkedArray<String>;

pub type Date32Chunked = ChunkedArray<i32>;

pub type Date64Chunked = ChunkedArray<i64>;

impl<T> View for ChunkedArray<T> {
    type V = ChunkedSpec<T>;

    open spec fn view(&self) -> ChunkedSpec<T> {
        ChunkedSpec { name: self.name@, values: self.values@ }
    }
}

/// The values of `vals` kept at the positions where `mask` holds
/// `Some(true)`, in order.
pub open spec fn mask_filter<T>(vals: Seq<Option<T>>, mask: Seq<Option<bool>>) -> Seq<Option<T>>
    decreases vals.len(),
{
    if vals.len() == 0 || mask.len() == 0 {
        Seq::empty()
    } else {
        let rest = mask_filter(vals.drop_last(), mask.drop_last());
        if mask.last() == Some(true) {
            rest.push(vals.last())
        } else {
            rest
        }
    }
}

/// How many of the options are `None`.
pub open spec fn count_nulls<T>(vals: Seq<Option<T>>) -> nat
    decreases vals.len(),
{
    if vals.len() == 0 {
        0nat
    } else {
        count_nulls(vals.drop_last()) + if vals.last() is None {
            1nat
        } else {
            0nat
        }
    }
}

impl<T: Native> ChunkedArray<T> {
    /// An empty column with the given name.
    pub fn new(name: &str) -> (r: Self)
        ensures
            r@.name == name@,
            r@.values == Seq::<Option<T>>::empty(),
    {
        ChunkedArray { name: String::from_str(name), values: Vec::new() }
    }

    /// An empty column pre-sized for `capacity` values; the buffer then
    /// grows by doubling as values outgrow it.
    pub fn with_capacity(name: &str, capacity: usize) -> (r: Self)
        ensures
            r@.name == name@,
            r@.values == Seq::<Option<T>>::empty(),
    {
        ChunkedArray { name: String::from_str(name), values: Vec::with_capacity(capacity) }
    }

    /// A column holding every value of `v`, none of them null.
    pub fn new_from_slice(name: &str, v: &[T]) -> (r: Self)
        ensures
            r@.name == name@,
            r@.values == v@.map_values(|x: T| Some(x)),
    {
        let mut values: Vec<Option<T>> = Vec::new();
        let mut i: usize = 0;
        while i < v.len()
            invariant
                i <= v@.len(),
                values@.len() == i,
                forall|k: int| 0 <= k < i ==> values@[k] == Some(v@[k]),
            decreases v@.len() - i,
        {
            values.push(Some(v[i].dup()));
            i = i + 1;
        }
        proof {
            assert(values@ =~= v@.map_values(|x: T| Some(x)));
        }
        ChunkedArray { name: String::from_str(name), values }
    }

    /// A column holding every option of `v` as it stands.
    pub fn new_from_opt_slice(name: &str, v: &[Option<T>]) -> (r: Self)
        ensures
            r@.name == name@,
            r@.values == v@,
    {
        let mut values: Vec<Option<T>> = Vec::new();
        let mut i: usize = 0;
        while i < v.len()
            invariant
                i <= v@.len(),
                values@ =~= v@.subrange(0, i as int),
            decreases v@.len() - i,
        {
            match &v[i] {
                Some(x) => values.push(Some(x.dup())),
                None => values.push(None),
            }
            proof {
                assert(values@ =~= v@.subrange(0, i + 1));
            }
            i = i + 1;
        }
        proof {
            assert(values@ =~= v@);
        }
        ChunkedArray { name: String::from_str(name), values }
    }

    /// The column's name.
    pub fn name(&self) -> (r: &String)
        ensures
            r@ == self@.name,
    {
        &self.name
    }

    /// Give the column a new name.
    pub fn rename(&mut self, name: &str)
        ensures
            final(self)@.name == name@,
            final(self)@.values == old(self)@.values,
    {
        self.name = String::from_str(name);
    }

    /// The number of values, nulls included.
    pub fn len(&self) -> (r: usize)
        ensures
            r == self@.values.len(),
    {
        self.values.len()
    }

    pub fn is_empty(&self) -> (r: bool)
        ensures
            r == (self@.values.len() == 0),
    {
        self.values.len() == 0
    }

    /// The value at `index`.
    pub fn get(&self, index: usize) -> (r: Option<T>)
        requires
            index < self@.values.len(),
        ensures
            r == self@.values[index as int],
    {
        match &self.values[index] {
            Some(x) => Some(x.dup()),
            None => None,
        }
    }

    pub fn append_value(&mut self, v: T)
        ensures
            final(self)@.name == old(self)@.name,
            final(self)@.values == old(self)@.values.push(Some(v)),
    {
        self.values.push(Some(v));
    }

    pub fn append_null(&mut self)
        ensures
            final(self)@.name == old(self)@.name,
            final(self)@.values == old(self)@.values.push(None::<T>),
    {
        self.values.push(None);
    }

    pub fn append_option(&mut self, v: Option<T>)
        ensures
            final(self)@.name == old(self)@.name,
            final(self)@.values == old(self)@.values.push(v),
    {
        self.values.push(v);
    }

    /// Append every value of `other` in place, keeping this column's name.
    pub fn append(&mut self, other: &Self)
        ensures
            final(self)@.name == old(self)@.name,
            final(self)@.values == old(self)@.values + other@.values,
    {
        let mut i: usize = 0;
        while i < other.values.len()
            invariant
                i <= other@.values.len(),
                self@.name == old(self)@.name,
                self@.values =~= old(self)@.values + other@.values.subrange(0, i as int),
            decreases other@.values.len() - i,
        {
            match &other.values[i] {
                Some(x) => self.values.push(Some(x.dup())),
                None => self.values.push(None),
            }
            proof {
                assert(self@.values =~= old(self)@.values + other@.values.subrange(0, i + 1));
            }
            i = i + 1;
        }
        proof {
            assert(self@.values =~= old(self)@.values + other@.values);
        }
    }

    /// A copy of the column.
    pub fn duplicate(&self) -> (r: Self)
        ensures
            r@ == self@,
    {
        let mut r = ChunkedArray::<T>::new("");
        r.append(self);
        let out = ChunkedArray { name: self.name.clone(), values: r.values };
        proof {
            assert(out@ =~= self@);
        }
        out
    }

    /// The `length` values from `offset` on, as a new column.  Fails when
    /// the requested window reaches past the end.
    pub fn slice(&self, offset: usize, length: usize) -> (r: Result<Self, PolarsError>)
        ensures
            match r {
                Ok(c) => {
                    &&& offset + length <= self@.values.len()
                    &&& c@.name == self@.name
                    &&& c@.values == self@.values.subrange(
                        offset as int,
                        offset as int + length as int,
                    )
                },
                Err(e) => {
                    &&& e == PolarsError::InvalidOperation
                    &&& offset + length > self@.values.len()
                },
            },
    {
        if offset > self.values.len() || length > self.values.len() - offset {
            return Err(PolarsError::InvalidOperation);
        }
        let end: usize = offset + length;
        let mut values: Vec<Option<T>> = Vec::new();
        let mut j: usize = offset;
        while j < end
            invariant
                offset <= j <= end,
                end == offset + length,
                end <= self@.values.len(),
                values@ =~= self@.values.subrange(offset as int, j as int),
            decreases end - j,
        {
            match &self.values[j] {
                Some(x) => values.push(Some(x.dup())),
                None => values.push(None),
            }
            proof {
                assert(values@ =~= self@.values.subrange(offset as int, j + 1));
            }
            j = j + 1;
        }
        Ok(ChunkedArray { name: self.name.clone(), values })
    }

    /// The first `min(length, len)` values; `length` defaults to 10.
    pub fn head(&self, length: Option<usize>) -> (r: Self)
        ensures
            r@.name == self@.name,
            r@.values == self@.values.take(min_spec(
                unwrap_or_spec(length, 10) as int,
                self@.values.len() as int,
            )),
    {
        let n: usize = match length {
            Some(l) => l,
            None => 10,
        };
        let take: usize = if n < self.values.len() {
            n
        } else {
            self.values.len()
        };
        let r = self.slice(0, take).unwrap();
        proof {
            assert(r@.values =~= self@.values.take(
                min_spec(unwrap_or_spec(length, 10) as int, self@.values.len() as int),
            ));
        }
        r
    }

    /// The last `min(length, len)` values; `length` defaults to 10.
    pub fn tail(&self, length: Option<usize>) -> (r: Self)
        ensures
            r@.name == self@.name,
            r@.values == self@.values.skip(
                self@.values.len() - min_spec(
                    unwrap_or_spec(length, 10) as int,
                    self@.values.len() as int,
                ),
            ),
    {
        let n: usize = match length {
            Some(l) => l,
            None => 10,
        };
        let take: usize = if n < self.values.len() {
            n
        } else {
            self.values.len()
        };
        let r = self.slice(self.values.len() - take, take).unwrap();
        proof {
            assert(r@.values =~= self@.values.skip(
                self@.values.len() - min_spec(
                    unwrap_or_spec(length, 10) as int,
                    self@.values.len() as int,
                ),
            ));
        }
        r
    }

    /// A column of `length` copies of the value at `index`.
    pub fn expand_at_index(&self, index: usize, length: usize) -> (r: Self)
        requires
            index < self@.values.len(),
        ensures
            r@.name == self@.name,
            r@.values.len() == length,
            forall|k: int| 0 <= k < length ==> r@.values[k] == self@.values[index as int],
    {
        let mut values: Vec<Option<T>> = Vec::new();
        let mut i: usize = 0;
        while i < length
            invariant
                i <= length,
                index < self@.values.len(),
                values@.len() == i,
                forall|k: int| 0 <= k < i ==> values@[k] == self@.values[index as int],
            decreases length - i,
        {
            match &self.values[index] {
                Some(x) => values.push(Some(x.dup())),
                None => values.push(None),
            }
            i = i + 1;
        }
        ChunkedArray { name: self.name.clone(), values }
    }

    /// The column in reversed order.
    pub fn reverse(&self) -> (r: Self)
        ensures
            r@.name == self@.name,
            r@.values.len() == self@.values.len(),
            forall|k: int|
                0 <= k < self@.values.len() ==> r@.values[k] == self@.values[self@.values.len() - 1
                    - k],
    {
        let mut values: Vec<Option<T>> = Vec::new();
        let mut i: usize = 0;
        let n: usize = self.values.len();
        while i < n
            invariant
                i <= n,
                n == self@.values.len(),
                values@.len() == i,
                forall|k: int| 0 <= k < i ==> values@[k] == self@.values[n - 1 - k],
            decreases n - i,
        {
            match &self.values[n - 1 - i] {
                Some(x) => values.push(Some(x.dup())),
                None => values.push(None),
            }
            i = i + 1;
        }
        ChunkedArray { name: self.name.clone(), values }
    }

    /// Take the values at the given indices; an index past the end yields a
    /// null.
    pub fn take(&self, indices: &Vec<usize>) -> (r: Self)
        ensures
            r@.name == self@.name,
            r@.values.len() == indices@.len(),
            forall|k: int|
                0 <= k < indices@.len() ==> r@.values[k] == (if indices@[k] < self@.values.len() {
                    self@.values[indices@[k] as int]
                } else {
                    None
                }),
    {
        let mut values: Vec<Option<T>> = Vec::new();
        let mut i: usize = 0;
        while i < indices.len()
            invariant
                i <= indices@.len(),
                values@.len() == i,
                forall|k: int|
                    0 <= k < i ==> values@[k] == (if indices@[k] < self@.values.len() {
                        self@.values[indices@[k] as int]
                    } else {
                        None
                    }),
            decreases indices@.len() - i,
        {
            let ix: usize = indices[i];
            if ix < self.values.len() {
                match &self.values[ix] {
                    Some(x) => values.push(Some(x.dup())),
                    None => values.push(None),
                }
            } else {
                values.push(None);
            }
            i = i + 1;
        }
        ChunkedArray { name: self.name.clone(), values }
    }

    /// Keep the values where the mask holds `Some(true)`.  Fails when the
    /// mask's length differs from the column's.
    pub fn filter(&self, mask: &ChunkedArray<bool>) -> (r: Result<Self, PolarsError>)
        ensures
            match r {
                Ok(c) => {
                    &&& mask@.values.len() == self@.values.len()
                    &&& c@.name == self@.name
                    &&& c@.values == mask_filter(self@.values, mask@.values)
                },
                Err(e) => {
                    &&& e == PolarsError::ShapeMisMatch
                    &&& mask@.values.len() != self@.values.len()
                },
            },
    {
        if mask.values.len() != self.values.len() {
            return Err(PolarsError::ShapeMisMatch);
        }
        let mut values: Vec<Option<T>> = Vec::new();
        let mut i: usize = 0;
        while i < self.values.len()
            invariant
                i <= self@.values.len(),
                mask@.values.len() == self@.values.len(),
                values@ == mask_filter(
                    self@.values.subrange(0, i as int),
                    mask@.values.subrange(0, i as int),
                ),
            decreases self@.values.len() - i,
        {
            let keep: bool = match &mask.values[i] {
                Some(b) => *b,
                None => false,
            };
            proof {
                assert(self@.values.subrange(0, i + 1).drop_last() =~= self@.values.subrange(
                    0,
                    i as int,
                ));
                assert(mask@.values.subrange(0, i + 1).drop_last() =~= mask@.values.subrange(
                    0,
                    i as int,
                ));
            }
            if keep {
                match &self.values[i] {
                    Some(x) => values.push(Some(x.dup())),
                    None => values.push(None),
                }
            }
            i = i + 1;
        }
        proof {
            assert(self@.values.subrange(0, self@.values.len() as int) =~= self@.values);
            assert(mask@.values.subrange(0, mask@.values.len() as int) =~= mask@.values);
        }
        Ok(ChunkedArray { name: self.name.clone(), values })
    }

    /// A boolean mask holding `true` where this column is null.
    pub fn is_null(&self) -> (r: ChunkedArray<bool>)
        ensures
            r@.name == self@.name,
            r@.values.len() == self@.values.len(),
            forall|k: int|
                0 <= k < self@.values.len() ==> r@.values[k] == Some(self@.values[k] is None),
    {
        let mut values: Vec<Option<bool>> = Vec::new();
        let mut i: usize = 0;
        while i < self.values.len()
            invariant
                i <= self@.values.len(),
                values@.len() == i,
                forall|k: int| 0 <= k < i ==> values@[k] == Some(self@.values[k] is None),
            decreases self@.values.len() - i,
        {
            let b: bool = match &self.values[i] {
                Some(_) => false,
                None => true,
            };
            values.push(Some(b));
            i = i + 1;
        }
        ChunkedArray { name: self.name.clone(), values }
    }

    /// A boolean mask holding `true` where this column is not null.
    pub fn is_not_null(&self) -> (r: ChunkedArray<bool>)
        ensures
            r@.name == self@.name,
            r@.values.len() == self@.values.len(),
            forall|k: int|
                0 <= k < self@.values.len() ==> r@.values[k] == Some(self@.values[k] is Some),
    {
        let mut values: Vec<Option<bool>> = Vec::new();
        let mut i: usize = 0;
        while i < self.values.len()
            invariant
                i <= self@.values.len(),
                values@.len() == i,
                forall|k: int| 0 <= k < i ==> values@[k] == Some(self@.values[k] is Some),
            decreases self@.values.len() - i,
        {
            let b: bool = match &self.values[i] {
                Some(_) => true,
                None => false,
            };
            values.push(Some(b));
            i = i + 1;
        }
        ChunkedArray { name: self.name.clone(), values }
    }

    /// How many values are null.
    pub fn null_count(&self) -> (r: usize)
        ensures
            r == count_nulls(self@.values),
    {
        let mut count: usize = 0;
        let mut i: usize = 0;
        while i < self.values.len()
            invariant
                i <= self@.values.len(),
                count == count_nulls(self@.values.subrange(0, i as int)),
                count <= i,
            decreases self@.values.len() - i,
        {
            proof {
                assert(self@.values.subrange(0, i + 1).drop_last() =~= self@.values.subrange(
                    0,
                    i as int,
                ));
            }
            if self.values[i].is_none() {
                count = count + 1;
            }
            i = i + 1;
        }
        proof {
            assert(self@.values.subrange(0, self@.values.len() as int) =~= self@.values);
        }
        count
    }

    /// The non-null values, in order, as a column without nulls.
    pub fn drop_nulls(&self) -> (r: Self)
        ensures
            r@.name == self@.name,
            r@.values == mask_filter(
                self@.values,
                self@.values.map_values(|v: Option<T>| Some(v is Some)),
            ),
    {
        let mask = self.is_not_null();
        proof {
            assert(mask@.values =~= self@.values.map_values(|v: Option<T>| Some(v is Some)));
        }
        let r = self.filter(&mask).unwrap();
        r
    }

    /// Move the values `periods` places to the right (to the left when
    /// negative), filling the uncovered places with nulls.
    pub fn shift(&self, periods: i32) -> (r: Self)
        ensures
            r@.name == self@.name,
            r@.values.len() == self@.values.len(),
            forall|k: int|
                0 <= k < self@.values.len() ==> r@.values[k] == (if 0 <= k - periods
                    < self@.values.len() {
                    self@.values[k - periods]
                } else {
                    None
                }),
    {
        let n: usize = self.values.len();
        let mut values: Vec<Option<T>> = Vec::new();
        let mut i: usize = 0;
        while i < n
            invariant
                i <= n,
                n == self@.values.len(),
                values@.len() == i,
                forall|k: int|
                    0 <= k < i ==> values@[k] == (if 0 <= k - periods < self@.values.len() {
                        self@.values[k - periods]
                    } else {
                        None
                    }),
            decreases n - i,
        {
            let p: usize = if periods >= 0 {
                periods as usize
            } else {
                let p64: i64 = -(periods as i64);
                p64 as usize
            };
            let src_ok: bool = if periods >= 0 {
                i >= p && i - p < n
            } else {
                p < n && i < n - p
            };
            if src_ok {
                let src: usize = if periods >= 0 {
                    i - p
                } else {
                    i + p
                };
                match &self.values[src] {
                    Some(x) => values.push(Some(x.dup())),
                    None => values.push(None),
                }
            } else {
                values.push(None);
            }
            i = i + 1;
        }
        ChunkedArray { name: self.name.clone(), values }
    }

    /// Value from `self` where the mask holds `Some(true)`, from `other`
    /// elsewhere.  Fails when the three lengths do not all agree.
    pub fn zip_with(&self, mask: &ChunkedArray<bool>, other: &Self) -> (r: Result<
        Self,
        PolarsError,
    >)
        ensures
            match r {
                Ok(c) => {
                    &&& mask@.values.len() == self@.values.len()
                    &&& other@.values.len() == self@.values.len()
                    &&& c@.name == self@.name
                    &&& c@.values.len() == self@.values.len()
                    &&& forall|k: int|
                        0 <= k < self@.values.len() ==> c@.values[k] == (if mask@.values[k]
                            == Some(true) {
                            self@.values[k]
                        } else {
                            other@.values[k]
                        })
                },
                Err(e) => {
                    &&& e == PolarsError::ShapeMisMatch
                    &&& (mask@.values.len() != self@.values.len() || other@.values.len()
                        != self@.values.len())
                },
            },
    {
        if mask.values.len() != self.values.len() || other.values.len() != self.values.len() {
            return Err(PolarsError::ShapeMisMatch);
        }
        let mut values: Vec<Option<T>> = Vec::new();
        let mut i: usize = 0;
        while i < self.values.len()
            invariant
                i <= self@.values.len(),
                mask@.values.len() == self@.values.len(),
                other@.values.len() == self@.values.len(),
                values@.len() == i,
                forall|k: int|
                    0 <= k < i ==> values@[k] == (if mask@.values[k] == Some(true) {
                        self@.values[k]
                    } else {
                        other@.values[k]
                    }),
            decreases self@.values.len() - i,
        {
            let from_self: bool = match &mask.values[i] {
                Some(b) => *b,
                None => false,
            };
            let src: &Option<T> = if from_self {
                &self.values[i]
            } else {
                &other.values[i]
            };
            match src {
                Some(x) => values.push(Some(x.dup())),
                None => values.push(None),
            }
            i = i + 1;
        }
        Ok(ChunkedArray { name: self.name.clone(), values })
    }
}

impl<T: Native> ChunkedArray<T> {
    /// The values as one vector of options.
    pub fn to_vec(&self) -> (r: Vec<Option<T>>)
        ensures
            r@ == self@.values,
    {
        let mut r: Vec<Option<T>> = Vec::new();
        let mut i: usize = 0;
        while i < self.values.len()
            invariant
                i <= self@.values.len(),
                r@ =~= self@.values.subrange(0, i as int),
            decreases self@.values.len() - i,
        {
            match &self.values[i] {
                Some(x) => r.push(Some(x.dup())),
                None => r.push(None),
            }
            proof {
                assert(r@ =~= self@.values.subrange(0, i + 1));
            }
            i = i + 1;
        }
        proof {
            assert(r@ =~= self@.values);
        }
        r
    }
}

pub open spec fn min_spec(a: int, b: int) -> int {
    if a < b {
        a
    } else {
        b
    }
}

pub open spec fn unwrap_or_spec(o: Option<usize>, d: usize) -> usize {
    match o {
        Some(v) => v,
        None => d,
    }
}

} // verus!
