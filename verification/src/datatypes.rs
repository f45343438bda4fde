//! Data types, fields and schemas of the columnar table.
use vstd::prelude::*;

verus! {

/// The type of one column.
#[derive(Clone, Copy, PartialEq, Eq, Structural, Debug, Hash)]
pub enum DataType {
    Boolean,
    UInt8,
    UInt16,
    UInt32,
    UInt64,
    Int8,
    Int16,
    Int32,
    Int64,
    Float32,
    Float64,
    Utf8,
    Date32,
    Date64,
}

/// The mathematical value of a [`Field`]: its name as a sequence of
/// characters, its type, and whether it may hold nulls.
#[verifier::ext_equal]
pub struct FieldSpec {
    pub name: Seq<char>,
    pub dtype: DataType,
    pub nullable: bool,
}

/// One column of a schema: a name, a type, and a nullability flag.
/// Immutable once placed in a [`Schema`].
#[derive(Debug)]
pub struct Field {
    pub name: String,
    pub dtype: DataType,
    pub nullable: bool,
}

impl Clone for Field {
    fn clone(&self) -> (r: Self)
        ensures
            r == *self,
    {
        Field { name: self.name.clone(), dtype: self.dtype, nullable: self.nullable }
    }
}

impl View for Field {
    type V = FieldSpec;

    open spec fn view(&self) -> FieldSpec {
        FieldSpec { name: self.name@, dtype: self.dtype, nullable: self.nullable }
    }
}

impl Field {
    pub fn new(name: &str, dtype: DataType, nullable: bool) -> (r: Field)
        ensures
            r@ == (FieldSpec { name: name@, dtype, nullable }),
    {
        Field { name: String::from_str(name), dtype, nullable }
    }

    pub fn name(&self) -> (r: &String)
        ensures
            r@ == self@.name,
    {
        &self.name
    }

    pub fn data_type(&self) -> (r: DataType)
        ensures
            r == self@.dtype,
    {
        self.dtype
    }

    pub fn is_nullable(&self) -> (r: bool)
        ensures
            r == self@.nullable,
    {
        self.nullable
    }
}

/// An ordered list of fields; order is the column order of the table.
#[derive(Debug)]
pub struct Schema {
    pub fields: Vec<Field>,
}

impl Clone for Schema {
    fn clone(&self) -> (r: Self)
        ensures
            r@ == self@,
            r.fields@ == self.fields@,
    {
        let mut fields: Vec<Field> = Vec::new();
        let mut j: usize = 0;
        while j < self.fields.len()
            invariant
                j <= self.fields@.len(),
                fields@ == self.fields@.subrange(0, j as int),
            decreases self.fields@.len() - j,
        {
            fields.push(self.fields[j].clone());
            proof {
                assert(fields@ =~= self.fields@.subrange(0, j + 1));
            }
            j = j + 1;
        }
        proof {
            assert(fields@ =~= self.fields@);
        }
        Schema { fields }
    }
}

impl View for Schema {
    type V = Seq<FieldSpec>;

    open spec fn view(&self) -> Seq<FieldSpec> {
        self.fields@.map_values(|f: Field| f@)
    }
}

impl Schema {
    pub fn new(fields: Vec<Field>) -> (r: Schema)
        ensures
            r@ == fields@.map_values(|f: Field| f@),
    {
        Schema { fields }
    }

    pub fn fields(&self) -> (r: &Vec<Field>)
        ensures
            r@.map_values(|f: Field| f@) == self@,
    {
        &self.fields
    }

    pub fn len(&self) -> (r: usize)
        ensures
            r == self@.len(),
    {
        self.fields.len()
    }

    pub fn field(&self, i: usize) -> (r: &Field)
        requires
            i < self@.len(),
        ensures
            r@ == self@[i as int],
    {
        &self.fields[i]
    }

    /// The schema that selecting the columns of `projection`, in that order,
    /// derives from this one.
    pub fn project(&self, projection: &Vec<usize>) -> (r: Schema)
        requires
            forall|j: int| 0 <= j < projection@.len() ==> #[trigger] projection@[j] < self@.len(),
        ensures
            r@ == projection@.map_values(|i: usize| self@[i as int]),
    {
        let mut fields: Vec<Field> = Vec::new();
        let mut j: usize = 0;
        while j < projection.len()
            invariant
                j <= projection@.len(),
                forall|k: int|
                    0 <= k < projection@.len() ==> #[trigger] projection@[k] < self@.len(),
                fields@.len() == j,
                forall|k: int|
                    0 <= k < j ==> #[trigger] fields@[k]@ == self@[projection@[k] as int],
            decreases projection@.len() - j,
        {
            fields.push(self.fields[projection[j]].clone());
            j = j + 1;
        }
        proof {
            assert(fields@.map_values(|f: Field| f@) =~= projection@.map_values(
                |i: usize| self@[i as int],
            ));
        }
        Schema::new(fields)
    }
}

} // verus!
