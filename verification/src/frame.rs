//! The table: an ordered set of equal-length columns.
use crate::error::PolarsError;
use crate::series::{CellValue, Series, SeriesSpec};
use vstd::prelude::*;

verus! {

/// A table of columns.  The reader builds one per partition or flush and
/// concatenates them in order.
#[derive(Debug)]
pub struct DataFrame {
    pub columns: Vec<Series>,
}

impl View for DataFrame {
    type V = Seq<SeriesSpec>;

    open spec fn view(&self) -> Seq<SeriesSpec> {
        self.columns@.map_values(|s: Series| s@)
    }
}

/// All columns hold the same number of cells.
pub open spec fn df_wf(df: DataFrame) -> bool {
    forall|j: int| 0 <= j < df@.len() ==> #[trigger] df@[j].cells.len() == df@[0].cells.len()
}

/// Two tables agree column by column in type.
pub open spec fn df_same_shape(a: DataFrame, b: DataFrame) -> bool {
    a@.len() == b@.len() && forall|j: int|
        #![trigger a@[j].dtype]
        #![trigger b@[j].dtype]
        0 <= j < a@.len() ==> a@[j].dtype == b@[j].dtype
}

/// The cells of column `j` over a run of tables, in order.
pub open spec fn concat_cells(dfs: Seq<DataFrame>, j: int) -> Seq<Option<CellValue>>
    decreases dfs.len(),
{
    if dfs.len() == 0 {
        Seq::empty()
    } else {
        concat_cells(dfs.drop_last(), j) + dfs.last()@[j].cells
    }
}

impl DataFrame {
    /// A table from columns whose lengths the caller has already made
    /// equal.
    pub fn new_no_checks(columns: Vec<Series>) -> (r: DataFrame)
        ensures
            r@ == columns@.map_values(|s: Series| s@),
    {
        DataFrame { columns }
    }

    /// The number of columns.
    pub fn width(&self) -> (r: usize)
        ensures
            r == self@.len(),
    {
        self.columns.len()
    }

    /// The number of rows, the length of the first column.
    pub fn height(&self) -> (r: usize)
        ensures
            r == if self@.len() == 0 {
                0int
            } else {
                self@[0].cells.len() as int
            },
    {
        if self.columns.len() == 0 {
            0
        } else {
            self.columns[0].len()
        }
    }

    /// The columns.
    pub fn get_columns(&self) -> (r: &Vec<Series>)
        ensures
            r@.map_values(|s: Series| s@) == self@,
    {
        &self.columns
    }

    /// A copy of the table.
    pub fn duplicate(&self) -> (r: DataFrame)
        ensures
            r@ == self@,
    {
        let mut columns: Vec<Series> = Vec::new();
        let mut j: usize = 0;
        while j < self.columns.len()
            invariant
                j <= self.columns@.len(),
                columns@.len() == j,
                forall|k: int| 0 <= k < j ==> #[trigger] columns@[k]@ == self.columns@[k]@,
            decreases self.columns@.len() - j,
        {
            columns.push(self.columns[j].duplicate());
            j = j + 1;
        }
        let r = DataFrame { columns };
        proof {
            assert(r@ =~= self@);
        }
        r
    }

    /// Stack another table under this one in place.  Fails, changing
    /// nothing, when the column counts or types disagree.
    pub fn vstack(&mut self, other: &DataFrame) -> (r: Result<(), PolarsError>)
        ensures
            match r {
                Ok(()) => {
                    &&& df_same_shape(*old(self), *other)
                    &&& final(self)@.len() == old(self)@.len()
                    &&& forall|j: int|
                        #![trigger final(self)@[j]]
                        0 <= j < old(self)@.len() ==> {
                            &&& final(self)@[j].name == old(self)@[j].name
                            &&& final(self)@[j].dtype == old(self)@[j].dtype
                            &&& final(self)@[j].cells == old(self)@[j].cells + other@[j].cells
                        }
                },
                Err(e) => {
                    &&& e == PolarsError::ShapeMisMatch
                    &&& !df_same_shape(*old(self), *other)
                    &&& final(self)@ == old(self)@
                },
            },
    {
        if self.columns.len() != other.columns.len() {
            return Err(PolarsError::ShapeMisMatch);
        }
        let mut j: usize = 0;
        while j < self.columns.len()
            invariant
                j <= self.columns@.len(),
                self.columns@.len() == other.columns@.len(),
                forall|k: int| 0 <= k < j ==> #[trigger] self@[k].dtype == other@[k].dtype,
            decreases self.columns@.len() - j,
        {
            let a = self.columns[j].dtype();
            let b = other.columns[j].dtype();
            if a != b {
                proof {
                    assert(self@[j as int] == self.columns@[j as int]@);
                    assert(other@[j as int] == other.columns@[j as int]@);
                    assert(!df_same_shape(*self, *other));
                }
                return Err(PolarsError::ShapeMisMatch);
            }
            proof {
                assert(self@[j as int] == self.columns@[j as int]@);
                assert(other@[j as int] == other.columns@[j as int]@);
            }
            j = j + 1;
        }
        let mut columns: Vec<Series> = Vec::new();
        let mut i: usize = 0;
        while i < self.columns.len()
            invariant
                i <= self.columns@.len(),
                self.columns@.len() == other.columns@.len(),
                forall|k: int| 0 <= k < self@.len() ==> #[trigger] self@[k].dtype == other@[k].dtype,
                columns@.len() == i,
                forall|k: int|
                    #![trigger columns@[k]]
                    0 <= k < i ==> columns@[k]@.name == self@[k].name && columns@[k]@.dtype
                        == self@[k].dtype && columns@[k]@.cells == self@[k].cells + other@[k].cells,
            decreases self.columns@.len() - i,
        {
            let mut col = self.columns[i].duplicate();
            proof {
                assert(self@[i as int] == self.columns@[i as int]@);
                assert(other@[i as int] == other.columns@[i as int]@);
            }
            let rr = col.append(&other.columns[i]);
            proof {
                assert(rr is Ok);
            }
            let ghost cpre = columns@;
            columns.push(col);
            proof {
                assert forall|k: int|
                    #![trigger columns@[k]]
                    0 <= k <= i as int implies (columns@[k]@.name == self@[k].name
                    && columns@[k]@.dtype == self@[k].dtype && columns@[k]@.cells == self@[k].cells
                    + other@[k].cells) by {
                    if k < i as int {
                        assert(columns@[k] == cpre[k]);
                        assert(cpre[k]@.name == self@[k].name && cpre[k]@.dtype == self@[k].dtype
                            && cpre[k]@.cells == self@[k].cells + other@[k].cells);
                    } else {
                        assert(columns@[k]@ == col@);
                    }
                }
            }
            i = i + 1;
        }
        self.columns = columns;
        Ok(())
    }
}

/// Concatenate the tables in order into one table carrying the first
/// table's column names and types.  Fails on an empty list or when a
/// table's shape disagrees with the first's.
pub fn accumulate_dataframes(dfs: Vec<DataFrame>) -> (r: Result<DataFrame, PolarsError>)
    ensures
        match r {
            Ok(df) => {
                &&& dfs@.len() > 0
                &&& forall|i: int| 0 <= i < dfs@.len() ==> df_same_shape(dfs@[0], #[trigger] dfs@[i])
                &&& df@.len() == dfs@[0]@.len()
                &&& forall|j: int|
                    #![trigger df@[j]]
                    0 <= j < df@.len() ==> df@[j].name == dfs@[0]@[j].name && df@[j].dtype
                        == dfs@[0]@[j].dtype && df@[j].cells == concat_cells(dfs@, j)
            },
            Err(e) => {
                &&& (e == PolarsError::EmptyAccumulate || e == PolarsError::ShapeMisMatch)
                &&& e == PolarsError::EmptyAccumulate ==> dfs@.len() == 0
                &&& e == PolarsError::ShapeMisMatch ==> exists|i: int|
                    0 <= i < dfs@.len() && !df_same_shape(dfs@[0], #[trigger] dfs@[i])
            },
        },
{
    if dfs.len() == 0 {
        return Err(PolarsError::EmptyAccumulate);
    }
    let mut acc = dfs[0].duplicate();
    proof {
        assert(acc@ == dfs@[0]@);
        assert forall|j: int| 0 <= j < acc@.len() implies #[trigger] acc@[j].cells == concat_cells(
            dfs@.subrange(0, 1),
            j,
        ) by {
            lemma_concat_base(dfs@, j);
        }
    }
    let mut i: usize = 1;
    while i < dfs.len()
        invariant
            1 <= i <= dfs@.len(),
            forall|k: int| 0 <= k < i ==> df_same_shape(dfs@[0], #[trigger] dfs@[k]),
            acc@.len() == dfs@[0]@.len(),
            forall|j: int|
                #![trigger acc@[j]]
                0 <= j < acc@.len() ==> acc@[j].name == dfs@[0]@[j].name && acc@[j].dtype
                    == dfs@[0]@[j].dtype && acc@[j].cells == concat_cells(
                    dfs@.subrange(0, i as int),
                    j,
                ),
        decreases dfs@.len() - i,
    {
        let ghost accpre = acc;
        let res = acc.vstack(&dfs[i]);
        match res {
            Ok(()) => {},
            Err(e) => {
                proof {
                    assert(!df_same_shape(dfs@[0], dfs@[i as int])) by {
                        if df_same_shape(dfs@[0], dfs@[i as int]) {
                            assert(accpre@.len() == dfs@[0]@.len());
                            assert(forall|j: int|
                                0 <= j < accpre@.len() ==> #[trigger] accpre@[j].dtype
                                    == dfs@[i as int]@[j].dtype);
                            assert(df_same_shape(accpre, dfs@[i as int]));
                        }
                    }
                }
                return Err(PolarsError::ShapeMisMatch);
            },
        }
        proof {
            assert(df_same_shape(dfs@[0], dfs@[i as int])) by {
                assert(df_same_shape(accpre, dfs@[i as int]));
                assert(dfs@[i as int]@.len() == accpre@.len());
            }
            assert forall|j: int| 0 <= j < acc@.len() implies #[trigger] acc@[j].cells
                == concat_cells(dfs@.subrange(0, i + 1), j) by {
                lemma_concat_step(dfs@, i as int, j);
                assert(acc@[j].cells == accpre@[j].cells + dfs@[i as int]@[j].cells);
            }
        }
        i = i + 1;
    }
    proof {
        assert(dfs@.subrange(0, dfs@.len() as int) =~= dfs@);
    }
    Ok(acc)
}

proof fn lemma_concat_base(dfs: Seq<DataFrame>, j: int)
    requires
        dfs.len() >= 1,
    ensures
        concat_cells(dfs.subrange(0, 1), j) == dfs[0]@[j].cells,
{
    let s = dfs.subrange(0, 1);
    assert(s.drop_last() =~= Seq::<DataFrame>::empty());
    assert(concat_cells(Seq::<DataFrame>::empty(), j) == Seq::<Option<CellValue>>::empty());
    assert(s.last() == dfs[0]);
    assert(Seq::<Option<CellValue>>::empty() + dfs[0]@[j].cells =~= dfs[0]@[j].cells);
}

proof fn lemma_concat_step(dfs: Seq<DataFrame>, i: int, j: int)
    requires
        0 <= i < dfs.len(),
    ensures
        concat_cells(dfs.subrange(0, i + 1), j) == concat_cells(dfs.subrange(0, i), j)
            + dfs[i]@[j].cells,
{
    let s = dfs.subrange(0, i + 1);
    assert(s.drop_last() =~= dfs.subrange(0, i));
    assert(s.last() == dfs[i]);
}

} // verus!
