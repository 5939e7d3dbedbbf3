//! An in-memory columnar batch: named, equal-length typed columns.
use vstd::prelude::*;

verus! {

/// Resolution of a timestamp column's tick count.
#[derive(PartialEq, Eq, Structural, Clone, Copy, Debug)]
pub enum TimeUnit {
    Second,
    Millisecond,
    Microsecond,
    Nanosecond,
}

/// The values of a column, tagged by kind. A slot that the column marks null
/// still holds a (meaningless) value here, as in a columnar buffer.
#[derive(Debug)]
pub enum ColumnData {
    Utf8(Vec<String>),
    Int32(Vec<i32>),
    Int64(Vec<i64>),
    /// 64-bit floats, each held as its shortest round-trip decimal text.
    Float64(Vec<String>),
    /// Raw tick counts in the given unit.
    Timestamp(TimeUnit, Vec<i64>),
    /// Row `r` is the child slice `offsets[r] .. offsets[r + 1]`.
    List(Vec<usize>, Box<Column>),
    /// One child column per field, each as long as the struct column.
    Struct(Vec<Column>),
    /// A kind this library does not interpret, by its type name.
    Other(String),
}

/// A named column; `valid[r]` is false where row `r` is null.
#[derive(Debug)]
pub struct Column {
    pub name: String,
    pub valid: Vec<bool>,
    pub data: ColumnData,
}

/// Columns that all have `num_rows` rows.
#[derive(Debug)]
pub struct Batch {
    pub columns: Vec<Column>,
    pub num_rows: usize,
}

impl Column {
    pub open spec fn len(&self) -> nat {
        self.valid@.len()
    }

    /// The value buffer of a scalar or list column agrees with its length.
    pub open spec fn buffers_agree(&self) -> bool {
        match &self.data {
            ColumnData::Utf8(v) => v@.len() == self.len(),
            ColumnData::Int32(v) => v@.len() == self.len(),
            ColumnData::Int64(v) => v@.len() == self.len(),
            ColumnData::Float64(v) => v@.len() == self.len(),
            ColumnData::Timestamp(_, v) => v@.len() == self.len(),
            ColumnData::List(offsets, _) => offsets@.len() == self.len() + 1,
            ColumnData::Struct(_) => true,
            ColumnData::Other(_) => true,
        }
    }

    /// Checks `buffers_agree`.
    pub fn check_buffers(&self) -> (r: bool)
        ensures
            r == self.buffers_agree(),
    {
        let n = self.valid.len();
        match &self.data {
            ColumnData::Utf8(v) => v.len() == n,
            ColumnData::Int32(v) => v.len() == n,
            ColumnData::Int64(v) => v.len() == n,
            ColumnData::Float64(v) => v.len() == n,
            ColumnData::Timestamp(_, v) => v.len() == n,
            ColumnData::List(offsets, _) => offsets.len() > 0 && offsets.len() - 1 == n,
            ColumnData::Struct(_) => true,
            ColumnData::Other(_) => true,
        }
    }
}

impl Batch {
    /// Every column has `num_rows` rows and buffers that agree with that.
    pub open spec fn wf(&self) -> bool {
        forall|i: int|
            0 <= i < self.columns@.len() ==> {
                &&& #[trigger] self.columns@[i].len() == self.num_rows
                &&& self.columns@[i].buffers_agree()
            }
    }

    /// Checks `wf`.
    pub fn is_well_formed(&self) -> (r: bool)
        ensures
            r == self.wf(),
    {
        let mut i: usize = 0;
        while i < self.columns.len()
            invariant
                i <= self.columns@.len(),
                forall|j: int|
                    0 <= j < i ==> {
                        &&& #[trigger] self.columns@[j].len() == self.num_rows
                        &&& self.columns@[j].buffers_agree()
                    },
            decreases self.columns@.len() - i,
        {
            let c = &self.columns[i];
            if c.valid.len() != self.num_rows || !c.check_buffers() {
                assert(self.columns@[i as int].len() != self.num_rows
                    || !self.columns@[i as int].buffers_agree());
                return false;
            }
            i = i + 1;
        }
        true
    }
}

/// `i` is the first position in `cols` of a column named `name`.
pub open spec fn first_named(cols: Seq<Column>, name: Seq<char>, i: int) -> bool {
    &&& 0 <= i < cols.len()
    &&& cols[i].name@ == name
    &&& forall|j: int| 0 <= j < i ==> (#[trigger] cols[j]).name@ != name
}

/// The first column of `cols` named `name`, if any.
pub open spec fn lookup(cols: Seq<Column>, name: Seq<char>) -> Option<Column> {
    if exists|i: int| first_named(cols, name, i) {
        Some(cols[choose|i: int| first_named(cols, name, i)])
    } else {
        None
    }
}

proof fn lemma_first_named_unique(cols: Seq<Column>, name: Seq<char>, i: int, k: int)
    requires
        first_named(cols, name, i),
        first_named(cols, name, k),
    ensures
        i == k,
{
    if i < k {
        assert(cols[i].name@ != name);
    } else if k < i {
        assert(cols[k].name@ != name);
    }
}

/// Finds the first column named `name`.
pub fn find_column(cols: &Vec<Column>, name: &str) -> (r: Option<usize>)
    ensures
        match r {
            Some(i) => first_named(cols@, name@, i as int) && lookup(cols@, name@) == Some(
                cols@[i as int],
            ),
            None => lookup(cols@, name@) is None,
        },
{
    let target = name.to_owned();
    let mut i: usize = 0;
    while i < cols.len()
        invariant
            i <= cols@.len(),
            target@ == name@,
            forall|j: int| 0 <= j < i ==> (#[trigger] cols@[j]).name@ != name@,
        decreases cols@.len() - i,
    {
        if cols[i].name == target {
            proof {
                assert(first_named(cols@, name@, i as int));
                let k = choose|k: int| first_named(cols@, name@, k);
                lemma_first_named_unique(cols@, name@, i as int, k);
            }
            return Some(i);
        }
        i = i + 1;
    }
    None
}

} // verus!
