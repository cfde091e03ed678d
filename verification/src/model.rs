//! The data that travels on the wire: typed cell values, the header of a
//! result and the result itself, each with its mathematical model.

use vstd::prelude::*;

verus! {

/// One cell of a result row.
///
/// A floating-point cell is held as the 64 bits of its IEEE-754 double, which
/// is what the wire carries; turning the bits into a number and back is left
/// to the caller.
#[derive(Debug, Clone, PartialEq, Eq)]
pub enum TypedValue {
    Null,
    Integer(i64),
    Float(u64),
    Text(String),
    Blob(Vec<u8>),
}

/// The model of a `TypedValue`: text as a sequence of characters, a blob as a
/// sequence of bytes.
pub enum ValueModel {
    Null,
    Integer(i64),
    Float(u64),
    Text(Seq<char>),
    Blob(Seq<u8>),
}

impl View for TypedValue {
    type V = ValueModel;

    open spec fn view(&self) -> ValueModel {
        match self {
            TypedValue::Null => ValueModel::Null,
            TypedValue::Integer(i) => ValueModel::Integer(*i),
            TypedValue::Float(bits) => ValueModel::Float(*bits),
            TypedValue::Text(text) => ValueModel::Text(text@),
            TypedValue::Blob(bytes) => ValueModel::Blob(bytes@),
        }
    }
}

impl DeepView for TypedValue {
    type V = ValueModel;

    open spec fn deep_view(&self) -> ValueModel {
        self.view()
    }
}

/// Why a buffer could not be decoded.
#[derive(Debug, Clone, Copy, PartialEq, Eq, Structural)]
pub enum DecodeError {
    /// The buffer does not start with the magic marker.
    MalformedHeader,
    /// The buffer ends before a field that it announces.
    TruncatedPayload,
    /// A value starts with a tag byte that names no variant.
    InvalidTag,
    /// A text payload or a column name is not UTF-8.
    InvalidText,
}

/// The header of a result: how many rows and columns it has, and the names of
/// the columns in the order of the engine.
#[derive(Debug, Clone, PartialEq, Eq)]
pub struct QueryResultHeader {
    pub row_count: u64,
    pub column_count: u64,
    pub columns: Vec<String>,
}

/// The model of a `QueryResultHeader`.
pub struct HeaderModel {
    pub row_count: u64,
    pub column_count: u64,
    pub columns: Seq<Seq<char>>,
}

impl HeaderModel {
    /// There are as many column names as the header counts columns.
    pub open spec fn wf(self) -> bool {
        self.columns.len() == self.column_count
    }
}

impl View for QueryResultHeader {
    type V = HeaderModel;

    open spec fn view(&self) -> HeaderModel {
        HeaderModel {
            row_count: self.row_count,
            column_count: self.column_count,
            columns: self.columns.deep_view(),
        }
    }
}

impl QueryResultHeader {
    /// There are as many column names as the header counts columns.
    pub open spec fn wf(&self) -> bool {
        self@.wf()
    }
}

/// A query result: its header and its rows, each row a sequence of cells.
#[derive(Debug, Clone, PartialEq, Eq)]
pub struct QueryResult {
    pub header: QueryResultHeader,
    pub rows: Vec<Vec<TypedValue>>,
}

/// The model of a `QueryResult`.
pub struct ResultModel {
    pub header: HeaderModel,
    pub rows: Seq<Seq<ValueModel>>,
}

impl ResultModel {
    /// The counts of the header are those of the data: as many column names
    /// as columns, as many rows as the row count, and in every row as many
    /// cells as columns.
    pub open spec fn counts_agree(self) -> bool {
        &&& self.header.wf()
        &&& self.rows.len() == self.header.row_count
        &&& forall|i: int|
            0 <= i < self.rows.len() ==> (#[trigger] self.rows[i]).len()
                == self.header.column_count
    }

    /// The counts agree, and a result without rows has no columns either.
    pub open spec fn wf(self) -> bool {
        &&& self.counts_agree()
        &&& self.header.row_count == 0 ==> self.header.column_count == 0
    }

    /// The result without rows and without columns.
    pub open spec fn empty() -> ResultModel {
        ResultModel {
            header: HeaderModel { row_count: 0, column_count: 0, columns: Seq::empty() },
            rows: Seq::empty(),
        }
    }

    /// The result made of the rows that a query gave and of the column names
    /// read after the last row. Without rows it is the empty result,
    /// whatever the names are.
    pub open spec fn assemble(rows: Seq<Seq<ValueModel>>, columns: Seq<Seq<char>>) -> ResultModel {
        if rows.len() == 0 {
            ResultModel::empty()
        } else {
            ResultModel {
                header: HeaderModel {
                    row_count: rows.len() as u64,
                    column_count: columns.len() as u64,
                    columns,
                },
                rows,
            }
        }
    }
}

/// Whether every row has `width` cells.
pub open spec fn rows_have_width(rows: Seq<Seq<ValueModel>>, width: nat) -> bool {
    forall|i: int| 0 <= i < rows.len() ==> (#[trigger] rows[i]).len() == width
}

impl View for QueryResult {
    type V = ResultModel;

    open spec fn view(&self) -> ResultModel {
        ResultModel { header: self.header@, rows: self.rows.deep_view() }
    }
}

impl QueryResult {
    /// The counts of the header are those of the data.
    pub open spec fn counts_agree(&self) -> bool {
        self@.counts_agree()
    }

    /// The counts agree, and a result without rows has no columns either.
    pub open spec fn wf(&self) -> bool {
        self@.wf()
    }

    /// The result without rows and without columns.
    pub fn empty() -> (result: QueryResult)
        ensures
            result@ == ResultModel::empty(),
            result.wf(),
    {
        let result = QueryResult {
            header: QueryResultHeader { row_count: 0, column_count: 0, columns: Vec::new() },
            rows: Vec::new(),
        };
        assert(result.header.columns.deep_view() =~= Seq::empty());
        assert(result.rows.deep_view() =~= Seq::empty());
        result
    }

    /// Puts a result together from the rows that a query gave and from the
    /// column names, which are known once the last row was read.
    ///
    /// There is a result exactly where every row has as many cells as there
    /// are names. Without rows it is the empty result, and the names are
    /// dropped.
    pub fn assemble(rows: Vec<Vec<TypedValue>>, columns: Vec<String>) -> (r: Option<QueryResult>)
        ensures
            r is Some <==> rows_have_width(rows.deep_view(), columns.len() as nat),
            r matches Some(result) ==> result.wf() && result@ == ResultModel::assemble(
                rows.deep_view(),
                columns.deep_view(),
            ),
    {
        if rows.len() == 0 {
            assert(rows.deep_view() =~= Seq::empty());
            return Some(QueryResult::empty());
        }
        if !rows_all_have_width(&rows, columns.len()) {
            return None;
        }
        let result = QueryResult {
            header: QueryResultHeader {
                row_count: rows.len() as u64,
                column_count: columns.len() as u64,
                columns,
            },
            rows,
        };
        Some(result)
    }

    /// Whether the counts of the header are those of the data.
    pub fn has_consistent_counts(&self) -> (b: bool)
        ensures
            b == self.counts_agree(),
    {
        if self.header.columns.len() as u64 != self.header.column_count {
            return false;
        }
        if self.rows.len() as u64 != self.header.row_count {
            return false;
        }
        rows_all_have_width(&self.rows, self.header.columns.len())
    }
}

/// Whether every row has `width` cells.
fn rows_all_have_width(rows: &Vec<Vec<TypedValue>>, width: usize) -> (b: bool)
    ensures
        b == rows_have_width(rows.deep_view(), width as nat),
{
    let mut i: usize = 0;
    while i < rows.len()
        invariant
            i <= rows.len(),
            forall|k: int| 0 <= k < i ==> (#[trigger] rows.deep_view()[k]).len() == width,
        decreases rows.len() - i,
    {
        if rows[i].len() != width {
            assert(rows.deep_view()[i as int].len() != width);
            return false;
        }
        assert(rows.deep_view()[i as int].len() == width);
        i = i + 1;
    }
    true
}

} // verus!
