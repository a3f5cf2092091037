//! In-memory tables and artifact accounting.
//!
//! A `Table` is a header plus rows of cells — the in-memory form of one
//! artifact. The line-level document an artifact file holds (one header
//! line, then one line per non-empty row) is modelled by `ArtifactBuilder`,
//! whose row count provably equals the number of non-header lines.
use vstd::prelude::*;

use crate::data_cell::{cell_wf, CellV, DataCell};
use crate::data_header::{ColumnHeaderV, DataHeader};

verus! {

/// The errors the engine reports.
#[derive(Clone, Debug)]
pub enum FlowError {
    /// The source spec is not the kind this adapter handles.
    UnsuitableSource,
    /// A network fetch failed.
    ExternalFetch(String),
    /// A response could not be decoded.
    SourceDecode(String),
    /// A node parameter is missing or ill-typed.
    BadParameter(String),
    /// An input has no column of the given name.
    MissingKeyColumn(String),
    /// Two rows of a join base share a key.
    DuplicateKey(String),
    /// Inputs to a merge have different headers.
    SchemaMismatch,
    /// A filter pattern does not compile.
    InvalidRegex,
    /// An operator got no input.
    NoInputs,
    /// A join got only one input.
    SingleInput,
    /// An input artifact is missing.
    MissingArtifact(String),
    /// The run was cancelled by its owner.
    Cancelled,
    /// A database operation failed.
    Persistence(String),
}

/// The view of one row.
pub open spec fn row_view(r: Vec<DataCell>) -> Seq<CellV> {
    r@.map_values(|c: DataCell| c@)
}

/// The views of a row list.
pub open spec fn rows_view(rows: Vec<Vec<DataCell>>) -> Seq<Seq<CellV>> {
    rows@.map_values(|r: Vec<DataCell>| row_view(r))
}

/// Every cell of every row is well formed.
pub open spec fn rows_wf(rows: Seq<Seq<CellV>>) -> bool {
    forall|i: int, j: int|
        0 <= i < rows.len() && 0 <= j < rows[i].len() ==> cell_wf(#[trigger] rows[i][j])
}

/// One tabular artifact held in memory: a header and its rows.
#[derive(Debug)]
pub struct Table {
    pub header: DataHeader,
    pub rows: Vec<Vec<DataCell>>,
}

/// The mathematical value of a table.
#[verifier::ext_equal]
pub struct TableV {
    pub header: Seq<ColumnHeaderV>,
    pub rows: Seq<Seq<CellV>>,
}

impl View for Table {
    type V = TableV;

    open spec fn view(&self) -> TableV {
        TableV { header: self.header@, rows: rows_view(self.rows) }
    }
}

impl Table {
    /// A table with the given header and no rows.
    pub fn new(header: DataHeader) -> (r: Self)
        ensures
            r@.header == header@,
            r@.rows.len() == 0,
    {
        let t = Table { header, rows: Vec::new() };
        proof {
            assert(t@.rows =~= Seq::<Seq<CellV>>::empty());
        }
        t
    }

    /// Appends a row; a row that would encode to an empty line is
    /// suppressed, exactly as the artifact store suppresses it on disk.
    pub fn push_row(&mut self, row: Vec<DataCell>)
        ensures
            final (self)@.header == old(self)@.header,
            final (self)@.rows == if row@.len() == 0 {
                old(self)@.rows
            } else {
                old(self)@.rows.push(row_view(row))
            },
    {
        if row.len() > 0 {
            let ghost rv = row_view(row);
            self.rows.push(row);
            proof {
                assert(self@.rows =~= old(self)@.rows.push(rv));
            }
        } else {
            proof {
                assert(self@.rows =~= old(self)@.rows);
            }
        }
    }
}

/// A cell-for-cell copy of one row.
pub fn clone_row(row: &Vec<DataCell>) -> (r: Vec<DataCell>)
    ensures
        row_view(r) == row_view(*row),
{
    let mut r: Vec<DataCell> = Vec::new();
    let n = row.len();
    let mut i: usize = 0;
    while i < n
        invariant
            n == row@.len(),
            i <= n,
            r@.len() == i,
            forall|j: int| 0 <= j < i ==> #[trigger] r@[j]@ == row@[j]@,
        decreases n - i,
    {
        r.push(row[i].duplicate());
        i = i + 1;
    }
    proof {
        assert forall|j: int| 0 <= j < n implies row_view(r)[j] == row_view(*row)[j] by {}
        assert(row_view(r) =~= row_view(*row));
    }
    r
}

/// What an artifact is on disk, line by line: the header line, then one
/// line per row, empty lines never written.
pub struct ArtifactBuilder {
    uuid: String,
    lines: Vec<String>,
    rows: usize,
}

impl ArtifactBuilder {
    /// The artifact's name.
    pub closed spec fn spec_uuid(&self) -> Seq<char> {
        self.uuid@
    }

    /// The document's lines, header first.
    pub closed spec fn spec_lines(&self) -> Seq<Seq<char>> {
        self.lines@.map_values(|l: String| l@)
    }

    /// How many rows were accepted.
    pub closed spec fn spec_rows(&self) -> nat {
        self.rows as nat
    }

    /// The document invariant: one header line, then exactly one non-empty
    /// line per accepted row — the persisted row count is the number of
    /// non-header lines.
    pub closed spec fn wf(&self) -> bool {
        &&& self.lines@.len() == self.rows + 1
        &&& forall|i: int| 1 <= i < self.lines@.len() ==> (#[trigger] self.lines@[i])@.len() > 0
    }

    /// A fresh document for artifact `uuid`, holding the header line.
    pub fn new(uuid: String, header_line: String) -> (r: Self)
        ensures
            r.wf(),
            r.spec_uuid() == uuid@,
            r.spec_rows() == 0,
            r.spec_lines() == seq![header_line@],
    {
        let mut lines: Vec<String> = Vec::new();
        lines.push(header_line);
        let r = ArtifactBuilder { uuid, lines, rows: 0 };
        proof {
            assert(r.spec_lines() =~= seq![r.lines@[0]@]);
        }
        r
    }

    /// Appends one encoded row line. A line that holds no cells — empty
    /// text or an empty array — is suppressed: not written, not counted.
    pub fn push_row_line(&mut self, line: String)
        requires
            old(self).wf(),
            old(self).spec_rows() + 1 < usize::MAX,
        ensures
            final (self).wf(),
            final (self).spec_uuid() == old(self).spec_uuid(),
            ({
                let skip = line@.len() == 0 || line@ == "[]"@;
                &&& final (self).spec_lines() == if skip {
                    old(self).spec_lines()
                } else {
                    old(self).spec_lines().push(line@)
                }
                &&& final (self).spec_rows() == if skip {
                    old(self).spec_rows()
                } else {
                    old(self).spec_rows() + 1
                }
            }),
    {
        let empty_array = crate::text::str_eq(line.as_str(), "[]");
        if line.as_str().is_empty() || empty_array {
            return;
        }
        let ghost lv = line@;
        self.lines.push(line);
        self.rows = self.rows + 1;
        proof {
            assert(self.spec_lines() =~= old(self).spec_lines().push(lv));
        }
    }

    /// The record to persist for this artifact: its name and its row count,
    /// which equals the number of non-header lines of the document.
    pub fn details(&self) -> (r: DataFileDetails)
        requires
            self.wf(),
        ensures
            r.uuid@ == self.spec_uuid(),
            r.rows == self.spec_rows(),
            r.rows + 1 == self.spec_lines().len(),
            r.is_valid_spec(),
    {
        DataFileDetails { uuid: self.uuid.clone(), rows: self.rows, is_valid: true }
    }

    /// The document's lines, header first, for writing out.
    pub fn lines(&self) -> (r: &Vec<String>)
        ensures
            r@.map_values(|l: String| l@) == self.spec_lines(),
    {
        &self.lines
    }
}

/// What is recorded about a produced artifact: its name, how many rows it
/// holds, and whether a file exists at all (sinks produce none).
#[derive(Debug)]
pub struct DataFileDetails {
    pub uuid: String,
    pub rows: usize,
    pub is_valid: bool,
}

impl DataFileDetails {
    /// Whether the details point at a real artifact file.
    pub open spec fn is_valid_spec(&self) -> bool {
        self.is_valid
    }

    /// The sentinel a sink returns: no artifact file stands behind it.
    pub fn new_invalid() -> (r: Self)
        ensures
            !r.is_valid_spec(),
            r.uuid@.len() == 0,
            r.rows == 0,
    {
        proof {
            reveal_strlit("");
        }
        DataFileDetails { uuid: String::new(), rows: 0, is_valid: false }
    }

    /// The record of a real artifact.
    pub fn new_valid(uuid: String, rows: usize) -> (r: Self)
        ensures
            r.is_valid_spec(),
            r.uuid@ == uuid@,
            r.rows == rows,
    {
        DataFileDetails { uuid, rows, is_valid: true }
    }

    /// Whether the details point at a real artifact file.
    pub fn is_valid(&self) -> (r: bool)
        ensures
            r == self.is_valid_spec(),
    {
        self.is_valid
    }
}

} // verus!
