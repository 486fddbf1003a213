//! File formats that tabular data is read from.
use crate::error::InputError;
use crate::text::{ascii_lower_seq, decimal, decimal_string, text_eq, to_ascii_lowercase};
use vstd::string::StringExecFns;
use vstd::prelude::*;

verus! {

/// A tabular file format, as its extension names it.
#[derive(Debug, Clone, Copy, PartialEq, Eq, Structural)]
pub enum IngestFormat {
    Csv,
    Tsv,
    Parquet,
    Excel,
}

/// The format that a lower-cased extension names, if any.
pub open spec fn format_of(ext: Seq<char>) -> Option<IngestFormat> {
    if ext == "csv"@ {
        Some(IngestFormat::Csv)
    } else if ext == "tsv"@ {
        Some(IngestFormat::Tsv)
    } else if ext == "parquet"@ || ext == "pq"@ {
        Some(IngestFormat::Parquet)
    } else if ext == "xlsx"@ || ext == "xls"@ {
        Some(IngestFormat::Excel)
    } else {
        None
    }
}

impl IngestFormat {
    /// The format named by a file extension (without its dot), compared
    /// without regard to ASCII case: `csv`, `tsv`, `parquet` or `pq`,
    /// `xlsx` or `xls`. Any other extension, the empty one included, is
    /// refused with the lower-cased extension.
    pub fn from_extension(ext: &str) -> (r: Result<IngestFormat, InputError>)
        ensures
            format_of(ascii_lower_seq(ext@)) matches Some(f) ==> r == Ok::<IngestFormat, InputError>(f),
            format_of(ascii_lower_seq(ext@)) is None ==> (r matches Err(
                InputError::UnsupportedFormat { extension },
            ) && extension@ == ascii_lower_seq(ext@)),
    {
        let lower = to_ascii_lowercase(ext);
        proof {
            reveal_strlit("csv");
            reveal_strlit("tsv");
            reveal_strlit("parquet");
            reveal_strlit("pq");
            reveal_strlit("xlsx");
            reveal_strlit("xls");
        }
        if text_eq(lower.as_str(), "csv") {
            Ok(IngestFormat::Csv)
        } else if text_eq(lower.as_str(), "tsv") {
            Ok(IngestFormat::Tsv)
        } else if text_eq(lower.as_str(), "parquet") || text_eq(lower.as_str(), "pq") {
            Ok(IngestFormat::Parquet)
        } else if text_eq(lower.as_str(), "xlsx") || text_eq(lower.as_str(), "xls") {
            Ok(IngestFormat::Excel)
        } else {
            Err(InputError::UnsupportedFormat { extension: lower })
        }
    }
}

/// The name of column `i` of a sheet whose header cell holds `cell`: the
/// cell, or `column_{i}` when the cell is empty.
pub open spec fn header_name(cell: Seq<char>, i: nat) -> Seq<char> {
    if cell.len() == 0 {
        "column_"@ + decimal(i)
    } else {
        cell
    }
}

/// The column names of a sheet from its header row.
pub fn header_names(cells: &Vec<String>) -> (r: Vec<String>)
    ensures
        r@.len() == cells@.len(),
        forall|i: int| 0 <= i < r@.len() ==> #[trigger] r@[i]@ == header_name(cells@[i]@, i as nat),
{
    let n = cells.len();
    let mut r: Vec<String> = Vec::new();
    let mut i: usize = 0;
    while i < n
        invariant
            n == cells@.len(),
            i <= n,
            r@.len() == i,
            forall|j: int| 0 <= j < i ==> #[trigger] r@[j]@ == header_name(cells@[j]@, j as nat),
        decreases n - i,
    {
        let cell = &cells[i];
        if cell.unicode_len() == 0 {
            let mut name = String::from_str("column_");
            name.append(decimal_string(i).as_str());
            r.push(name);
        } else {
            r.push(cell.clone());
        }
        i = i + 1;
    }
    r
}

/// Whether a sheet of `rows` rows and `cols` columns holds data: a header row
/// and at least one more, and at least one column.
pub fn sheet_has_data(rows: usize, cols: usize) -> (r: bool)
    ensures
        r == (rows >= 2 && cols > 0),
{
    rows >= 2 && cols > 0
}

/// The cells of column `c` in the data rows among the first `n` rows (the
/// first row is the header), in row order; a row too short to have that
/// column adds nothing.
pub open spec fn column_cells(rows: Seq<Vec<String>>, c: int, n: int) -> Seq<String>
    decreases n,
{
    if n <= 1 {
        Seq::empty()
    } else {
        let before = column_cells(rows, c, n - 1);
        if c < rows[n - 1]@.len() {
            before.push(rows[n - 1]@[c])
        } else {
            before
        }
    }
}

/// The first `cols` columns of a sheet's data rows, each as its cells in row
/// order.
pub fn sheet_columns(rows: &Vec<Vec<String>>, cols: usize) -> (r: Vec<Vec<String>>)
    ensures
        r@.len() == cols,
        forall|c: int| 0 <= c < cols ==> (#[trigger] r@[c])@ == column_cells(rows@, c, rows@.len() as int),
{
    let mut columns: Vec<Vec<String>> = Vec::new();
    let mut c: usize = 0;
    while c < cols
        invariant
            c <= cols,
            columns@.len() == c,
            forall|j: int| 0 <= j < c ==> (#[trigger] columns@[j])@ == column_cells(rows@, j, rows@.len() as int),
        decreases cols - c,
    {
        let mut cells: Vec<String> = Vec::new();
        let n = rows.len();
        let mut i: usize = 1;
        while i < n
            invariant
                n == rows@.len(),
                1 <= i,
                i <= n || (n == 0 && i == 1),
                cells@ == column_cells(rows@, c as int, i as int),
            decreases n - i,
        {
            if c < rows[i].len() {
                cells.push(rows[i][c].clone());
            }
            i = i + 1;
        }
        assert(cells@ == column_cells(rows@, c as int, n as int));
        let ghost before = columns@;
        columns.push(cells);
        assert(forall|j: int| 0 <= j < c ==> columns@[j] == before[j]);
        c = c + 1;
    }
    columns
}

} // verus!
