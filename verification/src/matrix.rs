//! Structure of the matrix-multiplication contract: its two inputs are
//! tab-delimited tables of numerals with no header row. The shape work —
//! parsing the tables, requiring them rectangular and non-empty, checking
//! multiplication compatibility, and rendering the result table — is decided
//! here; the numeric cell values themselves are floating point and are
//! handled by the unverified driver around this library.
use vstd::prelude::*;

use crate::table::parse_table;
use crate::table::render_rows;
use crate::table::render_table;
use crate::table::renderable;
use crate::table::lemma_table_round_trip;
use crate::table::table_of;
use crate::Fault;

verus! {

/// Tab, the matrix files' field delimiter.
pub const TAB: u8 = 9;

/// Every row as wide as the first.
pub open spec fn rectangular(t: Seq<Seq<Seq<u8>>>) -> bool {
    forall|i: int| 0 <= i < t.len() ==> (#[trigger] t[i]).len() == t[0].len()
}

/// A well-formed matrix file: at least one row, at least one column, and
/// rectangular.
pub open spec fn matrix_text_ok(data: Seq<u8>) -> bool {
    let t = table_of(data, TAB);
    t.len() >= 1 && t[0].len() >= 1 && rectangular(t)
}

/// Parse a matrix file into its cells, one byte string per cell; a file that
/// is empty, ragged, or has an empty row is rejected.
pub fn parse_matrix_cells(data: &[u8]) -> (r: Option<Vec<Vec<Vec<u8>>>>)
    ensures
        (match r {
            Some(v) => matrix_text_ok(data@) && v.deep_view() == table_of(data@, TAB),
            None => !matrix_text_ok(data@),
        }),
{
    let t = parse_table(data, TAB);
    let ghost gt = table_of(data@, TAB);
    if t.len() == 0 {
        return None;
    }
    let width = t[0].len();
    proof {
        assert(t.deep_view()[0] =~= t@[0].deep_view());
        assert(gt[0].len() == width as int);
    }
    if width == 0 {
        return None;
    }
    let mut i: usize = 1;
    while i < t.len()
        invariant
            1 <= i <= t@.len(),
            t.deep_view() == gt,
            gt == table_of(data@, TAB),
            gt.len() >= 1,
            gt[0].len() == width as int,
            width >= 1,
            forall|k: int| 0 <= k < i ==> (#[trigger] gt[k]).len() == gt[0].len(),
        decreases t@.len() - i,
    {
        proof {
            assert(t.deep_view()[i as int] =~= t@[i as int].deep_view());
        }
        if t[i].len() != width {
            proof {
                assert(gt[i as int].len() != gt[0].len());
            }
            return None;
        }
        i = i + 1;
    }
    Some(t)
}

/// The first input matrix as loaded from storage.
pub fn first_matrix_outcome(data: Option<Vec<u8>>) -> (r: Result<Vec<Vec<Vec<u8>>>, Fault>)
    ensures
        (match r {
            Ok(v) => data matches Some(d) && matrix_text_ok(d@) && v.deep_view() == table_of(
                d@,
                TAB,
            ),
            Err(f) => {
                ||| (f == Fault::MatrixALoadFailed && data is None)
                ||| (f == Fault::MatrixAParseFailed && (data matches Some(d) && !matrix_text_ok(
                    d@,
                )))
            },
        }),
{
    match data {
        Some(d) => match parse_matrix_cells(d.as_slice()) {
            Some(v) => Ok(v),
            None => Err(Fault::MatrixAParseFailed),
        },
        None => Err(Fault::MatrixALoadFailed),
    }
}

/// The second input matrix as loaded from storage.
pub fn second_matrix_outcome(data: Option<Vec<u8>>) -> (r: Result<Vec<Vec<Vec<u8>>>, Fault>)
    ensures
        (match r {
            Ok(v) => data matches Some(d) && matrix_text_ok(d@) && v.deep_view() == table_of(
                d@,
                TAB,
            ),
            Err(f) => {
                ||| (f == Fault::MatrixBLoadFailed && data is None)
                ||| (f == Fault::MatrixBParseFailed && (data matches Some(d) && !matrix_text_ok(
                    d@,
                )))
            },
        }),
{
    match data {
        Some(d) => match parse_matrix_cells(d.as_slice()) {
            Some(v) => Ok(v),
            None => Err(Fault::MatrixBParseFailed),
        },
        None => Err(Fault::MatrixBLoadFailed),
    }
}

/// The multiplication compatibility rule: the first matrix's row width must
/// equal the second matrix's row count; the product then has the first's row
/// count and the second's row width.
pub fn multiply_compatible(a_rows: usize, a_cols: usize, b_rows: usize, b_cols: usize) -> (r:
    Result<(usize, usize), Fault>)
    ensures
        (match r {
            Ok(p) => a_cols == b_rows && p.0 == a_rows && p.1 == b_cols,
            Err(f) => f == Fault::DimensionMismatch && a_cols != b_rows,
        }),
{
    if a_cols != b_rows {
        Err(Fault::DimensionMismatch)
    } else {
        Ok((a_rows, b_cols))
    }
}

/// Render result cells as a tab-delimited table, one line per row, no header.
pub fn render_matrix(cells: &Vec<Vec<Vec<u8>>>) -> (out: Vec<u8>)
    ensures
        out@ == render_table(cells.deep_view(), TAB),
{
    render_rows(cells, TAB)
}

/// Round trip: a non-empty rectangular table of cells free of delimiter and
/// line-terminator bytes, rendered and parsed again, is unchanged and passes
/// the matrix well-formedness check.
pub proof fn lemma_matrix_round_trip(cells: Seq<Seq<Seq<u8>>>)
    requires
        renderable(cells, TAB),
        cells.len() >= 1,
        cells[0].len() >= 1,
        rectangular(cells),
    ensures
        table_of(render_table(cells, TAB), TAB) == cells,
        matrix_text_ok(render_table(cells, TAB)),
{
    lemma_table_round_trip(cells, TAB);
}

} // verus!
