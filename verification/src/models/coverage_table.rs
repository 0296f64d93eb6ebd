//! The coverage matrix as a printable table, for a human to look at.
use crate::models::coverage_matrix::{CoverageMatrix, CoverageMatrixView};
use crate::text::{
    decimal, decimal_string, digits_and_minus, flag_string, flag_text, free_of_escape, quote,
    quoted,
};
use crate::views::lemma_deep_view_index;
use prettytable::{Cell, Row, Table};
use vstd::prelude::*;
use vstd::string::*;

verus! {

/// A cell of a printable table.
#[verifier::external_type_specification]
#[verifier::external_body]
pub struct ExCell(prettytable::Cell);

/// A row of a printable table.
#[verifier::external_type_specification]
#[verifier::external_body]
pub struct ExRow(prettytable::Row);

/// A printable table.
#[verifier::external_type_specification]
#[verifier::external_body]
pub struct ExTable(prettytable::Table);

/// The content of a cell: what `Cell::get_content` gives for it.
pub uninterp spec fn cell_content(cell: Cell) -> Seq<char>;

/// The contents of the cells of a row, in order.
pub uninterp spec fn row_cells(row: Row) -> Seq<Seq<char>>;

/// The rows of a table below its titles, in order, each as the contents of its
/// cells.
pub uninterp spec fn table_rows(table: Table) -> Seq<Seq<Seq<char>>>;

/// The content of the cell that is made of a text: the lines of the text,
/// joined by line feeds.
pub uninterp spec fn shown(text: Seq<char>) -> Seq<char>;

/// Calls `Cell::new`. Trusted: the cell keeps the lines of the text, and its
/// content is those lines joined by line feeds, a function of the text that is
/// named `shown`. The call measures the text and takes an escape character
/// for the beginning of a colour code, which can make it fail; a text that
/// holds an escape character is therefore left out.
#[verifier::external_body]
fn new_cell(text: &str) -> (cell: Cell)
    requires
        free_of_escape(text@),
    ensures
        cell_content(cell) == shown(text@),
{
    Cell::new(text)
}

/// Calls `Row::new`. Trusted: the row holds the given cells in their order.
#[verifier::external_body]
fn new_row(cells: Vec<Cell>) -> (row: Row)
    ensures
        row_cells(row) == cells@.map_values(|c: Cell| cell_content(c)),
{
    Row::new(cells)
}

/// Calls `Table::new`. Trusted: the table has no rows.
#[verifier::external_body]
fn new_table() -> (table: Table)
    ensures
        table_rows(table) == Seq::<Seq<Seq<char>>>::empty(),
{
    Table::new()
}

/// Calls `Table::add_row`. Trusted: the row is added below the rows that the
/// table has.
#[verifier::external_body]
fn add_row(table: &mut Table, row: Row)
    ensures
        table_rows(*final(table)) == table_rows(*old(table)).push(row_cells(row)),
{
    table.add_row(row);
}

/// The texts of the first row of the table of a matrix: `id`, the quoted keys
/// of the columns, and `errored?`.
pub open spec fn heading(keys: Seq<Seq<char>>) -> Seq<Seq<char>> {
    seq!["id"@] + keys.map_values(|k: Seq<char>| quoted(k)) + seq!["errored?"@]
}

/// The texts of the row of the table of a matrix for test run `i`: `T` and the
/// identity of the run, for each column whether the run covered it, and
/// whether the run failed.
pub open spec fn run_row(matrix: CoverageMatrixView, keys: Seq<Seq<char>>, i: int) -> Seq<
    Seq<char>,
> {
    seq!["T"@ + decimal(matrix.test_id_vector[i])] + keys.map_values(
        |k: Seq<char>| flag_text(matrix.data[k][i]),
    ) + seq![flag_text(matrix.error_vector[i])]
}

/// The rows of the table of a matrix whose columns are kept in the order
/// `keys`: the heading, then one row for each test run, each text as a cell
/// shows it.
pub open spec fn table_of(matrix: CoverageMatrixView, keys: Seq<Seq<char>>) -> Seq<Seq<Seq<char>>> {
    seq![heading(keys).map_values(|t: Seq<char>| shown(t))] + Seq::new(
        matrix.error_vector.len(),
        |i: int| run_row(matrix, keys, i).map_values(|t: Seq<char>| shown(t)),
    )
}

/// A row of cells with the given texts.
fn row_of(texts: &Vec<String>) -> (row: Row)
    requires
        forall|a: int| 0 <= a < texts.len() ==> free_of_escape(#[trigger] texts[a]@),
    ensures
        row_cells(row) == texts.deep_view().map_values(|t: Seq<char>| shown(t)),
{
    let mut cells: Vec<Cell> = Vec::new();
    let mut i: usize = 0;
    while i < texts.len()
        invariant
            i <= texts.len(),
            cells.len() == i,
            forall|a: int| 0 <= a < texts.len() ==> free_of_escape(#[trigger] texts[a]@),
            forall|a: int| 0 <= a < i ==> cell_content(#[trigger] cells[a]) == shown(texts[a]@),
        decreases texts.len() - i,
    {
        cells.push(new_cell(texts[i].as_str()));
        i += 1;
    }
    proof {
        assert(cells@.map_values(|c: Cell| cell_content(c)) =~= texts.deep_view().map_values(
            |t: Seq<char>| shown(t),
        ));
    }
    new_row(cells)
}

impl CoverageMatrix {
    /// The matrix as a table: a heading, and a row for each test run.
    pub fn to_coverage_table(&self) -> (table: Table)
        ensures
            table_rows(table) == table_of(self@, self.column_order()),
    {
        let keys = self.keys();
        let errors = self.error_vector();
        let ids = self.test_id_vector();
        let tests = self.number_of_tests();
        let ghost order = self.column_order();
        let ghost matrix = self@;
        let mut table = new_table();
        let mut titles: Vec<String> = Vec::new();
        proof {
            reveal_strlit("id");
            reveal_strlit("errored?");
            reveal_strlit("T");
        }
        titles.push(String::from_str("id"));
        let mut c: usize = 0;
        while c < keys.len()
            invariant
                c <= keys.len(),
                order == keys.deep_view(),
                titles.len() == c + 1,
                titles[0]@ == "id"@,
                forall|a: int| 0 <= a < titles.len() ==> free_of_escape(#[trigger] titles[a]@),
                forall|a: int| 0 <= a < c ==> (#[trigger] titles[a + 1])@ == quoted(keys[a]@),
            decreases keys.len() - c,
        {
            titles.push(quote(keys[c].as_str()));
            c += 1;
        }
        titles.push(String::from_str("errored?"));
        proof {
            lemma_deep_view_index(titles);
            lemma_deep_view_index(*keys);
            let want = heading(order);
            assert(want.len() == keys.len() + 2);
            assert forall|a: int| 0 <= a < want.len() implies titles.deep_view()[a] == want[a] by {
                if 0 < a <= keys.len() {
                    assert(titles[(a - 1) + 1]@ == quoted(keys[a - 1]@));
                }
            }
            assert(titles.deep_view() =~= want);
        }
        add_row(&mut table, row_of(&titles));
        let ghost first = heading(order).map_values(|t: Seq<char>| shown(t));
        let mut i: usize = 0;
        while i < tests
            invariant
                i <= tests,
                tests == errors.len(),
                tests == ids.len(),
                order == keys.deep_view(),
                matrix == self@,
                matrix.wf(),
                errors@ == matrix.error_vector,
                ids@ == matrix.test_id_vector,
                forall|k: Seq<char>| matrix.data.dom().contains(k) <==> order.contains(k),
                first == heading(order).map_values(|t: Seq<char>| shown(t)),
                table_rows(table) == seq![first] + Seq::new(
                    i as nat,
                    |r: int| run_row(matrix, order, r).map_values(|t: Seq<char>| shown(t)),
                ),
            decreases tests - i,
        {
            let mut texts: Vec<String> = Vec::new();
            let mut name = String::from_str("T");
            let number = decimal_string(ids[i]);
            name.append(number.as_str());
            proof {
                reveal_strlit("T");
                assert(digits_and_minus(number@));
                assert forall|k: int| 0 <= k < name@.len() implies name@[k] != '\u{1b}' by {
                    if k >= 1 {
                        assert(name@[k] == number@[k - 1]);
                    }
                }
            }
            texts.push(name);
            let mut c: usize = 0;
            while c < keys.len()
                invariant
                    c <= keys.len(),
                    i < tests,
                    tests == errors.len(),
                    order == keys.deep_view(),
                    matrix == self@,
                    matrix.wf(),
                    errors@ == matrix.error_vector,
                    ids@ == matrix.test_id_vector,
                    forall|k: Seq<char>| matrix.data.dom().contains(k) <==> order.contains(k),
                    texts.len() == c + 1,
                    texts[0]@ == "T"@ + decimal(matrix.test_id_vector[i as int]),
                    forall|a: int| 0 <= a < texts.len() ==> free_of_escape(#[trigger] texts[a]@),
                    forall|a: int|
                        0 <= a < c ==> (#[trigger] texts[a + 1])@ == flag_text(
                            matrix.data[order[a]][i as int],
                        ),
                decreases keys.len() - c,
            {
                let covered = match self.column(keys[c].as_str()) {
                    Some(column) => {
                        proof {
                            assert(keys.deep_view()[c as int] == keys[c as int]@);
                        }
                        column[i]
                    },
                    None => {
                        proof {
                            assert(keys.deep_view()[c as int] == keys[c as int]@);
                            assert(order.contains(keys[c as int]@));
                        }
                        false
                    },
                };
                texts.push(flag_string(covered));
                c += 1;
            }
            texts.push(flag_string(errors[i]));
            proof {
                lemma_deep_view_index(texts);
                let want = run_row(matrix, order, i as int);
                assert(want.len() == keys.len() + 2);
                assert forall|a: int| 0 <= a < want.len() implies texts.deep_view()[a] == want[a] by {
                    if 0 < a <= keys.len() {
                        assert(texts[(a - 1) + 1]@ == flag_text(
                            matrix.data[order[a - 1]][i as int],
                        ));
                    }
                }
                assert(texts.deep_view() =~= want);
            }
            let ghost before = table_rows(table);
            add_row(&mut table, row_of(&texts));
            proof {
                let line = run_row(matrix, order, i as int).map_values(|t: Seq<char>| shown(t));
                assert(table_rows(table) == before.push(line));
                assert(before.push(line) =~= seq![first] + Seq::new(
                    (i + 1) as nat,
                    |r: int| run_row(matrix, order, r).map_values(|t: Seq<char>| shown(t)),
                ));
            }
            i += 1;
        }
        table
    }
}

} // verus!
