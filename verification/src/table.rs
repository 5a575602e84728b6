//! Rows of the CSV summaries: each cell named by its column.
use crate::text::{chars_of, parse_i64_chars, parse_i64_spec, text_equal, trim, trim_chars};
use vstd::prelude::*;

verus! {

/// A cell as text: its column's name and its value.
pub type CellText = (Seq<char>, Seq<char>);

/// One row of a table: its cells, each with the name of its column, in column order.
pub struct Row {
    pub cells: Vec<(String, String)>,
}

/// The cells as text.
pub open spec fn cells_text(cells: Seq<(String, String)>) -> Seq<CellText> {
    cells.map_values(|c: (String, String)| (c.0@, c.1@))
}

/// The value of column `key` among `cells`: that of the last cell of the name, as a map
/// filled with the cells in order keeps it.
pub open spec fn lookup(cells: Seq<CellText>, key: Seq<char>) -> Option<Seq<char>>
    decreases cells.len(),
{
    if cells.len() == 0 {
        None
    } else if cells.last().0 == key {
        Some(cells.last().1)
    } else {
        lookup(cells.drop_last(), key)
    }
}

/// A column has a value exactly when some cell has its name, and then the value is that
/// of the last such cell.
pub proof fn lemma_lookup_last_cell(cells: Seq<CellText>, key: Seq<char>)
    ensures
        lookup(cells, key) is None <==> forall|i: int| 0 <= i < cells.len() ==> (#[trigger] cells[i]).0 != key,
        lookup(cells, key) is Some ==> exists|i: int|
            0 <= i < cells.len() && #[trigger] cells[i] == (key, lookup(cells, key)->0) && forall|j: int|
                i < j < cells.len() ==> (#[trigger] cells[j]).0 != key,
    decreases cells.len(),
{
    if cells.len() > 0 {
        let init = cells.drop_last();
        lemma_lookup_last_cell(init, key);
        let n = cells.len() - 1;
        assert forall|i: int| 0 <= i < init.len() implies #[trigger] cells[i] == init[i] by {}
        if cells[n].0 == key {
            assert(cells[n] == (key, lookup(cells, key)->0));
        } else {
            if lookup(init, key) is Some {
                let i = choose|i: int|
                    0 <= i < init.len() && #[trigger] init[i] == (key, lookup(init, key)->0) && forall|j: int|
                        i < j < init.len() ==> (#[trigger] init[j]).0 != key;
                assert(cells[i] == init[i]);
                assert forall|j: int| i < j < cells.len() implies (#[trigger] cells[j]).0 != key by {
                    if j < init.len() {
                        assert(cells[j] == init[j]);
                    }
                }
            } else {
                assert forall|i: int| 0 <= i < cells.len() implies (#[trigger] cells[i]).0 != key by {
                    if i < init.len() {
                        assert(cells[i] == init[i]);
                    }
                }
            }
        }
    }
}

/// What `s.trim().parse::<i64>().unwrap_or(0)` gives.
pub open spec fn int_or_zero(s: Seq<char>) -> i64 {
    match parse_i64_spec(trim(s)) {
        Some(v) => v,
        None => 0,
    }
}

/// The number in column `key`: 0 where the column is missing or holds no integer.
pub open spec fn cell_int(cells: Seq<CellText>, key: Seq<char>) -> i64 {
    match lookup(cells, key) {
        Some(v) => int_or_zero(v),
        None => 0,
    }
}

/// The rows as text.
pub open spec fn rows_text(rows: Seq<&Row>) -> Seq<Seq<CellText>> {
    rows.map_values(|r: &Row| r.text())
}

/// The values of column `key` in the rows that have it, in row order.
pub open spec fn column_values(rows: Seq<Seq<CellText>>, key: Seq<char>) -> Seq<Seq<char>>
    decreases rows.len(),
{
    if rows.len() == 0 {
        Seq::empty()
    } else {
        let before = column_values(rows.drop_last(), key);
        match lookup(rows.last(), key) {
            Some(v) => before.push(v),
            None => before,
        }
    }
}

/// The number in column `key` of each row.
pub open spec fn column_ints(rows: Seq<Seq<CellText>>, key: Seq<char>) -> Seq<i64> {
    rows.map_values(|r: Seq<CellText>| cell_int(r, key))
}

impl Row {
    pub open spec fn text(&self) -> Seq<CellText> {
        cells_text(self.cells@)
    }

    /// The value in column `key`, if the row has that column.
    pub fn get(&self, key: &str) -> (r: Option<&String>)
        ensures
            match r {
                Some(v) => lookup(self.text(), key@) == Some(v@),
                None => lookup(self.text(), key@) is None,
            },
    {
        let mut i = self.cells.len();
        assert(self.text().subrange(0, i as int) == self.text());
        while i > 0
            invariant
                i <= self.cells@.len(),
                lookup(self.text(), key@) == lookup(self.text().subrange(0, i as int), key@),
            decreases i,
        {
            let c = &self.cells[i - 1];
            proof {
                assert(self.text().subrange(0, i as int).drop_last() == self.text().subrange(
                    0,
                    i - 1,
                ));
            }
            if text_equal(c.0.as_str(), key) {
                return Some(&c.1);
            }
            i -= 1;
        }
        None
    }

    /// The number in column `key`: 0 where the column is missing or holds no integer.
    pub fn number(&self, key: &str) -> (r: i64)
        ensures
            r == cell_int(self.text(), key@),
    {
        match self.get(key) {
            Some(v) => parse_i64(v.as_str()),
            None => 0,
        }
    }
}

/// The integer in `s` around white space, 0 if it holds none.
pub fn parse_i64(s: &str) -> (r: i64)
    ensures
        r == int_or_zero(s@),
{
    let chars = chars_of(s);
    let t = trim_chars(&chars);
    match parse_i64_chars(&t) {
        Some(v) => v,
        None => 0,
    }
}

/// The values of column `key` in the rows that have it, in row order.
pub fn column_strings(rows: &[&Row], key: &str) -> (r: Vec<String>)
    ensures
        r@.map_values(|s: String| s@) == column_values(rows_text(rows@), key@),
{
    let mut r: Vec<String> = Vec::new();
    let mut i: usize = 0;
    while i < rows.len()
        invariant
            i <= rows@.len(),
            r@.map_values(|s: String| s@) == column_values(
                rows_text(rows@).subrange(0, i as int),
                key@,
            ),
        decreases rows.len() - i,
    {
        proof {
            assert(rows_text(rows@).subrange(0, i + 1).drop_last() == rows_text(rows@).subrange(
                0,
                i as int,
            ));
        }
        match rows[i].get(key) {
            Some(v) => {
                r.push(v.clone());
            },
            None => {},
        }
        i += 1;
    }
    assert(rows_text(rows@).subrange(0, rows@.len() as int) == rows_text(rows@));
    r
}

/// The number in column `key` of each row.
pub fn column_numbers(rows: &[&Row], key: &str) -> (r: Vec<i64>)
    ensures
        r@ == column_ints(rows_text(rows@), key@),
{
    let mut r: Vec<i64> = Vec::new();
    let mut i: usize = 0;
    while i < rows.len()
        invariant
            i <= rows@.len(),
            r@ == column_ints(rows_text(rows@), key@).subrange(0, i as int),
        decreases rows.len() - i,
    {
        let n = rows[i].number(key);
        r.push(n);
        i += 1;
        assert(r@ == column_ints(rows_text(rows@), key@).subrange(0, i as int));
    }
    r
}


/// The records of a CSV text, each a list of fields, as the csv crate's reader gives them
/// with no header row set apart; none if the reader reports an error.
pub uninterp spec fn csv_records(bytes: Seq<u8>) -> Option<Seq<Seq<Seq<char>>>>;

/// The records as text.
pub open spec fn records_text(recs: Seq<Vec<String>>) -> Seq<Seq<Seq<char>>> {
    recs.map_values(|r: Vec<String>| r@.map_values(|f: String| f@))
}

/// Calls the csv crate's `ReaderBuilder::new().has_headers(false).from_reader(bytes)` and
/// collects `records()`, each field as a string. The contract names the result; it states
/// nothing of the CSV grammar.
#[verifier::external_body]
fn parse_csv(bytes: &[u8]) -> (r: Option<Vec<Vec<String>>>)
    ensures
        match r {
            Some(recs) => csv_records(bytes@) == Some(records_text(recs@)),
            None => csv_records(bytes@) is None,
        },
{
    let mut reader = csv::ReaderBuilder::new().has_headers(false).from_reader(bytes);
    let mut out = Vec::new();
    for record in reader.records() {
        out.push(record.ok()?.iter().map(|f| f.to_string()).collect());
    }
    Some(out)
}

/// The cells of a record: each field with the header of its column, in order, as far as
/// both reach.
pub open spec fn record_cells(header: Seq<Seq<char>>, rec: Seq<Seq<char>>) -> Seq<CellText> {
    let n = if header.len() < rec.len() {
        header.len()
    } else {
        rec.len()
    };
    Seq::new(n, |i: int| (header[i], rec[i]))
}

/// The rows of a table whose first record is the header.
pub open spec fn records_rows(recs: Seq<Seq<Seq<char>>>) -> Seq<Seq<CellText>> {
    if recs.len() == 0 {
        Seq::empty()
    } else {
        Seq::new((recs.len() - 1) as nat, |k: int| record_cells(recs[0], recs[k + 1]))
    }
}

/// The rows of records whose first one is the header: each later record becomes a row
/// pairing every header with the field in the same column.
pub fn rows_from_records(recs: Vec<Vec<String>>) -> (r: Vec<Row>)
    ensures
        r@.map_values(|row: Row| row.text()) == records_rows(records_text(recs@)),
{
    let ghost rt = records_text(recs@);
    let mut rows: Vec<Row> = Vec::new();
    if recs.len() == 0 {
        assert(rows@.map_values(|row: Row| row.text()) =~= records_rows(rt));
        return rows;
    }
    let header = &recs[0];
    let mut k: usize = 1;
    while k < recs.len()
        invariant
            1 <= k <= recs@.len(),
            rt == records_text(recs@),
            header@ == recs@[0]@,
            rows@.len() == k - 1,
            forall|j: int| 0 <= j < k - 1 ==> (#[trigger] rows@[j]).text() == record_cells(rt[0], rt[j + 1]),
        decreases recs.len() - k,
    {
        let rec = &recs[k];
        let n = if header.len() < rec.len() { header.len() } else { rec.len() };
        let mut cells: Vec<(String, String)> = Vec::new();
        let mut i: usize = 0;
        while i < n
            invariant
                i <= n,
                n <= header@.len(),
                n <= rec@.len(),
                cells@.len() == i,
                forall|m: int| 0 <= m < i ==> (#[trigger] cells@[m]).0@ == header@[m]@ && cells@[m].1@ == rec@[m]@,
            decreases n - i,
        {
            cells.push((header[i].clone(), rec[i].clone()));
            i += 1;
        }
        let row = Row { cells };
        proof {
            assert(rt[0] == header@.map_values(|f: String| f@));
            assert(rt[k as int] == rec@.map_values(|f: String| f@));
            assert(row.text() =~= record_cells(rt[0], rt[k as int]));
        }
        rows.push(row);
        k += 1;
    }
    assert(rows@.map_values(|row: Row| row.text()) =~= records_rows(rt));
    rows
}

/// The rows of a CSV text whose first record is the header; none if it does not parse.
pub fn read_rows(bytes: &[u8]) -> (r: Option<Vec<Row>>)
    ensures
        match csv_records(bytes@) {
            None => r is None,
            Some(recs) => r matches Some(rows) && rows@.map_values(|row: Row| row.text())
                == records_rows(recs),
        },
{
    match parse_csv(bytes) {
        None => None,
        Some(recs) => Some(rows_from_records(recs)),
    }
}

} // verus!
