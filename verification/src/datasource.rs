//! Readers that normalize tabular sources into `RowTable`s: CSV text (one
//! file or several with the same schema) and spreadsheet grids already
//! reduced to plain cell values. Record splitting is the csv crate's work;
//! everything after it — coercion, row and table assembly, the first-column
//! rule — is verified here.

use vstd::prelude::*;

use crate::cells::{coerce_cell, spec_coerce, CellModel, CtxValue};
use crate::table::{spec_assoc_get, spec_assoc_insert, Row, RowTable};
use crate::text::{is_blank_str, join_path, spec_is_blank, str_eq};

verus! {

/// Why a source read failed.
#[derive(Debug)]
pub enum ReadError {
    /// The CSV reader rejected the input; the text is its report.
    Csv(String),
    /// A data row's first column is not non-blank text.
    FirstColumn,
}

impl ReadError {
    /// The human-readable report of this failure.
    pub fn message(&self) -> (r: String)
        ensures
            self is FirstColumn ==> r@ == "First column must contain strings only"@,
            self matches ReadError::Csv(m) ==> r@ == m@,
    {
        match self {
            ReadError::Csv(m) => m.clone(),
            ReadError::FirstColumn => "First column must contain strings only".to_owned(),
        }
    }
}

/// The records the csv crate parses out of `data` with the given field
/// delimiter (`#` comments skipped, fields trimmed): `None` when it reports
/// an error, otherwise one character-sequence per field, one record per row.
pub uninterp spec fn csv_records(data: Seq<u8>, delim: u8) -> Option<Seq<Seq<Seq<char>>>>;

/// The field texts of one record.
pub open spec fn spec_rec_view(r: Seq<String>) -> Seq<Seq<char>> {
    r.map_values(|s: String| s@)
}

/// The field texts of every record.
pub open spec fn spec_recs_view(rs: Seq<Vec<String>>) -> Seq<Seq<Seq<char>>> {
    rs.map_values(|r: Vec<String>| spec_rec_view(r@))
}

/// Relies on csv::ReaderBuilder (delimiter, `#` comments, trimmed fields):
/// the headers come first, then each record, all of equal width and never
/// empty; a malformed record is reported as an error.
#[verifier::external_body]
fn parse_csv_records(data: &Vec<u8>, delim: u8) -> (r: Result<Vec<Vec<String>>, String>)
    ensures
        match r {
            Ok(recs) => csv_records(data@, delim) == Some(spec_recs_view(recs@)) && (forall|
                i: int,
            |
                0 <= i < recs@.len() ==> (#[trigger] recs@[i])@.len() == recs@[0]@.len())
                && (forall|i: int|
                1 <= i < recs@.len() ==> (#[trigger] recs@[i])@.len() >= 1),
            Err(_) => csv_records(data@, delim) is None,
        },
{
    let mut b = csv::ReaderBuilder::new();
    let rdr = b.delimiter(delim).comment(Some(b'#')).trim(csv::Trim::All);
    let mut rdr = rdr.from_reader(data.as_slice());
    let mut out: Vec<Vec<String>> = Vec::new();
    match rdr.headers() {
        Ok(h) => out.push(h.iter().map(|f| f.to_string()).collect()),
        Err(e) => return Err(e.to_string()),
    }
    for rec in rdr.records() {
        match rec {
            Ok(r) => out.push(r.iter().map(|f| f.to_string()).collect()),
            Err(e) => return Err(format!("Error reading CSV record: {}", e)),
        }
    }
    Ok(out)
}

/// The row built by coercing `fields` under their column `headers`, columns
/// inserted left to right.
pub open spec fn spec_build_row(headers: Seq<Seq<char>>, fields: Seq<Seq<char>>) -> Seq<
    (Seq<char>, CellModel),
>
    decreases headers.len(),
{
    if headers.len() == 0 || fields.len() == 0 {
        Seq::empty()
    } else {
        spec_assoc_insert(
            spec_build_row(headers.drop_last(), fields.drop_last()),
            headers.last(),
            spec_coerce(fields.last()),
        )
    }
}

/// The table built from data records under `headers`, keyed by each
/// record's first field, rows inserted in record order (a repeated key
/// keeps its place and takes the later row).
pub open spec fn spec_build_table(headers: Seq<Seq<char>>, rows: Seq<Seq<Seq<char>>>) -> Seq<
    (Seq<char>, Seq<(Seq<char>, CellModel)>),
>
    decreases rows.len(),
{
    if rows.len() == 0 {
        Seq::empty()
    } else {
        spec_assoc_insert(
            spec_build_table(headers, rows.drop_last()),
            rows.last()[0],
            spec_build_row(headers, rows.last()),
        )
    }
}

/// The header record of a record list, empty when there is none.
pub open spec fn spec_headers(rs: Seq<Seq<Seq<char>>>) -> Seq<Seq<char>> {
    if rs.len() > 0 {
        rs[0]
    } else {
        Seq::empty()
    }
}

/// The name of the first column, empty when there are no headers.
pub open spec fn spec_first_col_name(rs: Seq<Seq<Seq<char>>>) -> Seq<char> {
    if spec_headers(rs).len() > 0 {
        spec_headers(rs)[0]
    } else {
        Seq::empty()
    }
}

/// The table a CSV record list yields.
pub open spec fn spec_table_of(rs: Seq<Seq<Seq<char>>>) -> Seq<
    (Seq<char>, Seq<(Seq<char>, CellModel)>),
> {
    if rs.len() == 0 {
        Seq::empty()
    } else {
        spec_build_table(spec_headers(rs), rs.drop_first())
    }
}

/// The first-column rule a CSV table must meet: every row whose key is not
/// the first column's own name holds non-blank text in the first column.
pub open spec fn spec_first_col_ok(rs: Seq<Seq<Seq<char>>>) -> bool {
    forall|i: int|
        0 <= i < spec_table_of(rs).len() ==> {
            let entry = #[trigger] spec_table_of(rs)[i];
            entry.0 == spec_first_col_name(rs) || (match spec_assoc_get(
                entry.1,
                spec_first_col_name(rs),
            ) {
                Some(CellModel::Text(t)) => !spec_is_blank(t),
                _ => false,
            })
        }
}

/// Builds the row table of a CSV record list: the first record names the
/// columns, each further record becomes a row keyed by its first field with
/// every cell coerced, then the first-column rule is enforced.
#[verifier::loop_isolation(false)]
pub fn table_from_records(records: &Vec<Vec<String>>) -> (r: Result<RowTable, ReadError>)
    requires
        forall|i: int|
            0 <= i < records@.len() ==> (#[trigger] records@[i])@.len() == records@[0]@.len(),
        forall|i: int| 1 <= i < records@.len() ==> (#[trigger] records@[i])@.len() >= 1,
    ensures
        r is Ok <==> spec_first_col_ok(spec_recs_view(records@)),
        r matches Ok(t) ==> t@ == spec_table_of(spec_recs_view(records@)) && t.well_formed(),
        r matches Err(e) ==> e is FirstColumn,
{
    let ghost rs = spec_recs_view(records@);
    let mut table = RowTable::new();
    let n = records.len();
    if n == 0 {
        proof {
            assert(spec_table_of(rs) =~= table@);
        }
        return Ok(table);
    }
    let w = records[0].len();
    let mut rec_i: usize = 1;
    while rec_i < n
        invariant
            1 <= rec_i <= n,
            table@ == spec_build_table(spec_headers(rs), rs.drop_first().take(rec_i - 1)),
            table.well_formed(),
        decreases n - rec_i,
    {
        let mut row = Row::new();
        let mut j: usize = 0;
        let ghost hs = spec_headers(rs);
        let ghost fs = rs[rec_i as int];
        while j < w
            invariant
                j <= w,
                1 <= rec_i < n,
                row@ == spec_build_row(hs.take(j as int), fs.take(j as int)),
                row.well_formed(),
            decreases w - j,
        {
            let header = records[0][j].clone();
            let cell = coerce_cell(records[rec_i][j].as_str());
            row.insert(header, cell);
            j = j + 1;
            proof {
                assert(hs.take(j as int).drop_last() =~= hs.take(j - 1));
                assert(fs.take(j as int).drop_last() =~= fs.take(j - 1));
                assert(hs.take(j as int).last() == hs[j - 1]);
                assert(fs.take(j as int).last() == fs[j - 1]);
            }
        }
        proof {
            assert(hs.take(w as int) =~= hs);
            assert(fs.take(w as int) =~= fs);
        }
        let key = records[rec_i][0].clone();
        table.insert(key, row);
        rec_i = rec_i + 1;
        proof {
            let pre = rs.drop_first().take(rec_i - 2);
            let cur = rs.drop_first().take(rec_i - 1);
            assert(cur.drop_last() =~= pre);
            assert(cur.last() == rs[rec_i - 1]);
        }
    }
    proof {
        assert(rs.drop_first().take(n - 1) =~= rs.drop_first());
    }
    // the first-column rule, checked over the finished table as the reader
    // checks it
    let first_col: String = if w > 0 {
        records[0][0].clone()
    } else {
        String::new()
    };
    proof {
        assert(first_col@ == spec_first_col_name(rs));
    }
    let t_len = table.len();
    let mut i: usize = 0;
    while i < t_len
        invariant
            i <= t_len,
            t_len == table@.len(),
            forall|k: int|
                0 <= k < i ==> {
                    let entry = #[trigger] table@[k];
                    entry.0 == spec_first_col_name(rs) || (match spec_assoc_get(
                        entry.1,
                        spec_first_col_name(rs),
                    ) {
                        Some(CellModel::Text(t)) => !spec_is_blank(t),
                        _ => false,
                    })
                },
        decreases t_len - i,
    {
        let key = table.key_at(i);
        if !str_eq(key.as_str(), first_col.as_str()) {
            let row = table.row_at(i);
            match row.get(first_col.as_str()) {
                Some(CtxValue::Text(t)) => {
                    if is_blank_str(t.as_str()) {
                        return Err(ReadError::FirstColumn);
                    }
                },
                _ => {
                    return Err(ReadError::FirstColumn);
                },
            }
        }
        i = i + 1;
    }
    Ok(table)
}

/// Reads one CSV file: the file's bytes in, a row table out.
pub struct CsvSourceReader {
    file_path: String,
    delim: u8,
}

impl CsvSourceReader {
    /// Where the backing file lives.
    pub closed spec fn spec_path(&self) -> Seq<char> {
        self.file_path@
    }

    /// The field delimiter handed to the CSV reader.
    pub closed spec fn spec_delim(&self) -> u8 {
        self.delim
    }

    /// A reader for `file_name` under `relative_root`; the delimiter
    /// defaults to `;`.
    pub fn new(file_name: &str, relative_root: &str, delimiter: Option<char>) -> (r: Self)
        ensures
            relative_root@.len() == 0 ==> r.spec_path() == file_name@,
            relative_root@.len() > 0 ==> r.spec_path() == relative_root@ + "/"@ + file_name@,
            delimiter is None ==> r.spec_delim() == ';' as u8,
            delimiter matches Some(c) ==> r.spec_delim() == c as u8,
    {
        let delim: u8 = match delimiter {
            Some(c) => c as u8,
            None => 59u8,  // ';'
        };
        CsvSourceReader { file_path: join_path(relative_root, file_name), delim }
    }

    /// The path of the backing file, for the caller that fetches its bytes.
    pub fn path(&self) -> (r: &String)
        ensures
            r@ == self.spec_path(),
    {
        &self.file_path
    }

    /// Turns the backing file's bytes into a row table.
    pub fn read(&self, data: &Vec<u8>) -> (r: Result<RowTable, ReadError>)
        ensures
            r is Ok <==> (csv_records(data@, self.spec_delim()) matches Some(rs)
                && spec_first_col_ok(rs)),
            r matches Ok(t) ==> t@ == spec_table_of(
                csv_records(data@, self.spec_delim())->Some_0,
            ) && t.well_formed(),
    {
        match parse_csv_records(data, self.delim) {
            Ok(records) => table_from_records(&records),
            Err(m) => Err(ReadError::Csv(m)),
        }
    }
}

/// The cell models of one grid row.
pub open spec fn spec_cells_view(r: Vec<CtxValue>) -> Seq<CellModel> {
    r@.map_values(|c: CtxValue| c@)
}

/// The text a header or key cell holds; only meaningful for `Text` cells.
pub open spec fn spec_cell_text(c: CellModel) -> Seq<char> {
    match c {
        CellModel::Text(t) => t,
        _ => Seq::empty(),
    }
}

/// The row built by pairing grid `headers` with one data row's `cells`.
pub open spec fn spec_grid_row(headers: Seq<CellModel>, cells: Seq<CellModel>) -> Seq<
    (Seq<char>, CellModel),
>
    decreases headers.len(),
{
    if headers.len() == 0 || cells.len() == 0 {
        Seq::empty()
    } else {
        spec_assoc_insert(
            spec_grid_row(headers.drop_last(), cells.drop_last()),
            spec_cell_text(headers.last()),
            cells.last(),
        )
    }
}

/// The table built from grid data `rows` under `headers`, keyed by each
/// row's first cell.
pub open spec fn spec_grid_build(headers: Seq<CellModel>, rows: Seq<Seq<CellModel>>) -> Seq<
    (Seq<char>, Seq<(Seq<char>, CellModel)>),
>
    decreases rows.len(),
{
    if rows.len() == 0 {
        Seq::empty()
    } else {
        spec_assoc_insert(
            spec_grid_build(headers, rows.drop_last()),
            spec_cell_text(rows.last()[0]),
            spec_grid_row(headers, rows.last()),
        )
    }
}

/// Builds the row table of a rectangular spreadsheet grid whose first row
/// holds text headers: rows are keyed by their first cell, which must be
/// text for every data row.
#[verifier::loop_isolation(false)]
pub fn table_from_grid(grid: &Vec<Vec<CtxValue>>) -> (r: Result<RowTable, ReadError>)
    requires
        grid@.len() >= 1,
        grid@[0]@.len() >= 1,
        forall|i: int| 0 <= i < grid@.len() ==> (#[trigger] grid@[i])@.len() == grid@[0]@.len(),
        forall|j: int| 0 <= j < grid@[0]@.len() ==> (#[trigger] grid@[0]@[j])@ is Text,
    ensures
        r is Ok <==> (forall|i: int|
            1 <= i < grid@.len() ==> (#[trigger] grid@[i])@[0]@ is Text),
        r matches Ok(t) ==> t@ == spec_grid_build(
            spec_cells_view(grid@[0]),
            grid@.map_values(|row: Vec<CtxValue>| spec_cells_view(row)).drop_first(),
        ) && t.well_formed(),
        r matches Err(e) ==> e is FirstColumn,
{
    let n = grid.len();
    let w = grid[0].len();
    // first-column rule, checked before any row is built, as the reader does
    let mut i: usize = 1;
    while i < n
        invariant
            1 <= i <= n,
            forall|k: int| 1 <= k < i ==> (#[trigger] grid@[k])@[0]@ is Text,
        decreases n - i,
    {
        match &grid[i][0] {
            CtxValue::Text(_) => {},
            _ => {
                return Err(ReadError::FirstColumn);
            },
        }
        i = i + 1;
    }
    let ghost hs = spec_cells_view(grid@[0]);
    let ghost rows_v = grid@.map_values(|row: Vec<CtxValue>| spec_cells_view(row));
    let mut table = RowTable::new();
    let mut rec_i: usize = 1;
    while rec_i < n
        invariant
            1 <= rec_i <= n,
            table@ == spec_grid_build(hs, rows_v.drop_first().take(rec_i - 1)),
            table.well_formed(),
            forall|k: int| 1 <= k < n ==> (#[trigger] grid@[k])@[0]@ is Text,
        decreases n - rec_i,
    {
        let ghost cs = rows_v[rec_i as int];
        let mut row = Row::new();
        let mut j: usize = 0;
        while j < w
            invariant
                j <= w,
                1 <= rec_i < n,
                row@ == spec_grid_row(hs.take(j as int), cs.take(j as int)),
                row.well_formed(),
            decreases w - j,
        {
            let key = if let CtxValue::Text(t) = &grid[0][j] {
                t.clone()
            } else {
                proof {
                    assert(grid@[0]@[j as int]@ is Text);
                    assert(false);
                }
                String::new()
            };
            let cell = grid[rec_i][j].clone();
            row.insert(key, cell);
            j = j + 1;
            proof {
                assert(hs.take(j as int).drop_last() =~= hs.take(j - 1));
                assert(cs.take(j as int).drop_last() =~= cs.take(j - 1));
                assert(hs.take(j as int).last() == hs[j - 1]);
                assert(cs.take(j as int).last() == cs[j - 1]);
            }
        }
        proof {
            assert(hs.take(w as int) =~= hs);
            assert(cs.take(w as int) =~= cs);
        }
        let key = if let CtxValue::Text(t) = &grid[rec_i][0] {
            t.clone()
        } else {
            proof {
                assert(grid@[rec_i as int]@[0]@ is Text);
                assert(false);
            }
            String::new()
        };
        table.insert(key, row);
        rec_i = rec_i + 1;
        proof {
            let pre = rows_v.drop_first().take(rec_i - 2);
            let cur = rows_v.drop_first().take(rec_i - 1);
            assert(cur.drop_last() =~= pre);
            assert(cur.last() == rows_v[rec_i - 1]);
        }
    }
    proof {
        assert(rows_v.drop_first().take(n - 1) =~= rows_v.drop_first());
    }
    Ok(table)
}

/// Reads one spreadsheet source: its rectangular cell grid in, a row table
/// out. Opening the workbook and lowering its cells to `CtxValue`s is the
/// caller's work.
pub struct ExcelSourceReader {
    file_path: String,
    sheet: Option<String>,
}

impl ExcelSourceReader {
    /// Where the backing workbook lives.
    pub closed spec fn spec_path(&self) -> Seq<char> {
        self.file_path@
    }

    /// The sheet to read, if one was configured.
    pub closed spec fn spec_sheet(&self) -> Option<Seq<char>> {
        match self.sheet {
            Some(s) => Some(s@),
            None => None,
        }
    }

    pub fn new(file_name: &str, relative_root: &str, sheet: Option<&str>) -> (r: Self)
        ensures
            relative_root@.len() == 0 ==> r.spec_path() == file_name@,
            relative_root@.len() > 0 ==> r.spec_path() == relative_root@ + "/"@ + file_name@,
            sheet is None ==> r.spec_sheet() is None,
            sheet matches Some(s) ==> r.spec_sheet() == Some(s@),
    {
        let sheet_owned = match sheet {
            Some(s) => Some(s.to_owned()),
            None => None,
        };
        ExcelSourceReader { file_path: join_path(relative_root, file_name), sheet: sheet_owned }
    }

    /// The path of the backing workbook, for the caller that opens it.
    pub fn path(&self) -> (r: &String)
        ensures
            r@ == self.spec_path(),
    {
        &self.file_path
    }

    /// The configured sheet name, for the caller that opens the workbook.
    pub fn sheet_name(&self) -> (r: Option<&String>)
        ensures
            r is Some <==> self.spec_sheet() is Some,
            r matches Some(s) ==> self.spec_sheet() == Some(s@),
    {
        match &self.sheet {
            Some(s) => Some(s),
            None => None,
        }
    }

    /// Turns the sheet's cell grid into a row table.
    pub fn read(&self, grid: &Vec<Vec<CtxValue>>) -> (r: Result<RowTable, ReadError>)
        requires
            grid@.len() >= 1,
            grid@[0]@.len() >= 1,
            forall|i: int|
                0 <= i < grid@.len() ==> (#[trigger] grid@[i])@.len() == grid@[0]@.len(),
            forall|j: int| 0 <= j < grid@[0]@.len() ==> (#[trigger] grid@[0]@[j])@ is Text,
        ensures
            r is Ok <==> (forall|i: int|
                1 <= i < grid@.len() ==> (#[trigger] grid@[i])@[0]@ is Text),
            r matches Ok(t) ==> t@ == spec_grid_build(
                spec_cells_view(grid@[0]),
                grid@.map_values(|row: Vec<CtxValue>| spec_cells_view(row)).drop_first(),
            ) && t.well_formed(),
            r matches Err(e) ==> e is FirstColumn,
    {
        table_from_grid(grid)
    }
}

/// The data of each backing file as a byte sequence.
pub open spec fn spec_datas_view(ds: Seq<Vec<u8>>) -> Seq<Seq<u8>> {
    ds.map_values(|d: Vec<u8>| d@)
}

/// The union of the tables of several same-schema CSV files, file order
/// kept, a later file's row silently overriding an earlier one with the
/// same key; `None` when any file fails to parse or breaks the
/// first-column rule.
pub open spec fn spec_multi_table(datas: Seq<Seq<u8>>, delim: u8) -> Option<
    Seq<(Seq<char>, Seq<(Seq<char>, CellModel)>)>,
>
    decreases datas.len(),
{
    if datas.len() == 0 {
        Some(Seq::empty())
    } else {
        match spec_multi_table(datas.drop_last(), delim) {
            None => None,
            Some(acc) => match csv_records(datas.last(), delim) {
                None => None,
                Some(rs) => if spec_first_col_ok(rs) {
                    Some(crate::table::spec_merge(acc, spec_table_of(rs)))
                } else {
                    None
                },
            },
        }
    }
}

/// Reads several CSV files with the same schema and unions their tables in
/// file order.
pub struct MultiSourceReader {
    file_paths: Vec<String>,
    delim: u8,
}

impl MultiSourceReader {
    /// Where the backing files live, in read order.
    pub closed spec fn spec_paths(&self) -> Seq<Seq<char>> {
        self.file_paths@.map_values(|s: String| s@)
    }

    /// The field delimiter handed to the CSV reader.
    pub closed spec fn spec_delim(&self) -> u8 {
        self.delim
    }

    pub fn new(file_names: &Vec<String>, relative_root: &str, delimiter: Option<char>) -> (r:
        Self)
        ensures
            r.spec_paths().len() == file_names@.len(),
            delimiter is None ==> r.spec_delim() == ';' as u8,
            delimiter matches Some(c) ==> r.spec_delim() == c as u8,
    {
        let delim: u8 = match delimiter {
            Some(c) => c as u8,
            None => 59u8,  // ';'
        };
        let mut paths: Vec<String> = Vec::new();
        let mut i: usize = 0;
        while i < file_names.len()
            invariant
                paths@.len() == i,
                i <= file_names@.len(),
            decreases file_names@.len() - i,
        {
            paths.push(join_path(relative_root, file_names[i].as_str()));
            i = i + 1;
        }
        MultiSourceReader { file_paths: paths, delim }
    }

    /// The paths of the backing files, for the caller that fetches their
    /// bytes.
    pub fn paths(&self) -> (r: &Vec<String>)
        ensures
            r@.map_values(|s: String| s@) == self.spec_paths(),
    {
        &self.file_paths
    }

    /// Unions the tables of the backing files' bytes, given in path order.
    pub fn read(&self, datas: &Vec<Vec<u8>>) -> (r: Result<RowTable, ReadError>)
        ensures
            r is Ok <==> spec_multi_table(spec_datas_view(datas@), self.spec_delim()) is Some,
            r matches Ok(t) ==> Some(t@) == spec_multi_table(
                spec_datas_view(datas@),
                self.spec_delim(),
            ) && t.well_formed(),
    {
        let ghost dv = spec_datas_view(datas@);
        let mut table = RowTable::new();
        let n = datas.len();
        let mut i: usize = 0;
        while i < n
            invariant
                i <= n,
                n == datas@.len(),
                dv == spec_datas_view(datas@),
                Some(table@) == spec_multi_table(dv.take(i as int), self.spec_delim()),
                table.well_formed(),
            decreases n - i,
        {
            let records = match parse_csv_records(&datas[i], self.delim) {
                Ok(recs) => recs,
                Err(m) => {
                    proof {
                        lemma_multi_table_step_none(dv, self.spec_delim(), i as int);
                    }
                    return Err(ReadError::Csv(m));
                },
            };
            let file_table = match table_from_records(&records) {
                Ok(t) => t,
                Err(e) => {
                    proof {
                        lemma_multi_table_step_none(dv, self.spec_delim(), i as int);
                    }
                    return Err(e);
                },
            };
            table.merge_from(file_table);
            i = i + 1;
            proof {
                assert(dv.take(i as int).drop_last() =~= dv.take(i - 1));
                assert(dv.take(i as int).last() == dv[i - 1]);
            }
        }
        proof {
            assert(dv.take(n as int) =~= dv);
        }
        Ok(table)
    }
}

/// Once one prefix step of the multi-file fold fails, the whole fold fails.
proof fn lemma_multi_table_step_none(dv: Seq<Seq<u8>>, delim: u8, i: int)
    requires
        0 <= i < dv.len(),
        spec_multi_table(dv.take(i), delim) is Some,
        match csv_records(dv[i], delim) {
            None => true,
            Some(rs) => !spec_first_col_ok(rs),
        },
    ensures
        spec_multi_table(dv, delim) is None,
    decreases dv.len(),
{
    if dv.len() == 0 {
    } else if i == dv.len() - 1 {
        assert(dv.take(i) =~= dv.drop_last());
        if spec_multi_table(dv.drop_last(), delim) is Some {
            assert(dv.last() == dv[i]);
        }
    } else {
        assert(dv.drop_last().take(i) =~= dv.take(i));
        assert(dv.drop_last()[i] == dv[i]);
        lemma_multi_table_step_none(dv.drop_last(), delim, i);
    }
}

} // verus!
