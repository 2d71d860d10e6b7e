//! CSV data sources: the records a scenario draws its fields from, and the
//! checks on where and how large a data file may be.

use crate::engine::BztError;
use crate::strmap::StrMap;
use crate::text::{decimal, decimal_string, string_views};
use vstd::prelude::*;
use vstd::string::StringExecFns;

verus! {

/// The largest data file accepted, in bytes (100 MiB).
pub const MAX_FILE_SIZE: u64 = 104857600;

/// The table that the `csv` crate reads from `bytes` with its default
/// settings (a header row, comma-separated, records as long as the header):
/// the header fields and the fields of each record, or the text of the
/// crate's error.
pub uninterp spec fn csv_table(bytes: Seq<u8>) -> Result<
    (Seq<Seq<char>>, Seq<Seq<Seq<char>>>),
    Seq<char>,
>;

/// The texts of a list of rows.
pub open spec fn rows_view(rows: Seq<Vec<String>>) -> Seq<Seq<Seq<char>>> {
    rows.map_values(|r: Vec<String>| string_views(r@))
}

/// Reads a CSV table (`csv::Reader::from_reader`, `Reader::headers`, then
/// `Reader::records`), each field as text; the first error ends it. The
/// contract names the result.
#[verifier::external_body]
fn read_csv_table(bytes: &[u8]) -> (r: Result<(Vec<String>, Vec<Vec<String>>), String>)
    ensures
        csv_table(bytes@) == match r {
            Ok(t) => Ok((string_views(t.0@), rows_view(t.1@))),
            Err(e) => Err(e@),
        },
{
    let mut reader = csv::Reader::from_reader(bytes);
    let headers = reader.headers().map_err(|e| e.to_string())?.iter().map(String::from).collect();
    let mut rows = Vec::new();
    for record in reader.records() {
        rows.push(record.map_err(|e| e.to_string())?.iter().map(String::from).collect());
    }
    Ok((headers, rows))
}

/// The texts of a map's values.
pub open spec fn text_map(m: Map<Seq<char>, String>) -> Map<Seq<char>, Seq<char>> {
    m.map_values(|s: String| s@)
}

/// The record that the first `n` header fields make of `fields`: each
/// header maps to the field at its position (empty when the record is
/// shorter); a repeated header keeps its last field.
pub open spec fn row_record(headers: Seq<Seq<char>>, fields: Seq<Seq<char>>, n: int) -> Map<
    Seq<char>,
    Seq<char>,
>
    decreases n,
{
    if n <= 0 {
        Map::empty()
    } else {
        row_record(headers, fields, n - 1).insert(
            headers[n - 1],
            if n - 1 < fields.len() {
                fields[n - 1]
            } else {
                Seq::empty()
            },
        )
    }
}

/// The records of a CSV data source, read once and handed out by index.
pub struct CsvDataSource {
    records: Vec<StrMap<String>>,
}

impl CsvDataSource {
    /// The records, in file order.
    pub closed spec fn records(&self) -> Seq<StrMap<String>> {
        self.records@
    }

    /// A data source with the given records.
    pub fn from_records(records: Vec<StrMap<String>>) -> (s: Self)
        ensures
            s.records() == records@,
    {
        CsvDataSource { records }
    }

    /// The number of records.
    pub fn len(&self) -> (n: usize)
        ensures
            n == self.records().len(),
    {
        self.records.len()
    }

    /// The data source of a table: one record per row, mapping each header
    /// to the row's field at its position.
    pub fn from_table(headers: &Vec<String>, rows: &Vec<Vec<String>>) -> (s: Self)
        ensures
            s.records().len() == rows@.len(),
            forall|i: int|
                0 <= i < rows@.len() ==> text_map((#[trigger] s.records()[i])@) == row_record(
                    string_views(headers@),
                    string_views(rows@[i]@),
                    headers@.len() as int,
                ),
    {
        let mut records: Vec<StrMap<String>> = Vec::new();
        let mut i: usize = 0;
        while i < rows.len()
            invariant
                i <= rows@.len(),
                records@.len() == i,
                forall|k: int|
                    0 <= k < i ==> text_map((#[trigger] records@[k])@) == row_record(
                        string_views(headers@),
                        string_views(rows@[k]@),
                        headers@.len() as int,
                    ),
            decreases rows@.len() - i,
        {
            let row = &rows[i];
            let mut record: StrMap<String> = StrMap::new();
            let mut j: usize = 0;
            assert(text_map(record@) =~= row_record(string_views(headers@), string_views(row@), 0));
            while j < headers.len()
                invariant
                    j <= headers@.len(),
                    text_map(record@) == row_record(
                        string_views(headers@),
                        string_views(row@),
                        j as int,
                    ),
                decreases headers@.len() - j,
            {
                let field = if j < row.len() {
                    row[j].clone()
                } else {
                    String::new()
                };
                let ghost before = record@;
                let _ = record.insert(headers[j].clone(), field);
                assert(text_map(record@) =~= text_map(before).insert(headers@[j as int]@, field@));
                j = j + 1;
            }
            records.push(record);
            i = i + 1;
        }
        CsvDataSource { records }
    }

    /// Reads a data source from the bytes of a CSV file: the header row
    /// names the fields of every record. A malformed file gives an internal
    /// error with the reader's message.
    pub fn from_csv(bytes: &[u8]) -> (r: Result<Self, BztError>)
        ensures
            match csv_table(bytes@) {
                Ok(t) => r matches Ok(s) && s.records().len() == t.1.len() && forall|i: int|
                    0 <= i < t.1.len() ==> text_map((#[trigger] s.records()[i])@) == row_record(
                        t.0,
                        t.1[i],
                        t.0.len() as int,
                    ),
                Err(m) => r matches Err(e) && e matches BztError::Internal(x) && x@ == m,
            },
    {
        match read_csv_table(bytes) {
            Ok((headers, rows)) => {
                let s = Self::from_table(&headers, &rows);
                assert forall|i: int| 0 <= i < rows@.len() implies string_views(rows@[i]@)
                    == rows_view(rows@)[i] by {}
                Ok(s)
            },
            Err(m) => Err(BztError::Internal(m)),
        }
    }

    /// The record for user `index`: records are handed out round-robin;
    /// `None` when there are none.
    pub fn get_record(&self, index: usize) -> (r: Option<&StrMap<String>>)
        ensures
            match r {
                Some(rec) => self.records().len() > 0 && *rec == self.records()[(index as int)
                    % (self.records().len() as int)],
                None => self.records().len() == 0,
            },
    {
        if self.records.len() == 0 {
            return None;
        }
        Some(&self.records[index % self.records.len()])
    }
}

/// Records are handed out round-robin: user `index` and user `index` plus
/// the number of records get the same record.
pub proof fn lemma_records_round_robin(records: Seq<StrMap<String>>, index: int)
    requires
        records.len() > 0,
        index >= 0,
    ensures
        records[index % (records.len() as int)] == records[(index + records.len()) % (records.len() as int)],
{
    let n = records.len() as int;
    assert((index + n) % n == index % n) by (nonlinear_arith)
        requires
            n > 0,
            index >= 0,
    ;
}

/// Whether `path` lies under `base`, component by component, as std's
/// `Path::starts_with` decides.
pub uninterp spec fn path_has_prefix(path: Seq<char>, base: Seq<char>) -> bool;

/// Whether `path` lies under `base` (std's `Path::starts_with`). The
/// contract names the result.
#[verifier::external_body]
fn path_starts_with(path: &str, base: &str) -> (b: bool)
    ensures
        b == path_has_prefix(path@, base@),
{
    std::path::Path::new(path).starts_with(base)
}

/// The reason a path outside the project is refused.
pub open spec fn outside_reason(path: Seq<char>, canonical: Seq<char>, root: Seq<char>) -> Seq<char> {
    "Path '"@ + path + "' resolves to '"@ + canonical + "' which is outside the project directory '"@
        + root + "'"@
}

/// Accepts a data path whose resolved form `canonical` lies under the
/// project directory `root`; refuses any other, naming all three.
pub fn check_path_within(path: &str, canonical: &str, root: &str) -> (r: Result<(), BztError>)
    ensures
        path_has_prefix(canonical@, root@) ==> r is Ok,
        !path_has_prefix(canonical@, root@) ==> (r matches Err(e) && e matches BztError::Validation {
            field,
            reason,
        } && field@ == "data-source path"@ && reason@ == outside_reason(path@, canonical@, root@)),
{
    if path_starts_with(canonical, root) {
        Ok(())
    } else {
        let mut reason = String::from_str("Path '");
        reason.append(path);
        reason.append("' resolves to '");
        reason.append(canonical);
        reason.append("' which is outside the project directory '");
        reason.append(root);
        reason.append("'");
        Err(BztError::Validation { field: String::from_str("data-source path"), reason })
    }
}

/// The reason a file over the size limit is refused.
pub open spec fn size_reason(path: Seq<char>, len: u64) -> Seq<char> {
    "File '"@ + path + "' is "@ + decimal(len as nat) + " bytes, exceeds maximum of "@ + decimal(
        MAX_FILE_SIZE as nat,
    ) + " bytes"@
}

/// Accepts a data file of `len` bytes up to [`MAX_FILE_SIZE`]; refuses a
/// larger one, with its size.
pub fn check_size_limit(path: &str, len: u64) -> (r: Result<(), BztError>)
    ensures
        len <= MAX_FILE_SIZE ==> r is Ok,
        len > MAX_FILE_SIZE ==> (r matches Err(e) && e matches BztError::Validation {
            field,
            reason,
        } && field@ == "data-source file size"@ && reason@ == size_reason(path@, len)),
{
    if len <= MAX_FILE_SIZE {
        Ok(())
    } else {
        let mut reason = String::from_str("File '");
        reason.append(path);
        reason.append("' is ");
        reason.append(decimal_string(len).as_str());
        reason.append(" bytes, exceeds maximum of ");
        reason.append(decimal_string(MAX_FILE_SIZE).as_str());
        reason.append(" bytes");
        Err(BztError::Validation { field: String::from_str("data-source file size"), reason })
    }
}

} // verus!
