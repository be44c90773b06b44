//! Reading CSV files, whose header row names the fields of the points.

use vstd::prelude::*;

use crate::error::CloudError;
use crate::names::names_of;

verus! {

#[verifier::external_type_specification]
#[verifier::external_body]
pub struct ExCsvError(csv::Error);

/// The fields of the header row and of each data row of CSV bytes, as the
/// `csv` crate reads them, or `None` where it refuses the bytes.
pub uninterp spec fn csv_table_of(bytes: Seq<u8>) -> Option<(Seq<Seq<char>>, Seq<Seq<Seq<char>>>)>;

/// The text of each field of each row.
pub open spec fn rows_of(rows: Seq<Vec<String>>) -> Seq<Seq<Seq<char>>> {
    rows.map_values(|r: Vec<String>| names_of(r@))
}

/// Builds a reader over `buf` with `csv::Reader::from_reader`, then reads
/// its header row with `Reader::headers` and collects its data rows with
/// `Reader::records`, stopping at the first error. The reading depends on the
/// bytes alone: it succeeds when `csv_table_of(buf)` is some table, and gives
/// that table. Since such a reader is not flexible, every row has as many
/// fields as the header row.
#[verifier::external_body]
fn csv_read(buf: &[u8]) -> (res: Result<(Vec<String>, Vec<Vec<String>>), csv::Error>)
    ensures
        res is Ok <==> csv_table_of(buf@) is Some,
        res matches Ok((h, rows)) ==> csv_table_of(buf@) == Some((names_of(h@), rows_of(rows@))),
        res matches Ok((h, rows)) ==> forall|i: int|
            0 <= i < rows.len() ==> (#[trigger] rows@[i]).len() == h.len(),
{
    let mut reader = csv::Reader::from_reader(buf);
    let header = reader.headers()?.iter().map(String::from).collect();
    let rows = reader.records().map(|r| r.map(|rec| rec.iter().map(String::from).collect()));
    Ok((header, rows.collect::<Result<_, _>>()?))
}

/// The content of a CSV file: the names in its header row and the text of
/// each field of each data row.
pub struct CsvTable {
    /// The names of the fields, from the header row.
    pub field_names: Vec<String>,
    /// The fields of each data row.
    pub records: Vec<Vec<String>>,
}

/// Reads the header row and the data rows of CSV bytes: it succeeds exactly
/// when the `csv` crate reads them, with the table it reads. Every row has one
/// field per name of the header.
pub fn read_csv_table(buf: &[u8]) -> (res: Result<CsvTable, CloudError>)
    ensures
        res is Ok <==> csv_table_of(buf@) is Some,
        res matches Ok(t) ==> csv_table_of(buf@) == Some(
            (names_of(t.field_names@), rows_of(t.records@)),
        ),
        res matches Ok(t) ==> forall|i: int|
            0 <= i < t.records.len() ==> (#[trigger] t.records@[i]).len() == t.field_names.len(),
        res matches Err(e) ==> e is Csv,
{
    let (field_names, records) = match csv_read(buf) {
        Ok(table) => table,
        Err(e) => {
            return Err(CloudError::Csv(e));
        },
    };
    Ok(CsvTable { field_names, records })
}

} // verus!
