//! Reading CSV records with the `csv` crate.

use vstd::prelude::*;

verus! {

#[verifier::external_type_specification]
#[verifier::external_body]
pub struct ExCsvError(csv::Error);

/// The records that the `csv` crate reads from the data with the given
/// dialect (delimiter, quote doubling, escape byte, header row), each a list
/// of fields, up to the first malformed record; and whether reading stopped
/// at one.
pub uninterp spec fn csv_read(
    data: Seq<u8>,
    delimiter: u8,
    double_quote: bool,
    escape: Option<u8>,
    has_headers: bool,
) -> (Seq<Seq<Seq<char>>>, bool);

/// The characters of each field of each record.
pub open spec fn records_chars(recs: Seq<Vec<String>>) -> Seq<Seq<Seq<char>>> {
    recs.map_values(|r: Vec<String>| r@.map_values(|f: String| f@))
}

/// `csv::ReaderBuilder` with the given dialect, reading the data with
/// `records()`: the records read before the first error, as lists of
/// fields, and that error. The contract names what is read and says nothing
/// of how the crate splits the data.
#[verifier::external_body]
pub(crate) fn read_csv_records(
    data: &[u8],
    delimiter: u8,
    double_quote: bool,
    escape: Option<u8>,
    has_headers: bool,
) -> (r: (Vec<Vec<String>>, Option<csv::Error>))
    ensures
        (records_chars(r.0@), r.1 is Some) == csv_read(data@, delimiter, double_quote, escape, has_headers),
{
    let mut rdr = csv::ReaderBuilder::new().has_headers(has_headers).delimiter(delimiter).double_quote(
        double_quote,
    ).escape(escape).from_reader(data);
    let mut out: Vec<Vec<String>> = Vec::new();
    for rec in rdr.records() {
        match rec {
            Ok(r) => out.push(r.iter().map(|f| f.to_string()).collect()),
            Err(e) => return (out, Some(e)),
        }
    }
    (out, None)
}

} // verus!
