//! CSV codec: a fixed eight-column schema with a required header row. Field
//! quoting and escaping are delegated to the `csv` crate; the row contents
//! are this module's verified logic.

use vstd::prelude::*;

verus! {

use crate::{Record, RecordV, RecordType, RecordStatus};
use crate::error::{YpbankError, ErrorV};
use crate::decimal::{spec_parse_u64, parse_u64, dec_str, u64_to_dec_string};
use crate::strutil::str_eq;
use crate::bin_format::{from_uid, to_uid};

/// What the `csv` crate parses the given bytes into: the rows, each a list of
/// fields, with headers disabled; or nothing, where the bytes are not a
/// well-formed CSV table.
pub uninterp spec fn csv_table_of(bytes: Seq<u8>) -> Option<Seq<Seq<Seq<char>>>>;

/// The bytes the `csv` crate writes for the given rows: one line per row,
/// fields separated by commas and quoted where needed.
pub uninterp spec fn csv_bytes_of(rows: Seq<Seq<Seq<char>>>) -> Seq<u8>;

/// Relies on `csv::Reader` with headers disabled: the rows it yields are a
/// function of the input bytes alone, named [`csv_table_of`]; a malformed
/// table yields an error described by the crate.
#[verifier::external_body]
fn csv_read_rows(input: &Vec<u8>) -> (r: Result<Vec<Vec<String>>, String>)
    ensures
        r is Ok <==> csv_table_of(input@) is Some,
        r matches Ok(rows) ==> csv_table_of(input@) matches Some(t) && rows.deep_view() == t,
{
    let mut rdr = csv::ReaderBuilder::new().has_headers(false).from_reader(input.as_slice());
    let mut rows: Vec<Vec<String>> = Vec::new();
    for rec in rdr.records() {
        match rec {
            Ok(sr) => rows.push(sr.iter().map(|f| f.to_string()).collect()),
            Err(e) => return Err(e.to_string()),
        }
    }
    Ok(rows)
}

/// Relies on `csv::Writer`: the bytes it produces are a function of the rows
/// alone, named [`csv_bytes_of`]. With the default configuration the only
/// failure of `write_record` is a row whose field count differs from the
/// first row's, and flushing into a byte vector cannot fail, so writing rows
/// of one common length always succeeds.
#[verifier::external_body]
fn csv_write_rows(rows: &Vec<Vec<String>>) -> (r: Result<Vec<u8>, String>)
    ensures
        r matches Ok(bytes) ==> bytes@ == csv_bytes_of(rows.deep_view()),
        (forall|i: int|
            0 <= i < rows.deep_view().len() ==> #[trigger] rows.deep_view()[i].len()
                == rows.deep_view()[0].len()) ==> r is Ok,
{
    let mut w = csv::Writer::from_writer(Vec::new());
    for row in rows {
        if let Err(e) = w.write_record(row) {
            return Err(e.to_string());
        }
    }
    w.into_inner().map_err(|e| e.to_string())
}

/// The required header row.
pub open spec fn csv_header() -> Seq<Seq<char>> {
    seq![
        "TX_ID"@,
        "TX_TYPE"@,
        "FROM_USER_ID"@,
        "TO_USER_ID"@,
        "AMOUNT"@,
        "TIMESTAMP"@,
        "STATUS"@,
        "DESCRIPTION"@,
    ]
}

/// The type-column literal of a record type.
pub open spec fn type_literal(t: RecordType) -> Seq<char> {
    match t {
        RecordType::Deposit { .. } => "DEPOSIT"@,
        RecordType::Withdrawal { .. } => "WITHDRAWAL"@,
        RecordType::Transfer { .. } => "TRANSFER"@,
    }
}

/// The status-column literal of a status.
pub open spec fn status_name(st: RecordStatus) -> Seq<char> {
    match st {
        RecordStatus::Success => "SUCCESS"@,
        RecordStatus::Failure => "FAILURE"@,
        RecordStatus::Pending => "PENDING"@,
    }
}

/// The data row encoding one record.
pub open spec fn spec_record_row(r: RecordV) -> Seq<Seq<char>> {
    seq![
        dec_str(r.id as nat),
        type_literal(r.record_type),
        dec_str(from_uid(r.record_type) as nat),
        dec_str(to_uid(r.record_type) as nat),
        dec_str(r.amount as nat),
        dec_str(r.timestamp as nat),
        status_name(r.status),
        r.description,
    ]
}

/// What converting one data row into a record yields: eight columns, integer
/// fields that parse, and recognized type and status literals.
pub open spec fn spec_row_to_record(row: Seq<Seq<char>>) -> Result<RecordV, ErrorV> {
    if row.len() != 8 {
        Err(ErrorV::CsvParseError("unexpected row shape"@))
    } else if spec_parse_u64(row[0]) is None || spec_parse_u64(row[2]) is None || spec_parse_u64(
        row[3],
    ) is None || spec_parse_u64(row[4]) is None || spec_parse_u64(row[5]) is None {
        Err(ErrorV::CsvParseError("invalid integer field"@))
    } else {
        let id = spec_parse_u64(row[0]).unwrap();
        let from_user_id = spec_parse_u64(row[2]).unwrap();
        let to_user_id = spec_parse_u64(row[3]).unwrap();
        let amount = spec_parse_u64(row[4]).unwrap();
        let timestamp = spec_parse_u64(row[5]).unwrap();
        if !(row[1] == "DEPOSIT"@ || row[1] == "WITHDRAWAL"@ || row[1] == "TRANSFER"@) {
            Err(ErrorV::CsvUnexpectedValue(row[1]))
        } else if !(row[6] == "SUCCESS"@ || row[6] == "PENDING"@ || row[6] == "FAILURE"@) {
            Err(ErrorV::CsvUnexpectedValue(row[6]))
        } else {
            let record_type = if row[1] == "DEPOSIT"@ {
                RecordType::Deposit { to_user_id }
            } else if row[1] == "WITHDRAWAL"@ {
                RecordType::Withdrawal { from_user_id }
            } else {
                RecordType::Transfer { from_user_id, to_user_id }
            };
            let status = if row[6] == "SUCCESS"@ {
                RecordStatus::Success
            } else if row[6] == "FAILURE"@ {
                RecordStatus::Failure
            } else {
                RecordStatus::Pending
            };
            Ok(
                RecordV {
                    id,
                    record_type,
                    amount,
                    timestamp,
                    status,
                    description: row[7],
                },
            )
        }
    }
}

/// What converting a sequence of data rows yields: the records in order, or
/// the first row error.
pub open spec fn spec_rows_to_records(rows: Seq<Seq<Seq<char>>>) -> Result<Seq<RecordV>, ErrorV>
    decreases rows.len(),
{
    if rows.len() == 0 {
        Ok(Seq::empty())
    } else {
        match spec_row_to_record(rows[0]) {
            Err(e) => Err(e),
            Ok(r) => match spec_rows_to_records(rows.drop_first()) {
                Ok(rest) => Ok(seq![r] + rest),
                Err(e) => Err(e),
            },
        }
    }
}

/// What decoding a parsed CSV table yields: nothing for an empty table, and
/// otherwise the records of the data rows under the required header.
pub open spec fn spec_csv_rows_decode(rows: Seq<Seq<Seq<char>>>) -> Result<Seq<RecordV>, ErrorV> {
    if rows.len() == 0 {
        Ok(Seq::empty())
    } else if rows[0] != csv_header() {
        Err(ErrorV::CsvParseError("unexpected header row"@))
    } else {
        spec_rows_to_records(rows.drop_first())
    }
}

/// The full table encoding a record sequence: the header row followed by one
/// data row per record.
pub open spec fn spec_csv_rows_encode(rs: Seq<RecordV>) -> Seq<Seq<Seq<char>>> {
    seq![csv_header()] + rs.map_values(|r: RecordV| spec_record_row(r))
}

/// Convert one CSV data row into a record, exactly as [`spec_row_to_record`]
/// describes.
pub fn csv_row_to_record(row: &Vec<String>) -> (r: Result<Record, YpbankError>)
    ensures
        r matches Ok(rec) ==> spec_row_to_record(row.deep_view()) matches Ok(rv)
            && rec.deep_view() == rv,
        r matches Err(e) ==> spec_row_to_record(row.deep_view()) matches Err(ev) && e@ == ev,
{
    let ghost rowv = row.deep_view();
    if row.len() != 8 {
        return Err(YpbankError::CsvParseError("unexpected row shape".to_owned()));
    }
    let id = match parse_u64(row[0].as_str()) {
        Some(v) => v,
        None => {
            return Err(YpbankError::CsvParseError("invalid integer field".to_owned()));
        },
    };
    let from_user_id = match parse_u64(row[2].as_str()) {
        Some(v) => v,
        None => {
            return Err(YpbankError::CsvParseError("invalid integer field".to_owned()));
        },
    };
    let to_user_id = match parse_u64(row[3].as_str()) {
        Some(v) => v,
        None => {
            return Err(YpbankError::CsvParseError("invalid integer field".to_owned()));
        },
    };
    let amount = match parse_u64(row[4].as_str()) {
        Some(v) => v,
        None => {
            return Err(YpbankError::CsvParseError("invalid integer field".to_owned()));
        },
    };
    let timestamp = match parse_u64(row[5].as_str()) {
        Some(v) => v,
        None => {
            return Err(YpbankError::CsvParseError("invalid integer field".to_owned()));
        },
    };
    let record_type = if str_eq(row[1].as_str(), "DEPOSIT") {
        RecordType::Deposit { to_user_id }
    } else if str_eq(row[1].as_str(), "WITHDRAWAL") {
        RecordType::Withdrawal { from_user_id }
    } else if str_eq(row[1].as_str(), "TRANSFER") {
        RecordType::Transfer { from_user_id, to_user_id }
    } else {
        return Err(YpbankError::CsvUnexpectedValue(row[1].clone()));
    };
    let status = if str_eq(row[6].as_str(), "SUCCESS") {
        RecordStatus::Success
    } else if str_eq(row[6].as_str(), "FAILURE") {
        RecordStatus::Failure
    } else if str_eq(row[6].as_str(), "PENDING") {
        RecordStatus::Pending
    } else {
        return Err(YpbankError::CsvUnexpectedValue(row[6].clone()));
    };
    let rec = Record {
        id,
        record_type,
        amount,
        timestamp,
        status,
        description: row[7].clone(),
    };
    proof {
        assert(rec.deep_view() =~= spec_row_to_record(rowv)->Ok_0);
    }
    Ok(rec)
}

/// Render one record as a CSV data row, exactly [`spec_record_row`].
pub fn record_to_csv_row(record: &Record) -> (row: Vec<String>)
    ensures
        row.deep_view() == spec_record_row(record.deep_view()),
{
    let mut row: Vec<String> = Vec::new();
    row.push(u64_to_dec_string(record.id));
    let (from_user_id, to_user_id): (u64, u64) = match record.record_type {
        RecordType::Deposit { to_user_id } => (0u64, to_user_id),
        RecordType::Transfer { from_user_id, to_user_id } => (from_user_id, to_user_id),
        RecordType::Withdrawal { from_user_id } => (from_user_id, 0u64),
    };
    let type_lit: &str = match record.record_type {
        RecordType::Deposit { .. } => "DEPOSIT",
        RecordType::Withdrawal { .. } => "WITHDRAWAL",
        RecordType::Transfer { .. } => "TRANSFER",
    };
    row.push(type_lit.to_owned());
    row.push(u64_to_dec_string(from_user_id));
    row.push(u64_to_dec_string(to_user_id));
    row.push(u64_to_dec_string(record.amount));
    row.push(u64_to_dec_string(record.timestamp));
    let status_lit: &str = match record.status {
        RecordStatus::Success => "SUCCESS",
        RecordStatus::Failure => "FAILURE",
        RecordStatus::Pending => "PENDING",
    };
    row.push(status_lit.to_owned());
    row.push(record.description.clone());
    proof {
        assert(row.deep_view() =~= spec_record_row(record.deep_view()));
    }
    row
}

/// Reader for the CSV format.
pub struct CsvRecordReader;

/// Writer for the CSV format.
pub struct CsvRecordWriter;

impl CsvRecordReader {
    /// Create a new CSV reader.
    pub fn new() -> (r: Self) {
        CsvRecordReader
    }

    /// Decode all records from the given CSV bytes: where the `csv` crate
    /// parses the bytes into a table, exactly as [`spec_csv_rows_decode`]
    /// describes for that table; otherwise a parse error.
    pub fn read_all(&self, input: &Vec<u8>) -> (r: Result<Vec<Record>, YpbankError>)
        ensures
            csv_table_of(input@) matches Some(t) ==> ({
                &&& r matches Ok(v) ==> spec_csv_rows_decode(t) matches Ok(s) && v.deep_view()
                    == s
                &&& r matches Err(e) ==> spec_csv_rows_decode(t) matches Err(se) && e@ == se
            }),
            csv_table_of(input@) is None ==> (r matches Err(e) && e@ matches
                ErrorV::CsvParseError(_)),
    {
        let rows = match csv_read_rows(input) {
            Ok(rows) => rows,
            Err(m) => {
                return Err(YpbankError::CsvParseError(m));
            },
        };
        let ghost table = rows.deep_view();
        let n = rows.len();
        if n == 0 {
            let recs: Vec<Record> = Vec::new();
            proof {
                assert(recs.deep_view() =~= Seq::<RecordV>::empty());
            }
            return Ok(recs);
        }
        let hdr = &rows[0];
        let header_ok = hdr.len() == 8 && str_eq(hdr[0].as_str(), "TX_ID") && str_eq(
            hdr[1].as_str(),
            "TX_TYPE",
        ) && str_eq(hdr[2].as_str(), "FROM_USER_ID") && str_eq(hdr[3].as_str(), "TO_USER_ID")
            && str_eq(hdr[4].as_str(), "AMOUNT") && str_eq(hdr[5].as_str(), "TIMESTAMP") && str_eq(
            hdr[6].as_str(),
            "STATUS",
        ) && str_eq(hdr[7].as_str(), "DESCRIPTION");
        proof {
            assert(table[0] == rows@[0].deep_view());
            assert(forall|k: int|
                0 <= k < hdr@.len() ==> #[trigger] rows@[0].deep_view()[k] == hdr@[k]@);
        }
        if !header_ok {
            proof {
                if table[0] == csv_header() {
                    assert(table[0].len() == 8);
                    assert(hdr@[0]@ == csv_header()[0]);
                    assert(hdr@[1]@ == csv_header()[1]);
                    assert(hdr@[2]@ == csv_header()[2]);
                    assert(hdr@[3]@ == csv_header()[3]);
                    assert(hdr@[4]@ == csv_header()[4]);
                    assert(hdr@[5]@ == csv_header()[5]);
                    assert(hdr@[6]@ == csv_header()[6]);
                    assert(hdr@[7]@ == csv_header()[7]);
                    assert(false);
                }
            }
            return Err(YpbankError::CsvParseError("unexpected header row".to_owned()));
        }
        proof {
            assert(table[0] =~= csv_header());
        }
        let ghost data = table.drop_first();
        let mut recs: Vec<Record> = Vec::new();
        let mut i: usize = 1;
        proof {
            assert(data.skip(0) =~= data);
            assert(recs.deep_view() =~= Seq::<RecordV>::empty());
            if let Ok(rest) = spec_rows_to_records(data) {
                assert(recs.deep_view() + rest =~= rest);
            }
        }
        while i < n
            invariant
                1 <= i <= n,
                n == rows@.len(),
                table == rows.deep_view(),
                csv_table_of(input@) == Some(table),
                table.len() == n,
                table[0] == csv_header(),
                data == table.drop_first(),
                spec_rows_to_records(data) == (match spec_rows_to_records(data.skip(i - 1)) {
                    Ok(rest) => Ok::<Seq<RecordV>, ErrorV>(recs.deep_view() + rest),
                    Err(e) => Err(e),
                }),
            decreases n - i,
        {
            proof {
                assert(data.skip(i - 1)[0] == table[i as int]);
                assert(rows@[i as int].deep_view() == table[i as int]);
                assert(data.skip(i - 1).drop_first() =~= data.skip(i as int));
            }
            let rec = match csv_row_to_record(&rows[i]) {
                Ok(rec) => rec,
                Err(e) => {
                    proof {
                        assert(rows@[i as int].deep_view() == table[i as int]);
                        assert(spec_rows_to_records(data.skip(i - 1)) is Err);
                        assert(spec_csv_rows_decode(table) == spec_rows_to_records(data));
                    }
                    return Err(e);
                },
            };
            let ghost old_recs = recs.deep_view();
            recs.push(rec);
            proof {
                assert(recs.deep_view() =~= old_recs.push(rec.deep_view()));
                if let Ok(rest) = spec_rows_to_records(data.skip(i as int)) {
                    assert(old_recs + (seq![rec.deep_view()] + rest) =~= recs.deep_view() + rest);
                }
            }
            i = i + 1;
        }
        proof {
            assert(data.skip(n - 1) =~= Seq::<Seq<Seq<char>>>::empty());
            assert(spec_rows_to_records(Seq::<Seq<Seq<char>>>::empty()) == Ok::<
                Seq<RecordV>,
                ErrorV,
            >(Seq::empty()));
            assert(recs.deep_view() + Seq::<RecordV>::empty() =~= recs.deep_view());
        }
        Ok(recs)
    }
}

impl CsvRecordWriter {
    /// Create a new CSV writer.
    pub fn new() -> (r: Self) {
        CsvRecordWriter
    }

    /// Encode all records as a CSV table: the header row plus one data row
    /// per record, rendered to bytes by the `csv` crate. Every row has the
    /// eight schema fields, so encoding never fails.
    pub fn write_all(&self, records: &Vec<Record>) -> (r: Result<Vec<u8>, YpbankError>)
        ensures
            r matches Ok(bytes) ==> bytes@ == csv_bytes_of(
                spec_csv_rows_encode(records.deep_view()),
            ),
            r is Ok,
    {
        let mut rows: Vec<Vec<String>> = Vec::new();
        let mut header: Vec<String> = Vec::new();
        header.push("TX_ID".to_owned());
        header.push("TX_TYPE".to_owned());
        header.push("FROM_USER_ID".to_owned());
        header.push("TO_USER_ID".to_owned());
        header.push("AMOUNT".to_owned());
        header.push("TIMESTAMP".to_owned());
        header.push("STATUS".to_owned());
        header.push("DESCRIPTION".to_owned());
        proof {
            assert(header.deep_view() =~= csv_header());
        }
        rows.push(header);
        let n = records.len();
        let mut i: usize = 0;
        while i < n
            invariant
                0 <= i <= n,
                n == records@.len(),
                rows.deep_view() =~= seq![csv_header()] + records.deep_view().take(
                    i as int,
                ).map_values(|r: RecordV| spec_record_row(r)),
            decreases n - i,
        {
            let ghost rows0 = rows.deep_view();
            let row = record_to_csv_row(&records[i]);
            let ghost rowv = row.deep_view();
            rows.push(row);
            proof {
                assert(rows.deep_view() =~= rows0.push(rowv));
                assert(records.deep_view().take(i + 1) =~= records.deep_view().take(
                    i as int,
                ).push(records.deep_view()[i as int]));
                assert(records.deep_view().take(i + 1).map_values(
                    |r: RecordV| spec_record_row(r),
                ) =~= records.deep_view().take(i as int).map_values(
                    |r: RecordV| spec_record_row(r),
                ).push(spec_record_row(records.deep_view()[i as int])));
                assert(rows.deep_view() =~= seq![csv_header()] + records.deep_view().take(i + 1)
                    .map_values(|r: RecordV| spec_record_row(r)));
            }
            i = i + 1;
        }
        proof {
            assert(records.deep_view().take(n as int) =~= records.deep_view());
            assert(rows.deep_view() =~= spec_csv_rows_encode(records.deep_view()));
            assert(csv_header().len() == 8);
            assert forall|k: int|
                0 <= k < rows.deep_view().len() implies #[trigger] rows.deep_view()[k].len()
                == rows.deep_view()[0].len() by {
                if k > 0 {
                    assert(rows.deep_view()[k] == spec_record_row(
                        records.deep_view()[k - 1],
                    ));
                }
            }
        }
        match csv_write_rows(&rows) {
            Ok(bytes) => Ok(bytes),
            Err(_) => vstd::pervasive::unreached(),
        }
    }
}

/// Row-level round-trip law of the CSV codec: converting the table that
/// encodes a record sequence back into records yields exactly that sequence.
/// The byte rendering and re-parsing of the table are the `csv` crate's
/// quoting rules and stand outside this statement.
pub proof fn lemma_csv_row_round_trip(rs: Seq<RecordV>)
    ensures
        spec_csv_rows_decode(spec_csv_rows_encode(rs)) == Ok::<Seq<RecordV>, ErrorV>(rs),
{
    let table = spec_csv_rows_encode(rs);
    assert(table[0] == csv_header());
    assert(table.len() == 1 + rs.len());
    assert(table.drop_first() =~= rs.map_values(|r: RecordV| spec_record_row(r)));
    lemma_csv_rows_round_trip(rs);
}

/// Converting the data rows that encode a record sequence back into records
/// yields exactly that sequence.
proof fn lemma_csv_rows_round_trip(rs: Seq<RecordV>)
    ensures
        spec_rows_to_records(rs.map_values(|r: RecordV| spec_record_row(r))) == Ok::<
            Seq<RecordV>,
            ErrorV,
        >(rs),
    decreases rs.len(),
{
    let rows = rs.map_values(|r: RecordV| spec_record_row(r));
    if rs.len() == 0 {
        assert(rows =~= Seq::<Seq<Seq<char>>>::empty());
        assert(rs =~= Seq::<RecordV>::empty());
    } else {
        lemma_csv_row_record(rs[0]);
        assert(rows[0] == spec_record_row(rs[0]));
        assert(rows.drop_first() =~= rs.drop_first().map_values(
            |r: RecordV| spec_record_row(r),
        ));
        lemma_csv_rows_round_trip(rs.drop_first());
        assert(seq![rs[0]] + rs.drop_first() =~= rs);
    }
}

/// Converting the data row that encodes one record back yields that record.
proof fn lemma_csv_row_record(r: RecordV)
    ensures
        spec_row_to_record(spec_record_row(r)) == Ok::<RecordV, ErrorV>(r),
{
    let row = spec_record_row(r);
    crate::decimal::lemma_parse_dec_str(r.id);
    crate::decimal::lemma_parse_dec_str(from_uid(r.record_type));
    crate::decimal::lemma_parse_dec_str(to_uid(r.record_type));
    crate::decimal::lemma_parse_dec_str(r.amount);
    crate::decimal::lemma_parse_dec_str(r.timestamp);
    lemma_type_names_distinct();
    lemma_status_names_distinct();
    match r.record_type {
        RecordType::Deposit { to_user_id } => {
            assert(row[1] == "DEPOSIT"@);
        },
        RecordType::Withdrawal { from_user_id } => {
            assert(row[1] == "WITHDRAWAL"@);
        },
        RecordType::Transfer { from_user_id, to_user_id } => {
            assert(row[1] == "TRANSFER"@);
        },
    }
    assert(spec_row_to_record(row)->Ok_0 =~= r);
}

/// The three type literals are pairwise distinct.
pub proof fn lemma_type_names_distinct()
    ensures
        "DEPOSIT"@ != "WITHDRAWAL"@,
        "DEPOSIT"@ != "TRANSFER"@,
        "WITHDRAWAL"@ != "TRANSFER"@,
{
    reveal_strlit("DEPOSIT");
    reveal_strlit("WITHDRAWAL");
    reveal_strlit("TRANSFER");
    assert("DEPOSIT"@.len() == 7);
    assert("WITHDRAWAL"@.len() == 10);
    assert("TRANSFER"@.len() == 8);
}

/// The three status literals are pairwise distinct.
pub proof fn lemma_status_names_distinct()
    ensures
        "SUCCESS"@ != "FAILURE"@,
        "SUCCESS"@ != "PENDING"@,
        "FAILURE"@ != "PENDING"@,
{
    reveal_strlit("SUCCESS");
    reveal_strlit("FAILURE");
    reveal_strlit("PENDING");
    assert("SUCCESS"@[0] == 'S');
    assert("FAILURE"@[0] == 'F');
    assert("PENDING"@[0] == 'P');
}


/// A table holding only the header row decodes to an empty record set, not
/// to an error.
pub proof fn lemma_csv_decode_header_only()
    ensures
        spec_csv_rows_decode(seq![csv_header()]) == Ok::<Seq<RecordV>, ErrorV>(
            Seq::<RecordV>::empty(),
        ),
{
    assert(seq![csv_header()].drop_first() =~= Seq::<Seq<Seq<char>>>::empty());
    assert(spec_rows_to_records(Seq::<Seq<Seq<char>>>::empty()) == Ok::<Seq<RecordV>, ErrorV>(
        Seq::empty(),
    ));
}

} // verus!
