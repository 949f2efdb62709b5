//! Conversion library for bank transaction records.
//!
//! Records exist in three on-disk representations: a framed binary format, a
//! CSV table, and a human-readable key/value text format. All three decode
//! into, and encode from, the canonical [`Record`] model defined here, and two
//! decoded collections can be compared by record id with the diff engine.

use vstd::prelude::*;

pub mod bin_format;
pub mod csv_format;
pub mod decimal;
pub mod diff;
pub mod error;
pub mod strutil;
pub mod txt_format;

verus! {

use crate::error::{YpbankError, ErrorV};

/// Available file formats.
#[derive(Debug, Clone, Copy, PartialEq, Eq, Structural)]
pub enum FileFormat {
    /// Binary format for effective storage usage
    Binary,
    /// CSV table format
    Csv,
    /// Human-readable text format
    Text,
}

/// Supported record types.
#[derive(Debug, Clone, Copy, PartialEq, Eq, Structural)]
pub enum RecordType {
    /// Deposit money to some account
    Deposit {
        /// Id of user account for money deposit
        to_user_id: u64,
    },
    /// Withdraw money from some account
    Withdrawal {
        /// Id of user account for money withdraw
        from_user_id: u64,
    },
    /// Transfer money between users
    Transfer {
        /// Id of user account for money withdraw
        from_user_id: u64,
        /// Id of user account for money deposit
        to_user_id: u64,
    },
}

/// Status of a record.
#[derive(Debug, Clone, Copy, PartialEq, Eq, Structural)]
pub enum RecordStatus {
    /// Successful operation
    Success,
    /// Failed operation
    Failure,
    /// Pending operation
    Pending,
}

/// Format-independent record structure.
#[derive(Debug)]
pub struct Record {
    /// Id of record
    pub id: u64,
    /// Kind of the transaction, together with the user ids it involves
    pub record_type: RecordType,
    /// Amount in the smallest currency unit
    pub amount: u64,
    /// Epoch milliseconds; opaque to the codecs
    pub timestamp: u64,
    /// Outcome of the transaction
    pub status: RecordStatus,
    /// Arbitrary text attached to the record
    pub description: String,
}

/// Mathematical model of a [`Record`]: the same fields with the description
/// as a character sequence.
#[verifier::ext_equal]
pub struct RecordV {
    /// Id of record
    pub id: u64,
    /// Kind of the transaction
    pub record_type: RecordType,
    /// Amount in the smallest currency unit
    pub amount: u64,
    /// Epoch milliseconds
    pub timestamp: u64,
    /// Outcome of the transaction
    pub status: RecordStatus,
    /// Description as a character sequence
    pub description: Seq<char>,
}

impl View for Record {
    type V = RecordV;

    open spec fn view(&self) -> RecordV {
        RecordV {
            id: self.id,
            record_type: self.record_type,
            amount: self.amount,
            timestamp: self.timestamp,
            status: self.status,
            description: self.description@,
        }
    }
}

impl DeepView for Record {
    type V = RecordV;

    open spec fn deep_view(&self) -> RecordV {
        self.view()
    }
}

impl Clone for Record {
    fn clone(&self) -> (r: Self)
        ensures
            r@ == self@,
    {
        Record {
            id: self.id,
            record_type: self.record_type,
            amount: self.amount,
            timestamp: self.timestamp,
            status: self.status,
            description: self.description.clone(),
        }
    }
}

impl PartialEq for Record {
    fn eq(&self, other: &Self) -> (r: bool) {
        self.id == other.id && self.record_type == other.record_type && self.amount
            == other.amount && self.timestamp == other.timestamp && self.status == other.status
            && self.description == other.description
    }
}

impl Eq for Record {}

impl vstd::std_specs::cmp::PartialEqSpecImpl for Record {
    open spec fn obeys_eq_spec() -> bool {
        true
    }

    open spec fn eq_spec(&self, other: &Self) -> bool {
        self@ == other@
    }
}

impl Record {
    /// Create a new record.
    pub fn new(
        id: u64,
        record_type: RecordType,
        amount: u64,
        timestamp: u64,
        status: RecordStatus,
        description: String,
    ) -> (r: Self)
        ensures
            r@ == (RecordV {
                id,
                record_type,
                amount,
                timestamp,
                status,
                description: description@,
            }),
    {
        let r = Record { id, record_type, amount, timestamp, status, description };
        proof {
            assert(r@ =~= RecordV {
                id,
                record_type,
                amount,
                timestamp,
                status,
                description: r.description@,
            });
        }
        r
    }
}


/// A character lowered ASCII-wise: `A` through `Z` gain 32, all else stays.
pub open spec fn ascii_lower_char(c: char) -> char {
    if 65 <= c as u32 <= 90 {
        (((c as u32) + 32) as u8) as char
    } else {
        c
    }
}

/// A character sequence lowered ASCII-wise.
pub open spec fn ascii_lower(s: Seq<char>) -> Seq<char> {
    s.map_values(|c: char| ascii_lower_char(c))
}

/// What selecting a format by name yields: the name, lowered ASCII-wise, must
/// be one of the three format literals.
pub open spec fn spec_format_from_name(s: Seq<char>) -> Result<FileFormat, ErrorV> {
    if ascii_lower(s) == "binary"@ {
        Ok(FileFormat::Binary)
    } else if ascii_lower(s) == "csv"@ {
        Ok(FileFormat::Csv)
    } else if ascii_lower(s) == "text"@ {
        Ok(FileFormat::Text)
    } else {
        Err(ErrorV::UnknownFormat(s))
    }
}

/// Compare a name against a format literal, ignoring ASCII case; the literal
/// itself must be lower-case.
fn eq_lowered(s: &str, lit: &str) -> (r: bool)
    ensures
        r == (ascii_lower(s@) == lit@),
{
    let n = s.unicode_len();
    if n != lit.unicode_len() {
        proof {
            assert(ascii_lower(s@).len() == s@.len());
        }
        return false;
    }
    let mut i: usize = 0;
    while i < n
        invariant
            0 <= i <= n,
            n == s@.len(),
            n == lit@.len(),
            forall|j: int| 0 <= j < i ==> ascii_lower_char(#[trigger] s@[j]) == lit@[j],
        decreases n - i,
    {
        let c = s.get_char(i);
        let cv = c as u32;
        let low: char = if 65 <= cv && cv <= 90 {
            ((cv + 32) as u8) as char
        } else {
            c
        };
        if low != lit.get_char(i) {
            proof {
                assert(ascii_lower(s@)[i as int] == ascii_lower_char(s@[i as int]));
            }
            return false;
        }
        i = i + 1;
    }
    proof {
        assert(ascii_lower(s@) =~= lit@);
    }
    true
}

impl FileFormat {
    /// Select a format by its name, ignoring ASCII case: `binary`, `csv` or
    /// `text`; any other name is an unknown-format error carrying the name.
    pub fn from_name(s: &str) -> (r: Result<FileFormat, YpbankError>)
        ensures
            r matches Ok(f) ==> spec_format_from_name(s@) == Ok::<FileFormat, ErrorV>(f),
            r matches Err(e) ==> spec_format_from_name(s@) matches Err(se) && e@ == se,
    {
        if eq_lowered(s, "binary") {
            Ok(FileFormat::Binary)
        } else if eq_lowered(s, "csv") {
            Ok(FileFormat::Csv)
        } else if eq_lowered(s, "text") {
            Ok(FileFormat::Text)
        } else {
            Err(YpbankError::UnknownFormat(s.to_owned()))
        }
    }
}

/// How a decode result in the given format relates to the input bytes: the
/// binary format is pinned exactly; the CSV format through the table the
/// `csv` crate parses; the text format through the UTF-8 decoding of the
/// input.
pub open spec fn decode_rel(
    fmt: FileFormat,
    input: Seq<u8>,
    r: Result<Seq<RecordV>, ErrorV>,
) -> bool {
    match fmt {
        FileFormat::Binary => r == crate::bin_format::spec_bin_decode(input),
        FileFormat::Csv => match crate::csv_format::csv_table_of(input) {
            Some(t) => r == crate::csv_format::spec_csv_rows_decode(t),
            None => r matches Err(e) && e matches ErrorV::CsvParseError(_),
        },
        FileFormat::Text => if vstd::utf8::valid_utf8(input) {
            r == crate::txt_format::spec_text_decode(vstd::utf8::decode_utf8(input))
        } else {
            r matches Err(e) && e matches ErrorV::TextReadError(_)
        },
    }
}

/// How an encode result in the given format relates to the records: the
/// binary format succeeds exactly when every description fits a frame; the
/// CSV format renders its table through the `csv` crate; the text format
/// always succeeds.
pub open spec fn encode_rel(
    fmt: FileFormat,
    records: Seq<RecordV>,
    r: Result<Seq<u8>, ErrorV>,
) -> bool {
    match fmt {
        FileFormat::Binary => {
            &&& r is Ok <==> (forall|i: int|
                0 <= i < records.len() ==> crate::bin_format::bin_encodable(
                    #[trigger] records[i],
                ))
            &&& r matches Ok(b) ==> b == crate::bin_format::spec_bin_encode(records)
            &&& r matches Err(e) ==> e == ErrorV::BinaryDescriptionTooLong
        },
        FileFormat::Csv => r matches Ok(b) && b == crate::csv_format::csv_bytes_of(
            crate::csv_format::spec_csv_rows_encode(records),
        ),
        FileFormat::Text => r matches Ok(b) && b == vstd::utf8::encode_utf8(
            crate::txt_format::spec_text_encode(records),
        ),
    }
}

/// The record-level reading of a decode result.
pub open spec fn decode_view(r: Result<Vec<Record>, YpbankError>) -> Result<Seq<RecordV>, ErrorV> {
    match r {
        Ok(v) => Ok(v.deep_view()),
        Err(e) => Err(e@),
    }
}

/// The byte-level reading of an encode result.
pub open spec fn encode_view(r: Result<Vec<u8>, YpbankError>) -> Result<Seq<u8>, ErrorV> {
    match r {
        Ok(v) => Ok(v@),
        Err(e) => Err(e@),
    }
}

/// Read all records in the given format from the input bytes.
pub fn read_all_records(input: &Vec<u8>, input_format: FileFormat) -> (r: Result<
    Vec<Record>,
    YpbankError,
>)
    ensures
        decode_rel(input_format, input@, decode_view(r)),
{
    match input_format {
        FileFormat::Binary => crate::bin_format::BinRecordReader::new().read_all(input),
        FileFormat::Csv => crate::csv_format::CsvRecordReader::new().read_all(input),
        FileFormat::Text => crate::txt_format::TextRecordReader::new().read_all(input),
    }
}

/// Write all records in the given format, yielding the output bytes.
pub fn write_all_records(output_format: FileFormat, records: &Vec<Record>) -> (r: Result<
    Vec<u8>,
    YpbankError,
>)
    ensures
        encode_rel(output_format, records.deep_view(), encode_view(r)),
{
    match output_format {
        FileFormat::Binary => crate::bin_format::BinRecordWriter::new().write_all(records),
        FileFormat::Csv => crate::csv_format::CsvRecordWriter::new().write_all(records),
        FileFormat::Text => crate::txt_format::TextRecordWriter::new().write_all(records),
    }
}

/// Decode the input in one format and re-encode it in another: the records
/// the output encodes are exactly the records the input decodes to.
pub fn read_and_convert(input: &Vec<u8>, input_format: FileFormat, output_format: FileFormat) -> (r:
    Result<Vec<u8>, YpbankError>)
    ensures
        r matches Ok(bytes) ==> exists|recs: Seq<RecordV>|
            #[trigger] decode_rel(input_format, input@, Ok(recs)) && encode_rel(
                output_format,
                recs,
                Ok(bytes@),
            ),
        r matches Err(e) ==> (decode_rel(input_format, input@, Err(e@)) || exists|
            recs: Seq<RecordV>,
        |
            #[trigger] decode_rel(input_format, input@, Ok(recs)) && encode_rel(
                output_format,
                recs,
                Err(e@),
            )),
{
    let records = match read_all_records(input, input_format) {
        Ok(records) => records,
        Err(e) => {
            return Err(e);
        },
    };
    write_all_records(output_format, &records)
}


} // verus!
