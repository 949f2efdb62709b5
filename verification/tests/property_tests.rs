use ypbank_converter::bin_format::{BinRecordReader, BinRecordWriter};
use ypbank_converter::csv_format::{CsvRecordReader, CsvRecordWriter};
use ypbank_converter::diff::{diff_records, records_to_map};
use ypbank_converter::error::YpbankError;
use ypbank_converter::txt_format::{text_fields_to_record, TextRecordReader, TextRecordWriter};
use ypbank_converter::{
    read_all_records, read_and_convert, write_all_records, FileFormat, Record, RecordStatus,
    RecordType,
};

fn sample_records() -> Vec<Record> {
    vec![
        Record::new(
            1,
            RecordType::Deposit { to_user_id: 10 },
            2500,
            1000000,
            RecordStatus::Success,
            "Pay, invoice #1".to_string(),
        ),
        Record::new(
            2,
            RecordType::Transfer {
                from_user_id: 10,
                to_user_id: 11,
            },
            17,
            1000001,
            RecordStatus::Pending,
            "with \"quotes\" and, commas".to_string(),
        ),
        Record::new(
            3,
            RecordType::Withdrawal { from_user_id: 11 },
            99,
            1000002,
            RecordStatus::Failure,
            String::new(),
        ),
    ]
}

/// One frame of the binary format, built by hand.
fn frame(
    id: u64,
    tag: u8,
    from: u64,
    to: u64,
    amount: u64,
    ts: u64,
    status: u8,
    desc: &[u8],
) -> Vec<u8> {
    let mut out = Vec::new();
    out.extend_from_slice(b"YPBN");
    out.extend_from_slice(&((46 + desc.len()) as u32).to_be_bytes());
    out.extend_from_slice(&id.to_be_bytes());
    out.push(tag);
    out.extend_from_slice(&from.to_be_bytes());
    out.extend_from_slice(&to.to_be_bytes());
    out.extend_from_slice(&amount.to_be_bytes());
    out.extend_from_slice(&ts.to_be_bytes());
    out.push(status);
    out.extend_from_slice(&(desc.len() as u32).to_be_bytes());
    out.extend_from_slice(desc);
    out
}

#[test]
fn binary_round_trip() {
    let records = sample_records();
    let bytes = BinRecordWriter::new().write_all(&records).unwrap();
    let decoded = BinRecordReader::new().read_all(&bytes);
    assert_eq!(decoded, Ok(records));
}

#[test]
fn binary_exact_bytes() {
    let records = vec![Record::new(
        7,
        RecordType::Deposit { to_user_id: 9 },
        5,
        6,
        RecordStatus::Failure,
        "ab".to_string(),
    )];
    let bytes = BinRecordWriter::new().write_all(&records).unwrap();
    assert_eq!(bytes, frame(7, 0, 0, 9, 5, 6, 1, b"ab"));
}

#[test]
fn text_round_trip_with_comma() {
    let records = sample_records();
    let bytes = TextRecordWriter::new().write_all(&records).unwrap();
    let decoded = TextRecordReader::new().read_all(&bytes);
    assert_eq!(decoded, Ok(records));
}

#[test]
fn text_exact_output() {
    let records = vec![Record::new(
        42,
        RecordType::Withdrawal { from_user_id: 3 },
        100,
        200,
        RecordStatus::Pending,
        "cash".to_string(),
    )];
    let bytes = TextRecordWriter::new().write_all(&records).unwrap();
    let expected = "TX_ID: 42\nTX_TYPE: WITHDRAWAL\nFROM_USER_ID: 3\nTO_USER_ID: 0\n\
                    AMOUNT: 100\nTIMESTAMP: 200\nSTATUS: PENDING\nDESCRIPTION: \"cash\"\n\n";
    assert_eq!(String::from_utf8(bytes).unwrap(), expected);
}

#[test]
fn csv_round_trip() {
    let records = sample_records();
    let bytes = CsvRecordWriter::new().write_all(&records).unwrap();
    let decoded = CsvRecordReader::new().read_all(&bytes);
    assert_eq!(decoded, Ok(records));
}

#[test]
fn empty_binary_input() {
    assert_eq!(BinRecordReader::new().read_all(&Vec::new()), Ok(vec![]));
}

#[test]
fn empty_csv_inputs() {
    assert_eq!(CsvRecordReader::new().read_all(&Vec::new()), Ok(vec![]));
    let header_only = b"TX_ID,TX_TYPE,FROM_USER_ID,TO_USER_ID,AMOUNT,TIMESTAMP,STATUS,DESCRIPTION\n"
        .to_vec();
    assert_eq!(CsvRecordReader::new().read_all(&header_only), Ok(vec![]));
}

#[test]
fn empty_text_inputs() {
    assert_eq!(TextRecordReader::new().read_all(&Vec::new()), Ok(vec![]));
    let comments = b"# nothing here\n\n# still nothing\n".to_vec();
    assert_eq!(TextRecordReader::new().read_all(&comments), Ok(vec![]));
}

#[test]
fn binary_bad_type_tag() {
    let input = frame(1, 3, 0, 9, 5, 6, 0, b"x");
    assert_eq!(
        BinRecordReader::new().read_all(&input),
        Err(YpbankError::BinaryUnexpectedValue)
    );
}

#[test]
fn binary_bad_magic() {
    let mut input = frame(1, 0, 0, 9, 5, 6, 0, b"x");
    input[0] = b'Z';
    assert_eq!(
        BinRecordReader::new().read_all(&input),
        Err(YpbankError::BinaryUnexpectedValue)
    );
}

#[test]
fn binary_truncated_description() {
    let mut input = frame(1, 0, 0, 9, 5, 6, 0, b"hello");
    input.truncate(input.len() - 3);
    assert_eq!(
        BinRecordReader::new().read_all(&input),
        Err(YpbankError::BinaryReadError(
            "unexpected end of input".to_string()
        ))
    );
}

#[test]
fn binary_trailing_stray_bytes() {
    let mut input = frame(1, 0, 0, 9, 5, 6, 0, b"x");
    input.extend_from_slice(b"YP");
    assert_eq!(
        BinRecordReader::new().read_all(&input),
        Err(YpbankError::BinaryReadError(
            "unexpected end of input".to_string()
        ))
    );
}

#[test]
fn binary_invalid_utf8_description() {
    let input = frame(1, 0, 0, 9, 5, 6, 0, &[0xff, 0xfe]);
    assert_eq!(
        BinRecordReader::new().read_all(&input),
        Err(YpbankError::BinaryUnexpectedValue)
    );
}

#[test]
fn csv_unknown_type_literal() {
    let data = b"TX_ID,TX_TYPE,FROM_USER_ID,TO_USER_ID,AMOUNT,TIMESTAMP,STATUS,DESCRIPTION\n\
                 1,UNKNOWN,0,2,3,4,SUCCESS,x\n"
        .to_vec();
    assert_eq!(
        CsvRecordReader::new().read_all(&data),
        Err(YpbankError::CsvUnexpectedValue("UNKNOWN".to_string()))
    );
}

#[test]
fn csv_bad_integer() {
    let data = b"TX_ID,TX_TYPE,FROM_USER_ID,TO_USER_ID,AMOUNT,TIMESTAMP,STATUS,DESCRIPTION\n\
                 nope,DEPOSIT,0,2,3,4,SUCCESS,x\n"
        .to_vec();
    assert_eq!(
        CsvRecordReader::new().read_all(&data),
        Err(YpbankError::CsvParseError("invalid integer field".to_string()))
    );
}

#[test]
fn text_unknown_type_literal() {
    let fields: Vec<(String, String)> = [
        ("TX_ID", "1"),
        ("TX_TYPE", "UNKNOWN"),
        ("FROM_USER_ID", "0"),
        ("TO_USER_ID", "2"),
        ("AMOUNT", "3"),
        ("TIMESTAMP", "4"),
        ("STATUS", "SUCCESS"),
        ("DESCRIPTION", "\"x\""),
    ]
    .iter()
    .map(|(k, v)| (k.to_string(), v.to_string()))
    .collect();
    assert_eq!(
        text_fields_to_record(&fields),
        Err(YpbankError::TextUnexpectedFieldValue(
            "TX_TYPE".to_string(),
            "UNKNOWN".to_string()
        ))
    );
}

#[test]
fn text_line_without_separator() {
    let data = b"TX_ID 1\n".to_vec();
    assert_eq!(
        TextRecordReader::new().read_all(&data),
        Err(YpbankError::TextUnableToParse("TX_ID 1".to_string()))
    );
}

#[test]
fn text_unquoted_description() {
    let fields: Vec<(String, String)> = [
        ("TX_ID", "1"),
        ("TX_TYPE", "DEPOSIT"),
        ("FROM_USER_ID", "0"),
        ("TO_USER_ID", "2"),
        ("AMOUNT", "3"),
        ("TIMESTAMP", "4"),
        ("STATUS", "SUCCESS"),
        ("DESCRIPTION", "bare"),
    ]
    .iter()
    .map(|(k, v)| (k.to_string(), v.to_string()))
    .collect();
    assert_eq!(
        text_fields_to_record(&fields),
        Err(YpbankError::TextUnexpectedFieldValue(
            "DESCRIPTION".to_string(),
            "bare".to_string()
        ))
    );
}

#[test]
fn text_invalid_utf8_input() {
    let data = vec![0xff, 0xfe, 0xfd];
    assert_eq!(
        TextRecordReader::new().read_all(&data),
        Err(YpbankError::TextReadError("invalid UTF-8 input".to_string()))
    );
}

#[test]
fn text_integer_overflow() {
    let fields: Vec<(String, String)> = [
        ("TX_ID", "18446744073709551616"),
        ("TX_TYPE", "DEPOSIT"),
        ("FROM_USER_ID", "0"),
        ("TO_USER_ID", "2"),
        ("AMOUNT", "3"),
        ("TIMESTAMP", "4"),
        ("STATUS", "SUCCESS"),
        ("DESCRIPTION", "\"x\""),
    ]
    .iter()
    .map(|(k, v)| (k.to_string(), v.to_string()))
    .collect();
    assert_eq!(
        text_fields_to_record(&fields),
        Err(YpbankError::TextUnexpectedFieldValue(
            "TX_ID".to_string(),
            "18446744073709551616".to_string()
        ))
    );
}

#[test]
fn text_plus_sign_and_max_parse() {
    let fields: Vec<(String, String)> = [
        ("TX_ID", "+7"),
        ("TX_TYPE", "DEPOSIT"),
        ("FROM_USER_ID", "0"),
        ("TO_USER_ID", "2"),
        ("AMOUNT", "18446744073709551615"),
        ("TIMESTAMP", "4"),
        ("STATUS", "SUCCESS"),
        ("DESCRIPTION", "\"x\""),
    ]
    .iter()
    .map(|(k, v)| (k.to_string(), v.to_string()))
    .collect();
    let rec = text_fields_to_record(&fields).unwrap();
    assert_eq!(rec.id, 7);
    assert_eq!(rec.amount, u64::MAX);
}

#[test]
fn format_selector() {
    assert_eq!(FileFormat::from_name("Binary"), Ok(FileFormat::Binary));
    assert_eq!(FileFormat::from_name("CSV"), Ok(FileFormat::Csv));
    assert_eq!(FileFormat::from_name("text"), Ok(FileFormat::Text));
    assert_eq!(
        FileFormat::from_name("xml"),
        Err(YpbankError::UnknownFormat("xml".to_string()))
    );
}

#[test]
fn diff_reports_differences() {
    let mk = |id: u64, amount: u64| {
        Record::new(
            id,
            RecordType::Deposit { to_user_id: 1 },
            amount,
            0,
            RecordStatus::Success,
            "d".to_string(),
        )
    };
    let a = vec![mk(1, 10), mk(2, 20), mk(3, 30)];
    let b = vec![mk(2, 25), mk(3, 30), mk(4, 40)];
    let report = diff_records(&a, &b);
    assert_eq!(report.only_in_first, vec![1]);
    assert_eq!(report.only_in_second, vec![4]);
    assert_eq!(report.differing, vec![2]);
    assert!(!report.is_identical());
    let same = diff_records(&a, &a);
    assert!(same.is_identical());
}

#[test]
fn records_to_map_last_wins() {
    let mk = |id: u64, amount: u64| {
        Record::new(
            id,
            RecordType::Deposit { to_user_id: 1 },
            amount,
            0,
            RecordStatus::Success,
            "d".to_string(),
        )
    };
    let m = records_to_map(&vec![mk(5, 1), mk(5, 2)]);
    assert_eq!(m.get(&5).unwrap().amount, 2);
    assert!(m.get(&6).is_none());
}

#[test]
fn convert_csv_to_text() {
    let csv_data = b"TX_ID,TX_TYPE,FROM_USER_ID,TO_USER_ID,AMOUNT,TIMESTAMP,STATUS,DESCRIPTION\n\
                     1,DEPOSIT,0,2,3,4,SUCCESS,hello\n"
        .to_vec();
    let out = read_and_convert(&csv_data, FileFormat::Csv, FileFormat::Text).unwrap();
    let expected = "TX_ID: 1\nTX_TYPE: DEPOSIT\nFROM_USER_ID: 0\nTO_USER_ID: 2\n\
                    AMOUNT: 3\nTIMESTAMP: 4\nSTATUS: SUCCESS\nDESCRIPTION: \"hello\"\n\n";
    assert_eq!(String::from_utf8(out).unwrap(), expected);
}

#[test]
fn dispatch_round_trip_all_formats() {
    let records = sample_records();
    for fmt in [FileFormat::Binary, FileFormat::Csv, FileFormat::Text] {
        let bytes = write_all_records(fmt, &records).unwrap();
        let back = read_all_records(&bytes, fmt).unwrap();
        assert_eq!(back, records);
    }
}

#[test]
fn csv_bad_header() {
    let data = b"ID,TYPE\n1,DEPOSIT\n".to_vec();
    assert_eq!(
        CsvRecordReader::new().read_all(&data),
        Err(YpbankError::CsvParseError("unexpected header row".to_string()))
    );
}
