use ypbank_converter::csv_format::{csv_row_to_record, CsvRecordReader, CsvRecordWriter};
use ypbank_converter::error::YpbankError;
use ypbank_converter::txt_format::{text_fields_to_record, TextRecordReader};
use ypbank_converter::{Record, RecordStatus, RecordType};

fn row(fields: &[&str]) -> Vec<String> {
    fields.iter().map(|f| f.to_string()).collect()
}

fn pairs(fields: &[(&str, &str)]) -> Vec<(String, String)> {
    fields
        .iter()
        .map(|(k, v)| (k.to_string(), v.to_string()))
        .collect()
}

#[test]
fn test_csv_deposit_success() {
    let deposit = row(&[
        "1001",
        "DEPOSIT",
        "0",
        "501",
        "50000",
        "1672531200000",
        "SUCCESS",
        "Initial account funding",
    ]);
    assert_eq!(
        csv_row_to_record(&deposit),
        Ok(Record::new(
            1001,
            RecordType::Deposit { to_user_id: 501 },
            50000,
            1672531200000,
            RecordStatus::Success,
            "Initial account funding".to_string(),
        ))
    )
}

#[test]
fn test_csv_transfer_success() {
    let withdrawal = row(&[
        "1002",
        "TRANSFER",
        "501",
        "502",
        "15000",
        "1672534800000",
        "FAILURE",
        "Payment for services, invoice #123",
    ]);
    assert_eq!(
        csv_row_to_record(&withdrawal),
        Ok(Record::new(
            1002,
            RecordType::Transfer {
                from_user_id: 501,
                to_user_id: 502
            },
            15000,
            1672534800000,
            RecordStatus::Failure,
            "Payment for services, invoice #123".to_string(),
        ))
    )
}

#[test]
fn test_csv_withdrawal_success() {
    let withdrawal = row(&[
        "1003",
        "WITHDRAWAL",
        "502",
        "0",
        "1000",
        "1672538400000",
        "PENDING",
        "ATM withdrawal",
    ]);
    assert_eq!(
        csv_row_to_record(&withdrawal),
        Ok(Record::new(
            1003,
            RecordType::Withdrawal { from_user_id: 502 },
            1000,
            1672538400000,
            RecordStatus::Pending,
            "ATM withdrawal".to_string(),
        ))
    )
}

#[test]
fn test_csv_record_type_error() {
    let withdrawal = row(&[
        "1003",
        "something",
        "502",
        "0",
        "1000",
        "1672538400000",
        "PENDING",
        "ATM withdrawal",
    ]);
    let result: Result<Record, YpbankError> = csv_row_to_record(&withdrawal);
    assert_eq!(
        result,
        Err(YpbankError::CsvUnexpectedValue("something".to_string()))
    )
}

#[test]
fn test_csv_status_error() {
    let withdrawal = row(&[
        "1003",
        "WITHDRAWAL",
        "502",
        "0",
        "1000",
        "1672538400000",
        "INITIAL",
        "ATM withdrawal",
    ]);
    let result: Result<Record, YpbankError> = csv_row_to_record(&withdrawal);
    assert_eq!(
        result,
        Err(YpbankError::CsvUnexpectedValue("INITIAL".to_string()))
    )
}

#[test]
fn test_read_all() {
    let csv_data = r#"TX_ID,TX_TYPE,FROM_USER_ID,TO_USER_ID,AMOUNT,TIMESTAMP,STATUS,DESCRIPTION
1001,DEPOSIT,0,501,50000,1672531200000,SUCCESS,"Initial account funding"
1002,TRANSFER,501,502,15000,1672534800000,FAILURE,"Payment for services, invoice #123"
1003,WITHDRAWAL,502,0,1000,1672538400000,PENDING,"ATM withdrawal""#;

    let reader = CsvRecordReader::new();

    let records = reader.read_all(&csv_data.as_bytes().to_vec());

    assert_eq!(
        records,
        Ok(vec![
            Record::new(
                1001,
                RecordType::Deposit { to_user_id: 501 },
                50000,
                1672531200000,
                RecordStatus::Success,
                "Initial account funding".to_string(),
            ),
            Record::new(
                1002,
                RecordType::Transfer {
                    from_user_id: 501,
                    to_user_id: 502
                },
                15000,
                1672534800000,
                RecordStatus::Failure,
                "Payment for services, invoice #123".to_string(),
            ),
            Record::new(
                1003,
                RecordType::Withdrawal { from_user_id: 502 },
                1000,
                1672538400000,
                RecordStatus::Pending,
                "ATM withdrawal".to_string(),
            ),
        ])
    )
}

#[test]
fn test_write_all() {
    let records = vec![
        Record::new(
            1001,
            RecordType::Deposit { to_user_id: 501 },
            50000,
            1672531200000,
            RecordStatus::Success,
            "Initial account funding".to_string(),
        ),
        Record::new(
            1002,
            RecordType::Transfer {
                from_user_id: 501,
                to_user_id: 502,
            },
            15000,
            1672534800000,
            RecordStatus::Failure,
            "Payment for services, invoice #123".to_string(),
        ),
        Record::new(
            1003,
            RecordType::Withdrawal { from_user_id: 502 },
            1000,
            1672538400000,
            RecordStatus::Pending,
            "ATM withdrawal".to_string(),
        ),
    ];

    let bin_writer = CsvRecordWriter::new();
    let written = bin_writer
        .write_all(&records)
        .expect("Should write successfully");

    assert_eq!(
        String::from_utf8(written).expect("Should be correct string"),
        r#"TX_ID,TX_TYPE,FROM_USER_ID,TO_USER_ID,AMOUNT,TIMESTAMP,STATUS,DESCRIPTION
1001,DEPOSIT,0,501,50000,1672531200000,SUCCESS,Initial account funding
1002,TRANSFER,501,502,15000,1672534800000,FAILURE,"Payment for services, invoice #123"
1003,WITHDRAWAL,502,0,1000,1672538400000,PENDING,ATM withdrawal
"#
    )
}

#[test]
fn test_text_deposit_success() {
    let deposit = pairs(&[
        ("TX_ID", "1234567890123456"),
        ("TX_TYPE", "DEPOSIT"),
        ("FROM_USER_ID", "0"),
        ("TO_USER_ID", "9876543210987654"),
        ("AMOUNT", "10000"),
        ("TIMESTAMP", "1633036800000"),
        ("STATUS", "SUCCESS"),
        ("DESCRIPTION", "\"Terminal deposit\""),
    ]);
    let result: Result<Record, YpbankError> = text_fields_to_record(&deposit);
    assert_eq!(
        result,
        Ok(Record::new(
            1234567890123456,
            RecordType::Deposit {
                to_user_id: 9876543210987654
            },
            10000,
            1633036800000,
            RecordStatus::Success,
            "Terminal deposit".to_string(),
        ))
    )
}

#[test]
fn test_text_transfer_success() {
    let deposit = pairs(&[
        ("TX_ID", "2312321321321321"),
        ("TX_TYPE", "TRANSFER"),
        ("FROM_USER_ID", "1231231231231231"),
        ("TO_USER_ID", "9876543210987654"),
        ("AMOUNT", "1000"),
        ("TIMESTAMP", "1633056800000"),
        ("STATUS", "FAILURE"),
        ("DESCRIPTION", "\"User transfer\""),
    ]);
    let result: Result<Record, YpbankError> = text_fields_to_record(&deposit);
    assert_eq!(
        result,
        Ok(Record::new(
            2312321321321321,
            RecordType::Transfer {
                to_user_id: 9876543210987654,
                from_user_id: 1231231231231231,
            },
            1000,
            1633056800000,
            RecordStatus::Failure,
            "User transfer".to_string(),
        ))
    )
}

#[test]
fn test_text_withdrawal_success() {
    let deposit = pairs(&[
        ("TX_ID", "3213213213213213"),
        ("TX_TYPE", "WITHDRAWAL"),
        ("FROM_USER_ID", "9876543210987654"),
        ("TO_USER_ID", "0"),
        ("AMOUNT", "100"),
        ("TIMESTAMP", "1633066800000"),
        ("STATUS", "SUCCESS"),
        ("DESCRIPTION", "\"User withdrawal\""),
    ]);
    let result: Result<Record, YpbankError> = text_fields_to_record(&deposit);
    assert_eq!(
        result,
        Ok(Record::new(
            3213213213213213,
            RecordType::Withdrawal {
                from_user_id: 9876543210987654,
            },
            100,
            1633066800000,
            RecordStatus::Success,
            "User withdrawal".to_string(),
        ))
    )
}

#[test]
fn test_text_missing_field_error() {
    let deposit = pairs(&[
        ("TX_TYPE", "WITHDRAWAL"),
        ("FROM_USER_ID", "9876543210987654"),
        ("TO_USER_ID", "0"),
        ("AMOUNT", "100"),
        ("TIMESTAMP", "1633066800000"),
        ("STATUS", "SUCCESS"),
        ("DESCRIPTION", "\"User withdrawal\""),
    ]);
    let result: Result<Record, YpbankError> = text_fields_to_record(&deposit);
    assert_eq!(
        result,
        Err(YpbankError::TextFieldNotFound("TX_ID".to_string()))
    )
}

#[test]
fn test_text_field_value_error() {
    let deposit = pairs(&[
        ("TX_ID", "incorrect"),
        ("TX_TYPE", "WITHDRAWAL"),
        ("FROM_USER_ID", "9876543210987654"),
        ("TO_USER_ID", "0"),
        ("AMOUNT", "100"),
        ("TIMESTAMP", "1633066800000"),
        ("STATUS", "SUCCESS"),
        ("DESCRIPTION", "\"User withdrawal\""),
    ]);
    let result: Result<Record, YpbankError> = text_fields_to_record(&deposit);
    assert_eq!(
        result,
        Err(YpbankError::TextUnexpectedFieldValue(
            "TX_ID".to_string(),
            "incorrect".to_string()
        ))
    )
}

#[test]
fn test_read_all_success() {
    let text_data = r#"# Record 1 (Deposit)
TX_ID: 1234567890123456
TX_TYPE: DEPOSIT
FROM_USER_ID: 0
TO_USER_ID: 9876543210987654
AMOUNT: 10000
TIMESTAMP: 1633036800000
STATUS: SUCCESS
DESCRIPTION: "Terminal deposit"

# Record 2 (Transfer)
TX_ID: 2312321321321321
TIMESTAMP: 1633056800000
STATUS: FAILURE
TX_TYPE: TRANSFER
FROM_USER_ID: 1231231231231231
TO_USER_ID: 9876543210987654
AMOUNT: 1000
DESCRIPTION: "User transfer"

# Record 3 (Withdrawal)
TX_ID: 3213213213213213
AMOUNT: 100
TX_TYPE: WITHDRAWAL
FROM_USER_ID: 9876543210987654
TO_USER_ID: 0
TIMESTAMP: 1633066800000
STATUS: SUCCESS
DESCRIPTION: "User withdrawal""#;

    let reader = TextRecordReader::new();

    let records = reader.read_all(&text_data.as_bytes().to_vec());

    assert_eq!(
        records,
        Ok(vec![
            Record::new(
                1234567890123456,
                RecordType::Deposit {
                    to_user_id: 9876543210987654
                },
                10000,
                1633036800000,
                RecordStatus::Success,
                "Terminal deposit".to_string(),
            ),
            Record::new(
                2312321321321321,
                RecordType::Transfer {
                    to_user_id: 9876543210987654,
                    from_user_id: 1231231231231231,
                },
                1000,
                1633056800000,
                RecordStatus::Failure,
                "User transfer".to_string(),
            ),
            Record::new(
                3213213213213213,
                RecordType::Withdrawal {
                    from_user_id: 9876543210987654,
                },
                100,
                1633066800000,
                RecordStatus::Success,
                "User withdrawal".to_string(),
            )
        ])
    )
}

#[test]
fn test_read_all_duplicate_field() {
    let text_data = r#"# Record 1 (Deposit)
TX_ID: 1234567890123456
TX_ID: 1234567890123456
TX_TYPE: DEPOSIT
FROM_USER_ID: 0
TO_USER_ID: 9876543210987654
AMOUNT: 10000
TIMESTAMP: 1633036800000
STATUS: SUCCESS
DESCRIPTION: "Terminal deposit""#;

    let reader = TextRecordReader::new();

    let records = reader.read_all(&text_data.as_bytes().to_vec());

    assert_eq!(
        records,
        Err(YpbankError::TextDuplicateField("TX_ID".to_string()))
    )
}
