//! Text codec: each record is a block of `KEY: VALUE` lines separated by a
//! blank line; `#` opens a comment line; the description value is wrapped in
//! literal double quotes.

use vstd::prelude::*;

verus! {

use vstd::utf8::{encode_utf8, decode_utf8, valid_utf8};
use crate::{Record, RecordV, RecordType, RecordStatus};
use crate::error::{YpbankError, ErrorV};
use crate::decimal::{spec_parse_u64, parse_u64, dec_str, u64_to_dec_string};
use crate::strutil::str_eq;
use crate::csv_format::{type_literal, status_name};
use crate::bin_format::{from_uid, to_uid};

/// The index of the first line break at or after `i`, or the length where
/// none remains.
pub open spec fn find_nl_from(s: Seq<char>, i: int) -> int
    recommends
        0 <= i <= s.len(),
    decreases s.len() - i,
{
    if i < 0 || i >= s.len() {
        s.len() as int
    } else if s[i] == '\n' {
        i
    } else {
        find_nl_from(s, i + 1)
    }
}

/// A line with a trailing carriage return loses it.
pub open spec fn strip_cr(l: Seq<char>) -> Seq<char> {
    if l.len() > 0 && l.last() == '\r' {
        l.drop_last()
    } else {
        l
    }
}

/// The lines of a character sequence: split at line breaks, one trailing
/// carriage return removed per line, no empty line after a final line break.
pub open spec fn spec_lines(s: Seq<char>) -> Seq<Seq<char>>
    decreases s.len(),
{
    if s.len() == 0 {
        Seq::empty()
    } else {
        let j = find_nl_from(s, 0);
        if 0 <= j < s.len() {
            seq![strip_cr(s.subrange(0, j))] + spec_lines(s.subrange(j + 1, s.len() as int))
        } else {
            seq![strip_cr(s)]
        }
    }
}

/// The index of the first `": "` separator at or after `i`, or the length
/// where none occurs.
pub open spec fn find_sep_from(l: Seq<char>, i: int) -> int
    recommends
        0 <= i,
    decreases l.len() - i,
{
    if i < 0 || i + 1 >= l.len() {
        l.len() as int
    } else if l[i] == ':' && l[i + 1] == ' ' {
        i
    } else {
        find_sep_from(l, i + 1)
    }
}

/// Whether a key already occurs among the accumulated fields.
pub open spec fn has_field(fields: Seq<(Seq<char>, Seq<char>)>, key: Seq<char>) -> bool {
    exists|j: int| 0 <= j < fields.len() && #[trigger] fields[j].0 == key
}

/// The value of the first field with the given key.
pub open spec fn lookup_field(fields: Seq<(Seq<char>, Seq<char>)>, key: Seq<char>) -> Option<
    Seq<char>,
>
    decreases fields.len(),
{
    if fields.len() == 0 {
        None
    } else if fields[0].0 == key {
        Some(fields[0].1)
    } else {
        lookup_field(fields.drop_first(), key)
    }
}

/// What reading an unsigned integer field from a block yields: the field must
/// be present and its value must parse.
pub open spec fn spec_int_field(fields: Seq<(Seq<char>, Seq<char>)>, key: Seq<char>) -> Result<
    u64,
    ErrorV,
> {
    match lookup_field(fields, key) {
        None => Err(ErrorV::TextFieldNotFound(key)),
        Some(v) => match spec_parse_u64(v) {
            Some(x) => Ok(x),
            None => Err(ErrorV::TextUnexpectedFieldValue(key, v)),
        },
    }
}

/// What converting one block's fields into a record yields, checking the
/// fields in a fixed order: the numeric ids, the type literal, amount and
/// timestamp, the status literal, and the quoted description.
pub open spec fn spec_fields_to_record(fields: Seq<(Seq<char>, Seq<char>)>) -> Result<
    RecordV,
    ErrorV,
> {
    match spec_int_field(fields, "TX_ID"@) {
        Err(e) => Err(e),
        Ok(id) => match spec_int_field(fields, "FROM_USER_ID"@) {
            Err(e) => Err(e),
            Ok(from_user_id) => match spec_int_field(fields, "TO_USER_ID"@) {
                Err(e) => Err(e),
                Ok(to_user_id) => match lookup_field(fields, "TX_TYPE"@) {
                    None => Err(ErrorV::TextFieldNotFound("TX_TYPE"@)),
                    Some(tv) => if !(tv == "DEPOSIT"@ || tv == "WITHDRAWAL"@ || tv
                        == "TRANSFER"@) {
                        Err(ErrorV::TextUnexpectedFieldValue("TX_TYPE"@, tv))
                    } else {
                        let record_type = if tv == "DEPOSIT"@ {
                            RecordType::Deposit { to_user_id }
                        } else if tv == "WITHDRAWAL"@ {
                            RecordType::Withdrawal { from_user_id }
                        } else {
                            RecordType::Transfer { from_user_id, to_user_id }
                        };
                        match spec_int_field(fields, "AMOUNT"@) {
                            Err(e) => Err(e),
                            Ok(amount) => match spec_int_field(fields, "TIMESTAMP"@) {
                                Err(e) => Err(e),
                                Ok(timestamp) => match lookup_field(fields, "STATUS"@) {
                                    None => Err(ErrorV::TextFieldNotFound("STATUS"@)),
                                    Some(sv) => if !(sv == "SUCCESS"@ || sv == "PENDING"@ || sv
                                        == "FAILURE"@) {
                                        Err(ErrorV::TextUnexpectedFieldValue("STATUS"@, sv))
                                    } else {
                                        let status = if sv == "SUCCESS"@ {
                                            RecordStatus::Success
                                        } else if sv == "FAILURE"@ {
                                            RecordStatus::Failure
                                        } else {
                                            RecordStatus::Pending
                                        };
                                        match lookup_field(fields, "DESCRIPTION"@) {
                                            None => Err(ErrorV::TextFieldNotFound("DESCRIPTION"@)),
                                            Some(dv) => if dv.len() >= 2 && dv[0] == '"'
                                                && dv.last() == '"' {
                                                Ok(
                                                    RecordV {
                                                        id,
                                                        record_type,
                                                        amount,
                                                        timestamp,
                                                        status,
                                                        description: dv.subrange(
                                                            1,
                                                            dv.len() - 1,
                                                        ),
                                                    },
                                                )
                                            } else {
                                                Err(
                                                    ErrorV::TextUnexpectedFieldValue(
                                                        "DESCRIPTION"@,
                                                        dv,
                                                    ),
                                                )
                                            },
                                        }
                                    },
                                },
                            },
                        }
                    },
                },
            },
        },
    }
}

/// What folding the remaining lines with the accumulated fields of the
/// current block yields: blank lines close a non-empty block, comment lines
/// are skipped, every other line must be a fresh `KEY: VALUE` pair, and a
/// block still open at the end of input is closed.
pub open spec fn spec_decode_lines(
    lines: Seq<Seq<char>>,
    fields: Seq<(Seq<char>, Seq<char>)>,
) -> Result<Seq<RecordV>, ErrorV>
    decreases lines.len(),
{
    if lines.len() == 0 {
        if fields.len() == 0 {
            Ok(Seq::empty())
        } else {
            match spec_fields_to_record(fields) {
                Ok(r) => Ok(seq![r]),
                Err(e) => Err(e),
            }
        }
    } else {
        let l = lines[0];
        if l.len() == 0 {
            if fields.len() == 0 {
                spec_decode_lines(lines.drop_first(), fields)
            } else {
                match spec_fields_to_record(fields) {
                    Ok(r) => match spec_decode_lines(lines.drop_first(), Seq::empty()) {
                        Ok(rest) => Ok(seq![r] + rest),
                        Err(e) => Err(e),
                    },
                    Err(e) => Err(e),
                }
            }
        } else if l[0] == '#' {
            spec_decode_lines(lines.drop_first(), fields)
        } else {
            let j = find_sep_from(l, 0);
            if j == l.len() {
                Err(ErrorV::TextUnableToParse(l))
            } else {
                let key = l.subrange(0, j);
                let value = l.subrange(j + 2, l.len() as int);
                if has_field(fields, key) {
                    Err(ErrorV::TextDuplicateField(key))
                } else {
                    spec_decode_lines(lines.drop_first(), fields.push((key, value)))
                }
            }
        }
    }
}

/// What decoding a text document yields.
pub open spec fn spec_text_decode(s: Seq<char>) -> Result<Seq<RecordV>, ErrorV> {
    spec_decode_lines(spec_lines(s), Seq::empty())
}

/// The block encoding one record: the eight fields in a fixed order, one
/// `KEY: VALUE` line each, the description in double quotes, and a closing
/// blank line.
pub open spec fn spec_text_block(r: RecordV) -> Seq<char> {
    "TX_ID: "@ + dec_str(r.id as nat) + "\n"@ + "TX_TYPE: "@ + type_literal(r.record_type)
        + "\n"@ + "FROM_USER_ID: "@ + dec_str(from_uid(r.record_type) as nat) + "\n"@
        + "TO_USER_ID: "@ + dec_str(to_uid(r.record_type) as nat) + "\n"@ + "AMOUNT: "@ + dec_str(
        r.amount as nat,
    ) + "\n"@ + "TIMESTAMP: "@ + dec_str(r.timestamp as nat) + "\n"@ + "STATUS: "@ + status_name(
        r.status,
    ) + "\n"@ + "DESCRIPTION: \""@ + r.description + "\"\n"@ + "\n"@
}

/// The text encoding of a record sequence: blocks back to back.
pub open spec fn spec_text_encode(rs: Seq<RecordV>) -> Seq<char>
    decreases rs.len(),
{
    if rs.len() == 0 {
        Seq::empty()
    } else {
        spec_text_block(rs[0]) + spec_text_encode(rs.drop_first())
    }
}

/// Look up the first field with the given key, as [`lookup_field`].
fn exec_lookup_field(fields: &Vec<(String, String)>, key: &str) -> (r: Option<String>)
    ensures
        r matches Some(v) ==> lookup_field(fields.deep_view(), key@) matches Some(sv) && v@
            == sv,
        r is None ==> lookup_field(fields.deep_view(), key@) is None,
{
    let n = fields.len();
    let mut i: usize = 0;
    proof {
        assert(fields.deep_view().skip(0) =~= fields.deep_view());
    }
    while i < n
        invariant
            0 <= i <= n,
            n == fields@.len(),
            lookup_field(fields.deep_view(), key@) == lookup_field(
                fields.deep_view().skip(i as int),
                key@,
            ),
        decreases n - i,
    {
        proof {
            assert(fields.deep_view().skip(i as int)[0] == fields.deep_view()[i as int]);
            assert(fields.deep_view().skip(i as int).drop_first() =~= fields.deep_view().skip(
                i + 1,
            ));
        }
        if str_eq(fields[i].0.as_str(), key) {
            return Some(fields[i].1.clone());
        }
        i = i + 1;
    }
    proof {
        assert(fields.deep_view().skip(n as int) =~= Seq::<(Seq<char>, Seq<char>)>::empty());
    }
    None
}

/// Read an unsigned integer field from a block, as [`spec_int_field`].
fn exec_int_field(fields: &Vec<(String, String)>, key: &str) -> (r: Result<u64, YpbankError>)
    ensures
        r matches Ok(x) ==> spec_int_field(fields.deep_view(), key@) matches Ok(sx) && x == sx,
        r matches Err(e) ==> spec_int_field(fields.deep_view(), key@) matches Err(se) && e@
            == se,
{
    match exec_lookup_field(fields, key) {
        None => Err(YpbankError::TextFieldNotFound(key.to_owned())),
        Some(v) => match parse_u64(v.as_str()) {
            Some(x) => Ok(x),
            None => Err(YpbankError::TextUnexpectedFieldValue(key.to_owned(), v)),
        },
    }
}

/// Convert one block's fields into a record, exactly as
/// [`spec_fields_to_record`] describes. Where a key occurs twice, the first
/// occurrence counts; the reader rejects such blocks before this point.
pub fn text_fields_to_record(fields: &Vec<(String, String)>) -> (r: Result<Record, YpbankError>)
    ensures
        r matches Ok(rec) ==> spec_fields_to_record(fields.deep_view()) matches Ok(rv)
            && rec.deep_view() == rv,
        r matches Err(e) ==> spec_fields_to_record(fields.deep_view()) matches Err(ev) && e@
            == ev,
{
    let id = match exec_int_field(fields, "TX_ID") {
        Ok(x) => x,
        Err(e) => {
            return Err(e);
        },
    };
    let from_user_id = match exec_int_field(fields, "FROM_USER_ID") {
        Ok(x) => x,
        Err(e) => {
            return Err(e);
        },
    };
    let to_user_id = match exec_int_field(fields, "TO_USER_ID") {
        Ok(x) => x,
        Err(e) => {
            return Err(e);
        },
    };
    let tv = match exec_lookup_field(fields, "TX_TYPE") {
        None => {
            return Err(YpbankError::TextFieldNotFound("TX_TYPE".to_owned()));
        },
        Some(v) => v,
    };
    let record_type = if str_eq(tv.as_str(), "DEPOSIT") {
        RecordType::Deposit { to_user_id }
    } else if str_eq(tv.as_str(), "WITHDRAWAL") {
        RecordType::Withdrawal { from_user_id }
    } else if str_eq(tv.as_str(), "TRANSFER") {
        RecordType::Transfer { from_user_id, to_user_id }
    } else {
        return Err(YpbankError::TextUnexpectedFieldValue("TX_TYPE".to_owned(), tv));
    };
    let amount = match exec_int_field(fields, "AMOUNT") {
        Ok(x) => x,
        Err(e) => {
            return Err(e);
        },
    };
    let timestamp = match exec_int_field(fields, "TIMESTAMP") {
        Ok(x) => x,
        Err(e) => {
            return Err(e);
        },
    };
    let sv = match exec_lookup_field(fields, "STATUS") {
        None => {
            return Err(YpbankError::TextFieldNotFound("STATUS".to_owned()));
        },
        Some(v) => v,
    };
    let status = if str_eq(sv.as_str(), "SUCCESS") {
        RecordStatus::Success
    } else if str_eq(sv.as_str(), "FAILURE") {
        RecordStatus::Failure
    } else if str_eq(sv.as_str(), "PENDING") {
        RecordStatus::Pending
    } else {
        return Err(YpbankError::TextUnexpectedFieldValue("STATUS".to_owned(), sv));
    };
    let dv = match exec_lookup_field(fields, "DESCRIPTION") {
        None => {
            return Err(YpbankError::TextFieldNotFound("DESCRIPTION".to_owned()));
        },
        Some(v) => v,
    };
    let dlen = dv.as_str().unicode_len();
    if !(dlen >= 2 && dv.as_str().get_char(0) == '"' && dv.as_str().get_char(dlen - 1) == '"') {
        return Err(YpbankError::TextUnexpectedFieldValue("DESCRIPTION".to_owned(), dv));
    }
    let description = dv.as_str().substring_char(1, dlen - 1).to_owned();
    let rec = Record { id, record_type, amount, timestamp, status, description };
    proof {
        assert(rec.deep_view() =~= spec_fields_to_record(fields.deep_view())->Ok_0);
    }
    Ok(rec)
}


/// Characterization of [`find_nl_from`]: where no line break occurs before
/// `j` and one occurs at `j` (or `j` is the end), the search yields `j`.
proof fn lemma_find_nl(s: Seq<char>, i: int, j: int)
    requires
        0 <= i <= j <= s.len(),
        forall|k: int| i <= k < j ==> s[k] != '\n',
        j == s.len() || s[j] == '\n',
    ensures
        find_nl_from(s, i) == j,
    decreases j - i,
{
    if i < j {
        lemma_find_nl(s, i + 1, j);
    }
}

/// Characterization of [`find_sep_from`]: where no separator occurs before
/// `j` and one occurs at `j` (or none fits), the search yields `j`.
proof fn lemma_find_sep(s: Seq<char>, i: int, j: int)
    requires
        0 <= i <= j <= s.len(),
        forall|k: int| i <= k < j ==> !(#[trigger] s[k] == ':' && k + 1 < s.len() && s[k + 1] == ' '),
        j == s.len() || (j + 1 < s.len() && s[j] == ':' && s[j + 1] == ' '),
    ensures
        find_sep_from(s, i) == j,
    decreases j - i,
{
    if i < j {
        if i + 1 >= s.len() {
            assert(find_sep_from(s, i) == s.len());
            assert(j == s.len());
        } else {
            lemma_find_sep(s, i + 1, j);
        }
    } else {
        if j < s.len() {
            assert(find_sep_from(s, j) == j);
        }
    }
}

/// Split a string into lines, exactly as [`spec_lines`] describes.
fn split_lines(s: &str) -> (lines: Vec<String>)
    ensures
        lines.deep_view() == spec_lines(s@),
{
    let n = s.unicode_len();
    let mut lines: Vec<String> = Vec::new();
    let mut pos: usize = 0;
    proof {
        assert(s@.subrange(0, n as int) =~= s@);
        assert(lines.deep_view() =~= Seq::<Seq<char>>::empty());
        assert(lines.deep_view() + spec_lines(s@) =~= spec_lines(s@));
    }
    while pos < n
        invariant
            0 <= pos <= n,
            n == s@.len(),
            spec_lines(s@) == lines.deep_view() + spec_lines(s@.subrange(pos as int, n as int)),
        decreases n - pos,
    {
        let ghost sub = s@.subrange(pos as int, n as int);
        let mut j: usize = pos;
        while j < n && s.get_char(j) != '\n'
            invariant
                pos <= j <= n,
                n == s@.len(),
                forall|k: int| pos <= k < j ==> s@[k] != '\n',
            decreases n - j,
        {
            j = j + 1;
        }
        proof {
            assert(forall|k: int| 0 <= k < j - pos ==> sub[k] == s@[pos + k]);
            lemma_find_nl(sub, 0, j - pos);
        }
        let line = if j > pos && s.get_char(j - 1) == '\r' {
            s.substring_char(pos, j - 1)
        } else {
            s.substring_char(pos, j)
        };
        let ghost lines0 = lines.deep_view();
        lines.push(line.to_owned());
        proof {
            assert(sub.subrange(0, j - pos) =~= s@.subrange(pos as int, j as int));
            if j > pos && s@[j - 1] == '\r' {
                assert(sub.subrange(0, j - pos).last() == '\r');
                assert(strip_cr(sub.subrange(0, j - pos)) =~= s@.subrange(pos as int, j - 1));
            } else {
                assert(strip_cr(sub.subrange(0, j - pos)) =~= s@.subrange(pos as int, j as int));
            }
            assert(line@ == strip_cr(sub.subrange(0, j - pos)));
            assert(lines.deep_view() =~= lines0.push(line@));
            if j < n {
                assert(sub.subrange(j - pos + 1, sub.len() as int) =~= s@.subrange(
                    j + 1,
                    n as int,
                ));
                assert(spec_lines(sub) == seq![strip_cr(sub.subrange(0, j - pos))] + spec_lines(
                    s@.subrange(j + 1, n as int),
                ));
                assert(lines.deep_view() + spec_lines(s@.subrange(j + 1, n as int)) =~= lines0
                    + spec_lines(sub));
            } else {
                assert(find_nl_from(sub, 0) == sub.len());
                assert(sub.subrange(0, j - pos) =~= sub);
                assert(spec_lines(sub) == seq![strip_cr(sub)]);
                assert(s@.subrange(n as int, n as int) =~= Seq::<char>::empty());
                assert(lines.deep_view() + spec_lines(s@.subrange(n as int, n as int))
                    =~= lines0 + spec_lines(sub));
            }
        }
        pos = if j < n {
            j + 1
        } else {
            n
        };
    }
    proof {
        assert(s@.subrange(n as int, n as int) =~= Seq::<char>::empty());
        assert(lines.deep_view() + spec_lines(Seq::<char>::empty()) =~= lines.deep_view());
    }
    lines
}

/// Find the first `": "` separator of a line, exactly [`find_sep_from`] from
/// the start; the line's length means there is none.
fn line_sep_index(l: &str) -> (j: usize)
    ensures
        j == find_sep_from(l@, 0),
        j <= l@.len(),
        j < l@.len() ==> j + 2 <= l@.len(),
{
    let n = l.unicode_len();
    if n == 0 {
        proof {
            lemma_find_sep(l@, 0, 0);
        }
        return 0;
    }
    let mut j: usize = 0;
    while j < n - 1 && !(l.get_char(j) == ':' && l.get_char(j + 1) == ' ')
        invariant
            0 <= j <= n,
            n >= 1,
            n == l@.len(),
            forall|k: int| 0 <= k < j ==> !(#[trigger] l@[k] == ':' && k + 1 < l@.len() && l@[k + 1] == ' '),
        decreases n - j,
    {
        j = j + 1;
    }
    if j < n - 1 {
        proof {
            lemma_find_sep(l@, 0, j as int);
        }
        j
    } else {
        proof {
            lemma_find_sep(l@, 0, n as int);
        }
        n
    }
}

/// Whether a key already occurs among the accumulated fields, exactly
/// [`has_field`].
fn exec_has_field(fields: &Vec<(String, String)>, key: &str) -> (r: bool)
    ensures
        r == has_field(fields.deep_view(), key@),
{
    let n = fields.len();
    let mut i: usize = 0;
    while i < n
        invariant
            0 <= i <= n,
            n == fields@.len(),
            forall|k: int| 0 <= k < i ==> #[trigger] fields.deep_view()[k].0 != key@,
        decreases n - i,
    {
        if str_eq(fields[i].0.as_str(), key) {
            proof {
                assert(fields.deep_view()[i as int].0 == key@);
            }
            return true;
        }
        i = i + 1;
    }
    proof {
        assert(!has_field(fields.deep_view(), key@));
    }
    false
}

/// Reader for the text format.
pub struct TextRecordReader;

/// Writer for the text format.
pub struct TextRecordWriter;

impl TextRecordReader {
    /// Create a new text reader.
    pub fn new() -> (r: Self) {
        TextRecordReader
    }

    /// Decode all records from the given bytes: a read error where they are
    /// not UTF-8, and otherwise exactly what [`spec_text_decode`] yields for
    /// the decoded text.
    pub fn read_all(&self, input: &Vec<u8>) -> (r: Result<Vec<Record>, YpbankError>)
        ensures
            valid_utf8(input@) ==> ({
                &&& r matches Ok(v) ==> spec_text_decode(decode_utf8(input@)) matches Ok(s)
                    && v.deep_view() == s
                &&& r matches Err(e) ==> spec_text_decode(decode_utf8(input@)) matches Err(se)
                    && e@ == se
            }),
            !valid_utf8(input@) ==> (r matches Err(e) && e@ matches ErrorV::TextReadError(_)),
    {
        let text = match crate::strutil::string_from_utf8(input.clone()) {
            Some(t) => t,
            None => {
                return Err(YpbankError::TextReadError("invalid UTF-8 input".to_owned()));
            },
        };
        let lines = split_lines(text.as_str());
        let ghost all = lines.deep_view();
        let n = lines.len();
        let mut recs: Vec<Record> = Vec::new();
        let mut fields: Vec<(String, String)> = Vec::new();
        let mut i: usize = 0;
        proof {
            assert(all.skip(0) =~= all);
            assert(recs.deep_view() =~= Seq::<RecordV>::empty());
            assert(fields.deep_view() =~= Seq::<(Seq<char>, Seq<char>)>::empty());
            if let Ok(rest) = spec_decode_lines(all, fields.deep_view()) {
                assert(recs.deep_view() + rest =~= rest);
            }
        }
        while i < n
            invariant
                0 <= i <= n,
                n == lines@.len(),
                all == lines.deep_view(),
                valid_utf8(input@),
                all == spec_lines(decode_utf8(input@)),
                spec_decode_lines(all, Seq::empty()) == (match spec_decode_lines(
                    all.skip(i as int),
                    fields.deep_view(),
                ) {
                    Ok(rest) => Ok::<Seq<RecordV>, ErrorV>(recs.deep_view() + rest),
                    Err(e) => Err(e),
                }),
            decreases n - i,
        {
            let line = &lines[i];
            let llen = line.as_str().unicode_len();
            proof {
                assert(all.skip(i as int)[0] == lines@[i as int].deep_view());
                assert(all.skip(i as int).drop_first() =~= all.skip(i + 1));
            }
            if llen == 0 {
                if fields.len() > 0 {
                    let rec = match text_fields_to_record(&fields) {
                        Ok(rec) => rec,
                        Err(e) => {
                            return Err(e);
                        },
                    };
                    let ghost old_recs = recs.deep_view();
                    recs.push(rec);
                    fields.clear();
                    proof {
                        assert(recs.deep_view() =~= old_recs.push(rec.deep_view()));
                        assert(fields.deep_view() =~= Seq::<(Seq<char>, Seq<char>)>::empty());
                        if let Ok(rest) = spec_decode_lines(all.skip(i + 1), Seq::empty()) {
                            assert(old_recs + (seq![rec.deep_view()] + rest) =~= recs.deep_view()
                                + rest);
                        }
                    }
                }
                i = i + 1;
                continue;
            }
            if line.as_str().get_char(0) == '#' {
                i = i + 1;
                continue;
            }
            let j = line_sep_index(line.as_str());
            if j == llen {
                return Err(YpbankError::TextUnableToParse(line.clone()));
            }
            let key = line.as_str().substring_char(0, j).to_owned();
            let value = line.as_str().substring_char(j + 2, llen).to_owned();
            if exec_has_field(&fields, key.as_str()) {
                return Err(YpbankError::TextDuplicateField(key));
            }
            let ghost fields0 = fields.deep_view();
            fields.push((key, value));
            proof {
                assert(fields.deep_view() =~= fields0.push(
                    (
                        lines@[i as int].deep_view().subrange(0, j as int),
                        lines@[i as int].deep_view().subrange(
                            j + 2,
                            lines@[i as int].deep_view().len() as int,
                        ),
                    ),
                ));
            }
            i = i + 1;
        }
        proof {
            assert(all.skip(n as int) =~= Seq::<Seq<char>>::empty());
        }
        if fields.len() > 0 {
            let rec = match text_fields_to_record(&fields) {
                Ok(rec) => rec,
                Err(e) => {
                    return Err(e);
                },
            };
            let ghost old_recs = recs.deep_view();
            recs.push(rec);
            proof {
                assert(recs.deep_view() =~= old_recs.push(rec.deep_view()));
                assert(old_recs + seq![rec.deep_view()] =~= recs.deep_view());
            }
            return Ok(recs);
        }
        proof {
            assert(recs.deep_view() + Seq::<RecordV>::empty() =~= recs.deep_view());
        }
        Ok(recs)
    }
}

/// The text encoding of a sequence extended by one record appends that
/// record's block.
proof fn lemma_text_encode_snoc(rs: Seq<RecordV>, r: RecordV)
    ensures
        spec_text_encode(rs.push(r)) == spec_text_encode(rs) + spec_text_block(r),
    decreases rs.len(),
{
    if rs.len() == 0 {
        assert(rs.push(r)[0] == r);
        assert(rs.push(r).drop_first() =~= Seq::<RecordV>::empty());
        assert(spec_text_encode(Seq::<RecordV>::empty()) == Seq::<char>::empty());
        assert(spec_text_encode(rs.push(r)) =~= spec_text_block(r) + Seq::<char>::empty());
        assert(spec_text_block(r) + Seq::<char>::empty() =~= spec_text_block(r));
        assert(spec_text_encode(rs) + spec_text_block(r) =~= spec_text_block(r));
    } else {
        lemma_text_encode_snoc(rs.drop_first(), r);
        assert(rs.push(r)[0] == rs[0]);
        assert(rs.push(r).drop_first() =~= rs.drop_first().push(r));
        assert(spec_text_encode(rs.push(r)) == spec_text_block(rs[0]) + spec_text_encode(
            rs.drop_first().push(r),
        ));
        assert(spec_text_block(rs[0]) + (spec_text_encode(rs.drop_first()) + spec_text_block(r))
            =~= (spec_text_block(rs[0]) + spec_text_encode(rs.drop_first())) + spec_text_block(
            r,
        ));
    }
}

/// Append a string's UTF-8 bytes to a buffer whose contents past `base` are
/// the encoding of the characters gathered so far; returns the new gathering.
fn append_str(buf: &mut Vec<u8>, base: Ghost<Seq<u8>>, cs: Ghost<Seq<char>>, s: &str) -> (ncs:
    Ghost<Seq<char>>)
    requires
        old(buf)@ == base@ + encode_utf8(cs@),
    ensures
        ncs@ == cs@ + s@,
        final(buf)@ == base@ + encode_utf8(ncs@),
{
    proof {
        crate::strutil::lemma_encode_utf8_concat(cs@, s@);
    }
    let mut b = s.as_bytes_vec();
    buf.append(&mut b);
    proof {
        assert(buf@ =~= base@ + encode_utf8(cs@ + s@));
    }
    Ghost(cs@ + s@)
}

impl TextRecordWriter {
    /// Create a new text writer.
    pub fn new() -> (r: Self) {
        TextRecordWriter
    }

    /// Encode all records in the text format: for each record one block as
    /// [`spec_text_block`] lays it out, rendered to UTF-8 bytes. Never fails.
    #[verifier::rlimit(100)]
    pub fn write_all(&self, records: &Vec<Record>) -> (r: Result<Vec<u8>, YpbankError>)
        ensures
            r matches Ok(bytes) ==> bytes@ == encode_utf8(
                spec_text_encode(records.deep_view()),
            ),
            r is Ok,
    {
        broadcast use crate::strutil::lemma_encode_utf8_concat;

        let mut buf: Vec<u8> = Vec::new();
        let n = records.len();
        let mut i: usize = 0;
        proof {
            assert(records.deep_view().take(0) =~= Seq::<RecordV>::empty());
            assert(buf@ =~= encode_utf8(spec_text_encode(records.deep_view().take(0))));
        }
        while i < n
            invariant
                0 <= i <= n,
                n == records@.len(),
                buf@ == encode_utf8(spec_text_encode(records.deep_view().take(i as int))),
            decreases n - i,
        {
            let record = &records[i];
            let ghost buf0 = buf@;
            let ghost rv = records.deep_view()[i as int];
            append_block(&mut buf, record);
            proof {
                lemma_text_encode_snoc(records.deep_view().take(i as int), rv);
                assert(records.deep_view().take(i + 1) =~= records.deep_view().take(
                    i as int,
                ).push(rv));
                crate::strutil::lemma_encode_utf8_concat(
                    spec_text_encode(records.deep_view().take(i as int)),
                    spec_text_block(rv),
                );
                assert(buf@ =~= encode_utf8(spec_text_encode(records.deep_view().take(i + 1))));
            }
            i = i + 1;
        }
        proof {
            assert(records.deep_view().take(n as int) =~= records.deep_view());
        }
        Ok(buf)
    }
}

/// Append the block encoding one record to the buffer.
#[verifier::rlimit(100)]
fn append_block(buf: &mut Vec<u8>, record: &Record)
    ensures
        final(buf)@ == old(buf)@ + encode_utf8(spec_text_block(record.deep_view())),
{
    let ghost base = buf@;
    let ghost rv = record.deep_view();
    let mut cs: Ghost<Seq<char>> = Ghost(Seq::empty());
    proof {
        assert(encode_utf8(Seq::<char>::empty()) =~= Seq::<u8>::empty());
        assert(buf@ =~= base + encode_utf8(cs@));
    }
    cs = append_str(buf, Ghost(base), cs, "TX_ID: ");
    let ids = u64_to_dec_string(record.id);
    cs = append_str(buf, Ghost(base), cs, ids.as_str());
    cs = append_str(buf, Ghost(base), cs, "\n");
    cs = append_str(buf, Ghost(base), cs, "TX_TYPE: ");
    let type_lit: &str = match record.record_type {
        RecordType::Deposit { .. } => "DEPOSIT",
        RecordType::Withdrawal { .. } => "WITHDRAWAL",
        RecordType::Transfer { .. } => "TRANSFER",
    };
    cs = append_str(buf, Ghost(base), cs, type_lit);
    cs = append_str(buf, Ghost(base), cs, "\n");
    let (from_user_id, to_user_id): (u64, u64) = match record.record_type {
        RecordType::Deposit { to_user_id } => (0u64, to_user_id),
        RecordType::Transfer { from_user_id, to_user_id } => (from_user_id, to_user_id),
        RecordType::Withdrawal { from_user_id } => (from_user_id, 0u64),
    };
    cs = append_str(buf, Ghost(base), cs, "FROM_USER_ID: ");
    let fs = u64_to_dec_string(from_user_id);
    cs = append_str(buf, Ghost(base), cs, fs.as_str());
    cs = append_str(buf, Ghost(base), cs, "\n");
    cs = append_str(buf, Ghost(base), cs, "TO_USER_ID: ");
    let tos = u64_to_dec_string(to_user_id);
    cs = append_str(buf, Ghost(base), cs, tos.as_str());
    cs = append_str(buf, Ghost(base), cs, "\n");
    cs = append_str(buf, Ghost(base), cs, "AMOUNT: ");
    let ams = u64_to_dec_string(record.amount);
    cs = append_str(buf, Ghost(base), cs, ams.as_str());
    cs = append_str(buf, Ghost(base), cs, "\n");
    cs = append_str(buf, Ghost(base), cs, "TIMESTAMP: ");
    let tss = u64_to_dec_string(record.timestamp);
    cs = append_str(buf, Ghost(base), cs, tss.as_str());
    cs = append_str(buf, Ghost(base), cs, "\n");
    cs = append_str(buf, Ghost(base), cs, "STATUS: ");
    let status_lit: &str = match record.status {
        RecordStatus::Success => "SUCCESS",
        RecordStatus::Failure => "FAILURE",
        RecordStatus::Pending => "PENDING",
    };
    cs = append_str(buf, Ghost(base), cs, status_lit);
    cs = append_str(buf, Ghost(base), cs, "\n");
    cs = append_str(buf, Ghost(base), cs, "DESCRIPTION: \"");
    cs = append_str(buf, Ghost(base), cs, record.description.as_str());
    cs = append_str(buf, Ghost(base), cs, "\"\n");
    cs = append_str(buf, Ghost(base), cs, "\n");
    proof {
        assert(type_lit@ == type_literal(rv.record_type));
        assert(status_lit@ == status_name(rv.status));
        assert(from_user_id == from_uid(rv.record_type));
        assert(to_user_id == to_uid(rv.record_type));
        assert(cs@ =~= spec_text_block(rv));
    }
}


/// A character sequence free of line breaks.
pub open spec fn no_newline(s: Seq<char>) -> bool {
    forall|k: int| 0 <= k < s.len() ==> s[k] != '\n'
}

/// The lines of one record's block: the eight `KEY: VALUE` lines followed by
/// the blank separator line.
pub open spec fn block_lines(r: RecordV) -> Seq<Seq<char>> {
    seq![
        "TX_ID: "@ + dec_str(r.id as nat),
        "TX_TYPE: "@ + type_literal(r.record_type),
        "FROM_USER_ID: "@ + dec_str(from_uid(r.record_type) as nat),
        "TO_USER_ID: "@ + dec_str(to_uid(r.record_type) as nat),
        "AMOUNT: "@ + dec_str(r.amount as nat),
        "TIMESTAMP: "@ + dec_str(r.timestamp as nat),
        "STATUS: "@ + status_name(r.status),
        "DESCRIPTION: \""@ + r.description + "\""@,
        Seq::<char>::empty(),
    ]
}

/// The fields that the reader gathers from one record's block, in block
/// order.
pub open spec fn block_fields(r: RecordV) -> Seq<(Seq<char>, Seq<char>)> {
    seq![
        ("TX_ID"@, dec_str(r.id as nat)),
        ("TX_TYPE"@, type_literal(r.record_type)),
        ("FROM_USER_ID"@, dec_str(from_uid(r.record_type) as nat)),
        ("TO_USER_ID"@, dec_str(to_uid(r.record_type) as nat)),
        ("AMOUNT"@, dec_str(r.amount as nat)),
        ("TIMESTAMP"@, dec_str(r.timestamp as nat)),
        ("STATUS"@, status_name(r.status)),
        ("DESCRIPTION"@, "\""@ + r.description + "\""@),
    ]
}

/// Bounds and defining properties of [`find_nl_from`].
proof fn lemma_find_nl_props(s: Seq<char>, i: int)
    requires
        0 <= i <= s.len(),
    ensures
        i <= find_nl_from(s, i) <= s.len(),
        forall|k: int| i <= k < find_nl_from(s, i) ==> s[k] != '\n',
        find_nl_from(s, i) < s.len() ==> s[find_nl_from(s, i)] == '\n',
    decreases s.len() - i,
{
    if i < s.len() && s[i] != '\n' {
        lemma_find_nl_props(s, i + 1);
    }
}

/// Line splitting distributes over concatenation where the first part ends
/// with a line break.
proof fn lemma_lines_concat(a: Seq<char>, b: Seq<char>)
    requires
        a.len() == 0 || a.last() == '\n',
    ensures
        spec_lines(a + b) == spec_lines(a) + spec_lines(b),
    decreases a.len(),
{
    if a.len() == 0 {
        assert(a + b =~= b);
        assert(spec_lines(a) + spec_lines(b) =~= spec_lines(b));
    } else {
        lemma_find_nl_props(a, 0);
        let j = find_nl_from(a, 0);
        assert(j < a.len()) by {
            if j == a.len() {
                assert(a[a.len() - 1] != '\n');
            }
        }
        assert(forall|k: int| 0 <= k < j ==> (a + b)[k] == a[k]);
        assert((a + b)[j] == a[j]);
        lemma_find_nl(a + b, 0, j);
        assert((a + b).subrange(0, j) =~= a.subrange(0, j));
        let a2 = a.subrange(j + 1, a.len() as int);
        assert((a + b).subrange(j + 1, (a + b).len() as int) =~= a2 + b);
        assert(a2.len() == 0 || a2.last() == '\n') by {
            if a2.len() > 0 {
                assert(a2.last() == a.last());
            }
        }
        lemma_lines_concat(a2, b);
        assert(spec_lines(a + b) == seq![strip_cr((a + b).subrange(0, j))] + spec_lines(a2 + b));
        assert(spec_lines(a) == seq![strip_cr(a.subrange(0, j))] + spec_lines(a2));
        assert(seq![strip_cr(a.subrange(0, j))] + (spec_lines(a2) + spec_lines(b)) =~= (seq![
            strip_cr(a.subrange(0, j)),
        ] + spec_lines(a2)) + spec_lines(b));
    }
}

/// A break-free line followed by one line break splits into that line alone.
proof fn lemma_lines_single(l: Seq<char>)
    requires
        no_newline(l),
        l.len() == 0 || l.last() != '\r',
    ensures
        spec_lines(l + "\n"@) == seq![l],
{
    reveal_strlit("\n");
    let s = l + "\n"@;
    assert(s.len() == l.len() + 1);
    assert(s[l.len() as int] == '\n');
    assert(forall|k: int| 0 <= k < l.len() ==> s[k] == l[k]);
    lemma_find_nl(s, 0, l.len() as int);
    assert(s.subrange(0, l.len() as int) =~= l);
    assert(strip_cr(l) == l);
    assert(s.subrange(l.len() as int + 1, s.len() as int) =~= Seq::<char>::empty());
    assert(spec_lines(Seq::<char>::empty()) =~= Seq::<Seq<char>>::empty());
    assert(spec_lines(s) =~= seq![l]);
}

/// Digit renderings contain no line break, no carriage return and no colon.
proof fn lemma_dec_str_plain(n: nat)
    ensures
        no_newline(dec_str(n)),
        dec_str(n).len() > 0,
        dec_str(n).last() != '\r',
        forall|k: int| 0 <= k < dec_str(n).len() ==> dec_str(n)[k] != ':',
{
    crate::decimal::lemma_dec_str_digits(n);
    assert forall|k: int| 0 <= k < dec_str(n).len() implies dec_str(n)[k] != '\n' && dec_str(
        n,
    )[k] != ':' by {
        assert(crate::decimal::is_digit(dec_str(n)[k]));
    }
    assert(crate::decimal::is_digit(dec_str(n).last()));
}

/// The type and status literals contain no line break and do not end with a
/// carriage return.
proof fn lemma_literals_plain(r: RecordV)
    ensures
        no_newline(type_literal(r.record_type)),
        type_literal(r.record_type).len() > 0,
        type_literal(r.record_type).last() != '\r',
        no_newline(status_name(r.status)),
        status_name(r.status).len() > 0,
        status_name(r.status).last() != '\r',
{
    reveal_strlit("DEPOSIT");
    reveal_strlit("WITHDRAWAL");
    reveal_strlit("TRANSFER");
    reveal_strlit("SUCCESS");
    reveal_strlit("FAILURE");
    reveal_strlit("PENDING");
}

/// The lines of one encoded block are exactly [`block_lines`].
#[verifier::rlimit(100)]
proof fn lemma_block_lines(r: RecordV)
    requires
        no_newline(r.description),
    ensures
        spec_lines(spec_text_block(r)) == block_lines(r),
{
    reveal_strlit("\n");
    reveal_strlit("TX_ID: ");
    reveal_strlit("TX_TYPE: ");
    reveal_strlit("FROM_USER_ID: ");
    reveal_strlit("TO_USER_ID: ");
    reveal_strlit("AMOUNT: ");
    reveal_strlit("TIMESTAMP: ");
    reveal_strlit("STATUS: ");
    reveal_strlit("DESCRIPTION: \"");
    reveal_strlit("\"");
    reveal_strlit("\"\n");
    lemma_dec_str_plain(r.id as nat);
    lemma_dec_str_plain(from_uid(r.record_type) as nat);
    lemma_dec_str_plain(to_uid(r.record_type) as nat);
    lemma_dec_str_plain(r.amount as nat);
    lemma_dec_str_plain(r.timestamp as nat);
    lemma_literals_plain(r);
    let l1 = block_lines(r)[0];
    let l2 = block_lines(r)[1];
    let l3 = block_lines(r)[2];
    let l4 = block_lines(r)[3];
    let l5 = block_lines(r)[4];
    let l6 = block_lines(r)[5];
    let l7 = block_lines(r)[6];
    let l8 = block_lines(r)[7];
    let nl = "\n"@;
    let t9 = nl;
    let t8 = (l8 + nl) + t9;
    let t7 = (l7 + nl) + t8;
    let t6 = (l6 + nl) + t7;
    let t5 = (l5 + nl) + t6;
    let t4 = (l4 + nl) + t5;
    let t3 = (l3 + nl) + t4;
    let t2 = (l2 + nl) + t3;
    let t1 = (l1 + nl) + t2;
    assert(spec_text_block(r) =~= t1);
    assert(Seq::<char>::empty() + nl =~= nl);
    lemma_lines_single(Seq::<char>::empty());
    assert(spec_lines(t9) == seq![Seq::<char>::empty()]);
    lemma_lines_single(l1);
    lemma_lines_single(l2);
    lemma_lines_single(l3);
    lemma_lines_single(l4);
    lemma_lines_single(l5);
    lemma_lines_single(l6);
    lemma_lines_single(l7);
    lemma_lines_single(l8);
    assert((l8 + nl).last() == '\n');
    lemma_lines_concat(l8 + nl, t9);
    assert(spec_lines(t8) =~= seq![l8, Seq::<char>::empty()]);
    lemma_lines_concat(l7 + nl, t8);
    assert(spec_lines(t7) =~= seq![l7, l8, Seq::<char>::empty()]);
    lemma_lines_concat(l6 + nl, t7);
    assert(spec_lines(t6) =~= seq![l6, l7, l8, Seq::<char>::empty()]);
    lemma_lines_concat(l5 + nl, t6);
    assert(spec_lines(t5) =~= seq![l5, l6, l7, l8, Seq::<char>::empty()]);
    lemma_lines_concat(l4 + nl, t5);
    assert(spec_lines(t4) =~= seq![l4, l5, l6, l7, l8, Seq::<char>::empty()]);
    lemma_lines_concat(l3 + nl, t4);
    assert(spec_lines(t3) =~= seq![l3, l4, l5, l6, l7, l8, Seq::<char>::empty()]);
    lemma_lines_concat(l2 + nl, t3);
    assert(spec_lines(t2) =~= seq![l2, l3, l4, l5, l6, l7, l8, Seq::<char>::empty()]);
    lemma_lines_concat(l1 + nl, t2);
    assert(spec_lines(t1) =~= block_lines(r));
}

/// Reading a fresh `KEY: VALUE` line adds the pair to the open block.
proof fn lemma_decode_kv_line(
    pre: Seq<char>,
    value: Seq<char>,
    rest: Seq<Seq<char>>,
    fields: Seq<(Seq<char>, Seq<char>)>,
    keylen: int,
)
    requires
        pre.len() == keylen + 2,
        keylen >= 1,
        forall|k: int| 0 <= k < keylen ==> pre[k] != ':',
        pre[keylen] == ':',
        pre[keylen + 1] == ' ',
        pre[0] != '#',
        !has_field(fields, pre.subrange(0, keylen)),
    ensures
        spec_decode_lines(seq![pre + value] + rest, fields) == spec_decode_lines(
            rest,
            fields.push((pre.subrange(0, keylen), value)),
        ),
{
    let l = pre + value;
    assert((seq![l] + rest)[0] == l);
    assert((seq![l] + rest).drop_first() =~= rest);
    assert(l.len() >= keylen + 2);
    assert(l[0] == pre[0]);
    assert(forall|k: int| 0 <= k < keylen + 2 ==> l[k] == pre[k]);
    lemma_find_sep(l, 0, keylen);
    assert(l.subrange(0, keylen) =~= pre.subrange(0, keylen));
    assert(l.subrange(keylen + 2, l.len() as int) =~= value);
}

/// The eight block keys are pairwise distinct.
proof fn lemma_keys_distinct()
    ensures
        "TX_ID"@.len() == 5,
        "TX_TYPE"@.len() == 7,
        "FROM_USER_ID"@.len() == 12,
        "TO_USER_ID"@.len() == 10,
        "AMOUNT"@.len() == 6,
        "TIMESTAMP"@.len() == 9,
        "STATUS"@.len() == 6,
        "DESCRIPTION"@.len() == 11,
        "AMOUNT"@ != "STATUS"@,
{
    reveal_strlit("TX_ID");
    reveal_strlit("TX_TYPE");
    reveal_strlit("FROM_USER_ID");
    reveal_strlit("TO_USER_ID");
    reveal_strlit("AMOUNT");
    reveal_strlit("TIMESTAMP");
    reveal_strlit("STATUS");
    reveal_strlit("DESCRIPTION");
    assert("AMOUNT"@[0] == 'A');
    assert("STATUS"@[0] == 'S');
}

/// Converting the fields gathered from one block recovers the record.
#[verifier::rlimit(100)]
proof fn lemma_block_fields_record(r: RecordV)
    ensures
        spec_fields_to_record(block_fields(r)) == Ok::<RecordV, ErrorV>(r),
{
    reveal_with_fuel(lookup_field, 10);
    lemma_keys_distinct();
    crate::csv_format::lemma_type_names_distinct();
    crate::csv_format::lemma_status_names_distinct();
    reveal_strlit("\"");
    let f = block_fields(r);
    let f1 = f.drop_first();
    let f2 = f1.drop_first();
    let f3 = f2.drop_first();
    let f4 = f3.drop_first();
    let f5 = f4.drop_first();
    let f6 = f5.drop_first();
    let f7 = f6.drop_first();
    let f8 = f7.drop_first();
    assert(f8 =~= Seq::<(Seq<char>, Seq<char>)>::empty());
    crate::decimal::lemma_parse_dec_str(r.id);
    crate::decimal::lemma_parse_dec_str(from_uid(r.record_type));
    crate::decimal::lemma_parse_dec_str(to_uid(r.record_type));
    crate::decimal::lemma_parse_dec_str(r.amount);
    crate::decimal::lemma_parse_dec_str(r.timestamp);
    crate::decimal::lemma_dec_str_digits(r.id as nat);
    assert(lookup_field(f, "TX_ID"@) == Some(dec_str(r.id as nat)));
    assert(lookup_field(f, "FROM_USER_ID"@) == Some(dec_str(from_uid(r.record_type) as nat)));
    assert(lookup_field(f, "TO_USER_ID"@) == Some(dec_str(to_uid(r.record_type) as nat)));
    assert(lookup_field(f, "TX_TYPE"@) == Some(type_literal(r.record_type)));
    assert(lookup_field(f, "AMOUNT"@) == Some(dec_str(r.amount as nat)));
    assert(lookup_field(f, "TIMESTAMP"@) == Some(dec_str(r.timestamp as nat)));
    assert(lookup_field(f, "STATUS"@) == Some(status_name(r.status)));
    assert(lookup_field(f, "DESCRIPTION"@) == Some("\""@ + r.description + "\""@));
    let dv = "\""@ + r.description + "\""@;
    assert(dv.len() == r.description.len() + 2);
    assert(dv[0] == '"');
    assert(dv.last() == '"');
    assert(dv.subrange(1, dv.len() - 1) =~= r.description);
    assert(spec_fields_to_record(f)->Ok_0 =~= r);
}

/// Reading the lines of one block prepends its record to whatever the
/// remaining lines yield from a fresh block.
#[verifier::rlimit(100)]
proof fn lemma_decode_block(r: RecordV, rest: Seq<Seq<char>>)
    ensures
        spec_decode_lines(block_lines(r) + rest, Seq::empty()) == (match spec_decode_lines(
            rest,
            Seq::empty(),
        ) {
            Ok(t) => Ok::<Seq<RecordV>, ErrorV>(seq![r] + t),
            Err(e) => Err::<Seq<RecordV>, ErrorV>(e),
        }),
{
    reveal_strlit("TX_ID: ");
    reveal_strlit("TX_TYPE: ");
    reveal_strlit("FROM_USER_ID: ");
    reveal_strlit("TO_USER_ID: ");
    reveal_strlit("AMOUNT: ");
    reveal_strlit("TIMESTAMP: ");
    reveal_strlit("STATUS: ");
    reveal_strlit("DESCRIPTION: ");
    reveal_strlit("DESCRIPTION: \"");
    reveal_strlit("TX_ID");
    reveal_strlit("TX_TYPE");
    reveal_strlit("FROM_USER_ID");
    reveal_strlit("TO_USER_ID");
    reveal_strlit("AMOUNT");
    reveal_strlit("TIMESTAMP");
    reveal_strlit("STATUS");
    reveal_strlit("DESCRIPTION");
    reveal_strlit("\"");
    lemma_keys_distinct();
    let bl = block_lines(r);
    let fields = block_fields(r);
    let f0 = Seq::<(Seq<char>, Seq<char>)>::empty();
    let f1 = f0.push(("TX_ID: "@.subrange(0, 5), dec_str(r.id as nat)));
    assert("TX_ID: "@.subrange(0, 5) =~= "TX_ID"@);
    let f2 = f1.push(("TX_TYPE: "@.subrange(0, 7), type_literal(r.record_type)));
    assert("TX_TYPE: "@.subrange(0, 7) =~= "TX_TYPE"@);
    let f3 = f2.push(("FROM_USER_ID: "@.subrange(0, 12), dec_str(from_uid(r.record_type) as nat)));
    assert("FROM_USER_ID: "@.subrange(0, 12) =~= "FROM_USER_ID"@);
    let f4 = f3.push(("TO_USER_ID: "@.subrange(0, 10), dec_str(to_uid(r.record_type) as nat)));
    assert("TO_USER_ID: "@.subrange(0, 10) =~= "TO_USER_ID"@);
    let f5 = f4.push(("AMOUNT: "@.subrange(0, 6), dec_str(r.amount as nat)));
    assert("AMOUNT: "@.subrange(0, 6) =~= "AMOUNT"@);
    let f6 = f5.push(("TIMESTAMP: "@.subrange(0, 9), dec_str(r.timestamp as nat)));
    assert("TIMESTAMP: "@.subrange(0, 9) =~= "TIMESTAMP"@);
    let f7 = f6.push(("STATUS: "@.subrange(0, 6), status_name(r.status)));
    assert("STATUS: "@.subrange(0, 6) =~= "STATUS"@);
    let f8 = f7.push(("DESCRIPTION: "@.subrange(0, 11), "\""@ + r.description + "\""@));
    assert("DESCRIPTION: "@.subrange(0, 11) =~= "DESCRIPTION"@);
    assert(f8 =~= fields);
    let rest8 = seq![Seq::<char>::empty()] + rest;
    let rest7 = seq![bl[7]] + rest8;
    let rest6 = seq![bl[6]] + rest7;
    let rest5 = seq![bl[5]] + rest6;
    let rest4 = seq![bl[4]] + rest5;
    let rest3 = seq![bl[3]] + rest4;
    let rest2 = seq![bl[2]] + rest3;
    let rest1 = seq![bl[1]] + rest2;
    let rest0 = seq![bl[0]] + rest1;
    assert(bl + rest =~= rest0);
    assert(!has_field(f0, "TX_ID"@));
    lemma_decode_kv_line("TX_ID: "@, dec_str(r.id as nat), rest1, f0, 5);
    assert(!has_field(f1, "TX_TYPE"@)) by {
        assert(forall|j: int| 0 <= j < f1.len() ==> f1[j].0 != "TX_TYPE"@);
    }
    lemma_decode_kv_line("TX_TYPE: "@, type_literal(r.record_type), rest2, f1, 7);
    assert(!has_field(f2, "FROM_USER_ID"@)) by {
        assert(forall|j: int| 0 <= j < f2.len() ==> f2[j].0 != "FROM_USER_ID"@);
    }
    lemma_decode_kv_line(
        "FROM_USER_ID: "@,
        dec_str(from_uid(r.record_type) as nat),
        rest3,
        f2,
        12,
    );
    assert(!has_field(f3, "TO_USER_ID"@)) by {
        assert(forall|j: int| 0 <= j < f3.len() ==> f3[j].0 != "TO_USER_ID"@);
    }
    lemma_decode_kv_line("TO_USER_ID: "@, dec_str(to_uid(r.record_type) as nat), rest4, f3, 10);
    assert(!has_field(f4, "AMOUNT"@)) by {
        assert(forall|j: int| 0 <= j < f4.len() ==> f4[j].0 != "AMOUNT"@);
    }
    lemma_decode_kv_line("AMOUNT: "@, dec_str(r.amount as nat), rest5, f4, 6);
    assert(!has_field(f5, "TIMESTAMP"@)) by {
        assert(forall|j: int| 0 <= j < f5.len() ==> f5[j].0 != "TIMESTAMP"@);
    }
    lemma_decode_kv_line("TIMESTAMP: "@, dec_str(r.timestamp as nat), rest6, f5, 9);
    assert(!has_field(f6, "STATUS"@)) by {
        assert(forall|j: int| 0 <= j < f6.len() ==> f6[j].0 != "STATUS"@);
    }
    lemma_decode_kv_line("STATUS: "@, status_name(r.status), rest7, f6, 6);
    assert(!has_field(f7, "DESCRIPTION"@)) by {
        assert(forall|j: int| 0 <= j < f7.len() ==> f7[j].0 != "DESCRIPTION"@);
    }
    assert(bl[7] =~= "DESCRIPTION: "@ + ("\""@ + r.description + "\""@));
    lemma_decode_kv_line("DESCRIPTION: "@, "\""@ + r.description + "\""@, rest8, f7, 11);
    assert(rest8[0] == Seq::<char>::empty());
    assert(rest8.drop_first() =~= rest);
    lemma_block_fields_record(r);
    assert(spec_decode_lines(rest8, f8) == (match spec_decode_lines(rest, Seq::empty()) {
        Ok(t) => Ok::<Seq<RecordV>, ErrorV>(seq![r] + t),
        Err(e) => Err::<Seq<RecordV>, ErrorV>(e),
    }));
}

/// Round-trip law of the text codec: decoding an encoded record sequence
/// yields exactly that sequence, for every sequence whose descriptions hold
/// no line break. A description with a line break would split its own line in
/// two; the format has no escape for it.
pub proof fn lemma_text_round_trip(rs: Seq<RecordV>)
    requires
        forall|i: int| 0 <= i < rs.len() ==> no_newline(#[trigger] rs[i].description),
    ensures
        spec_text_decode(spec_text_encode(rs)) == Ok::<Seq<RecordV>, ErrorV>(rs),
    decreases rs.len(),
{
    if rs.len() == 0 {
        assert(spec_text_encode(rs) == Seq::<char>::empty());
        assert(spec_lines(Seq::<char>::empty()) =~= Seq::<Seq<char>>::empty());
        assert(rs =~= Seq::<RecordV>::empty());
    } else {
        let r = rs[0];
        let rest_chars = spec_text_encode(rs.drop_first());
        assert(spec_text_encode(rs) == spec_text_block(r) + rest_chars);
        lemma_block_lines(r);
        assert(spec_text_block(r).last() == '\n') by {
            reveal_strlit("\n");
        }
        assert(spec_text_block(r).len() > 0);
        lemma_lines_concat(spec_text_block(r), rest_chars);
        assert(spec_lines(spec_text_encode(rs)) == block_lines(r) + spec_lines(rest_chars));
        lemma_decode_block(r, spec_lines(rest_chars));
        assert(forall|i: int|
            0 <= i < rs.drop_first().len() ==> no_newline(
                #[trigger] rs.drop_first()[i].description,
            ));
        lemma_text_round_trip(rs.drop_first());
        assert(seq![r] + rs.drop_first() =~= rs);
    }
}



/// A document of blank and comment lines only decodes to no records at all,
/// not to an error.
pub proof fn lemma_text_decode_trivial_lines(lines: Seq<Seq<char>>)
    requires
        forall|i: int|
            0 <= i < lines.len() ==> (#[trigger] lines[i].len() == 0 || lines[i][0] == '#'),
    ensures
        spec_decode_lines(lines, Seq::empty()) == Ok::<Seq<RecordV>, ErrorV>(Seq::empty()),
    decreases lines.len(),
{
    if lines.len() > 0 {
        assert(lines[0].len() == 0 || lines[0][0] == '#');
        assert(forall|i: int|
            0 <= i < lines.drop_first().len() ==> (#[trigger] lines.drop_first()[i].len() == 0
                || lines.drop_first()[i][0] == '#'));
        lemma_text_decode_trivial_lines(lines.drop_first());
    }
}


} // verus!
