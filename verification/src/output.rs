//! Writing of the result table: one line of four fields per record.
//!
//! The line itself is the `csv` crate's: the fields joined by the delimiter,
//! quoted where it finds that necessary, and closed by a line feed. This
//! module puts the lines of the records together in their order.

use vstd::prelude::*;
use vstd::utf8::encode_utf8;
use crate::sequence::{first_where, first_where_is_least};

verus! {

/// The field delimiter of the result table: the space.
pub const DELIMITER: u8 = 0x20u8;

/// The line feed, which closes each line.
pub const LINE_FEED: u8 = 0x0au8;

/// The carriage return.
pub const CARRIAGE_RETURN: u8 = 0x0du8;

/// The double quote, with which `csv` quotes a field.
pub const QUOTE: u8 = 0x22u8;

/// One record of the result table, each number already in its decimal form.
#[derive(Debug, PartialEq, Eq)]
pub struct TextRecord {
    pub latitude: String,
    pub longitude: String,
    pub depth: String,
    pub resistivity: String,
}

/// A record could not be written: its index, counted from 0.
#[derive(Clone, Copy, Debug, PartialEq, Eq, Structural)]
pub struct EncodeError {
    pub record: usize,
}

/// What `csv` writes for one record: the bytes that a fresh writer with the
/// given delimiter holds after `write_record` on these fields, or `None`
/// where the writer reports an error.
pub uninterp spec fn csv_line(fields: Seq<Seq<char>>, delimiter: u8) -> Option<Seq<u8>>;

/// No byte of the field makes `csv` quote it: none is the delimiter, the
/// double quote, a carriage return or a line feed.
pub open spec fn plain(field: Seq<char>, delimiter: u8) -> bool {
    forall|i: int|
        0 <= i < encode_utf8(field).len() ==> {
            let byte = #[trigger] encode_utf8(field)[i];
            byte != delimiter && byte != QUOTE && byte != CARRIAGE_RETURN && byte != LINE_FEED
        }
}

/// None of the fields needs quotes.
pub open spec fn all_plain(fields: Seq<Seq<char>>, delimiter: u8) -> bool {
    forall|i: int| 0 <= i < fields.len() ==> plain(#[trigger] fields[i], delimiter)
}

/// The line of four fields as they stand: a delimiter between each two and
/// a line feed at the end.
pub open spec fn plain_line(fields: Seq<Seq<char>>, delimiter: u8) -> Seq<u8> {
    encode_utf8(fields[0]) + seq![delimiter] + encode_utf8(fields[1]) + seq![delimiter]
        + encode_utf8(fields[2]) + seq![delimiter] + encode_utf8(fields[3]) + seq![LINE_FEED]
}

/// `csv::WriterBuilder::new`, configured by `delimiter`, then `from_writer`
/// on an empty byte vector, `Writer::write_record` on the four fields and
/// `Writer::into_inner`, which flushes and hands the vector back. The bytes
/// are those that `csv` writes for the record; an error of either call is
/// handed on as `csv::Error`. The writer quotes a field only where it holds
/// a quote, the delimiter or a record terminator, and closes a record with
/// a line feed: four plain fields give the plain line.
#[verifier::external_body]
fn encode_line(first: &str, second: &str, third: &str, fourth: &str, delimiter: u8) -> (r: Result<
    Vec<u8>,
    csv::Error,
>)
    ensures
        ({
            let fields = seq![first@, second@, third@, fourth@];
            match r {
                Ok(bytes) => {
                    &&& csv_line(fields, delimiter) == Some(bytes@)
                    &&& all_plain(fields, delimiter) ==> bytes@ == plain_line(fields, delimiter)
                },
                Err(_) => csv_line(fields, delimiter) is None,
            }
        }),
{
    let mut writer = csv::WriterBuilder::new().delimiter(delimiter).from_writer(Vec::new());
    writer.write_record([first, second, third, fourth])?;
    match writer.into_inner() {
        Ok(bytes) => Ok(bytes),
        Err(e) => Err(csv::Error::from(e.into_error())),
    }
}

/// The fields of a record in the order of the result table: latitude,
/// longitude, depth, resistivity.
pub open spec fn fields_of(record: TextRecord) -> Seq<Seq<char>> {
    seq![record.latitude@, record.longitude@, record.depth@, record.resistivity@]
}

/// The line of one record, where it can be written.
pub open spec fn line_of(record: TextRecord) -> Option<Seq<u8>> {
    csv_line(fields_of(record), DELIMITER)
}

/// The line of each record, in the order of the records.
pub open spec fn lines_of(records: Seq<TextRecord>) -> Seq<Option<Seq<u8>>> {
    records.map_values(|record: TextRecord| line_of(record))
}

/// A line as its bytes.
pub open spec fn bytes_of_line(line: Option<Vec<u8>>) -> Option<Seq<u8>> {
    match line {
        Some(bytes) => Some(bytes@),
        None => None,
    }
}

/// Lines as their bytes.
pub open spec fn bytes_of_lines(lines: Seq<Option<Vec<u8>>>) -> Seq<Option<Seq<u8>>> {
    lines.map_values(|line: Option<Vec<u8>>| bytes_of_line(line))
}

/// The lines one after the other, in their order.
pub open spec fn joined(lines: Seq<Option<Seq<u8>>>) -> Seq<u8>
    decreases lines.len(),
{
    if lines.len() == 0 {
        Seq::empty()
    } else {
        joined(lines.drop_last()) + lines.last()->0
    }
}

/// The index of the first line that is missing, if one is.
pub open spec fn first_unwritten(lines: Seq<Option<Seq<u8>>>) -> Option<int> {
    first_where(lines, |line: Option<Seq<u8>>| line is None)
}

/// What becomes of the lines of a table: all of them joined, or the index
/// of the first that is missing.
pub open spec fn joins_as(lines: Seq<Option<Seq<u8>>>, r: Result<Vec<u8>, EncodeError>) -> bool {
    match r {
        Ok(bytes) => first_unwritten(lines) is None && bytes@ == joined(lines),
        Err(e) => first_unwritten(lines) == Some(e.record as int),
    }
}

/// None of the record's four fields needs quotes. This holds of every
/// record whose fields are numbers in decimal form.
pub open spec fn plain_record(record: TextRecord) -> bool {
    all_plain(fields_of(record), DELIMITER)
}

/// The line of a record that needs no quotes: latitude, longitude, depth
/// and resistivity with a space between each two, and a line feed.
pub open spec fn plain_line_of(record: TextRecord) -> Seq<u8> {
    plain_line(fields_of(record), DELIMITER)
}

/// The table of records that need no quotes: the plain line of each, in the
/// order of the records.
pub open spec fn plain_table(records: Seq<TextRecord>) -> Seq<u8>
    decreases records.len(),
{
    if records.len() == 0 {
        Seq::empty()
    } else {
        plain_table(records.drop_last()) + plain_line_of(records.last())
    }
}

/// Where every record is plain and each line that was written is the
/// record's plain line, the lines joined are the plain table.
proof fn plain_lines_join_to_the_plain_table(
    records: Seq<TextRecord>,
    lines: Seq<Option<Seq<u8>>>,
)
    requires
        lines.len() == records.len(),
        forall|i: int| 0 <= i < lines.len() ==> (#[trigger] lines[i]) == Some(
            plain_line_of(records[i]),
        ),
    ensures
        joined(lines) == plain_table(records),
    decreases records.len(),
{
    if records.len() > 0 {
        plain_lines_join_to_the_plain_table(records.drop_last(), lines.drop_last());
        assert(lines.last() == lines[lines.len() - 1]);
    }
}

/// Writes the line of each record, in the order of the records: `None`
/// stands for a record that could not be written. A record none of whose
/// fields needs quotes gives its plain line.
pub fn encode_lines(records: &Vec<TextRecord>) -> (lines: Vec<Option<Vec<u8>>>)
    ensures
        bytes_of_lines(lines@) == lines_of(records@),
        forall|i: int|
            0 <= i < records.len() && plain_record(#[trigger] records[i]) && lines[i] is Some
                ==> lines[i]->0@ == plain_line_of(records[i]),
{
    let mut lines: Vec<Option<Vec<u8>>> = Vec::new();
    let mut i: usize = 0;
    while i < records.len()
        invariant
            i <= records.len(),
            lines.len() == i,
            forall|k: int| 0 <= k < i ==> bytes_of_line(#[trigger] lines[k]) == line_of(records[k]),
            forall|k: int|
                0 <= k < i && plain_record(#[trigger] records[k]) && lines[k] is Some
                    ==> lines[k]->0@ == plain_line_of(records[k]),
        decreases records.len() - i,
    {
        let record = &records[i];
        let line = match encode_line(
            record.latitude.as_str(),
            record.longitude.as_str(),
            record.depth.as_str(),
            record.resistivity.as_str(),
            DELIMITER,
        ) {
            Ok(bytes) => Some(bytes),
            Err(_) => None,
        };
        lines.push(line);
        i = i + 1;
    }
    proof {
        assert(bytes_of_lines(lines@) =~= lines_of(records@));
    }
    lines
}

/// Joins the lines of a table. The result is all or nothing: where a line is
/// missing it is the index of the first such line.
pub fn join_lines(lines: Vec<Option<Vec<u8>>>) -> (r: Result<Vec<u8>, EncodeError>)
    ensures
        joins_as(bytes_of_lines(lines@), r),
{
    let ghost texts = bytes_of_lines(lines@);
    let total: usize = lines.len();
    let mut count: usize = 0;
    let mut out: Vec<u8> = Vec::new();
    for line in it: lines
        invariant
            it.seq() == lines@,
            texts == bytes_of_lines(lines@),
            total == lines@.len(),
            count == it.index(),
            forall|i: int| 0 <= i < it.index() ==> (#[trigger] texts[i]) is Some,
            out@ == joined(texts.take(it.index() as int)),
    {
        proof {
            assert(texts.take(it.index() + 1).drop_last() == texts.take(it.index() as int));
            assert(texts.take(it.index() + 1).last() == bytes_of_line(line));
        }
        match line {
            Some(mut bytes) => {
                out.append(&mut bytes);
            },
            None => {
                proof {
                    assert(texts[count as int] is None);
                    first_where_is_least(texts, |line: Option<Seq<u8>>| line is None);
                }
                return Err(EncodeError { record: count });
            },
        }
        count = count + 1;
    }
    proof {
        assert(texts.take(lines@.len() as int) == texts);
        first_where_is_least(texts, |line: Option<Seq<u8>>| line is None);
    }
    Ok(out)
}

/// Serialises the records: one line per record, in their order, each line
/// holding latitude, longitude, depth and resistivity separated by a space.
/// No records give no bytes. Where a record cannot be written the result is
/// the index of the first such record, and nothing of the table.
pub fn encode(records: &Vec<TextRecord>) -> (r: Result<Vec<u8>, EncodeError>)
    ensures
        joins_as(lines_of(records@), r),
        r matches Ok(bytes) ==> ((forall|i: int|
            0 <= i < records.len() ==> plain_record(#[trigger] records[i])) ==> bytes@
            == plain_table(records@)),
{
    let lines = encode_lines(records);
    let ghost texts = bytes_of_lines(lines@);
    let r = join_lines(lines);
    proof {
        if r is Ok && (forall|i: int|
            0 <= i < records.len() ==> plain_record(#[trigger] records[i])) {
            first_where_is_least(texts, |line: Option<Seq<u8>>| line is None);
            assert forall|i: int| 0 <= i < texts.len() implies (#[trigger] texts[i]) == Some(
                plain_line_of(records@[i]),
            ) by {
                assert(plain_record(records[i]));
                assert(texts[i] == bytes_of_line(lines[i]));
            }
            plain_lines_join_to_the_plain_table(records@, texts);
        }
    }
    r
}

/// Joining is repeatable: the lines settle whether they can be joined, which
/// bytes they give, and which of them is the first that is missing.
pub proof fn joining_is_repeatable(
    lines: Seq<Option<Seq<u8>>>,
    first: Result<Vec<u8>, EncodeError>,
    second: Result<Vec<u8>, EncodeError>,
)
    requires
        joins_as(lines, first),
        joins_as(lines, second),
    ensures
        match (first, second) {
            (Ok(a), Ok(b)) => a@ == b@,
            (Err(a), Err(b)) => a == b,
            _ => false,
        },
{
}

/// The failure that `join_lines` reports is the first line that is missing,
/// and it reports none only where every line is there.
pub proof fn first_unwritten_is_least(lines: Seq<Option<Seq<u8>>>)
    ensures
        match first_unwritten(lines) {
            Some(k) => {
                &&& 0 <= k < lines.len()
                &&& lines[k] is None
                &&& forall|i: int| 0 <= i < k ==> (#[trigger] lines[i]) is Some
            },
            None => forall|i: int| 0 <= i < lines.len() ==> (#[trigger] lines[i]) is Some,
        },
{
    first_where_is_least(lines, |line: Option<Seq<u8>>| line is None);
}

} // verus!
