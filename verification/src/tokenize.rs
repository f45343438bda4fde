//! The delimited-text tokenizer: the `csv` crate behind trusted items.
//!
//! The byte stream is modelled by two names: `csv_cells`, the fields of
//! every record that tokenizing the bytes yields, and `csv_offsets`, the
//! byte offset at which each record begins.  The readers made here run
//! with headers off and flexible field counts, so every raw record of the
//! stream is yielded as it stands; header handling, field counting and
//! UTF-8 checks are done by verified code on top.
use crate::error::PolarsError;
use vstd::prelude::*;

verus! {

#[verifier::external_type_specification]
#[verifier::external_body]
#[verifier::reject_recursive_types(R)]
pub struct ExCsvReader<R>(csv::Reader<R>);

#[verifier::external_type_specification]
#[verifier::external_body]
#[verifier::reject_recursive_types(T)]
pub struct ExCursor<T>(std::io::Cursor<T>);

/// The records that tokenizing `data` with the given field delimiter
/// yields, each a sequence of fields, each field its bytes with the
/// delimiters, record ends and enclosing quotes removed.
pub uninterp spec fn csv_cells(data: Seq<u8>, delim: u8) -> Seq<Seq<Seq<u8>>>;

/// The byte offset at which each record of `data` begins.
pub uninterp spec fn csv_offsets(data: Seq<u8>, delim: u8) -> Seq<u64>;

/// The characters that the bytes hold when they are UTF-8, and nothing
/// otherwise.
pub uninterp spec fn utf8_decode(b: Seq<u8>) -> Option<Seq<char>>;

/// The byte stream a reader was opened over.
pub uninterp spec fn rdr_data(r: csv::Reader<std::io::Cursor<Vec<u8>>>) -> Seq<u8>;

/// The field delimiter a reader was opened with.
pub uninterp spec fn rdr_delim(r: csv::Reader<std::io::Cursor<Vec<u8>>>) -> u8;

/// How many records of the stream the reader has yielded so far; the
/// record it will yield next.
pub uninterp spec fn rdr_row(r: csv::Reader<std::io::Cursor<Vec<u8>>>) -> int;

/// Relies on csv::ReaderBuilder: a reader built with the given delimiter,
/// headers off and flexible field counts stands at the first record.
/// Every record of the stream takes at least one byte past the first, so
/// the stream holds at most one record more than it has bytes.
#[verifier::external_body]
pub(crate) fn new_reader(data: &Vec<u8>, delim: u8) -> (r: csv::Reader<std::io::Cursor<Vec<u8>>>)
    ensures
        rdr_data(r) == data@,
        rdr_delim(r) == delim,
        rdr_row(r) == 0,
        csv_cells(rdr_data(r), rdr_delim(r)).len() <= data@.len() + 1,
{
    csv::ReaderBuilder::new().delimiter(delim).has_headers(false).flexible(true).from_reader(
        std::io::Cursor::new(data.clone()),
    )
}

/// Relies on csv::Reader::read_byte_record: reading a byte record off an
/// in-memory reader with flexible field counts yields the next record of
/// the stream, or nothing at its end.
#[verifier::external_body]
pub(crate) fn next_record(r: &mut csv::Reader<std::io::Cursor<Vec<u8>>>) -> (res: Option<
    Vec<Vec<u8>>,
>)
    ensures
        rdr_data(*final(r)) == rdr_data(*old(r)),
        rdr_delim(*final(r)) == rdr_delim(*old(r)),
        ({
            let cs = csv_cells(rdr_data(*old(r)), rdr_delim(*old(r)));
            let k = rdr_row(*old(r));
            if 0 <= k < cs.len() {
                &&& res matches Some(v) && v.deep_view() == cs[k]
                &&& rdr_row(*final(r)) == k + 1
            } else {
                &&& res is None
                &&& rdr_row(*final(r)) == k
            }
        }),
{
    let mut rec = csv::ByteRecord::new();
    match r.read_byte_record(&mut rec) {
        Ok(true) => Some(rec.iter().map(|f| f.to_vec()).collect()),
        Ok(false) => None,
        Err(_) => None,
    }
}

/// Relies on csv::Reader::seek: seeking to the indexed position of a
/// record makes that record the next one read.
#[verifier::external_body]
pub(crate) fn seek_record(r: &mut csv::Reader<std::io::Cursor<Vec<u8>>>, byte: u64, row: usize)
    requires
        row < csv_offsets(rdr_data(*old(r)), rdr_delim(*old(r))).len(),
        byte == csv_offsets(rdr_data(*old(r)), rdr_delim(*old(r)))[row as int],
    ensures
        rdr_data(*final(r)) == rdr_data(*old(r)),
        rdr_delim(*final(r)) == rdr_delim(*old(r)),
        rdr_row(*final(r)) == row,
{
    let mut pos = csv::Position::new();
    pos.set_byte(byte);
    pos.set_record(row as u64);
    pos.set_line(1);
    let _ = r.seek(pos);
}

/// Relies on csv_index::RandomAccessSimple: `create` records the byte
/// offset of every record of the stream, and `get` hands each offset
/// back.  Every record past the first takes at least one byte, so there
/// are at most one more record than there are bytes.  Over an in-memory
/// buffer none of the steps can fail: the cursor reader returns no I/O
/// errors, the flexible byte reader reports no parse errors, the index
/// is written to and read back from a growable buffer, and `get` is
/// asked only for indices below `len`; so the result is always `Ok`.
#[verifier::external_body]
pub(crate) fn build_offsets(data: &Vec<u8>, delim: u8) -> (r: Result<Vec<u64>, PolarsError>)
    ensures
        match r {
            Ok(v) => {
                &&& v@ == csv_offsets(data@, delim)
                &&& csv_offsets(data@, delim).len() == csv_cells(data@, delim).len()
                &&& v@.len() <= data@.len() + 1
            },
            Err(e) => false,
        },
{
    let mut rdr = csv::ReaderBuilder::new().delimiter(delim).has_headers(false).flexible(
        true,
    ).from_reader(std::io::Cursor::new(data.clone()));
    let mut wtr = std::io::Cursor::new(Vec::new());
    if csv_index::RandomAccessSimple::create(&mut rdr, &mut wtr).is_err() {
        return Err(PolarsError::IndexFailed);
    }
    let mut idx = match csv_index::RandomAccessSimple::open(wtr) {
        Ok(i) => i,
        Err(_) => return Err(PolarsError::IndexFailed),
    };
    (0..idx.len()).map(|i| idx.get(i).map(|p| p.byte())).collect::<Result<Vec<u64>, _>>().map_err(
        |_| PolarsError::IndexFailed,
    )
}

/// Relies on String::from_utf8: it succeeds exactly on UTF-8 bytes and
/// carries their characters over.
#[verifier::external_body]
pub(crate) fn field_to_string(b: &Vec<u8>) -> (r: Option<String>)
    ensures
        match r {
            Some(s) => utf8_decode(b@) == Some(s@),
            None => utf8_decode(b@) is None,
        },
{
    String::from_utf8(b.clone()).ok()
}

} // verus!
