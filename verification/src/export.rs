//! Data export encodings: CSV rows and a ZIP archive of stored (uncompressed)
//! files with their CRC-32 checksums.

use vstd::prelude::*;
use vstd::string::*;
use vstd::utf8::encode_utf8;
use crate::text::{chars_of, string_from, concat, join_with};

verus! {

// ---------------------------------------------------------------------------
// CSV
// ---------------------------------------------------------------------------

/// A field with every `"` doubled.
pub open spec fn escape_quotes(v: Seq<char>) -> Seq<char>
    decreases v.len(),
{
    if v.len() == 0 {
        Seq::empty()
    } else {
        escape_quotes(v.drop_last()) + if v.last() == '"' {
            seq!['"', '"']
        } else {
            seq![v.last()]
        }
    }
}

/// A quoted CSV field.
pub open spec fn quoted(v: Seq<char>) -> Seq<char> {
    seq!['"'] + escape_quotes(v) + seq!['"']
}

/// A CSV record: the quoted fields joined by commas, ended by CRLF.
pub open spec fn csv_row_spec(values: Seq<String>) -> Seq<char> {
    join_with(values.map_values(|v: String| quoted(v@)), ","@) + seq!['\r', '\n']
}

fn quote_field(v: &str) -> (r: Vec<char>)
    ensures
        r@ == quoted(v@),
{
    let c = chars_of(v);
    let mut out: Vec<char> = Vec::new();
    out.push('"');
    let mut i: usize = 0;
    while i < c.len()
        invariant
            i <= c@.len(),
            out@ == seq!['"'] + escape_quotes(c@.subrange(0, i as int)),
        decreases c@.len() - i,
    {
        proof {
            let p = c@.subrange(0, i + 1);
            assert(p.drop_last() =~= c@.subrange(0, i as int));
            assert(p.last() == c@[i as int]);
        }
        let ghost before = out@;
        if c[i] == '"' {
            out.push('"');
            out.push('"');
            proof {
                assert(out@ =~= before + seq!['"', '"']);
            }
        } else {
            out.push(c[i]);
            proof {
                assert(out@ =~= before + seq![c@[i as int]]);
            }
        }
        i += 1;
    }
    let ghost before = out@;
    out.push('"');
    proof {
        assert(c@.subrange(0, c@.len() as int) =~= c@);
        assert(out@ =~= before + seq!['"']);
    }
    out
}

/// One CSV record of the export.
pub fn csv_row(values: &Vec<String>) -> (r: String)
    ensures
        r@ == csv_row_spec(values@),
{
    let ghost qs = values@.map_values(|v: String| quoted(v@));
    let mut out: Vec<char> = Vec::new();
    let mut i: usize = 0;
    while i < values.len()
        invariant
            i <= values@.len(),
            qs == values@.map_values(|v: String| quoted(v@)),
            out@ == join_with(qs.subrange(0, i as int), ","@),
        decreases values@.len() - i,
    {
        let q = quote_field(values[i].as_str());
        proof {
            let p = qs.subrange(0, i + 1);
            assert(p.drop_last() =~= qs.subrange(0, i as int));
            assert(p.last() == quoted(values@[i as int]@));
        }
        if i == 0 {
            out = q;
            proof {
                assert(qs.subrange(0, 1).len() == 1);
                assert(out@ =~= qs.subrange(0, 1)[0]);
            }
        } else {
            out = concat(&concat(&out, &chars_of(",")), &q);
        }
        i += 1;
    }
    let mut end: Vec<char> = Vec::new();
    end.push('\r');
    end.push('\n');
    proof {
        assert(qs.subrange(0, qs.len() as int) =~= qs);
        assert(end@ =~= seq!['\r', '\n']);
    }
    string_from(&concat(&out, &end))
}

/// A CSV table: the header line followed by one record per row.
pub open spec fn csv_table_spec(header: Seq<char>, rows: Seq<Vec<String>>) -> Seq<char>
    decreases rows.len(),
{
    if rows.len() == 0 {
        header
    } else {
        csv_table_spec(header, rows.drop_last()) + csv_row_spec(rows.last()@)
    }
}

pub fn csv_table(header: &str, rows: &Vec<Vec<String>>) -> (r: String)
    ensures
        r@ == csv_table_spec(header@, rows@),
{
    let mut out = String::from_str(header);
    let mut i: usize = 0;
    while i < rows.len()
        invariant
            i <= rows@.len(),
            out@ == csv_table_spec(header@, rows@.subrange(0, i as int)),
        decreases rows@.len() - i,
    {
        proof {
            let p = rows@.subrange(0, i + 1);
            assert(p.drop_last() =~= rows@.subrange(0, i as int));
            assert(p.last() == rows@[i as int]);
        }
        let row = csv_row(&rows[i]);
        out = out.concat(row.as_str());
        i += 1;
    }
    proof {
        assert(rows@.subrange(0, rows@.len() as int) =~= rows@);
    }
    out
}

// ---------------------------------------------------------------------------
// CRC-32
// ---------------------------------------------------------------------------

/// One shift of the reflected CRC-32 register (polynomial `0xEDB88320`).
pub open spec fn crc_shift(c: u32) -> u32 {
    if c & 1 == 1 {
        (c >> 1) ^ 0xEDB8_8320u32
    } else {
        c >> 1
    }
}

pub open spec fn crc_shifts(c: u32, n: nat) -> u32
    decreases n,
{
    if n == 0 {
        c
    } else {
        crc_shifts(crc_shift(c), (n - 1) as nat)
    }
}

/// The CRC register after the given bytes, starting from all ones.
pub open spec fn crc_register(bytes: Seq<u8>) -> u32
    decreases bytes.len(),
{
    if bytes.len() == 0 {
        0xFFFF_FFFFu32
    } else {
        crc_shifts(crc_register(bytes.drop_last()) ^ (bytes.last() as u32), 8)
    }
}

/// The CRC-32 checksum (as ZIP uses it): the final register, inverted.
pub open spec fn crc32_spec(bytes: Seq<u8>) -> u32 {
    !crc_register(bytes)
}

/// CRC-32 of the bytes, bit by bit.
pub fn crc32(bytes: &Vec<u8>) -> (r: u32)
    ensures
        r == crc32_spec(bytes@),
{
    let mut crc: u32 = 0xFFFF_FFFF;
    let mut i: usize = 0;
    while i < bytes.len()
        invariant
            i <= bytes@.len(),
            crc == crc_register(bytes@.subrange(0, i as int)),
        decreases bytes@.len() - i,
    {
        proof {
            let p = bytes@.subrange(0, i + 1);
            assert(p.drop_last() =~= bytes@.subrange(0, i as int));
            assert(p.last() == bytes@[i as int]);
        }
        crc = crc ^ (bytes[i] as u32);
        let ghost start = crc;
        let mut k: u32 = 0;
        while k < 8
            invariant
                k <= 8,
                crc_shifts(start, 8) == crc_shifts(crc, (8 - k) as nat),
            decreases 8 - k,
        {
            let mask: u32 = 0u32.wrapping_sub(crc & 1);
            proof {
                assert(crc & 1 == 1 || crc & 1 == 0) by (bit_vector);
                if crc & 1 == 1 {
                    assert(mask == 0xFFFF_FFFFu32);
                    assert((crc >> 1) ^ (0xEDB8_8320u32 & 0xFFFF_FFFFu32) == (crc >> 1) ^ 0xEDB8_8320u32) by (bit_vector);
                } else {
                    assert(mask == 0u32);
                    assert((crc >> 1) ^ (0xEDB8_8320u32 & 0u32) == crc >> 1) by (bit_vector);
                }
            }
            crc = (crc >> 1) ^ (0xEDB8_8320 & mask);
            k += 1;
        }
        i += 1;
    }
    proof {
        assert(bytes@.subrange(0, bytes@.len() as int) =~= bytes@);
    }
    !crc
}

// ---------------------------------------------------------------------------
// ZIP
// ---------------------------------------------------------------------------

/// Little-endian bytes of a 16-bit value.
pub open spec fn le16(v: int) -> Seq<u8> {
    seq![(v % 256) as u8, ((v / 256) % 256) as u8]
}

/// Little-endian bytes of a 32-bit value.
pub open spec fn le32(v: int) -> Seq<u8> {
    seq![(v % 256) as u8, ((v / 256) % 256) as u8, ((v / 65536) % 256) as u8, ((v / 16777216) % 256) as u8]
}

/// Appends `value` as two little-endian bytes.
pub fn push_u16(buffer: &mut Vec<u8>, value: u16)
    ensures
        final(buffer)@ == old(buffer)@ + le16(value as int),
{
    let ghost before = buffer@;
    buffer.push((value % 256) as u8);
    buffer.push((value / 256) as u8);
    proof {
        assert(buffer@ =~= before + le16(value as int));
    }
}

/// Appends `value` as four little-endian bytes.
pub fn push_u32(buffer: &mut Vec<u8>, value: u32)
    ensures
        final(buffer)@ == old(buffer)@ + le32(value as int),
{
    let ghost before = buffer@;
    buffer.push((value % 256) as u8);
    buffer.push(((value / 256) % 256) as u8);
    buffer.push(((value / 65536) % 256) as u8);
    buffer.push((value / 16777216) as u8);
    proof {
        assert(buffer@ =~= before + le32(value as int));
    }
}

/// The files to store as (name bytes, contents): names in UTF-8.
pub open spec fn files_view(files: Seq<(String, Vec<u8>)>) -> Seq<(Seq<u8>, Seq<u8>)> {
    files.map_values(|f: (String, Vec<u8>)| (encode_utf8(f.0@), f.1@))
}

/// The local file header: signature, version 2.0, no flags, stored, no time stamp,
/// checksum, sizes and name length.
#[verifier::opaque]
pub open spec fn local_header(crc: int, size: int, name_len: int) -> Seq<u8> {
    le32(0x0403_4b50) + le16(20) + le16(0) + le16(0) + le16(0) + le16(0) + le32(crc) + le32(size) + le32(size)
        + le16(name_len) + le16(0)
}

/// The central directory header, for a local record at `offset`.
#[verifier::opaque]
pub open spec fn central_header(crc: int, size: int, name_len: int, offset: int) -> Seq<u8> {
    le32(0x0201_4b50) + le16(20) + le16(20) + le16(0) + le16(0) + le16(0) + le16(0) + le32(crc) + le32(size)
        + le32(size) + le16(name_len) + le16(0) + le16(0) + le16(0) + le16(0) + le32(0) + le32(offset)
}

/// The local header and data of a stored file.
pub open spec fn local_record(name: Seq<u8>, data: Seq<u8>) -> Seq<u8> {
    local_header(crc32_spec(data) as int, data.len() as int, name.len() as int) + name + data
}

/// The central directory entry of a stored file whose local record starts at `offset`.
pub open spec fn central_record(name: Seq<u8>, data: Seq<u8>, offset: int) -> Seq<u8> {
    central_header(crc32_spec(data) as int, data.len() as int, name.len() as int, offset) + name
}

/// The local records of the files, in order.
#[verifier::opaque]
pub open spec fn local_records(files: Seq<(Seq<u8>, Seq<u8>)>) -> Seq<u8>
    decreases files.len(),
{
    if files.len() == 0 {
        Seq::empty()
    } else {
        local_records(files.drop_last()) + local_record(files.last().0, files.last().1)
    }
}

/// The central directory of the files, in order.
#[verifier::opaque]
pub open spec fn central_records(files: Seq<(Seq<u8>, Seq<u8>)>) -> Seq<u8>
    decreases files.len(),
{
    if files.len() == 0 {
        Seq::empty()
    } else {
        central_records(files.drop_last()) + central_record(
            files.last().0,
            files.last().1,
            local_records(files.drop_last()).len() as int,
        )
    }
}

/// The end-of-central-directory record.
#[verifier::opaque]
pub open spec fn end_record(count: int, central_size: int, central_offset: int) -> Seq<u8> {
    le32(0x0605_4b50) + le16(0) + le16(0) + le16(count) + le16(count) + le32(central_size) + le32(central_offset)
        + le16(0)
}

/// Why an archive cannot be written in the 32-bit ZIP format.
#[derive(Clone, Copy, Debug, PartialEq, Eq, Structural)]
pub enum ZipError {
    /// A file name is longer than 65535 bytes.
    NameTooLong,
    /// A file or the archive exceeds 4 GiB.
    SizeLimit,
    /// A record would start beyond 4 GiB.
    OffsetLimit,
    /// More than 65535 files.
    TooManyFiles,
}

/// The first limit the files break, checking each file in order (its name, its
/// size, where its record starts), then where the central directory starts, the
/// archive's size and the number of files.
pub open spec fn files_problem(files: Seq<(Seq<u8>, Seq<u8>)>) -> Option<ZipError>
    decreases files.len(),
{
    if files.len() == 0 {
        None
    } else {
        match files_problem(files.drop_last()) {
            Some(e) => Some(e),
            None => {
                let f = files.last();
                if f.0.len() > u16::MAX {
                    Some(ZipError::NameTooLong)
                } else if f.1.len() > u32::MAX {
                    Some(ZipError::SizeLimit)
                } else if local_records(files.drop_last()).len() > u32::MAX {
                    Some(ZipError::OffsetLimit)
                } else {
                    None
                }
            },
        }
    }
}

/// The archive of the files, or the first limit they break.
pub open spec fn zip_outcome(files: Seq<(Seq<u8>, Seq<u8>)>) -> Result<Seq<u8>, ZipError> {
    let locals = local_records(files);
    let central = central_records(files);
    match files_problem(files) {
        Some(e) => Err(e),
        None => if locals.len() > u32::MAX {
            Err(ZipError::OffsetLimit)
        } else if locals.len() + central.len() > u32::MAX {
            Err(ZipError::SizeLimit)
        } else if files.len() > u16::MAX {
            Err(ZipError::TooManyFiles)
        } else {
            Ok(locals + central + end_record(files.len() as int, central.len() as int, locals.len() as int))
        },
    }
}

/// Bytes of a file's local record: a 30-byte header, its name and its data.
pub open spec fn local_size(f: (Seq<u8>, Seq<u8>)) -> int {
    30 + f.0.len() as int + f.1.len() as int
}

/// Bytes of a file's central directory entry: a 46-byte header and its name.
pub open spec fn central_size(f: (Seq<u8>, Seq<u8>)) -> int {
    46 + f.0.len() as int
}

pub open spec fn sum_local_sizes(files: Seq<(Seq<u8>, Seq<u8>)>) -> int
    decreases files.len(),
{
    if files.len() == 0 {
        0
    } else {
        sum_local_sizes(files.drop_last()) + local_size(files.last())
    }
}

pub open spec fn sum_central_sizes(files: Seq<(Seq<u8>, Seq<u8>)>) -> int
    decreases files.len(),
{
    if files.len() == 0 {
        0
    } else {
        sum_central_sizes(files.drop_last()) + central_size(files.last())
    }
}

proof fn lemma_header_lengths(crc: int, size: int, name_len: int, offset: int, count: int, dsize: int, doff: int)
    ensures
        local_header(crc, size, name_len).len() == 30,
        central_header(crc, size, name_len, offset).len() == 46,
        end_record(count, dsize, doff).len() == 22,
{
    reveal(local_header);
    reveal(central_header);
    reveal(end_record);
}

proof fn lemma_record_lengths(files: Seq<(Seq<u8>, Seq<u8>)>)
    ensures
        local_records(files).len() == sum_local_sizes(files),
        central_records(files).len() == sum_central_sizes(files),
    decreases files.len(),
{
    reveal(local_records);
    reveal(central_records);
    if files.len() > 0 {
        let f = files.last();
        lemma_record_lengths(files.drop_last());
        lemma_header_lengths(crc32_spec(f.1) as int, f.1.len() as int, f.0.len() as int,
            local_records(files.drop_last()).len() as int, 0, 0, 0);
    }
}

/// The records of the first `i` files begin the records of all of them.
proof fn lemma_records_prefix(files: Seq<(Seq<u8>, Seq<u8>)>, i: int)
    requires
        0 <= i <= files.len(),
    ensures
        local_records(files.take(i)).len() <= local_records(files).len(),
        local_records(files).subrange(0, local_records(files.take(i)).len() as int) == local_records(files.take(i)),
        central_records(files.take(i)).len() <= central_records(files).len(),
        central_records(files).subrange(0, central_records(files.take(i)).len() as int) == central_records(
            files.take(i),
        ),
    decreases files.len(),
{
    if i == files.len() {
        assert(files.take(i) =~= files);
    } else {
        let p = files.drop_last();
        assert(files.take(i) =~= p.take(i));
        lemma_records_prefix(p, i);
        reveal(local_records);
        reveal(central_records);
        assert(local_records(files) == local_records(p) + local_record(files.last().0, files.last().1));
        assert(central_records(files) == central_records(p) + central_record(
            files.last().0,
            files.last().1,
            local_records(p).len() as int,
        ));
        assert(local_records(files).subrange(0, local_records(p.take(i)).len() as int) =~= local_records(p).subrange(
            0,
            local_records(p.take(i)).len() as int,
        ));
        assert(central_records(files).subrange(0, central_records(p.take(i)).len() as int) =~= central_records(
            p,
        ).subrange(0, central_records(p.take(i)).len() as int));
    }
}

/// The record of file `i` follows the records of the files before it.
proof fn lemma_record_piece(files: Seq<(Seq<u8>, Seq<u8>)>, i: int)
    requires
        0 <= i < files.len(),
    ensures
        local_records(files.take(i + 1)) == local_records(files.take(i)) + local_record(files[i].0, files[i].1),
        central_records(files.take(i + 1)) == central_records(files.take(i)) + central_record(
            files[i].0,
            files[i].1,
            local_records(files.take(i)).len() as int,
        ),
{
    lemma_records_step(files, i);
    assert(files.take(i + 1) =~= files.subrange(0, i + 1));
    assert(files.take(i) =~= files.subrange(0, i));
}

/// Law: a stored archive is the local records, then the central directory, then
/// the 22-byte end record. File `i`'s local record (signature, checksum, sizes,
/// name, data) starts after the local records of the files before it; its
/// central entry, at the same place within the directory, records where that
/// local record starts; the end record gives the number of files, the
/// directory's size and where it starts.
pub proof fn law_zip_layout(files: Seq<(Seq<u8>, Seq<u8>)>)
    requires
        zip_outcome(files) is Ok,
    ensures
        ({
            let z = zip_outcome(files)->Ok_0;
            let c = sum_local_sizes(files);
            let d = sum_central_sizes(files);
            &&& z.len() == c + d + 22
            &&& forall|i: int| 0 <= i < files.len() ==> z.subrange(
                sum_local_sizes(#[trigger] files.take(i)),
                sum_local_sizes(files.take(i + 1)),
            ) == local_record(files[i].0, files[i].1)
            &&& forall|i: int| 0 <= i < files.len() ==> z.subrange(
                c + sum_central_sizes(#[trigger] files.take(i)),
                c + sum_central_sizes(files.take(i + 1)),
            ) == central_record(files[i].0, files[i].1, sum_local_sizes(files.take(i)))
            &&& z.subrange(c + d, z.len() as int) == end_record(files.len() as int, d, c)
        }),
{
    let locals = local_records(files);
    let central = central_records(files);
    let z = zip_outcome(files)->Ok_0;
    lemma_record_lengths(files);
    let c = sum_local_sizes(files);
    let d = sum_central_sizes(files);
    assert(z == locals + central + end_record(files.len() as int, d, c));
    lemma_header_lengths(0, 0, 0, 0, files.len() as int, d, c);
    assert forall|i: int| 0 <= i < files.len() implies z.subrange(
        sum_local_sizes(#[trigger] files.take(i)),
        sum_local_sizes(files.take(i + 1)),
    ) == local_record(files[i].0, files[i].1) by {
        lemma_records_prefix(files, i + 1);
        lemma_record_piece(files, i);
        lemma_record_lengths(files.take(i));
        lemma_record_lengths(files.take(i + 1));
        let a = local_records(files.take(i)).len() as int;
        let b = local_records(files.take(i + 1)).len() as int;
        assert(z.subrange(a, b) =~= locals.subrange(0, b).subrange(a, b));
        assert(local_records(files.take(i + 1)).subrange(a, b) =~= local_record(files[i].0, files[i].1));
    }
    assert forall|i: int| 0 <= i < files.len() implies z.subrange(
        c + sum_central_sizes(#[trigger] files.take(i)),
        c + sum_central_sizes(files.take(i + 1)),
    ) == central_record(files[i].0, files[i].1, sum_local_sizes(files.take(i))) by {
        lemma_records_prefix(files, i + 1);
        lemma_record_piece(files, i);
        lemma_record_lengths(files.take(i));
        lemma_record_lengths(files.take(i + 1));
        let a = central_records(files.take(i)).len() as int;
        let b = central_records(files.take(i + 1)).len() as int;
        assert(z.subrange(c + a, c + b) =~= central.subrange(0, b).subrange(a, b));
        assert(central_records(files.take(i + 1)).subrange(a, b) =~= central_record(
            files[i].0,
            files[i].1,
            sum_local_sizes(files.take(i)),
        ));
    }
    assert(z.subrange(c + d, z.len() as int) =~= end_record(files.len() as int, d, c));
}

/// A window of a window.
proof fn lemma_sub_window(z: Seq<u8>, o: int, r: Seq<u8>, a: int, b: int)
    requires
        0 <= o,
        o + r.len() <= z.len(),
        z.subrange(o, o + r.len()) == r,
        0 <= a <= b <= r.len(),
    ensures
        z.subrange(o + a, o + b) == r.subrange(a, b),
{
    assert(z.subrange(o + a, o + b) =~= z.subrange(o, o + r.len()).subrange(a, b));
}

proof fn lemma_local_record_fields(name: Seq<u8>, data: Seq<u8>)
    ensures
        ({
            let r = local_record(name, data);
            let n = name.len() as int;
            &&& r.len() == 30 + n + data.len()
            &&& r.subrange(0, 4) == le32(0x0403_4b50)
            &&& r.subrange(14, 18) == le32(crc32_spec(data) as int)
            &&& r.subrange(18, 22) == le32(data.len() as int)
            &&& r.subrange(22, 26) == le32(data.len() as int)
            &&& r.subrange(26, 28) == le16(n)
            &&& r.subrange(30, 30 + n) == name
            &&& r.subrange(30 + n, 30 + n + data.len()) == data
        }),
{
    reveal(local_header);
    let r = local_record(name, data);
    let n = name.len() as int;
    assert(r.subrange(0, 4) =~= le32(0x0403_4b50));
    assert(r.subrange(14, 18) =~= le32(crc32_spec(data) as int));
    assert(r.subrange(18, 22) =~= le32(data.len() as int));
    assert(r.subrange(22, 26) =~= le32(data.len() as int));
    assert(r.subrange(26, 28) =~= le16(n));
    assert(r.subrange(30, 30 + n) =~= name);
    assert(r.subrange(30 + n, 30 + n + data.len()) =~= data);
}

proof fn lemma_central_record_fields(name: Seq<u8>, data: Seq<u8>, offset: int)
    ensures
        ({
            let r = central_record(name, data, offset);
            let n = name.len() as int;
            &&& r.len() == 46 + n
            &&& r.subrange(0, 4) == le32(0x0201_4b50)
            &&& r.subrange(16, 20) == le32(crc32_spec(data) as int)
            &&& r.subrange(20, 24) == le32(data.len() as int)
            &&& r.subrange(24, 28) == le32(data.len() as int)
            &&& r.subrange(28, 30) == le16(n)
            &&& r.subrange(42, 46) == le32(offset)
            &&& r.subrange(46, 46 + n) == name
        }),
{
    reveal(central_header);
    let r = central_record(name, data, offset);
    let n = name.len() as int;
    assert(r.subrange(0, 4) =~= le32(0x0201_4b50));
    assert(r.subrange(16, 20) =~= le32(crc32_spec(data) as int));
    assert(r.subrange(20, 24) =~= le32(data.len() as int));
    assert(r.subrange(24, 28) =~= le32(data.len() as int));
    assert(r.subrange(28, 30) =~= le16(n));
    assert(r.subrange(42, 46) =~= le32(offset));
    assert(r.subrange(46, 46 + n) =~= name);
}

/// Law: in a stored archive, file `i`'s local header starts after the local
/// records of the files before it, with the local-header signature, the CRC-32 of
/// its data, its size twice and its name's length, followed by its name and its
/// data as given; its central entry carries the central signature, the same
/// checksum and sizes, and where its local header starts, followed by its name.
pub proof fn law_zip_entry_bytes(files: Seq<(Seq<u8>, Seq<u8>)>, i: int)
    requires
        zip_outcome(files) is Ok,
        0 <= i < files.len(),
    ensures
        ({
            let z = zip_outcome(files)->Ok_0;
            let name = files[i].0;
            let data = files[i].1;
            let n = name.len() as int;
            let o = sum_local_sizes(files.take(i));
            let e = sum_local_sizes(files) + sum_central_sizes(files.take(i));
            &&& z.subrange(o, o + 4) == le32(0x0403_4b50)
            &&& z.subrange(o + 14, o + 18) == le32(crc32_spec(data) as int)
            &&& z.subrange(o + 18, o + 22) == le32(data.len() as int)
            &&& z.subrange(o + 22, o + 26) == le32(data.len() as int)
            &&& z.subrange(o + 26, o + 28) == le16(n)
            &&& z.subrange(o + 30, o + 30 + n) == name
            &&& z.subrange(o + 30 + n, o + 30 + n + data.len()) == data
            &&& z.subrange(e, e + 4) == le32(0x0201_4b50)
            &&& z.subrange(e + 16, e + 20) == le32(crc32_spec(data) as int)
            &&& z.subrange(e + 20, e + 24) == le32(data.len() as int)
            &&& z.subrange(e + 24, e + 28) == le32(data.len() as int)
            &&& z.subrange(e + 28, e + 30) == le16(n)
            &&& z.subrange(e + 42, e + 46) == le32(o)
            &&& z.subrange(e + 46, e + 46 + n) == name
        }),
{
    law_zip_layout(files);
    let z = zip_outcome(files)->Ok_0;
    let name = files[i].0;
    let data = files[i].1;
    let o = sum_local_sizes(files.take(i));
    let c = sum_local_sizes(files);
    let e = c + sum_central_sizes(files.take(i));
    let t = files.take(i + 1);
    assert(t.drop_last() =~= files.take(i));
    assert(t.last() == files[i]);
    lemma_local_record_fields(name, data);
    lemma_central_record_fields(name, data, o);
    let lr = local_record(name, data);
    let cr = central_record(name, data, o);
    assert(z.subrange(o, o + lr.len()) == lr);
    assert(z.subrange(e, e + cr.len()) == cr);
    lemma_records_prefix(files, i);
    lemma_records_prefix(files, i + 1);
    lemma_record_lengths(files.take(i));
    lemma_record_lengths(files.take(i + 1));
    lemma_record_lengths(files);
    lemma_sum_sizes_nonneg(files.take(i));
    let n = name.len() as int;
    lemma_sub_window(z, o, lr, 0, 4);
    lemma_sub_window(z, o, lr, 14, 18);
    lemma_sub_window(z, o, lr, 18, 22);
    lemma_sub_window(z, o, lr, 22, 26);
    lemma_sub_window(z, o, lr, 26, 28);
    lemma_sub_window(z, o, lr, 30, 30 + n);
    lemma_sub_window(z, o, lr, 30 + n, 30 + n + data.len());
    lemma_sub_window(z, e, cr, 0, 4);
    lemma_sub_window(z, e, cr, 16, 20);
    lemma_sub_window(z, e, cr, 20, 24);
    lemma_sub_window(z, e, cr, 24, 28);
    lemma_sub_window(z, e, cr, 28, 30);
    lemma_sub_window(z, e, cr, 42, 46);
    lemma_sub_window(z, e, cr, 46, 46 + n);
}

proof fn lemma_sum_sizes_nonneg(files: Seq<(Seq<u8>, Seq<u8>)>)
    ensures
        sum_local_sizes(files) >= 0,
        sum_central_sizes(files) >= 0,
    decreases files.len(),
{
    if files.len() > 0 {
        lemma_sum_sizes_nonneg(files.drop_last());
    }
}

/// Law: the end record of a stored archive gives the number of files twice, the
/// central directory's size and where it starts.
pub proof fn law_zip_end_bytes(files: Seq<(Seq<u8>, Seq<u8>)>)
    requires
        zip_outcome(files) is Ok,
    ensures
        ({
            let z = zip_outcome(files)->Ok_0;
            let c = sum_local_sizes(files);
            let d = sum_central_sizes(files);
            &&& z.subrange(c + d, c + d + 4) == le32(0x0605_4b50)
            &&& z.subrange(c + d + 8, c + d + 10) == le16(files.len() as int)
            &&& z.subrange(c + d + 10, c + d + 12) == le16(files.len() as int)
            &&& z.subrange(c + d + 12, c + d + 16) == le32(d)
            &&& z.subrange(c + d + 16, c + d + 20) == le32(c)
        }),
{
    law_zip_layout(files);
    let z = zip_outcome(files)->Ok_0;
    let c = sum_local_sizes(files);
    let d = sum_central_sizes(files);
    reveal(end_record);
    let r = end_record(files.len() as int, d, c);
    lemma_sum_sizes_nonneg(files);
    assert(z.subrange(c + d, z.len() as int) == r);
    lemma_sub_window(z, c + d, r, 0, 4);
    lemma_sub_window(z, c + d, r, 8, 10);
    lemma_sub_window(z, c + d, r, 10, 12);
    lemma_sub_window(z, c + d, r, 12, 16);
    lemma_sub_window(z, c + d, r, 16, 20);
    assert(r.subrange(0, 4) =~= le32(0x0605_4b50));
    assert(r.subrange(8, 10) =~= le16(files.len() as int));
    assert(r.subrange(10, 12) =~= le16(files.len() as int));
    assert(r.subrange(12, 16) =~= le32(d));
    assert(r.subrange(16, 20) =~= le32(c));
}

proof fn lemma_no_files_problem(files: Seq<(Seq<u8>, Seq<u8>)>)
    requires
        forall|i: int| 0 <= i < files.len() ==> (#[trigger] files[i]).0.len() <= u16::MAX && files[i].1.len()
            <= u32::MAX,
        sum_local_sizes(files) <= u32::MAX,
    ensures
        files_problem(files) is None,
    decreases files.len(),
{
    if files.len() > 0 {
        let p = files.drop_last();
        assert forall|i: int| 0 <= i < p.len() implies (#[trigger] p[i]).0.len() <= u16::MAX && p[i].1.len()
            <= u32::MAX by {
            assert(p[i] == files[i]);
        }
        assert(files.last() == files[files.len() - 1]);
        lemma_no_files_problem(p);
        lemma_record_lengths(p);
    }
}

/// Law: an archive is written whenever every name has at most 65535 bytes, every
/// file at most `u32::MAX` bytes, there are at most 65535 files and the local
/// records and the central directory together fit in 32-bit offsets.
pub proof fn law_zip_accepts(files: Seq<(Seq<u8>, Seq<u8>)>)
    requires
        forall|i: int| 0 <= i < files.len() ==> (#[trigger] files[i]).0.len() <= u16::MAX && files[i].1.len()
            <= u32::MAX,
        files.len() <= u16::MAX,
        sum_local_sizes(files) + sum_central_sizes(files) <= u32::MAX,
    ensures
        zip_outcome(files) is Ok,
{
    lemma_sum_sizes_nonneg(files);
    lemma_no_files_problem(files);
    lemma_record_lengths(files);
}

proof fn lemma_records_step(fv: Seq<(Seq<u8>, Seq<u8>)>, i: int)
    requires
        0 <= i < fv.len(),
    ensures
        local_records(fv.subrange(0, i + 1)) == local_records(fv.subrange(0, i)) + local_record(fv[i].0, fv[i].1),
        central_records(fv.subrange(0, i + 1)) == central_records(fv.subrange(0, i)) + central_record(
            fv[i].0,
            fv[i].1,
            local_records(fv.subrange(0, i)).len() as int,
        ),
{
    reveal(local_records);
    reveal(central_records);
    let p = fv.subrange(0, i + 1);
    assert(p.drop_last() =~= fv.subrange(0, i));
    assert(p.last() == fv[i]);
}

proof fn lemma_records_empty(fv: Seq<(Seq<u8>, Seq<u8>)>)
    ensures
        local_records(fv.subrange(0, 0)) == Seq::<u8>::empty(),
        central_records(fv.subrange(0, 0)) == Seq::<u8>::empty(),
{
    reveal(local_records);
    reveal(central_records);
    assert(fv.subrange(0, 0).len() == 0);
}

proof fn lemma_files_problem_step(fv: Seq<(Seq<u8>, Seq<u8>)>, i: int)
    requires
        0 <= i < fv.len(),
    ensures
        files_problem(fv.subrange(0, i + 1)) == match files_problem(fv.subrange(0, i)) {
            Some(e) => Some(e),
            None => if fv[i].0.len() > u16::MAX {
                Some(ZipError::NameTooLong)
            } else if fv[i].1.len() > u32::MAX {
                Some(ZipError::SizeLimit)
            } else if local_records(fv.subrange(0, i)).len() > u32::MAX {
                Some(ZipError::OffsetLimit)
            } else {
                None
            },
        },
{
    let p = fv.subrange(0, i + 1);
    assert(p.drop_last() =~= fv.subrange(0, i));
    assert(p.last() == fv[i]);
}

proof fn lemma_files_problem_extends(fv: Seq<(Seq<u8>, Seq<u8>)>, j: int)
    requires
        0 <= j <= fv.len(),
        files_problem(fv.subrange(0, j)) is Some,
    ensures
        files_problem(fv) == files_problem(fv.subrange(0, j)),
    decreases fv.len() - j,
{
    if j < fv.len() {
        lemma_files_problem_step(fv, j);
        lemma_files_problem_extends(fv, j + 1);
    } else {
        assert(fv.subrange(0, j) =~= fv);
    }
}

proof fn lemma_files_problem_prefix(files: Seq<(Seq<u8>, Seq<u8>)>, i: int)
    requires
        0 <= i <= files.len(),
        files_problem(files) is None,
    ensures
        files_problem(files.subrange(0, i)) is None,
    decreases files.len() - i,
{
    if i < files.len() {
        lemma_files_problem_prefix(files, i + 1);
        assert(files.subrange(0, i + 1).drop_last() =~= files.subrange(0, i));
    } else {
        assert(files.subrange(0, i) =~= files);
    }
}

/// Appends bytes.
fn append_bytes(buffer: &mut Vec<u8>, bytes: &Vec<u8>)
    ensures
        final(buffer)@ == old(buffer)@ + bytes@,
{
    let ghost before = buffer@;
    let mut j: usize = 0;
    proof {
        assert(buffer@ =~= before + bytes@.subrange(0, 0));
    }
    while j < bytes.len()
        invariant
            j <= bytes@.len(),
            buffer@ == before + bytes@.subrange(0, j as int),
        decreases bytes@.len() - j,
    {
        buffer.push(bytes[j]);
        proof {
            assert(before + bytes@.subrange(0, j + 1) =~= (before + bytes@.subrange(0, j as int)).push(bytes@[j as int]));
        }
        j += 1;
    }
    proof {
        assert(bytes@.subrange(0, bytes@.len() as int) =~= bytes@);
    }
}

fn write_local_header(buffer: &mut Vec<u8>, crc: u32, size: u32, name_len: u16)
    ensures
        final(buffer)@ == old(buffer)@ + local_header(crc as int, size as int, name_len as int),
{
    let ghost before = buffer@;
    push_u32(buffer, 0x0403_4b50);
    push_u16(buffer, 20);
    push_u16(buffer, 0);
    push_u16(buffer, 0);
    push_u16(buffer, 0);
    push_u16(buffer, 0);
    push_u32(buffer, crc);
    push_u32(buffer, size);
    push_u32(buffer, size);
    push_u16(buffer, name_len);
    push_u16(buffer, 0);
    proof {
        reveal(local_header);
        assert(buffer@ =~= before + local_header(crc as int, size as int, name_len as int));
    }
}

fn write_central_header(buffer: &mut Vec<u8>, crc: u32, size: u32, name_len: u16, offset: u32)
    ensures
        final(buffer)@ == old(buffer)@ + central_header(crc as int, size as int, name_len as int, offset as int),
{
    let ghost before = buffer@;
    push_u32(buffer, 0x0201_4b50);
    push_u16(buffer, 20);
    push_u16(buffer, 20);
    push_u16(buffer, 0);
    push_u16(buffer, 0);
    push_u16(buffer, 0);
    push_u16(buffer, 0);
    push_u32(buffer, crc);
    push_u32(buffer, size);
    push_u32(buffer, size);
    push_u16(buffer, name_len);
    push_u16(buffer, 0);
    push_u16(buffer, 0);
    push_u16(buffer, 0);
    push_u16(buffer, 0);
    push_u32(buffer, 0);
    push_u32(buffer, offset);
    proof {
        reveal(central_header);
        assert(buffer@ =~= before + central_header(crc as int, size as int, name_len as int, offset as int));
    }
}

fn write_end_record(buffer: &mut Vec<u8>, count: u16, central_size: u32, central_offset: u32)
    ensures
        final(buffer)@ == old(buffer)@ + end_record(count as int, central_size as int, central_offset as int),
{
    let ghost before = buffer@;
    push_u32(buffer, 0x0605_4b50);
    push_u16(buffer, 0);
    push_u16(buffer, 0);
    push_u16(buffer, count);
    push_u16(buffer, count);
    push_u32(buffer, central_size);
    push_u32(buffer, central_offset);
    push_u16(buffer, 0);
    proof {
        reveal(end_record);
        assert(buffer@ =~= before + end_record(count as int, central_size as int, central_offset as int));
    }
}

/// The file's name bytes and contents as stored.
fn file_parts(files: &Vec<(String, Vec<u8>)>, i: usize) -> (r: (Vec<u8>, &Vec<u8>))
    requires
        i < files@.len(),
    ensures
        (r.0@, r.1@) == files_view(files@)[i as int],
{
    let name = files[i].0.as_str().as_bytes_vec();
    (name, &files[i].1)
}

/// A ZIP archive that stores the files uncompressed: the local records, the
/// central directory and its end record.
pub fn build_stored_zip(files: &Vec<(String, Vec<u8>)>) -> (r: Result<Vec<u8>, ZipError>)
    ensures
        match zip_outcome(files_view(files@)) {
            Ok(bytes) => r matches Ok(v) && v@ == bytes,
            Err(e) => r == Err::<Vec<u8>, ZipError>(e),
        },
{
    let ghost fv = files_view(files@);
    let mut archive: Vec<u8> = Vec::new();
    let mut offsets: Vec<u32> = Vec::new();
    let mut crcs: Vec<u32> = Vec::new();
    let mut i: usize = 0;
    proof {
        assert(fv.subrange(0, 0) =~= Seq::<(Seq<u8>, Seq<u8>)>::empty());
        lemma_records_empty(fv);
    }
    while i < files.len()
        invariant
            i <= files@.len(),
            fv == files_view(files@),
            fv.len() == files@.len(),
            files_problem(fv.subrange(0, i as int)) is None,
            archive@ == local_records(fv.subrange(0, i as int)),
            offsets@.len() == i,
            crcs@.len() == i,
            forall|k: int| 0 <= k < i ==> (#[trigger] offsets@[k]) as int == local_records(fv.subrange(0, k)).len(),
            forall|k: int| 0 <= k < i ==> (#[trigger] crcs@[k]) == crc32_spec(fv[k].1),
        decreases files@.len() - i,
    {
        let (name, data) = file_parts(files, i);
        let ghost pre = fv.subrange(0, i as int);
        proof {
            lemma_records_step(fv, i as int);
            lemma_files_problem_step(fv, i as int);
        }
        if name.len() > 65535 {
            proof {
                lemma_files_problem_extends(fv, i + 1);
            }
            return Err(ZipError::NameTooLong);
        }
        if data.len() > 0xFFFF_FFFF {
            proof {
                lemma_files_problem_extends(fv, i + 1);
            }
            return Err(ZipError::SizeLimit);
        }
        if archive.len() > 0xFFFF_FFFF {
            proof {
                lemma_files_problem_extends(fv, i + 1);
            }
            return Err(ZipError::OffsetLimit);
        }
        let size = data.len() as u32;
        let offset = archive.len() as u32;
        let crc = crc32(data);
        let ghost before = archive@;
        write_local_header(&mut archive, crc, size, name.len() as u16);
        append_bytes(&mut archive, &name);
        append_bytes(&mut archive, data);
        proof {
            assert(archive@ =~= before + local_record(fv[i as int].0, fv[i as int].1));
        }
        let ghost old_offsets = offsets@;
        let ghost old_crcs = crcs@;
        offsets.push(offset);
        crcs.push(crc);
        proof {
            assert forall|k: int| 0 <= k < i + 1 implies (#[trigger] offsets@[k]) as int == local_records(fv.subrange(0, k)).len() by {
                if k < i {
                    assert(offsets@[k] == old_offsets[k]);
                } else {
                    assert(fv.subrange(0, k) =~= pre);
                }
            }
            assert forall|k: int| 0 <= k < i + 1 implies (#[trigger] crcs@[k]) == crc32_spec(fv[k].1) by {
                if k < i {
                    assert(crcs@[k] == old_crcs[k]);
                }
            }
        }
        i += 1;
    }
    proof {
        assert(fv.subrange(0, fv.len() as int) =~= fv);
    }
    if archive.len() > 0xFFFF_FFFF {
        return Err(ZipError::OffsetLimit);
    }
    let central_offset = archive.len() as u32;
    let ghost locals = archive@;
    let mut i: usize = 0;
    proof {
        lemma_records_empty(fv);
        assert(archive@ =~= locals + central_records(fv.subrange(0, 0)));
    }
    while i < files.len()
        invariant
            i <= files@.len(),
            fv == files_view(files@),
            fv.len() == files@.len(),
            files_problem(fv) is None,
            locals == local_records(fv),
            archive@ == locals + central_records(fv.subrange(0, i as int)),
            offsets@.len() == files@.len(),
            crcs@.len() == files@.len(),
            forall|k: int| 0 <= k < files@.len() ==> (#[trigger] offsets@[k]) as int == local_records(fv.subrange(0, k)).len(),
            forall|k: int| 0 <= k < files@.len() ==> (#[trigger] crcs@[k]) == crc32_spec(fv[k].1),
        decreases files@.len() - i,
    {
        let (name, data) = file_parts(files, i);
        let ghost pre = fv.subrange(0, i as int);
        proof {
            lemma_records_step(fv, i as int);
            lemma_files_problem_prefix(fv, i + 1);
            lemma_files_problem_step(fv, i as int);
        }
        let ghost before = archive@;
        write_central_header(&mut archive, crcs[i], data.len() as u32, name.len() as u16, offsets[i]);
        append_bytes(&mut archive, &name);
        proof {
            assert(archive@ =~= before + central_record(fv[i as int].0, fv[i as int].1, local_records(pre).len() as int));
        }
        i += 1;
    }
    proof {
        assert(fv.subrange(0, fv.len() as int) =~= fv);
    }
    if archive.len() > 0xFFFF_FFFF {
        return Err(ZipError::SizeLimit);
    }
    let central_size = archive.len() as u32 - central_offset;
    if files.len() > 65535 {
        return Err(ZipError::TooManyFiles);
    }
    write_end_record(&mut archive, files.len() as u16, central_size, central_offset);
    Ok(archive)
}

/// The CSV export as an archive of `focus.csv`, `browser.csv` and `presence.csv`.
pub fn csv_archive(focus: String, browser: String, presence: String) -> (r: Result<Vec<u8>, ZipError>)
    ensures
        match zip_outcome(seq![
            (encode_utf8("focus.csv"@), encode_utf8(focus@)),
            (encode_utf8("browser.csv"@), encode_utf8(browser@)),
            (encode_utf8("presence.csv"@), encode_utf8(presence@)),
        ]) {
            Ok(bytes) => r matches Ok(v) && v@ == bytes,
            Err(e) => r == Err::<Vec<u8>, ZipError>(e),
        },
{
    let mut files: Vec<(String, Vec<u8>)> = Vec::new();
    files.push((String::from_str("focus.csv"), focus.as_str().as_bytes_vec()));
    files.push((String::from_str("browser.csv"), browser.as_str().as_bytes_vec()));
    files.push((String::from_str("presence.csv"), presence.as_str().as_bytes_vec()));
    proof {
        assert(files_view(files@) =~= seq![
            (encode_utf8("focus.csv"@), encode_utf8(focus@)),
            (encode_utf8("browser.csv"@), encode_utf8(browser@)),
            (encode_utf8("presence.csv"@), encode_utf8(presence@)),
        ]);
    }
    build_stored_zip(&files)
}

} // verus!
