//! The tar (ustar) layout of the data backup archive: headers, octal fields,
//! checksums, padding and the end-of-archive marker; and the archive
//! compressed with gzip.
use vstd::prelude::*;
use flate2::{write::GzEncoder, Compression};
use std::io::Write;
use vstd::string::StringSliceAdditionalSpecFns;
use crate::text::{push_char, trim_end_slashes, trim_trailing_slashes};

verus! {

/// `8` to the power `n`.
pub open spec fn pow8(n: nat) -> nat
    decreases n,
{
    if n == 0 {
        1
    } else {
        8 * pow8((n - 1) as nat)
    }
}

/// The `width` lowest octal digits of `value` as ASCII, most significant first.
pub open spec fn octal_digits(value: nat, width: nat) -> Seq<u8>
    decreases width,
{
    if width == 0 {
        seq![]
    } else {
        octal_digits(value / 8, (width - 1) as nat).push((48 + value % 8) as u8)
    }
}

/// The number that the ASCII octal digits `ds` stand for.
pub open spec fn octal_value(ds: Seq<u8>) -> int
    decreases ds.len(),
{
    if ds.len() == 0 {
        0
    } else {
        8 * octal_value(ds.drop_last()) + (ds.last() - 48)
    }
}

/// A numeric header field of `len` bytes: zero-padded octal digits and a NUL.
pub open spec fn octal_field(value: nat, len: nat) -> Seq<u8> {
    octal_digits(value, (len - 1) as nat).push(0u8)
}

/// The checksum field: six octal digits, a NUL and a space.
pub open spec fn checksum_field(checksum: nat) -> Seq<u8> {
    octal_digits(checksum, 6) + seq![0u8, 32u8]
}

/// `n` bytes of `b`.
pub open spec fn repeat(b: u8, n: nat) -> Seq<u8> {
    Seq::new(n, |i: int| b)
}

/// The sum of the bytes of `s`.
pub open spec fn byte_sum(s: Seq<u8>) -> int
    decreases s.len(),
{
    if s.len() == 0 {
        0
    } else {
        byte_sum(s.drop_last()) + s.last()
    }
}

/// The header of an entry before its checksum is filled in: the checksum field
/// holds eight spaces.
pub open spec fn tar_header_unsummed(path: Seq<u8>, size: nat, typeflag: u8) -> Seq<u8> {
    path + repeat(0, (100 - path.len()) as nat)
        + octal_field(0o644, 8)
        + octal_field(0, 8)
        + octal_field(0, 8)
        + octal_field(size, 12)
        + octal_field(0, 12)
        + repeat(32, 8)
        + seq![typeflag]
        + repeat(0, 100)
        + seq![117u8, 115u8, 116u8, 97u8, 114u8, 0u8]
        + seq![48u8, 48u8]
        + repeat(0, 247)
}

/// The 512-byte ustar header of an entry named `path` (as UTF-8 bytes) of
/// `size` bytes and type `typeflag`.
pub open spec fn tar_header(path: Seq<u8>, size: nat, typeflag: u8) -> Seq<u8> {
    let u = tar_header_unsummed(path, size, typeflag);
    u.take(148) + checksum_field(byte_sum(u) as nat) + u.skip(156)
}

/// The number of zero bytes that round `size` up to a whole 512-byte block.
pub open spec fn padding_len(size: nat) -> nat {
    ((512 - size % 512) % 512) as nat
}

/// The errors of the archive writer.
#[derive(Debug, Clone, Copy, PartialEq, Eq)]
pub enum TarError {
    /// An entry name does not fit its header field.
    PathTooLong,
    /// The gzip compressor reported an error.
    CompressionFailed,
}

impl TarError {
    /// The text of the error.
    pub fn message(&self) -> (r: String)
        ensures
            r@ == match self {
                TarError::PathTooLong => "Backup archive path is too long"@,
                TarError::CompressionFailed => "Backup archive could not be compressed"@,
            },
    {
        match self {
            TarError::PathTooLong => "Backup archive path is too long".to_owned(),
            TarError::CompressionFailed => "Backup archive could not be compressed".to_owned(),
        }
    }
}

proof fn lemma_octal_digits_len(value: nat, width: nat)
    ensures
        octal_digits(value, width).len() == width,
    decreases width,
{
    if width > 0 {
        lemma_octal_digits_len(value / 8, (width - 1) as nat);
    }
}

/// The `width` lowest octal digits of `value`.
fn octal_digits_of(value: u64, width: usize) -> (r: Vec<u8>)
    ensures
        r@ == octal_digits(value as nat, width as nat),
    decreases width,
{
    if width == 0 {
        Vec::new()
    } else {
        let mut r = octal_digits_of(value / 8, width - 1);
        r.push((48 + value % 8) as u8);
        r
    }
}

/// Copies the UTF-8 bytes of `value` to the front of `field`; fails, leaving
/// `field` as it was, when they do not fit.
pub fn write_tar_string(field: &mut Vec<u8>, value: &str) -> (r: Result<(), TarError>)
    ensures
        r matches Err(e) ==> e == TarError::PathTooLong,
        final(field).len() == old(field).len(),
        r is Ok <==> value.spec_bytes().len() <= old(field).len(),
        r is Ok ==> final(field)@ == value.spec_bytes() + old(field)@.skip(value.spec_bytes().len() as int),
        r is Err ==> final(field)@ == old(field)@,
{
    let value = value.as_bytes();
    if value.len() > field.len() {
        return Err(TarError::PathTooLong);
    }
    let mut i: usize = 0;
    while i < value.len()
        invariant
            i <= value.len() <= field.len() == old(field).len(),
            field@ == value@.take(i as int) + old(field)@.skip(i as int),
        decreases value.len() - i,
    {
        field.set(i, value[i]);
        assert(field@ =~= value@.take(i + 1) + old(field)@.skip(i + 1));
        i += 1;
    }
    assert(value@.take(i as int) =~= value@);
    Ok(())
}

/// Fills `field` with zero-padded octal digits of `value` and a closing NUL.
pub fn write_tar_octal(field: &mut Vec<u8>, value: u64)
    requires
        old(field).len() >= 1,
        value < pow8((old(field).len() - 1) as nat),
    ensures
        final(field)@ == octal_field(value as nat, old(field).len() as nat),
{
    let width = field.len() - 1;
    let mut digits = octal_digits_of(value, width);
    digits.push(0u8);
    *field = digits;
}

/// Fills the eight-byte checksum field: six octal digits, a NUL and a space.
pub fn write_tar_checksum(field: &mut Vec<u8>, checksum: u32)
    requires
        old(field).len() == 8,
        checksum < pow8(6),
    ensures
        final(field)@ == checksum_field(checksum as nat),
{
    let mut digits = octal_digits_of(checksum as u64, 6);
    digits.push(0u8);
    digits.push(32u8);
    assert(digits@ =~= checksum_field(checksum as nat));
    *field = digits;
}

/// Appends the bytes of `bytes` to `out`.
fn append_bytes(out: &mut Vec<u8>, bytes: &Vec<u8>)
    ensures
        final(out)@ == old(out)@ + bytes@,
{
    let mut i: usize = 0;
    while i < bytes.len()
        invariant
            i <= bytes.len(),
            out@ == old(out)@ + bytes@.take(i as int),
        decreases bytes.len() - i,
    {
        out.push(bytes[i]);
        assert(bytes@.take(i + 1) =~= bytes@.take(i as int).push(bytes@[i as int]));
        assert(out@ =~= old(out)@ + bytes@.take(i + 1));
        i += 1;
    }
    assert(bytes@.take(i as int) =~= bytes@);
}

/// Appends `n` bytes `b` to `out`.
fn append_repeat(out: &mut Vec<u8>, b: u8, n: usize)
    ensures
        final(out)@ == old(out)@ + repeat(b, n as nat),
{
    let mut i: usize = 0;
    while i < n
        invariant
            i <= n,
            out@ == old(out)@ + repeat(b, i as nat),
        decreases n - i,
    {
        out.push(b);
        assert(out@ =~= old(out)@ + repeat(b, (i + 1) as nat));
        i += 1;
    }
}

proof fn lemma_pow8_values()
    ensures
        pow8(2) == 64,
        pow8(6) == 262144,
        pow8(7) == 2097152,
        pow8(11) == 8589934592,
{
    reveal_with_fuel(pow8, 12);
}

proof fn lemma_byte_sum_push(s: Seq<u8>, b: u8)
    ensures
        byte_sum(s.push(b)) == byte_sum(s) + b,
{
    assert(s.push(b).drop_last() =~= s);
}

proof fn lemma_byte_sum_bound(s: Seq<u8>)
    ensures
        0 <= byte_sum(s) <= 255 * s.len(),
    decreases s.len(),
{
    if s.len() > 0 {
        lemma_byte_sum_bound(s.drop_last());
    }
}

/// The sum of the bytes of `v`.
fn sum_bytes(v: &Vec<u8>) -> (r: u32)
    requires
        v.len() <= 512,
    ensures
        r == byte_sum(v@),
{
    let mut sum: u32 = 0;
    let mut i: usize = 0;
    while i < v.len()
        invariant
            i <= v.len() <= 512,
            sum == byte_sum(v@.take(i as int)),
            sum <= 255 * i,
        decreases v.len() - i,
    {
        proof {
            lemma_byte_sum_push(v@.take(i as int), v@[i as int]);
            assert(v@.take(i + 1) =~= v@.take(i as int).push(v@[i as int]));
        }
        sum = sum + v[i] as u32;
        i += 1;
    }
    assert(v@.take(i as int) =~= v@);
    sum
}

/// Appends the 512-byte ustar header of an entry named `archive_path` of `size`
/// bytes and type `typeflag` to `writer`; fails, writing nothing, when the name
/// is longer than 100 bytes.
pub fn write_tar_header(writer: &mut Vec<u8>, archive_path: &str, size: u64, typeflag: u8) -> (r: Result<(), TarError>)
    requires
        size < pow8(11),
    ensures
        r matches Err(e) ==> e == TarError::PathTooLong,
        r is Ok <==> archive_path.spec_bytes().len() <= 100,
        r is Ok ==> final(writer)@ == old(writer)@ + tar_header(archive_path.spec_bytes(), size as nat, typeflag),
        r is Err ==> final(writer)@ == old(writer)@,
{
    proof {
        lemma_pow8_values();
    }
    let mut name: Vec<u8> = vec![0u8; 100];
    let name_written = write_tar_string(&mut name, archive_path);
    if name_written.is_err() {
        return Err(TarError::PathTooLong);
    }
    let ghost path = archive_path.spec_bytes();
    assert(old(writer)@.skip(0) =~= old(writer)@);
    assert(name@ =~= path + repeat(0, (100 - path.len()) as nat));
    let mut mode: Vec<u8> = vec![0u8; 8];
    write_tar_octal(&mut mode, 0o644);
    let mut uid: Vec<u8> = vec![0u8; 8];
    write_tar_octal(&mut uid, 0);
    let mut gid: Vec<u8> = vec![0u8; 8];
    write_tar_octal(&mut gid, 0);
    let mut size_field: Vec<u8> = vec![0u8; 12];
    write_tar_octal(&mut size_field, size);
    let mut mtime: Vec<u8> = vec![0u8; 12];
    write_tar_octal(&mut mtime, 0);

    let mut header: Vec<u8> = Vec::new();
    append_bytes(&mut header, &name);
    append_bytes(&mut header, &mode);
    append_bytes(&mut header, &uid);
    append_bytes(&mut header, &gid);
    append_bytes(&mut header, &size_field);
    append_bytes(&mut header, &mtime);
    append_repeat(&mut header, 32u8, 8);
    header.push(typeflag);
    append_repeat(&mut header, 0u8, 100);
    let magic: Vec<u8> = vec![117u8, 115u8, 116u8, 97u8, 114u8, 0u8];
    append_bytes(&mut header, &magic);
    let version: Vec<u8> = vec![48u8, 48u8];
    append_bytes(&mut header, &version);
    append_repeat(&mut header, 0u8, 247);
    let ghost u = tar_header_unsummed(path, size as nat, typeflag);
    proof {
        lemma_octal_digits_len(0o644, 7);
        lemma_octal_digits_len(0, 7);
        lemma_octal_digits_len(size as nat, 11);
        lemma_octal_digits_len(0, 11);
    }
    assert(header@ =~= u);
    assert(header.len() == 512);

    let checksum = sum_bytes(&header);
    proof {
        lemma_byte_sum_bound(header@);
    }
    let mut checksum_bytes: Vec<u8> = vec![32u8; 8];
    write_tar_checksum(&mut checksum_bytes, checksum);
    proof {
        lemma_octal_digits_len(checksum as nat, 6);
    }
    let mut i: usize = 0;
    while i < 8
        invariant
            i <= 8,
            header.len() == 512,
            u.len() == 512,
            checksum_bytes@ == checksum_field(byte_sum(u) as nat),
            checksum_bytes.len() == 8,
            header@ == u.take(148) + checksum_bytes@.take(i as int) + u.skip(148 + i),
        decreases 8 - i,
    {
        header.set(148 + i, checksum_bytes[i]);
        assert(header@ =~= u.take(148) + checksum_bytes@.take(i + 1) + u.skip(148 + i + 1));
        i += 1;
    }
    assert(checksum_bytes@.take(8) =~= checksum_bytes@);
    append_bytes(writer, &header);
    Ok(())
}

/// Appends the zero bytes that complete the last 512-byte block of an entry of
/// `size` bytes.
pub fn write_tar_padding(writer: &mut Vec<u8>, size: u64)
    ensures
        final(writer)@ == old(writer)@ + repeat(0, padding_len(size as nat)),
{
    let padding = (512 - (size % 512)) % 512;
    if padding > 0 {
        append_repeat(writer, 0u8, padding as usize);
    } else {
        assert(old(writer)@ + repeat(0, 0) =~= old(writer)@);
    }
}

/// Appends the end-of-archive marker: two blocks of zero bytes.
pub fn write_tar_end(writer: &mut Vec<u8>)
    ensures
        final(writer)@ == old(writer)@ + repeat(0, 1024),
{
    append_repeat(writer, 0u8, 1024);
}

/// The entry name of a directory: its path without trailing `/`, then one `/`.
pub open spec fn directory_entry_name(path: Seq<char>) -> Seq<char> {
    trim_trailing_slashes(path).push('/')
}

/// `path` without trailing `/` characters and with one `/` appended.
pub fn directory_entry_path(path: &str) -> (r: String)
    ensures
        r@ == directory_entry_name(path@),
{
    let mut r = trim_end_slashes(path);
    push_char(&mut r, '/');
    r
}

/// Appends the header of a directory entry named `archive_path` (given with or
/// without a trailing `/`): size 0, type `5`.
pub fn append_tar_directory(writer: &mut Vec<u8>, archive_path: &str) -> (r: Result<(), TarError>)
    ensures
        r matches Err(e) ==> e == TarError::PathTooLong,
        ({
            let name = vstd::utf8::encode_utf8(directory_entry_name(archive_path@));
            &&& r is Ok <==> name.len() <= 100
            &&& r is Ok ==> final(writer)@ == old(writer)@ + tar_header(name, 0, 53)
            &&& r is Err ==> final(writer)@ == old(writer)@
        }),
{
    let archive_path = directory_entry_path(archive_path);
    proof {
        lemma_pow8_values();
    }
    write_tar_header(writer, archive_path.as_str(), 0, 53u8)
}

/// Appends a file entry: its header (type `0`), its bytes, and the padding to
/// the next block.
pub fn append_file_to_tar(writer: &mut Vec<u8>, archive_path: &str, bytes: &Vec<u8>) -> (r: Result<(), TarError>)
    requires
        bytes.len() < pow8(11),
    ensures
        r matches Err(e) ==> e == TarError::PathTooLong,
        r is Ok <==> archive_path.spec_bytes().len() <= 100,
        r is Ok ==> final(writer)@ == old(writer)@ + tar_header(archive_path.spec_bytes(), bytes.len() as nat, 48)
            + bytes@ + repeat(0, padding_len(bytes.len() as nat)),
        r is Err ==> final(writer)@ == old(writer)@,
{
    let header_written = write_tar_header(writer, archive_path, bytes.len() as u64, 48u8);
    if header_written.is_err() {
        return Err(TarError::PathTooLong);
    }
    append_bytes(writer, bytes);
    write_tar_padding(writer, bytes.len() as u64);
    Ok(())
}


/// Decoding `width` octal digits of a number below `8^width` gives the number back.
pub proof fn lemma_octal_round_trip(value: nat, width: nat)
    requires
        value < pow8(width),
    ensures
        octal_digits(value, width).len() == width,
        octal_value(octal_digits(value, width)) == value,
    decreases width,
{
    lemma_octal_digits_len(value, width);
    if width > 0 {
        assert(value / 8 < pow8((width - 1) as nat));
        lemma_octal_round_trip(value / 8, (width - 1) as nat);
        let ds = octal_digits(value, width);
        assert(ds.drop_last() =~= octal_digits(value / 8, (width - 1) as nat));
    }
}

/// A header keeps its fields where a reader looks for them: the entry name,
/// NUL-padded, in bytes 0..100; the size in octal in bytes 124..135; the type
/// flag in byte 156; the `ustar` magic in bytes 257..263; and a checksum in
/// bytes 148..154 that equals the sum of all header bytes counting the checksum
/// field itself as eight spaces.
pub proof fn lemma_tar_header_fields(path: Seq<u8>, size: nat, typeflag: u8)
    requires
        path.len() <= 100,
        size < pow8(11),
    ensures
        ({
            let h = tar_header(path, size, typeflag);
            &&& h.len() == 512
            &&& h.take(path.len() as int) == path
            &&& forall|i: int| path.len() <= i < 100 ==> h[i] == 0
            &&& octal_value(h.subrange(124, 135)) == size
            &&& h[135] == 0
            &&& h[156] == typeflag
            &&& h.subrange(257, 263) == seq![117u8, 115u8, 116u8, 97u8, 114u8, 0u8]
            &&& octal_value(h.subrange(148, 154)) == byte_sum(h.take(148) + repeat(32, 8) + h.skip(156))
            &&& h[154] == 0
            &&& h[155] == 32
        }),
{
    lemma_pow8_values();
    let u = tar_header_unsummed(path, size, typeflag);
    lemma_octal_digits_len(0o644, 7);
    lemma_octal_digits_len(0, 7);
    lemma_octal_digits_len(size, 11);
    lemma_octal_digits_len(0, 11);
    assert(u.len() == 512);
    lemma_byte_sum_bound(u);
    let c = byte_sum(u) as nat;
    assert(c < pow8(6));
    lemma_octal_round_trip(c, 6);
    lemma_octal_round_trip(size, 11);
    let h = tar_header(path, size, typeflag);
    assert(h.len() == 512);
    assert(h.take(path.len() as int) =~= path);
    assert(h.subrange(124, 135) =~= octal_digits(size, 11));
    assert(h.subrange(257, 263) =~= seq![117u8, 115u8, 116u8, 97u8, 114u8, 0u8]);
    assert(h.subrange(148, 154) =~= octal_digits(c, 6));
    assert(h.take(148) + repeat(32, 8) + h.skip(156) =~= u);
}

/// The padding completes an entry of `size` bytes to whole 512-byte blocks,
/// and is shorter than one block.
pub proof fn lemma_padding_completes_block(size: nat)
    ensures
        (size + padding_len(size)) % 512 == 0,
        padding_len(size) < 512,
{
}


/// An entry of the records directory in the backup: its path below the
/// directory, and its bytes for a file (`None` for a directory).
#[derive(Debug, Clone)]
pub struct ArchiveEntry {
    pub path: String,
    pub data: Option<Vec<u8>>,
}

/// An archive entry as a path and optional bytes.
pub open spec fn entry_view(e: ArchiveEntry) -> (Seq<char>, Option<Seq<u8>>) {
    (e.path@, match e.data { Some(d) => Some(d@), None => None })
}

/// The blocks of one entry: header, bytes and padding of a file (type `0`),
/// or the header of a directory (type `5`, the name ending in `/`); none when
/// the name is longer than 100 bytes.
#[verifier::opaque]
pub open spec fn entry_blocks(path: Seq<char>, data: Option<Seq<u8>>) -> Option<Seq<u8>> {
    match data {
        Some(d) => {
            let name = vstd::utf8::encode_utf8(path);
            if name.len() <= 100 {
                Some(tar_header(name, d.len(), 48) + d + repeat(0, padding_len(d.len())))
            } else {
                None
            }
        },
        None => {
            let name = vstd::utf8::encode_utf8(directory_entry_name(path));
            if name.len() <= 100 {
                Some(tar_header(name, 0, 53))
            } else {
                None
            }
        },
    }
}

/// The blocks of the entries, in order; none when some name is too long.
pub open spec fn entries_blocks(entries: Seq<(Seq<char>, Option<Seq<u8>>)>) -> Option<Seq<u8>>
    decreases entries.len(),
{
    if entries.len() == 0 {
        Some(Seq::empty())
    } else {
        match (entries_blocks(entries.drop_last()), entry_blocks(entries.last().0, entries.last().1)) {
            (Some(front), Some(last)) => Some(front + last),
            _ => None,
        }
    }
}

/// The name of the records directory in the backup.
pub open spec fn records_dir_name() -> Seq<char> {
    "allocation_records"@
}

/// The entries of a data backup: the two databases, the records directory,
/// and the entries below it.
pub open spec fn backup_entries(assets_db: Seq<u8>, transactions_db: Seq<u8>, records: Seq<(Seq<char>, Option<Seq<u8>>)>) -> Seq<(Seq<char>, Option<Seq<u8>>)> {
    seq![("assets.sdb"@, Some(assets_db)), ("transactions.sdb"@, Some(transactions_db)), (records_dir_name(), None::<Seq<u8>>)]
        + records.map_values(|e: (Seq<char>, Option<Seq<u8>>)| (records_dir_name() + "/"@ + e.0, e.1))
}

/// Appends the blocks of a file entry.
fn append_file_entry(writer: &mut Vec<u8>, path: &str, data: &Vec<u8>) -> (r: Result<(), TarError>)
    requires
        data.len() < pow8(11),
    ensures
        r matches Err(e) ==> e == TarError::PathTooLong,
        match entry_blocks(path@, Some(data@)) {
            Some(b) => r is Ok && final(writer)@ == old(writer)@ + b,
            None => r is Err,
        },
{
    proof {
        reveal(entry_blocks);
    }
    let r = append_file_to_tar(writer, path, data);
    proof {
        if r is Ok {
            assert(final(writer)@ =~= old(writer)@ + (tar_header(path.spec_bytes(), data@.len(), 48) + data@ + repeat(0, padding_len(data@.len()))));
        }
    }
    r
}

/// Appends the header of a directory entry.
fn append_directory_entry(writer: &mut Vec<u8>, path: &str) -> (r: Result<(), TarError>)
    ensures
        r matches Err(e) ==> e == TarError::PathTooLong,
        match entry_blocks(path@, None) {
            Some(b) => r is Ok && final(writer)@ == old(writer)@ + b,
            None => r is Err,
        },
{
    proof {
        reveal(entry_blocks);
    }
    append_tar_directory(writer, path)
}

/// Appends the blocks of one entry.
fn append_entry(writer: &mut Vec<u8>, path: &str, data: &Option<Vec<u8>>) -> (r: Result<(), TarError>)
    requires
        data matches Some(d) ==> d.len() < pow8(11),
    ensures
        r matches Err(e) ==> e == TarError::PathTooLong,
        match entry_blocks(path@, match data { Some(d) => Some(d@), None => None }) {
            Some(b) => r is Ok && final(writer)@ == old(writer)@ + b,
            None => r is Err,
        },
{
    match data {
        Some(d) => append_file_entry(writer, path, d),
        None => append_directory_entry(writer, path),
    }
}

/// The data backup archive: `assets.sdb` and `transactions.sdb` with the bytes
/// of the two databases, the directory `allocation_records/`, the entries of
/// `records` below it, and the end-of-archive marker. Fails when an entry
/// name is longer than 100 bytes.
pub fn create_data_backup_archive(assets_db: &Vec<u8>, transactions_db: &Vec<u8>, records: &Vec<ArchiveEntry>) -> (r: Result<Vec<u8>, TarError>)
    requires
        assets_db.len() < pow8(11),
        transactions_db.len() < pow8(11),
        forall|i: int| 0 <= i < records.len() ==> ((#[trigger] records@[i]).data matches Some(d) ==> d.len() < pow8(11)),
    ensures
        r matches Err(e) ==> e == TarError::PathTooLong,
        match entries_blocks(backup_entries(assets_db@, transactions_db@, records@.map_values(|e: ArchiveEntry| entry_view(e)))) {
            Some(b) => r matches Ok(bytes) && bytes@ == b + repeat(0, 1024),
            None => r is Err,
        },
        r matches Ok(bytes) ==> (file_blocks("assets.sdb"@, assets_db@) + file_blocks("transactions.sdb"@, transactions_db@))
            .is_prefix_of(bytes@),
{
    proof {
        let es = backup_entries(assets_db@, transactions_db@, records@.map_values(|e: ArchiveEntry| entry_view(e)));
        if entries_blocks(es) is Some {
            lemma_backup_starts_with_the_databases(assets_db@, transactions_db@, records@.map_values(|e: ArchiveEntry| entry_view(e)));
        }
    }
    let ghost all = backup_entries(assets_db@, transactions_db@, records@.map_values(|e: ArchiveEntry| entry_view(e)));
    let mut out: Vec<u8> = Vec::new();
    proof {
        reveal_strlit("assets.sdb");
        reveal_strlit("transactions.sdb");
        reveal_strlit("allocation_records");
        assert(all.take(0) =~= Seq::<(Seq<char>, Option<Seq<u8>>)>::empty());
        assert(all.take(1).drop_last() =~= all.take(0));
        assert(all.take(2).drop_last() =~= all.take(1));
        assert(all.take(3).drop_last() =~= all.take(2));
        assert(all[0] == ("assets.sdb"@, Some(assets_db@)));
        assert(all[1] == ("transactions.sdb"@, Some(transactions_db@)));
        assert(all[2] == (records_dir_name(), None::<Seq<u8>>));
    }
    let w1 = append_file_entry(&mut out, "assets.sdb", assets_db);
    if w1.is_err() {
        proof { lemma_entries_blocks_none(all, 1); }
        return Err(TarError::PathTooLong);
    }
    assert(all.take(1).last() == all[0]);
    assert(entries_blocks(all.take(0)) == Some(Seq::<u8>::empty()));
    assert(out@ =~= Seq::<u8>::empty() + entry_blocks(all[0].0, all[0].1)->Some_0);
    assert(entries_blocks(all.take(1)) == Some(out@));
    let w2 = append_file_entry(&mut out, "transactions.sdb", transactions_db);
    if w2.is_err() {
        proof { lemma_entries_blocks_none(all, 2); }
        return Err(TarError::PathTooLong);
    }
    assert(all.take(2).last() == all[1]);
    assert(entries_blocks(all.take(2)) == Some(out@));
    let w3 = append_directory_entry(&mut out, "allocation_records");
    if w3.is_err() {
        proof { lemma_entries_blocks_none(all, 3); }
        return Err(TarError::PathTooLong);
    }
    assert(all.take(3).last() == all[2]);
    assert(entries_blocks(all.take(3)) == Some(out@));
    let mut i: usize = 0;
    while i < records.len()
        invariant
            i <= records.len(),
            all == backup_entries(assets_db@, transactions_db@, records@.map_values(|e: ArchiveEntry| entry_view(e))),
            all.len() == 3 + records.len(),
            forall|k: int| 0 <= k < records.len() ==> ((#[trigger] records@[k]).data matches Some(d) ==> d.len() < pow8(11)),
            entries_blocks(all.take(3 + i)) == Some(out@),
        decreases records.len() - i,
    {
        let entry = &records[i];
        let path = "allocation_records/".to_owned().concat(entry.path.as_str());
        proof {
            reveal_strlit("allocation_records/");
            reveal_strlit("allocation_records");
            reveal_strlit("/");
            assert("allocation_records/"@ =~= records_dir_name() + "/"@);
            assert(all[3 + i] == (path@, entry_view(*entry).1));
            assert(all.take(3 + i + 1).drop_last() =~= all.take(3 + i));
            assert(all.take(3 + i + 1).last() == all[3 + i]);
        }
        match append_entry(&mut out, path.as_str(), &entry.data) {
            Ok(()) => {},
            Err(e) => {
                proof { lemma_entries_blocks_none(all, 3 + i + 1); }
                return Err(e);
            },
        }
        i += 1;
    }
    assert(all.take(3 + records.len()) =~= all);
    write_tar_end(&mut out);
    Ok(out)
}

proof fn lemma_entries_blocks_none(entries: Seq<(Seq<char>, Option<Seq<u8>>)>, n: int)
    requires
        0 <= n <= entries.len(),
        entries_blocks(entries.take(n)) is None,
    ensures
        entries_blocks(entries) is None,
    decreases entries.len() - n,
{
    if n < entries.len() {
        assert(entries.take(n + 1).drop_last() =~= entries.take(n));
        lemma_entries_blocks_none(entries, n + 1);
    } else {
        assert(entries.take(n) =~= entries);
    }
}

/// A data backup holds only the two databases, the records directory and what
/// lies below it: every entry is `assets.sdb`, `transactions.sdb`,
/// `allocation_records` or named `allocation_records/...`.
pub proof fn lemma_backup_holds_only_restore_root_entries(assets_db: Seq<u8>, transactions_db: Seq<u8>, records: Seq<(Seq<char>, Option<Seq<u8>>)>)
    ensures
        forall|i: int| 0 <= i < backup_entries(assets_db, transactions_db, records).len() ==> {
            let name = (#[trigger] backup_entries(assets_db, transactions_db, records)[i]).0;
            ||| name == "assets.sdb"@
            ||| name == "transactions.sdb"@
            ||| name == records_dir_name()
            ||| name.take(records_dir_name().len() as int + 1) == records_dir_name() + "/"@
        },
{
    let all = backup_entries(assets_db, transactions_db, records);
    assert forall|i: int| 0 <= i < all.len() implies {
        let name = (#[trigger] all[i]).0;
        ||| name == "assets.sdb"@
        ||| name == "transactions.sdb"@
        ||| name == records_dir_name()
        ||| name.take(records_dir_name().len() as int + 1) == records_dir_name() + "/"@
    } by {
        if i >= 3 {
            let prefix = records_dir_name() + "/"@;
            let name = prefix + records[i - 3].0;
            assert(all[i].0 == name);
            assert(name.take(prefix.len() as int) =~= prefix);
            assert(prefix.len() == records_dir_name().len() + 1) by {
                reveal_strlit("/");
            }
        }
    }
}


/// The blocks of a file named `name` holding `data`: its header (type `0`),
/// the data, and the zeros to the end of the last block.
pub open spec fn file_blocks(name: Seq<char>, data: Seq<u8>) -> Seq<u8> {
    tar_header(vstd::utf8::encode_utf8(name), data.len(), 48) + data + repeat(0, padding_len(data.len()))
}

proof fn lemma_entries_blocks_prefix(entries: Seq<(Seq<char>, Option<Seq<u8>>)>, n: int)
    requires
        0 <= n <= entries.len(),
        entries_blocks(entries) is Some,
    ensures
        entries_blocks(entries.take(n)) is Some,
        entries_blocks(entries.take(n))->Some_0.is_prefix_of(entries_blocks(entries)->Some_0),
    decreases entries.len() - n,
{
    if n == entries.len() {
        assert(entries.take(n) =~= entries);
    } else {
        let prev = entries.drop_last();
        lemma_entries_blocks_prefix(prev, n);
        assert(prev.take(n) =~= entries.take(n));
        let p = entries_blocks(prev)->Some_0;
        let b = entries_blocks(entries)->Some_0;
        assert(b.subrange(0, p.len() as int) =~= p);
    }
}

proof fn lemma_file_entry_blocks(name: Seq<char>, data: Seq<u8>)
    requires
        entry_blocks(name, Some(data)) is Some,
    ensures
        entry_blocks(name, Some(data)) == Some(file_blocks(name, data)),
{
    reveal(entry_blocks);
}

/// A backup restores each database from its own file: the archive begins
/// with the entry `assets.sdb` holding exactly the bytes of the assets
/// database, followed by the entry `transactions.sdb` holding exactly those of
/// the transactions database.
pub proof fn lemma_backup_starts_with_the_databases(
    assets_db: Seq<u8>,
    transactions_db: Seq<u8>,
    records: Seq<(Seq<char>, Option<Seq<u8>>)>,
)
    requires
        entries_blocks(backup_entries(assets_db, transactions_db, records)) is Some,
    ensures
        (file_blocks("assets.sdb"@, assets_db) + file_blocks("transactions.sdb"@, transactions_db)).is_prefix_of(
            entries_blocks(backup_entries(assets_db, transactions_db, records))->Some_0,
        ),
{
    let all = backup_entries(assets_db, transactions_db, records);
    lemma_entries_blocks_prefix(all, 2);
    let two = all.take(2);
    assert(two.drop_last() =~= all.take(1));
    assert(all.take(1).drop_last() =~= all.take(0));
    assert(all.take(0) =~= Seq::<(Seq<char>, Option<Seq<u8>>)>::empty());
    assert(two.last() == all[1]);
    assert(all.take(1).last() == all[0]);
    assert(all[0] == ("assets.sdb"@, Some(assets_db)));
    assert(all[1] == ("transactions.sdb"@, Some(transactions_db)));
    let one = all.take(1);
    assert(entries_blocks(all.take(0)) == Some(Seq::<u8>::empty()));
    assert(entries_blocks(one) is Some && entry_blocks(all[1].0, all[1].1) is Some);
    assert(entry_blocks(all[0].0, all[0].1) is Some);
    let e0 = entry_blocks("assets.sdb"@, Some(assets_db))->Some_0;
    let e1 = entry_blocks("transactions.sdb"@, Some(transactions_db))->Some_0;
    assert(entries_blocks(one)->Some_0 =~= Seq::<u8>::empty() + e0);
    assert(entries_blocks(two)->Some_0 =~= entries_blocks(one)->Some_0 + e1);
    lemma_file_entry_blocks("assets.sdb"@, assets_db);
    lemma_file_entry_blocks("transactions.sdb"@, transactions_db);
    assert(entries_blocks(two)->Some_0 =~= e0 + e1);
}

/// What `flate2::write::GzEncoder` at `Compression::default()`, writing into a
/// `Vec`, makes of `data`: the gzip stream (header without time stamp, the
/// deflate stream and the trailer), or none where the compressor reports an
/// error.
pub uninterp spec fn flate2_gzip_outcome(data: Seq<u8>) -> Option<Seq<u8>>;

/// Compresses `data` with `flate2::write::GzEncoder::new(Vec::new(),
/// Compression::default())`, `write_all` and `finish`. Claims that the outcome,
/// the stream or `None` for an error of the compressor, is the named function
/// of `data`: the header that `GzEncoder::new` writes has no time stamp, the
/// `Vec` it writes into takes every byte, and the compressor's status depends
/// on its input alone.
#[verifier::external_body]
fn gzip_default(data: &Vec<u8>) -> (r: Option<Vec<u8>>)
    ensures
        match flate2_gzip_outcome(data@) {
            Some(z) => r matches Some(out) && out@ == z,
            None => r is None,
        },
{
    let mut encoder = GzEncoder::new(Vec::new(), Compression::default());
    if encoder.write_all(data.as_slice()).is_err() {
        return None;
    }
    encoder.finish().ok()
}

/// The data backup as it is handed out: the archive of
/// `create_data_backup_archive`, compressed with gzip.
pub fn create_compressed_data_backup(assets_db: &Vec<u8>, transactions_db: &Vec<u8>, records: &Vec<ArchiveEntry>) -> (r: Result<Vec<u8>, TarError>)
    requires
        assets_db.len() < pow8(11),
        transactions_db.len() < pow8(11),
        forall|i: int| 0 <= i < records.len() ==> ((#[trigger] records@[i]).data matches Some(d) ==> d.len() < pow8(11)),
    ensures
        match entries_blocks(backup_entries(assets_db@, transactions_db@, records@.map_values(|e: ArchiveEntry| entry_view(e)))) {
            Some(b) => match flate2_gzip_outcome(b + repeat(0, 1024)) {
                Some(z) => r matches Ok(out) && out@ == z,
                None => r == Err::<Vec<u8>, TarError>(TarError::CompressionFailed),
            },
            None => r == Err::<Vec<u8>, TarError>(TarError::PathTooLong),
        },
        r matches Ok(z) ==> exists|tar: Seq<u8>|
            (file_blocks("assets.sdb"@, assets_db@) + file_blocks("transactions.sdb"@, transactions_db@)).is_prefix_of(tar)
            && #[trigger] flate2_gzip_outcome(tar) == Some(z@),
{
    let tar = match create_data_backup_archive(assets_db, transactions_db, records) {
        Ok(bytes) => bytes,
        Err(_) => {
            return Err(TarError::PathTooLong);
        },
    };
    match gzip_default(&tar) {
        Some(z) => {
            assert(flate2_gzip_outcome(tar@) == Some(z@));
            Ok(z)
        },
        None => Err(TarError::CompressionFailed),
    }
}

} // verus!
