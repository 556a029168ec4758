use vstd::prelude::*;
use vstd::slice::slice_to_vec;
use vstd::utf8::{decode_utf8, valid_utf8};

use crate::error::ParseError;
use crate::text::utf8_string;

verus! {

/// Signature of a local file header, as a little-endian `u32`.
pub const LOCAL_FILE_HEADER_SIGNATURE: u32 = 0x04034b50;

/// Signature of a central directory header, as a little-endian `u32`.
pub const CENTRAL_DIRECTORY_HEADER_SIGNATURE: u32 = 0x02014b50;

/// Signature of the end-of-central-directory record, as a little-endian `u32`.
pub const END_OF_CENTRAL_DIRECTORY_SIGNATURE: u32 = 0x06054b50;

/// Compression method "store": the payload follows the header uncompressed.
pub const STORE_METHOD: u16 = 0;

/// Bytes of a local file header before its name.
pub const LOCAL_FIXED_LEN: usize = 30;

/// Bytes of a central directory header before its name.
pub const CENTRAL_FIXED_LEN: usize = 46;

/// Bytes of an end-of-central-directory record before its comment.
pub const END_FIXED_LEN: usize = 22;

// ---------------------------------------------------------------------------
// Model of the byte layout
// ---------------------------------------------------------------------------

/// The little-endian 16-bit value at offset `i`.
pub open spec fn le16(s: Seq<u8>, i: int) -> int {
    s[i] as int + 256 * (s[i + 1] as int)
}

/// The little-endian 32-bit value at offset `i`.
pub open spec fn le32(s: Seq<u8>, i: int) -> int {
    le16(s, i) + 65536 * le16(s, i + 2)
}

/// A trailing block that is absent when its declared length is zero.
pub open spec fn optional_block(b: Seq<u8>) -> Option<Seq<u8>> {
    if b.len() > 0 {
        Some(b)
    } else {
        None
    }
}

/// The mathematical content of a [`LocalFileHeader`].
pub struct LocalFileHeaderView {
    pub signature: int,
    pub version_needed: int,
    pub flags: int,
    pub compression_method: int,
    pub last_modified_time: int,
    pub last_modified_date: int,
    pub crc32: int,
    pub compressed_size: int,
    pub uncompressed_size: int,
    pub file_name_length: int,
    pub extra_field_length: int,
    pub file_name: Seq<char>,
    pub extra_field: Option<Seq<u8>>,
    pub uncompressed_data: Option<Seq<u8>>,
}

/// The mathematical content of a [`CentralDirectoryHeader`].
pub struct CentralDirectoryHeaderView {
    pub signature: int,
    pub version_made_by: int,
    pub version_needed: int,
    pub flags: int,
    pub compression_method: int,
    pub last_modified_time: int,
    pub last_modified_date: int,
    pub crc32: int,
    pub compressed_size: int,
    pub uncompressed_size: int,
    pub file_name_length: int,
    pub extra_field_length: int,
    pub file_comment_length: int,
    pub disk_number_start: int,
    pub internal_file_attributes: int,
    pub external_file_attributes: int,
    pub relative_offset_of_local_header: int,
    pub file_name: Seq<char>,
    pub extra_field: Option<Seq<u8>>,
    pub file_comment: Option<Seq<u8>>,
}

/// The mathematical content of an [`EndOfCentralDirectoryRecord`].
pub struct EndOfCentralDirectoryRecordView {
    pub signature: int,
    pub number_of_this_disk: int,
    pub number_of_the_disk_with_the_start_of_the_central_directory: int,
    pub total_number_of_entries_in_the_central_directory_on_this_disk: int,
    pub total_number_of_entries_in_the_central_directory: int,
    pub size_of_the_central_directory: int,
    pub offset_of_start_of_central_directory_with_respect_to_the_starting_disk_number: int,
    pub zip_file_comment_length: int,
    pub zip_file_comment: Option<Seq<u8>>,
}

/// The mathematical content of a [`ZipFilePart`].
pub enum ZipFilePartView {
    LocalFileHeader(LocalFileHeaderView),
    CentralDirectoryHeader(CentralDirectoryHeaderView),
    EndOfCentralDirectoryRecord(EndOfCentralDirectoryRecordView),
}

/// Decodes a local file header at the start of `s`: the record and the number
/// of bytes it spans, or why it cannot be decoded.
pub open spec fn spec_local_file_header(s: Seq<u8>) -> Result<(LocalFileHeaderView, int), ParseError> {
    if s.len() < 30 {
        Err(ParseError::TruncatedInput)
    } else {
        let method = le16(s, 8);
        let size = le32(s, 22);
        let name_len = le16(s, 26);
        let extra_len = le16(s, 28);
        let name_end = 30 + name_len;
        let extra_end = name_end + extra_len;
        let end = if method == 0 { extra_end + size } else { extra_end };
        if s.len() < name_end {
            Err(ParseError::TruncatedInput)
        } else if !valid_utf8(s.subrange(30, name_end)) {
            Err(ParseError::InvalidEncoding)
        } else if s.len() < end {
            Err(ParseError::TruncatedInput)
        } else {
            Ok((LocalFileHeaderView {
                signature: le32(s, 0),
                version_needed: le16(s, 4),
                flags: le16(s, 6),
                compression_method: method,
                last_modified_time: le16(s, 10),
                last_modified_date: le16(s, 12),
                crc32: le32(s, 14),
                compressed_size: le32(s, 18),
                uncompressed_size: size,
                file_name_length: name_len,
                extra_field_length: extra_len,
                file_name: decode_utf8(s.subrange(30, name_end)),
                extra_field: optional_block(s.subrange(name_end, extra_end)),
                uncompressed_data: if method == 0 {
                    Some(s.subrange(extra_end, end))
                } else {
                    None
                },
            }, end))
        }
    }
}

/// Decodes a central directory header at the start of `s`.
pub open spec fn spec_central_directory_header(s: Seq<u8>) -> Result<(CentralDirectoryHeaderView, int), ParseError> {
    if s.len() < 46 {
        Err(ParseError::TruncatedInput)
    } else {
        let name_len = le16(s, 28);
        let extra_len = le16(s, 30);
        let comment_len = le16(s, 32);
        let name_end = 46 + name_len;
        let extra_end = name_end + extra_len;
        let end = extra_end + comment_len;
        if s.len() < name_end {
            Err(ParseError::TruncatedInput)
        } else if !valid_utf8(s.subrange(46, name_end)) {
            Err(ParseError::InvalidEncoding)
        } else if s.len() < end {
            Err(ParseError::TruncatedInput)
        } else {
            Ok((CentralDirectoryHeaderView {
                signature: le32(s, 0),
                version_made_by: le16(s, 4),
                version_needed: le16(s, 6),
                flags: le16(s, 8),
                compression_method: le16(s, 10),
                last_modified_time: le16(s, 12),
                last_modified_date: le16(s, 14),
                crc32: le32(s, 16),
                compressed_size: le32(s, 20),
                uncompressed_size: le32(s, 24),
                file_name_length: name_len,
                extra_field_length: extra_len,
                file_comment_length: comment_len,
                disk_number_start: le16(s, 34),
                internal_file_attributes: le16(s, 36),
                external_file_attributes: le32(s, 38),
                relative_offset_of_local_header: le32(s, 42),
                file_name: decode_utf8(s.subrange(46, name_end)),
                extra_field: optional_block(s.subrange(name_end, extra_end)),
                file_comment: optional_block(s.subrange(extra_end, end)),
            }, end))
        }
    }
}

/// Decodes an end-of-central-directory record at the start of `s`.
pub open spec fn spec_end_of_central_directory_record(s: Seq<u8>) -> Result<(EndOfCentralDirectoryRecordView, int), ParseError> {
    if s.len() < 22 {
        Err(ParseError::TruncatedInput)
    } else {
        let comment_len = le16(s, 20);
        let end = 22 + comment_len;
        if s.len() < end {
            Err(ParseError::TruncatedInput)
        } else {
            Ok((EndOfCentralDirectoryRecordView {
                signature: le32(s, 0),
                number_of_this_disk: le16(s, 4),
                number_of_the_disk_with_the_start_of_the_central_directory: le16(s, 6),
                total_number_of_entries_in_the_central_directory_on_this_disk: le16(s, 8),
                total_number_of_entries_in_the_central_directory: le16(s, 10),
                size_of_the_central_directory: le32(s, 12),
                offset_of_start_of_central_directory_with_respect_to_the_starting_disk_number:
                    le32(s, 16),
                zip_file_comment_length: comment_len,
                zip_file_comment: optional_block(s.subrange(22, end)),
            }, end))
        }
    }
}

/// Decodes the record at the start of `s`, chosen by its 4-byte signature.
#[verifier::opaque]
pub open spec fn spec_zip_file_part(s: Seq<u8>) -> Result<(ZipFilePartView, int), ParseError> {
    if s.len() < 4 {
        Err(ParseError::TruncatedInput)
    } else if le32(s, 0) == LOCAL_FILE_HEADER_SIGNATURE {
        match spec_local_file_header(s) {
            Ok((h, n)) => Ok((ZipFilePartView::LocalFileHeader(h), n)),
            Err(e) => Err(e),
        }
    } else if le32(s, 0) == CENTRAL_DIRECTORY_HEADER_SIGNATURE {
        match spec_central_directory_header(s) {
            Ok((h, n)) => Ok((ZipFilePartView::CentralDirectoryHeader(h), n)),
            Err(e) => Err(e),
        }
    } else if le32(s, 0) == END_OF_CENTRAL_DIRECTORY_SIGNATURE {
        match spec_end_of_central_directory_record(s) {
            Ok((h, n)) => Ok((ZipFilePartView::EndOfCentralDirectoryRecord(h), n)),
            Err(e) => Err(e),
        }
    } else {
        Err(ParseError::UnrecognizedSignature)
    }
}

/// Decodes a whole buffer as records laid end to end. At least one record is
/// needed, and the last one must end exactly at the end of the buffer.
pub open spec fn spec_zip_file(s: Seq<u8>) -> Result<Seq<ZipFilePartView>, ParseError>
    decreases s.len(),
{
    match spec_zip_file_part(s) {
        Err(e) => Err(e),
        Ok((part, n)) => if 0 < n < s.len() {
            match spec_zip_file(s.subrange(n, s.len() as int)) {
                Ok(rest) => Ok(seq![part] + rest),
                Err(e) => Err(e),
            }
        } else {
            Ok(seq![part])
        },
    }
}

/// A record that decodes spans at least its fixed fields and lies within `s`.
pub proof fn lemma_zip_file_part_len(s: Seq<u8>)
    ensures
        spec_zip_file_part(s) matches Ok((_, n)) ==> 22 <= n <= s.len(),
{
    reveal(spec_zip_file_part);
}

// ---------------------------------------------------------------------------
// Records
// ---------------------------------------------------------------------------

/// A local file header, with its name, extra block and, in store mode, its payload.
pub struct LocalFileHeader {
    pub signature: u32,
    pub version_needed: u16,
    pub flags: u16,
    pub compression_method: u16,
    pub last_modified_time: u16,
    pub last_modified_date: u16,
    pub crc32: u32,
    pub compressed_size: u32,
    pub uncompressed_size: u32,
    pub file_name_length: u16,
    pub extra_field_length: u16,
    pub file_name: String,
    pub extra_field: Option<Vec<u8>>,
    pub uncompressed_data: Option<Vec<u8>>,
}

/// A central directory header.
pub struct CentralDirectoryHeader {
    pub signature: u32,
    pub version_made_by: u16,
    pub version_needed: u16,
    pub flags: u16,
    pub compression_method: u16,
    pub last_modified_time: u16,
    pub last_modified_date: u16,
    pub crc32: u32,
    pub compressed_size: u32,
    pub uncompressed_size: u32,
    pub file_name_length: u16,
    pub extra_field_length: u16,
    pub file_comment_length: u16,
    pub disk_number_start: u16,
    pub internal_file_attributes: u16,
    pub external_file_attributes: u32,
    pub relative_offset_of_local_header: u32,
    pub file_name: String,
    pub extra_field: Option<Vec<u8>>,
    pub file_comment: Option<Vec<u8>>,
}

/// The end-of-central-directory record.
pub struct EndOfCentralDirectoryRecord {
    pub signature: u32,
    pub number_of_this_disk: u16,
    pub number_of_the_disk_with_the_start_of_the_central_directory: u16,
    pub total_number_of_entries_in_the_central_directory_on_this_disk: u16,
    pub total_number_of_entries_in_the_central_directory: u16,
    pub size_of_the_central_directory: u32,
    pub offset_of_start_of_central_directory_with_respect_to_the_starting_disk_number: u32,
    pub zip_file_comment_length: u16,
    pub zip_file_comment: Option<Vec<u8>>,
}

/// One record of an archive.
pub enum ZipFilePart {
    LocalFileHeader(LocalFileHeader),
    CentralDirectoryHeader(CentralDirectoryHeader),
    EndOfCentralDirectoryRecord(EndOfCentralDirectoryRecord),
}

/// An archive: its records in the order in which they stand in the buffer.
pub struct ZipFile {
    pub parts: Vec<ZipFilePart>,
}

pub open spec fn optional_bytes_view(o: Option<Vec<u8>>) -> Option<Seq<u8>> {
    match o {
        Some(v) => Some(v@),
        None => None,
    }
}

impl View for LocalFileHeader {
    type V = LocalFileHeaderView;

    open spec fn view(&self) -> LocalFileHeaderView {
        LocalFileHeaderView {
            signature: self.signature as int,
            version_needed: self.version_needed as int,
            flags: self.flags as int,
            compression_method: self.compression_method as int,
            last_modified_time: self.last_modified_time as int,
            last_modified_date: self.last_modified_date as int,
            crc32: self.crc32 as int,
            compressed_size: self.compressed_size as int,
            uncompressed_size: self.uncompressed_size as int,
            file_name_length: self.file_name_length as int,
            extra_field_length: self.extra_field_length as int,
            file_name: self.file_name@,
            extra_field: optional_bytes_view(self.extra_field),
            uncompressed_data: optional_bytes_view(self.uncompressed_data),
        }
    }
}

impl View for CentralDirectoryHeader {
    type V = CentralDirectoryHeaderView;

    open spec fn view(&self) -> CentralDirectoryHeaderView {
        CentralDirectoryHeaderView {
            signature: self.signature as int,
            version_made_by: self.version_made_by as int,
            version_needed: self.version_needed as int,
            flags: self.flags as int,
            compression_method: self.compression_method as int,
            last_modified_time: self.last_modified_time as int,
            last_modified_date: self.last_modified_date as int,
            crc32: self.crc32 as int,
            compressed_size: self.compressed_size as int,
            uncompressed_size: self.uncompressed_size as int,
            file_name_length: self.file_name_length as int,
            extra_field_length: self.extra_field_length as int,
            file_comment_length: self.file_comment_length as int,
            disk_number_start: self.disk_number_start as int,
            internal_file_attributes: self.internal_file_attributes as int,
            external_file_attributes: self.external_file_attributes as int,
            relative_offset_of_local_header: self.relative_offset_of_local_header as int,
            file_name: self.file_name@,
            extra_field: optional_bytes_view(self.extra_field),
            file_comment: optional_bytes_view(self.file_comment),
        }
    }
}

impl View for EndOfCentralDirectoryRecord {
    type V = EndOfCentralDirectoryRecordView;

    open spec fn view(&self) -> EndOfCentralDirectoryRecordView {
        EndOfCentralDirectoryRecordView {
            signature: self.signature as int,
            number_of_this_disk: self.number_of_this_disk as int,
            number_of_the_disk_with_the_start_of_the_central_directory:
                self.number_of_the_disk_with_the_start_of_the_central_directory as int,
            total_number_of_entries_in_the_central_directory_on_this_disk:
                self.total_number_of_entries_in_the_central_directory_on_this_disk as int,
            total_number_of_entries_in_the_central_directory:
                self.total_number_of_entries_in_the_central_directory as int,
            size_of_the_central_directory: self.size_of_the_central_directory as int,
            offset_of_start_of_central_directory_with_respect_to_the_starting_disk_number:
                self.offset_of_start_of_central_directory_with_respect_to_the_starting_disk_number as int,
            zip_file_comment_length: self.zip_file_comment_length as int,
            zip_file_comment: optional_bytes_view(self.zip_file_comment),
        }
    }
}

impl View for ZipFilePart {
    type V = ZipFilePartView;

    open spec fn view(&self) -> ZipFilePartView {
        match self {
            ZipFilePart::LocalFileHeader(h) => ZipFilePartView::LocalFileHeader(h@),
            ZipFilePart::CentralDirectoryHeader(h) => ZipFilePartView::CentralDirectoryHeader(h@),
            ZipFilePart::EndOfCentralDirectoryRecord(h) => ZipFilePartView::EndOfCentralDirectoryRecord(h@),
        }
    }
}

impl View for ZipFile {
    type V = Seq<ZipFilePartView>;

    open spec fn view(&self) -> Seq<ZipFilePartView> {
        self.parts@.map_values(|p: ZipFilePart| p@)
    }
}

// ---------------------------------------------------------------------------
// Field readers
// ---------------------------------------------------------------------------

/// Reads the little-endian `u16` at offset `i`.
pub fn read_u16(input: &[u8], i: usize) -> (r: u16)
    requires
        i + 2 <= input@.len(),
    ensures
        r as int == le16(input@, i as int),
{
    input[i] as u16 + 256 * (input[i + 1] as u16)
}

/// Reads the little-endian `u32` at offset `i`.
pub fn read_u32(input: &[u8], i: usize) -> (r: u32)
    requires
        i + 4 <= input@.len(),
    ensures
        r as int == le32(input@, i as int),
{
    let _len = input.len();
    let lo = read_u16(input, i);
    let hi = read_u16(input, i + 2);
    lo as u32 + 65536 * (hi as u32)
}

/// Copies `input[from..to]`, or gives `None` when the block is empty.
fn read_optional_block(input: &[u8], from: usize, to: usize) -> (r: Option<Vec<u8>>)
    requires
        from <= to <= input@.len(),
    ensures
        optional_bytes_view(r) == optional_block(input@.subrange(from as int, to as int)),
{
    if from < to {
        Some(slice_to_vec(&input[from..to]))
    } else {
        None
    }
}

/// Decodes `input[from..to]` as a UTF-8 name.
fn read_name(input: &[u8], from: usize, to: usize) -> (r: Result<String, ParseError>)
    requires
        from <= to <= input@.len(),
    ensures
        match r {
            Ok(s) => valid_utf8(input@.subrange(from as int, to as int))
                && s@ == decode_utf8(input@.subrange(from as int, to as int)),
            Err(e) => !valid_utf8(input@.subrange(from as int, to as int))
                && e == ParseError::InvalidEncoding,
        },
{
    match utf8_string(slice_to_vec(&input[from..to])) {
        Some(s) => Ok(s),
        None => Err(ParseError::InvalidEncoding),
    }
}

// ---------------------------------------------------------------------------
// Record decoders
// ---------------------------------------------------------------------------

/// Decodes the local file header at the start of `input`; on success also gives
/// the number of bytes it spans.
pub fn parse_local_file_header(input: &[u8]) -> (r: Result<(LocalFileHeader, usize), ParseError>)
    ensures
        match r {
            Ok((h, n)) => spec_local_file_header(input@) == Ok::<_, ParseError>((h@, n as int)),
            Err(e) => spec_local_file_header(input@) == Err::<(LocalFileHeaderView, int), _>(e),
        },
{
    let len = input.len();
    if len < LOCAL_FIXED_LEN {
        return Err(ParseError::TruncatedInput);
    }
    let signature = read_u32(input, 0);
    let version_needed = read_u16(input, 4);
    let flags = read_u16(input, 6);
    let compression_method = read_u16(input, 8);
    let last_modified_time = read_u16(input, 10);
    let last_modified_date = read_u16(input, 12);
    let crc32 = read_u32(input, 14);
    let compressed_size = read_u32(input, 18);
    let uncompressed_size = read_u32(input, 22);
    let file_name_length = read_u16(input, 26);
    let extra_field_length = read_u16(input, 28);
    let name_end: usize = LOCAL_FIXED_LEN + file_name_length as usize;
    if len < name_end {
        return Err(ParseError::TruncatedInput);
    }
    let file_name = match read_name(input, LOCAL_FIXED_LEN, name_end) {
        Ok(s) => s,
        Err(e) => return Err(e),
    };
    if len - name_end < extra_field_length as usize {
        return Err(ParseError::TruncatedInput);
    }
    let extra_end: usize = name_end + extra_field_length as usize;
    let extra_field = read_optional_block(input, name_end, extra_end);
    let (uncompressed_data, end) = if compression_method == STORE_METHOD {
        if len - extra_end < uncompressed_size as usize {
            return Err(ParseError::TruncatedInput);
        }
        let end: usize = extra_end + uncompressed_size as usize;
        (Some(slice_to_vec(&input[extra_end..end])), end)
    } else {
        (None, extra_end)
    };
    let h = LocalFileHeader {
        signature,
        version_needed,
        flags,
        compression_method,
        last_modified_time,
        last_modified_date,
        crc32,
        compressed_size,
        uncompressed_size,
        file_name_length,
        extra_field_length,
        file_name,
        extra_field,
        uncompressed_data,
    };
    Ok((h, end))
}

/// Decodes the central directory header at the start of `input`; on success
/// also gives the number of bytes it spans.
pub fn parse_central_directory_header(input: &[u8]) -> (r: Result<(CentralDirectoryHeader, usize), ParseError>)
    ensures
        match r {
            Ok((h, n)) => spec_central_directory_header(input@) == Ok::<_, ParseError>((h@, n as int)),
            Err(e) => spec_central_directory_header(input@) == Err::<(CentralDirectoryHeaderView, int), _>(e),
        },
{
    let len = input.len();
    if len < CENTRAL_FIXED_LEN {
        return Err(ParseError::TruncatedInput);
    }
    let signature = read_u32(input, 0);
    let version_made_by = read_u16(input, 4);
    let version_needed = read_u16(input, 6);
    let flags = read_u16(input, 8);
    let compression_method = read_u16(input, 10);
    let last_modified_time = read_u16(input, 12);
    let last_modified_date = read_u16(input, 14);
    let crc32 = read_u32(input, 16);
    let compressed_size = read_u32(input, 20);
    let uncompressed_size = read_u32(input, 24);
    let file_name_length = read_u16(input, 28);
    let extra_field_length = read_u16(input, 30);
    let file_comment_length = read_u16(input, 32);
    let disk_number_start = read_u16(input, 34);
    let internal_file_attributes = read_u16(input, 36);
    let external_file_attributes = read_u32(input, 38);
    let relative_offset_of_local_header = read_u32(input, 42);
    let name_end: usize = CENTRAL_FIXED_LEN + file_name_length as usize;
    if len < name_end {
        return Err(ParseError::TruncatedInput);
    }
    let file_name = match read_name(input, CENTRAL_FIXED_LEN, name_end) {
        Ok(s) => s,
        Err(e) => return Err(e),
    };
    if len - name_end < extra_field_length as usize + file_comment_length as usize {
        return Err(ParseError::TruncatedInput);
    }
    let extra_end: usize = name_end + extra_field_length as usize;
    let end: usize = extra_end + file_comment_length as usize;
    let extra_field = read_optional_block(input, name_end, extra_end);
    let file_comment = read_optional_block(input, extra_end, end);
    let h = CentralDirectoryHeader {
        signature,
        version_made_by,
        version_needed,
        flags,
        compression_method,
        last_modified_time,
        last_modified_date,
        crc32,
        compressed_size,
        uncompressed_size,
        file_name_length,
        extra_field_length,
        file_comment_length,
        disk_number_start,
        internal_file_attributes,
        external_file_attributes,
        relative_offset_of_local_header,
        file_name,
        extra_field,
        file_comment,
    };
    Ok((h, end))
}

/// Decodes the end-of-central-directory record at the start of `input`; on
/// success also gives the number of bytes it spans.
pub fn parse_end_of_central_directory_record(input: &[u8]) -> (r: Result<(EndOfCentralDirectoryRecord, usize), ParseError>)
    ensures
        match r {
            Ok((h, n)) => spec_end_of_central_directory_record(input@) == Ok::<_, ParseError>((h@, n as int)),
            Err(e) => spec_end_of_central_directory_record(input@) == Err::<(EndOfCentralDirectoryRecordView, int), _>(e),
        },
{
    let len = input.len();
    if len < END_FIXED_LEN {
        return Err(ParseError::TruncatedInput);
    }
    let signature = read_u32(input, 0);
    let number_of_this_disk = read_u16(input, 4);
    let number_of_the_disk_with_the_start_of_the_central_directory = read_u16(input, 6);
    let total_number_of_entries_in_the_central_directory_on_this_disk = read_u16(input, 8);
    let total_number_of_entries_in_the_central_directory = read_u16(input, 10);
    let size_of_the_central_directory = read_u32(input, 12);
    let offset_of_start_of_central_directory_with_respect_to_the_starting_disk_number = read_u32(input, 16);
    let zip_file_comment_length = read_u16(input, 20);
    if len - END_FIXED_LEN < zip_file_comment_length as usize {
        return Err(ParseError::TruncatedInput);
    }
    let end: usize = END_FIXED_LEN + zip_file_comment_length as usize;
    let zip_file_comment = read_optional_block(input, END_FIXED_LEN, end);
    let h = EndOfCentralDirectoryRecord {
        signature,
        number_of_this_disk,
        number_of_the_disk_with_the_start_of_the_central_directory,
        total_number_of_entries_in_the_central_directory_on_this_disk,
        total_number_of_entries_in_the_central_directory,
        size_of_the_central_directory,
        offset_of_start_of_central_directory_with_respect_to_the_starting_disk_number,
        zip_file_comment_length,
        zip_file_comment,
    };
    Ok((h, end))
}

/// Decodes the record at the start of `input`, chosen by its signature; on
/// success also gives the number of bytes it spans.
pub fn parse_zip_file_part(input: &[u8]) -> (r: Result<(ZipFilePart, usize), ParseError>)
    ensures
        match r {
            Ok((p, n)) => spec_zip_file_part(input@) == Ok::<_, ParseError>((p@, n as int)),
            Err(e) => spec_zip_file_part(input@) == Err::<(ZipFilePartView, int), _>(e),
        },
{
    reveal(spec_zip_file_part);
    if input.len() < 4 {
        return Err(ParseError::TruncatedInput);
    }
    let signature = read_u32(input, 0);
    if signature == LOCAL_FILE_HEADER_SIGNATURE {
        match parse_local_file_header(input) {
            Ok((h, n)) => Ok((ZipFilePart::LocalFileHeader(h), n)),
            Err(e) => Err(e),
        }
    } else if signature == CENTRAL_DIRECTORY_HEADER_SIGNATURE {
        match parse_central_directory_header(input) {
            Ok((h, n)) => Ok((ZipFilePart::CentralDirectoryHeader(h), n)),
            Err(e) => Err(e),
        }
    } else if signature == END_OF_CENTRAL_DIRECTORY_SIGNATURE {
        match parse_end_of_central_directory_record(input) {
            Ok((h, n)) => Ok((ZipFilePart::EndOfCentralDirectoryRecord(h), n)),
            Err(e) => Err(e),
        }
    } else {
        Err(ParseError::UnrecognizedSignature)
    }
}

/// Prepends `pre` to a successful decode and keeps an error as it is.
pub open spec fn prepend_parts(
    pre: Seq<ZipFilePartView>,
    r: Result<Seq<ZipFilePartView>, ParseError>,
) -> Result<Seq<ZipFilePartView>, ParseError> {
    match r {
        Ok(rest) => Ok(pre + rest),
        Err(e) => Err(e),
    }
}

/// Decodes a whole buffer as an archive: records laid end to end, the last of
/// them ending exactly at the end of the buffer. Any failure fails the whole.
pub fn parse_zip_file(buffer: &[u8]) -> (r: Result<ZipFile, ParseError>)
    ensures
        match r {
            Ok(z) => spec_zip_file(buffer@) == Ok::<_, ParseError>(z@),
            Err(e) => spec_zip_file(buffer@) == Err::<Seq<ZipFilePartView>, _>(e),
        },
{
    let len = buffer.len();
    let mut parts: Vec<ZipFilePart> = Vec::new();
    let mut pos: usize = 0;
    proof {
        assert(buffer@.subrange(0, len as int) =~= buffer@);
        assert(parts@.map_values(|p: ZipFilePart| p@) =~= Seq::<ZipFilePartView>::empty());
        match spec_zip_file(buffer@) {
            Ok(all) => {
                assert(Seq::<ZipFilePartView>::empty() + all =~= all);
            },
            Err(_) => {},
        }
    }
    loop
        invariant
            len == buffer@.len(),
            pos < len || (pos == 0 && len == 0),
            spec_zip_file(buffer@) == prepend_parts(
                parts@.map_values(|p: ZipFilePart| p@),
                spec_zip_file(buffer@.subrange(pos as int, len as int)),
            ),
        decreases len - pos,
    {
        let rest = &buffer[pos..len];
        proof {
            lemma_zip_file_part_len(rest@);
        }
        match parse_zip_file_part(rest) {
            Ok((part, n)) => {
                let ghost before = parts@.map_values(|p: ZipFilePart| p@);
                let ghost pv = part@;
                parts.push(part);
                assert(parts@.map_values(|p: ZipFilePart| p@) =~= before.push(pv));
                if n == rest.len() {
                    assert(before.push(pv) =~= before + seq![pv]);
                    return Ok(ZipFile { parts });
                }
                proof {
                    let next = buffer@.subrange(pos + n, len as int);
                    assert(rest@.subrange(n as int, rest@.len() as int) =~= next);
                    match spec_zip_file(next) {
                        Ok(tail) => {
                            assert(before + (seq![pv] + tail) =~= before.push(pv) + tail);
                        },
                        Err(_) => {},
                    }
                }
                pos = pos + n;
            },
            Err(e) => {
                return Err(e);
            },
        }
    }
}

// ---------------------------------------------------------------------------
// Facts about decoding
// ---------------------------------------------------------------------------

/// A buffer whose first four bytes are none of the three record signatures is
/// refused as an unrecognized signature.
pub proof fn lemma_unknown_signature(s: Seq<u8>)
    requires
        s.len() >= 4,
        le32(s, 0) != LOCAL_FILE_HEADER_SIGNATURE,
        le32(s, 0) != CENTRAL_DIRECTORY_HEADER_SIGNATURE,
        le32(s, 0) != END_OF_CENTRAL_DIRECTORY_SIGNATURE,
    ensures
        spec_zip_file(s) == Err::<Seq<ZipFilePartView>, _>(ParseError::UnrecognizedSignature),
{
    reveal(spec_zip_file_part);
}

proof fn lemma_prefix_bytes(s: Seq<u8>, k: int, i: int)
    requires
        0 <= i < k <= s.len(),
    ensures
        s.subrange(0, k)[i] == s[i],
{
}

/// Cutting a record that decodes anywhere before its end, its fixed fields
/// included, makes the whole buffer fail as truncated input.
pub proof fn lemma_truncated_record(s: Seq<u8>, k: int)
    requires
        spec_zip_file_part(s) is Ok,
        0 <= k < spec_zip_file_part(s)->Ok_0.1,
    ensures
        spec_zip_file_part(s.subrange(0, k)) == Err::<(ZipFilePartView, int), _>(ParseError::TruncatedInput),
        spec_zip_file(s.subrange(0, k)) == Err::<Seq<ZipFilePartView>, _>(ParseError::TruncatedInput),
{
    reveal(spec_zip_file_part);
    lemma_zip_file_part_len(s);
    let t = s.subrange(0, k);
    if k >= 4 {
        assert forall|i: int| 0 <= i < k implies #[trigger] t[i] == s[i] by {
            lemma_prefix_bytes(s, k, i);
        }
        assert(le32(t, 0) == le32(s, 0));
        if le32(s, 0) == LOCAL_FILE_HEADER_SIGNATURE {
            if k >= 30 {
                assert(le16(t, 8) == le16(s, 8));
                assert(le32(t, 22) == le32(s, 22));
                assert(le16(t, 26) == le16(s, 26));
                assert(le16(t, 28) == le16(s, 28));
                let name_end = 30 + le16(s, 26);
                if k >= name_end {
                    assert(t.subrange(30, name_end) =~= s.subrange(30, name_end));
                }
            }
        } else if le32(s, 0) == CENTRAL_DIRECTORY_HEADER_SIGNATURE {
            if k >= 46 {
                assert(le16(t, 28) == le16(s, 28));
                assert(le16(t, 30) == le16(s, 30));
                assert(le16(t, 32) == le16(s, 32));
                let name_end = 46 + le16(s, 28);
                if k >= name_end {
                    assert(t.subrange(46, name_end) =~= s.subrange(46, name_end));
                }
            }
        } else {
            if k >= 22 {
                assert(le16(t, 20) == le16(s, 20));
            }
        }
    }
}

} // verus!
