//! Comic book archives: the safety limits on what an archive may expand to, the
//! classification of its entries, image checks, ComicInfo.xml, page order and
//! the fixed-layout book that the pages become.
use vstd::prelude::*;
use crate::comic_info::{
    comic_info_spec, cover_record, describes_events, is_deleted, kept_pages, remapped_cover, xml_events_of, ComicInfo,
    ComicInfoPage,
};
use crate::cache::{hash_source_bytes, sha256_hex_of};
use crate::natural::{keys_view, natural_order_positions, sorted_positions};
use crate::errors::{BaegunError, ErrorKind};
use crate::models::{
    BookMetadata, ConvertConfig, ImageAsset, MetadataView, PageProgressionDirection, RenderedBook,
    RenderedChapter,
};
use crate::normalize::{asset_view, chapter_view};
use crate::paths::{
    extension_of, file_stem_of, part_view, path_components, path_extension, path_file_stem,
    path_parts_of, PartView, PathPart,
};
use crate::text::{
    chars_eq, chars_of, clone_opt, concat_str, contains_char_exec, contains_exec, contains_seq,
    decimal, decimal_exec, eq_ignore_case, eq_ignore_case_str, extend_chars, extend_str, join,
    join_all, lemma_deep_view_chars, opt_view, split_on, split_on_exec, starts_with,
    starts_with_exec, string_of, strings_view, trim, trim_exec, xml_escape, xml_escape_spec,
    zero_padded, zero_padded_exec,
};

verus! {

/// At most this many entries in one archive.
pub const MAX_ARCHIVE_ENTRIES: usize = 10000;

/// At most this many image pages in one book.
pub const MAX_PAGES: usize = 2000;

/// At most this many bytes from any one entry (100 MiB).
pub const MAX_ENTRY_BYTES: u64 = 104857600;

/// At most this many bytes from all entries together (2 GiB).
pub const MAX_TOTAL_EXPANDED_BYTES: u64 = 2147483648;

/// At most this many expanded bytes per compressed byte.
pub const MAX_COMPRESSION_RATIO: u64 = 1000;

/// At most this many bytes of ComicInfo.xml (1 MiB).
pub const MAX_COMIC_INFO_BYTES: u64 = 1048576;

/// At most this many pixels along either axis of a page.
pub const MAX_IMAGE_DIMENSION: u32 = 100000;

/// At most this many pixels in a page.
pub const MAX_IMAGE_PIXELS: u64 = 100000000;

/// At most this many bytes for a decoded page (512 MiB).
pub const MAX_DECODED_IMAGE_BYTES: usize = 536870912;

/// At most this many bytes of working memory for the PNG decoder (64 MiB).
pub const MAX_DECODER_WORK_BYTES: usize = 67108864;

/// Whether an error is a `BadArgs` error with exactly this message.
pub open spec fn bad_args_with(e: BaegunError, message: Seq<char>) -> bool {
    e.kind == ErrorKind::BadArgs && e.message@ == message
}

fn bad_args3(a: &str, b: &str, c: &str) -> (e: BaegunError)
    ensures
        bad_args_with(e, a@ + b@ + c@),
{
    let ab = concat_str(a, b);
    BaegunError::bad_args(concat_str(ab.as_str(), c))
}

fn bad_args1(a: &str) -> (e: BaegunError)
    ensures
        bad_args_with(e, a@),
{
    proof {
        reveal_strlit("");
        assert(a@ + ""@ =~= a@);
    }
    BaegunError::bad_args(concat_str(a, ""))
}

// ---------------------------------------------------------------------------
// Expansion limits.
// ---------------------------------------------------------------------------

/// More than `MAX_COMPRESSION_RATIO` expanded bytes per compressed byte, or any
/// expanded byte from nothing compressed.
pub open spec fn exceeds_ratio_spec(expanded: u64, compressed: u64) -> bool {
    expanded > 0 && (compressed == 0 || expanded > compressed * MAX_COMPRESSION_RATIO)
}

pub fn exceeds_compression_ratio(expanded_size: u64, compressed_size: u64) -> (r: bool)
    ensures
        r == exceeds_ratio_spec(expanded_size, compressed_size),
{
    expanded_size > 0 && (compressed_size == 0 || (expanded_size as u128) > (compressed_size as u128)
        * 1000u128)
}

/// The message for bytes actually read from an entry that break a limit, if any:
/// the entry's own limit, then the total, then the compression ratio.
pub open spec fn observed_limits_error(path: Seq<char>, entry_expanded: u64, total_expanded: u64, compressed: u64) -> Option<Seq<char>> {
    if entry_expanded > MAX_ENTRY_BYTES {
        Some("CBZ entry '"@ + path + "' exceeds the 104857600-byte expanded limit while reading."@)
    } else if total_expanded > MAX_TOTAL_EXPANDED_BYTES {
        Some("CBZ entries exceed the 2147483648-byte total expanded limit while reading."@)
    } else if exceeds_ratio_spec(entry_expanded, compressed) {
        Some("CBZ entry '"@ + path + "' exceeds the 1000:1 compression-ratio limit while reading."@)
    } else {
        None
    }
}

/// Checks what was read so far from an entry against the limits.
pub fn validate_observed_limits(path: &str, entry_expanded: u64, total_expanded: u64, compressed_size: u64) -> (r: Result<(), BaegunError>)
    ensures
        match r {
            Ok(_) => observed_limits_error(path@, entry_expanded, total_expanded, compressed_size) is None,
            Err(e) => observed_limits_error(path@, entry_expanded, total_expanded, compressed_size)
                == Some(e.message@) && e.kind == ErrorKind::BadArgs,
        },
{
    if entry_expanded > MAX_ENTRY_BYTES {
        return Err(bad_args3("CBZ entry '", path, "' exceeds the 104857600-byte expanded limit while reading."));
    }
    if total_expanded > MAX_TOTAL_EXPANDED_BYTES {
        return Err(bad_args1("CBZ entries exceed the 2147483648-byte total expanded limit while reading."));
    }
    if exceeds_compression_ratio(entry_expanded, compressed_size) {
        return Err(bad_args3("CBZ entry '", path, "' exceeds the 1000:1 compression-ratio limit while reading."));
    }
    Ok(())
}

/// What an archive entry is taken for.
#[derive(Debug, Clone, Copy, PartialEq, Eq, Structural)]
pub enum EntryKind {
    ImageCandidate,
    ComicInfo,
    Ignored,
}

/// A regular archive entry that passed the declared-size checks.
#[derive(Debug, Clone)]
pub struct EntryDescriptor {
    pub index: usize,
    pub path: String,
    pub kind: EntryKind,
    pub declared_size: u64,
    pub compressed_size: u64,
}

pub open spec fn min_u64(a: int, b: int) -> int {
    if a <= b {
        a
    } else {
        b
    }
}

/// How many bytes to let a reader take from an entry: one more than the least of
/// its kind's limit, the room left in the total, and what the compression ratio
/// allows, so that going over any of them is seen.
pub open spec fn read_limit_spec(kind: EntryKind, compressed: u64, total_expanded: u64) -> int {
    let ratio_limit = min_u64(compressed * MAX_COMPRESSION_RATIO, u64::MAX as int);
    let remaining = if total_expanded >= MAX_TOTAL_EXPANDED_BYTES {
        0
    } else {
        MAX_TOTAL_EXPANDED_BYTES - total_expanded
    };
    let kind_limit = if kind == EntryKind::ComicInfo {
        MAX_COMIC_INFO_BYTES as int
    } else {
        MAX_ENTRY_BYTES as int
    };
    min_u64(min_u64(min_u64(min_u64(kind_limit, MAX_ENTRY_BYTES as int), remaining), ratio_limit) + 1, u64::MAX as int)
}

pub fn observed_read_limit(descriptor: &EntryDescriptor, total_expanded: u64) -> (r: u64)
    ensures
        r == read_limit_spec(descriptor.kind, descriptor.compressed_size, total_expanded),
{
    let ratio_limit = match descriptor.compressed_size.checked_mul(MAX_COMPRESSION_RATIO) {
        Some(v) => v,
        None => u64::MAX,
    };
    let total_remaining = MAX_TOTAL_EXPANDED_BYTES.saturating_sub(total_expanded);
    let kind_limit = if descriptor.kind == EntryKind::ComicInfo {
        MAX_COMIC_INFO_BYTES
    } else {
        MAX_ENTRY_BYTES
    };
    let mut m = if kind_limit < MAX_ENTRY_BYTES {
        kind_limit
    } else {
        MAX_ENTRY_BYTES
    };
    if total_remaining < m {
        m = total_remaining;
    }
    if ratio_limit < m {
        m = ratio_limit;
    }
    m.saturating_add(1)
}

/// The running byte counts after one more chunk of `read` bytes of an entry, or
/// the error that the chunk brings.
pub open spec fn account_chunk_spec(path: Seq<char>, kind: EntryKind, compressed: u64, entry_expanded: u64, total_expanded: u64, read: u64) -> Result<(u64, u64), Seq<char>> {
    if entry_expanded + read > u64::MAX {
        Err("CBZ entry '"@ + path + "' expanded size overflowed."@)
    } else if total_expanded + read > u64::MAX {
        Err("CBZ total expanded size overflowed."@)
    } else {
        let e = (entry_expanded + read) as u64;
        let t = (total_expanded + read) as u64;
        match observed_limits_error(path, e, t, compressed) {
            Some(m) => Err(m),
            None => if kind == EntryKind::ComicInfo && e > MAX_COMIC_INFO_BYTES {
                Err("ComicInfo.xml exceeds the 1048576-byte limit while reading."@)
            } else {
                Ok((e, t))
            },
        }
    }
}

/// Accounts for one chunk read from an entry.
pub fn account_chunk(descriptor: &EntryDescriptor, entry_expanded: u64, total_expanded: u64, read: u64) -> (r: Result<(u64, u64), BaegunError>)
    ensures
        match r {
            Ok(p) => account_chunk_spec(descriptor.path@, descriptor.kind, descriptor.compressed_size, entry_expanded, total_expanded, read) == Ok::<(u64, u64), Seq<char>>(p),
            Err(e) => e.kind == ErrorKind::BadArgs && account_chunk_spec(descriptor.path@, descriptor.kind, descriptor.compressed_size, entry_expanded, total_expanded, read) == Err::<(u64, u64), Seq<char>>(e.message@),
        },
{
    let e = match entry_expanded.checked_add(read) {
        Some(e) => e,
        None => {
            return Err(bad_args3("CBZ entry '", descriptor.path.as_str(), "' expanded size overflowed."));
        },
    };
    let t = match total_expanded.checked_add(read) {
        Some(t) => t,
        None => {
            return Err(bad_args1("CBZ total expanded size overflowed."));
        },
    };
    validate_observed_limits(descriptor.path.as_str(), e, t, descriptor.compressed_size)?;
    if descriptor.kind == EntryKind::ComicInfo && e > MAX_COMIC_INFO_BYTES {
        return Err(bad_args1("ComicInfo.xml exceeds the 1048576-byte limit while reading."));
    }
    Ok((e, t))
}

/// Whether the bytes of an entry of this kind are kept once read.
pub fn keeps_bytes(kind: EntryKind) -> (r: bool)
    ensures
        r == (kind != EntryKind::Ignored),
{
    kind != EntryKind::Ignored
}

/// The message when an entry expanded to other than its declared size.
pub open spec fn size_mismatch_message(path: Seq<char>, expanded: u64, declared: u64) -> Seq<char> {
    "CBZ entry '"@ + path + "' expanded to "@ + decimal(expanded as nat) + " bytes, but its ZIP metadata declares "@ + decimal(declared as nat) + " bytes."@
}

/// Checks that an entry, fully read, expanded to exactly its declared size.
pub fn check_expanded_size(descriptor: &EntryDescriptor, entry_expanded: u64) -> (r: Result<(), BaegunError>)
    ensures
        r is Ok <==> entry_expanded == descriptor.declared_size,
        r matches Err(e) ==> bad_args_with(e, size_mismatch_message(descriptor.path@, entry_expanded, descriptor.declared_size)),
{
    if entry_expanded != descriptor.declared_size {
        let a = bad_args3("CBZ entry '", descriptor.path.as_str(), "' expanded to ");
        let n = string_of(&decimal_exec(entry_expanded));
        let d = string_of(&decimal_exec(descriptor.declared_size));
        let m1 = concat_str(a.message.as_str(), n.as_str());
        let m2 = concat_str(m1.as_str(), " bytes, but its ZIP metadata declares ");
        let m3 = concat_str(m2.as_str(), d.as_str());
        let m4 = concat_str(m3.as_str(), " bytes.");
        return Err(BaegunError::bad_args(m4));
    }
    Ok(())
}


// ---------------------------------------------------------------------------
// Images.
// ---------------------------------------------------------------------------

/// The number of pixels of a page, or why there is none.
pub open spec fn pixel_count_spec(width: u32, height: u32) -> Result<int, Seq<char>> {
    if width == 0 || height == 0 {
        Err("image dimensions must be non-zero"@)
    } else {
        Ok(width * height)
    }
}

pub fn pixel_count(width: u32, height: u32) -> (r: Result<u64, String>)
    ensures
        match r {
            Ok(n) => pixel_count_spec(width, height) == Ok::<int, Seq<char>>(n as int),
            Err(m) => pixel_count_spec(width, height) == Err::<int, Seq<char>>(m@),
        },
{
    proof {
        reveal_strlit("");
    }
    if width == 0 || height == 0 {
        return Err(concat_str("image dimensions must be non-zero", ""));
    }
    assert((width as u64) * (height as u64) <= 0xffff_ffffu64 * 0xffff_ffffu64) by (nonlinear_arith)
        requires
            width <= 0xffff_ffffu64,
            height <= 0xffff_ffffu64,
    ;
    Ok((width as u64) * (height as u64))
}

/// Why a page of this size may not be decoded, if it may not: each axis, then the
/// pixel count, then the decoded size.
pub open spec fn image_limits_error(width: u32, height: u32, decoded_bytes: usize) -> Option<Seq<char>> {
    if width > MAX_IMAGE_DIMENSION || height > MAX_IMAGE_DIMENSION {
        Some("image dimensions "@ + decimal(width as nat) + "x"@ + decimal(height as nat)
            + " exceed the 100000-pixel per-axis limit"@)
    } else if width == 0 || height == 0 {
        Some("image dimensions must be non-zero"@)
    } else if width * height > MAX_IMAGE_PIXELS {
        Some("image has "@ + decimal((width * height) as nat) + " pixels; limit is 100000000"@)
    } else if decoded_bytes > MAX_DECODED_IMAGE_BYTES {
        Some("decoded image requires "@ + decimal(decoded_bytes as nat)
            + " bytes; limit is 536870912 bytes"@)
    } else {
        None
    }
}

fn cat_number(a: &str, n: u64, b: &str) -> (r: String)
    ensures
        r@ == a@ + decimal(n as nat) + b@,
{
    let d = string_of(&decimal_exec(n));
    let x = concat_str(a, d.as_str());
    concat_str(x.as_str(), b)
}

pub fn validate_image_limits(width: u32, height: u32, decoded_bytes: usize) -> (r: Result<(), String>)
    ensures
        match r {
            Ok(_) => image_limits_error(width, height, decoded_bytes) is None,
            Err(m) => image_limits_error(width, height, decoded_bytes) == Some(m@),
        },
{
    if width > MAX_IMAGE_DIMENSION || height > MAX_IMAGE_DIMENSION {
        let a = cat_number("image dimensions ", width as u64, "x");
        let b = cat_number(a.as_str(), height as u64, " exceed the 100000-pixel per-axis limit");
        return Err(b);
    }
    let pixels = pixel_count(width, height)?;
    if pixels > MAX_IMAGE_PIXELS {
        return Err(cat_number("image has ", pixels, " pixels; limit is 100000000"));
    }
    if decoded_bytes > MAX_DECODED_IMAGE_BYTES {
        return Err(cat_number("decoded image requires ", decoded_bytes as u64, " bytes; limit is 536870912 bytes"));
    }
    Ok(())
}

/// What a PNG decoder reports once it has read everything up to the image data,
/// with at most `work_limit` bytes of working memory: width, height, the size of
/// the decoded frame, and whether the image is animated; or the decoder's error.
pub uninterp spec fn png_header_of(bytes: Seq<u8>, work_limit: usize) -> Result<(u32, u32, usize, bool), Seq<char>>;

/// Reads a PNG's header with `png::Decoder::new_with_limits`, text and ICC chunks
/// ignored, then `read_info`.
#[verifier::external_body]
fn png_header(bytes: &[u8], work_limit: usize) -> (r: Result<(u32, u32, usize, bool), String>)
    ensures
        match r {
            Ok(h) => png_header_of(bytes@, work_limit) == Ok::<(u32, u32, usize, bool), Seq<char>>(h),
            Err(m) => png_header_of(bytes@, work_limit) == Err::<(u32, u32, usize, bool), Seq<char>>(m@),
        },
{
    let mut decoder = png::Decoder::new_with_limits(bytes, png::Limits { bytes: work_limit });
    decoder.set_ignore_text_chunk(true);
    decoder.set_ignore_iccp_chunk(true);
    let reader = decoder.read_info().map_err(|error| error.to_string())?;
    let info = reader.info();
    Ok((info.width, info.height, reader.output_buffer_size(), info.animation_control.is_some()))
}

/// Whether a PNG decoder, with the same settings, decodes the first frame; or its error.
pub uninterp spec fn png_frame_of(bytes: Seq<u8>, work_limit: usize) -> Result<(), Seq<char>>;

/// Decodes a PNG's first frame into a buffer of `output_buffer_size` bytes with
/// `png::Reader::next_frame`.
#[verifier::external_body]
fn png_decode_frame(bytes: &[u8], work_limit: usize) -> (r: Result<(), String>)
    ensures
        match r {
            Ok(_) => png_frame_of(bytes@, work_limit) == Ok::<(), Seq<char>>(()),
            Err(m) => png_frame_of(bytes@, work_limit) == Err::<(), Seq<char>>(m@),
        },
{
    let mut decoder = png::Decoder::new_with_limits(bytes, png::Limits { bytes: work_limit });
    decoder.set_ignore_text_chunk(true);
    decoder.set_ignore_iccp_chunk(true);
    let mut reader = decoder.read_info().map_err(|error| error.to_string())?;
    let mut decoded = vec![0_u8; reader.output_buffer_size()];
    reader.next_frame(&mut decoded).map(|_| ()).map_err(|error| error.to_string())
}

/// Why a PNG whose header reads as `header` may not be decoded, if it may not.
pub open spec fn png_header_error(header: (u32, u32, usize, bool)) -> Option<Seq<char>> {
    if header.3 {
        Some("animated PNG pages are not supported"@)
    } else {
        image_limits_error(header.0, header.1, header.2)
    }
}

/// Checks a PNG header: no animation, and within the image limits.
pub fn check_png_header(header: (u32, u32, usize, bool)) -> (r: Result<(), String>)
    ensures
        match r {
            Ok(_) => png_header_error(header) is None,
            Err(m) => png_header_error(header) == Some(m@),
        },
{
    proof {
        reveal_strlit("");
    }
    if header.3 {
        return Err(concat_str("animated PNG pages are not supported", ""));
    }
    validate_image_limits(header.0, header.1, header.2)
}

/// The width and height of a PNG page, or why it is refused.
pub open spec fn png_inspection(bytes: Seq<u8>) -> Result<(u32, u32), Seq<char>> {
    match png_header_of(bytes, MAX_DECODER_WORK_BYTES) {
        Err(m) => Err("PNG decoder rejected header: "@ + m),
        Ok(h) => match png_header_error(h) {
            Some(m) => Err(m),
            None => match png_frame_of(bytes, MAX_DECODER_WORK_BYTES) {
                Err(m) => Err("PNG decoder rejected image data: "@ + m),
                Ok(_) => Ok((h.0, h.1)),
            },
        },
    }
}

fn inspect_png(bytes: &[u8]) -> (r: Result<(u32, u32), String>)
    ensures
        match r {
            Ok(d) => png_inspection(bytes@) == Ok::<(u32, u32), Seq<char>>(d),
            Err(m) => png_inspection(bytes@) == Err::<(u32, u32), Seq<char>>(m@),
        },
{
    let header = match png_header(bytes, MAX_DECODER_WORK_BYTES) {
        Ok(h) => h,
        Err(m) => {
            return Err(concat_str("PNG decoder rejected header: ", m.as_str()));
        },
    };
    check_png_header(header)?;
    match png_decode_frame(bytes, MAX_DECODER_WORK_BYTES) {
        Ok(_) => Ok((header.0, header.1)),
        Err(m) => Err(concat_str("PNG decoder rejected image data: ", m.as_str())),
    }
}

/// What a JPEG decoder that may use at most `max_buffer` bytes reports after
/// `read_info`: the image's width and height when it gives them; or its error.
pub uninterp spec fn jpeg_header_of(bytes: Seq<u8>, max_buffer: usize) -> Result<Option<(u16, u16)>, Seq<char>>;

/// Reads a JPEG's header with `jpeg_decoder::Decoder::read_info`, then `info`.
#[verifier::external_body]
fn jpeg_header(bytes: &[u8], max_buffer: usize) -> (r: Result<Option<(u16, u16)>, String>)
    ensures
        match r {
            Ok(h) => jpeg_header_of(bytes@, max_buffer) == Ok::<Option<(u16, u16)>, Seq<char>>(h),
            Err(m) => jpeg_header_of(bytes@, max_buffer) == Err::<Option<(u16, u16)>, Seq<char>>(m@),
        },
{
    let mut decoder = jpeg_decoder::Decoder::new(bytes);
    decoder.set_max_decoding_buffer_size(max_buffer);
    decoder.read_info().map_err(|error| error.to_string())?;
    Ok(decoder.info().map(|info| (info.width, info.height)))
}

/// Whether a JPEG decoder with the same limit decodes the image; or its error.
pub uninterp spec fn jpeg_decoded_of(bytes: Seq<u8>, max_buffer: usize) -> Result<(), Seq<char>>;

/// Decodes a JPEG with `jpeg_decoder::Decoder::decode`.
#[verifier::external_body]
fn jpeg_decode(bytes: &[u8], max_buffer: usize) -> (r: Result<(), String>)
    ensures
        match r {
            Ok(_) => jpeg_decoded_of(bytes@, max_buffer) == Ok::<(), Seq<char>>(()),
            Err(m) => jpeg_decoded_of(bytes@, max_buffer) == Err::<(), Seq<char>>(m@),
        },
{
    let mut decoder = jpeg_decoder::Decoder::new(bytes);
    decoder.set_max_decoding_buffer_size(max_buffer);
    decoder.decode().map(|_| ()).map_err(|error| error.to_string())
}

/// The width and height that a JPEG header gives, once they pass the image
/// limits with four bytes per pixel; or why they do not.
pub open spec fn jpeg_header_check(info: Option<(u16, u16)>) -> Result<(u32, u32), Seq<char>> {
    match info {
        None => Err("JPEG decoder returned no image information"@),
        Some((w, h)) => match pixel_count_spec(w as u32, h as u32) {
            Err(m) => Err(m),
            Ok(p) => if p * 4 > usize::MAX {
                Err("JPEG decoded size overflows allocation limits"@)
            } else {
                match image_limits_error(w as u32, h as u32, (p * 4) as usize) {
                    Some(m) => Err(m),
                    None => Ok((w as u32, h as u32)),
                }
            },
        },
    }
}

/// Checks the dimensions that a JPEG header gives.
pub fn check_jpeg_header(info: Option<(u16, u16)>) -> (r: Result<(u32, u32), String>)
    ensures
        match r {
            Ok(d) => jpeg_header_check(info) == Ok::<(u32, u32), Seq<char>>(d),
            Err(m) => jpeg_header_check(info) == Err::<(u32, u32), Seq<char>>(m@),
        },
{
    let (w, h) = match info {
        Some(d) => d,
        None => {
            proof {
                reveal_strlit("");
            }
            return Err(concat_str("JPEG decoder returned no image information", ""));
        },
    };
    let width = w as u32;
    let height = h as u32;
    let pixels = pixel_count(width, height)?;
    assert(pixels <= 0xffffu64 * 0xffffu64) by (nonlinear_arith)
        requires
            pixels == width * height,
            width <= 0xffff,
            height <= 0xffff,
    ;
    let bound = pixels * 4;
    if bound > usize::MAX as u64 {
        proof {
            reveal_strlit("");
        }
        return Err(concat_str("JPEG decoded size overflows allocation limits", ""));
    }
    validate_image_limits(width, height, bound as usize)?;
    Ok((width, height))
}

/// The width and height of a JPEG page, or why it is refused.
pub open spec fn jpeg_inspection(bytes: Seq<u8>) -> Result<(u32, u32), Seq<char>> {
    match jpeg_header_of(bytes, MAX_DECODED_IMAGE_BYTES) {
        Err(m) => Err("JPEG decoder rejected header: "@ + m),
        Ok(info) => match jpeg_header_check(info) {
            Err(m) => Err(m),
            Ok(d) => match jpeg_decoded_of(bytes, MAX_DECODED_IMAGE_BYTES) {
                Err(m) => Err("JPEG decoder rejected image data: "@ + m),
                Ok(_) => Ok(d),
            },
        },
    }
}

fn inspect_jpeg(bytes: &[u8]) -> (r: Result<(u32, u32), String>)
    ensures
        match r {
            Ok(d) => jpeg_inspection(bytes@) == Ok::<(u32, u32), Seq<char>>(d),
            Err(m) => jpeg_inspection(bytes@) == Err::<(u32, u32), Seq<char>>(m@),
        },
{
    let info = match jpeg_header(bytes, MAX_DECODED_IMAGE_BYTES) {
        Ok(i) => i,
        Err(m) => {
            return Err(concat_str("JPEG decoder rejected header: ", m.as_str()));
        },
    };
    let d = check_jpeg_header(info)?;
    match jpeg_decode(bytes, MAX_DECODED_IMAGE_BYTES) {
        Ok(_) => Ok(d),
        Err(m) => Err(concat_str("JPEG decoder rejected image data: ", m.as_str())),
    }
}

/// The eight bytes that open every PNG file.
pub open spec fn png_signature() -> Seq<u8> {
    seq![0x89u8, 0x50u8, 0x4Eu8, 0x47u8, 0x0Du8, 0x0Au8, 0x1Au8, 0x0Au8]
}

pub open spec fn bytes_start_with(b: Seq<u8>, p: Seq<u8>) -> bool {
    b.len() >= p.len() && b.subrange(0, p.len() as int) == p
}

fn starts_with_bytes(b: &[u8], p: &[u8]) -> (r: bool)
    ensures
        r == bytes_start_with(b@, p@),
{
    if b.len() < p.len() {
        return false;
    }
    let mut i: usize = 0;
    while i < p.len()
        invariant
            i <= p.len() <= b.len(),
            forall|k: int| 0 <= k < i ==> b@[k] == p@[k],
        decreases p.len() - i,
    {
        if b[i] != p[i] {
            return false;
        }
        i += 1;
    }
    assert(b@.subrange(0, p.len() as int) =~= p@);
    true
}

/// What a page's bytes are, judged by their content alone: media type, file
/// extension, width and height; or why they are no usable page.
pub open spec fn image_inspection(bytes: Seq<u8>) -> Result<(Seq<char>, Seq<char>, u32, u32), Seq<char>> {
    if bytes_start_with(bytes, png_signature()) {
        match png_inspection(bytes) {
            Ok((w, h)) => Ok(("image/png"@, "png"@, w, h)),
            Err(m) => Err(m),
        }
    } else if bytes_start_with(bytes, seq![0xFFu8, 0xD8u8]) {
        match jpeg_inspection(bytes) {
            Ok((w, h)) => Ok(("image/jpeg"@, "jpg"@, w, h)),
            Err(m) => Err(m),
        }
    } else {
        Err("content is not JPEG or PNG"@)
    }
}

/// Sniffs and fully decodes a page image; the file name plays no part.
pub fn inspect_image(bytes: &[u8]) -> (r: Result<(&'static str, &'static str, u32, u32), String>)
    ensures
        match r {
            Ok(t) => image_inspection(bytes@) == Ok::<(Seq<char>, Seq<char>, u32, u32), Seq<char>>((t.0@, t.1@, t.2, t.3)),
            Err(m) => image_inspection(bytes@) == Err::<(Seq<char>, Seq<char>, u32, u32), Seq<char>>(m@),
        },
{
    let png_sig: [u8; 8] = [0x89, 0x50, 0x4E, 0x47, 0x0D, 0x0A, 0x1A, 0x0A];
    let jpeg_sig: [u8; 2] = [0xFF, 0xD8];
    assert(png_sig@ =~= png_signature());
    assert(jpeg_sig@ =~= seq![0xFFu8, 0xD8u8]);
    if starts_with_bytes(bytes, &png_sig) {
        let (w, h) = inspect_png(bytes)?;
        return Ok(("image/png", "png", w, h));
    }
    if starts_with_bytes(bytes, &jpeg_sig) {
        let (w, h) = inspect_jpeg(bytes)?;
        return Ok(("image/jpeg", "jpg", w, h));
    }
    proof {
        reveal_strlit("");
    }
    Err(concat_str("content is not JPEG or PNG", ""))
}


// ---------------------------------------------------------------------------
// Entry names and kinds.
// ---------------------------------------------------------------------------

/// Backslashes read as slashes.
pub open spec fn slashes(s: Seq<char>) -> Seq<char> {
    s.map_values(|c: char| if c == '\\' { '/' } else { c })
}

pub open spec fn unsafe_component(c: Seq<char>) -> bool {
    c == seq!['.', '.'] || c.contains('\x00')
}

/// A raw entry name that is absolute, names a drive, climbs with `..` or holds a
/// NUL character, backslashes counting as slashes.
pub open spec fn unsafe_raw_spec(name: Seq<char>) -> bool {
    let n = slashes(name);
    ||| n.len() > 0 && n[0] == '/'
    ||| n.len() >= 2 && (n[0] as u32) < 128 && n[1] == ':'
    ||| exists|k: int| 0 <= k < split_on(n, '/').len() && unsafe_component(#[trigger] split_on(n, '/')[k])
}

pub fn unsafe_raw_name(name: &str) -> (r: bool)
    ensures
        r == unsafe_raw_spec(name@),
{
    let raw = chars_of(name);
    let mut n: Vec<char> = Vec::new();
    let mut i: usize = 0;
    while i < raw.len()
        invariant
            i <= raw.len(),
            n@ == slashes(raw@.take(i as int)),
        decreases raw.len() - i,
    {
        n.push(if raw[i] == '\\' { '/' } else { raw[i] });
        assert(slashes(raw@.take(i as int + 1)) =~= slashes(raw@.take(i as int)).push(n@.last()));
        i += 1;
    }
    assert(raw@.take(raw.len() as int) == raw@);
    if n.len() > 0 && n[0] == '/' {
        return true;
    }
    if n.len() >= 2 && (n[0] as u32) < 128 && n[1] == ':' {
        return true;
    }
    let parts = split_on_exec(&n, '/');
    let dots: Vec<char> = vec!['.', '.'];
    assert(dots@ == seq!['.', '.']);
    let mut k: usize = 0;
    while k < parts.len()
        invariant
            k <= parts.len(),
            parts.deep_view() == split_on(n@, '/'),
            n@ == slashes(name@),
            dots@ == seq!['.', '.'],
            forall|j: int| 0 <= j < k ==> !unsafe_component(#[trigger] split_on(n@, '/')[j]),
        decreases parts.len() - k,
    {
        assert(parts.deep_view()[k as int] == parts[k as int]@);
        if chars_eq(&parts[k], &dots) || contains_char_exec(&parts[k], '\x00') {
            assert(unsafe_component(split_on(n@, '/')[k as int]));
            return true;
        }
        k += 1;
    }
    false
}

pub open spec fn ignored_component(c: Seq<char>) -> bool {
    ||| eq_ignore_case(c, "__MACOSX"@)
    ||| eq_ignore_case(c, ".DS_Store"@)
    ||| eq_ignore_case(c, "Thumbs.db"@)
    ||| starts_with(c, seq!['.', '_'])
}

/// A path with a component that is operating-system clutter: `__MACOSX`,
/// `.DS_Store`, `Thumbs.db`, or an AppleDouble `._` file.
pub open spec fn should_ignore_spec(path: Seq<char>) -> bool {
    exists|k: int| 0 <= k < split_on(path, '/').len() && ignored_component(#[trigger] split_on(path, '/')[k])
}

pub fn should_ignore(path: &str) -> (r: bool)
    ensures
        r == should_ignore_spec(path@),
{
    let v = chars_of(path);
    let parts = split_on_exec(&v, '/');
    let apple: Vec<char> = vec!['.', '_'];
    assert(apple@ == seq!['.', '_']);
    let mut k: usize = 0;
    while k < parts.len()
        invariant
            k <= parts.len(),
            parts.deep_view() == split_on(path@, '/'),
            apple@ == seq!['.', '_'],
            forall|j: int| 0 <= j < k ==> !ignored_component(#[trigger] split_on(path@, '/')[j]),
        decreases parts.len() - k,
    {
        assert(parts.deep_view()[k as int] == parts[k as int]@);
        let c = &parts[k];
        if eq_ignore_case_str(c, "__MACOSX") || eq_ignore_case_str(c, ".DS_Store") || eq_ignore_case_str(c, "Thumbs.db") || starts_with_exec(c, &apple) {
            assert(ignored_component(split_on(path@, '/')[k as int]));
            return true;
        }
        k += 1;
    }
    false
}

/// A path whose extension is `jpg`, `jpeg` or `png` in any ASCII case.
pub open spec fn image_extension_spec(path: Seq<char>) -> bool {
    match extension_of(path) {
        Some(e) => eq_ignore_case(e, "jpg"@) || eq_ignore_case(e, "jpeg"@) || eq_ignore_case(e, "png"@),
        None => false,
    }
}

pub fn has_image_extension(path: &str) -> (r: bool)
    ensures
        r == image_extension_spec(path@),
{
    match path_extension(path) {
        Some(e) => {
            let v = chars_of(e.as_str());
            eq_ignore_case_str(&v, "jpg") || eq_ignore_case_str(&v, "jpeg") || eq_ignore_case_str(&v, "png")
        },
        None => false,
    }
}

/// Why an entry with these Unix mode bits may not be read, if it may not: only
/// regular files and directories are.
pub open spec fn entry_type_error(mode: Option<u32>, is_dir: bool, name: Seq<char>) -> Option<Seq<char>> {
    match mode {
        None => None,
        Some(m) => {
            let ft = m & 0o170000u32;
            if ft == 0 || ft == 0o100000u32 || (ft == 0o040000u32 && is_dir) {
                None
            } else {
                Some("CBZ entry '"@ + name + "' is a "@ + (if ft == 0o120000u32 {
                    "symbolic link"@
                } else {
                    "non-regular file"@
                }) + "; only regular files and directories are allowed."@)
            }
        },
    }
}

pub fn validate_entry_type(unix_mode: Option<u32>, is_dir: bool, name: &str) -> (r: Result<(), BaegunError>)
    ensures
        match r {
            Ok(_) => entry_type_error(unix_mode, is_dir, name@) is None,
            Err(e) => e.kind == ErrorKind::BadArgs && entry_type_error(unix_mode, is_dir, name@) == Some(e.message@),
        },
{
    let mode = match unix_mode {
        Some(m) => m,
        None => {
            return Ok(());
        },
    };
    let file_type = mode & 0o170000u32;
    if file_type == 0 || file_type == 0o100000u32 || (file_type == 0o040000u32 && is_dir) {
        return Ok(());
    }
    let description = if file_type == 0o120000u32 {
        "symbolic link"
    } else {
        "non-regular file"
    };
    let a = bad_args3("CBZ entry '", name, "' is a ");
    let b = concat_str(a.message.as_str(), description);
    Err(BaegunError::bad_args(concat_str(b.as_str(), "; only regular files and directories are allowed.")))
}

/// The names of a path's components, `.` dropped; `None` when it has any other
/// kind of component.
pub open spec fn normal_names(parts: Seq<PartView>) -> Option<Seq<Seq<char>>>
    decreases parts.len(),
{
    if parts.len() == 0 {
        Some(seq![])
    } else {
        match normal_names(parts.drop_last()) {
            None => None,
            Some(r) => match parts.last() {
                PartView::Normal(s) => Some(r.push(s)),
                PartView::CurDir => Some(r),
                PartView::Other => None,
            },
        }
    }
}

/// An archive path made of plain names only, joined with `/`.
pub open spec fn normalized_path_spec(path: Seq<char>) -> Result<Seq<char>, Seq<char>> {
    match normal_names(path_parts_of(path)) {
        None => Err("Unsafe CBZ entry path '"@ + path + "'."@),
        Some(names) => if names.len() == 0 {
            Err("CBZ entry has an empty path."@)
        } else {
            Ok(join(names, seq!['/']))
        },
    }
}

pub fn normalized_relative_path(path: &str) -> (r: Result<String, BaegunError>)
    ensures
        match r {
            Ok(p) => normalized_path_spec(path@) == Ok::<Seq<char>, Seq<char>>(p@),
            Err(e) => e.kind == ErrorKind::BadArgs && normalized_path_spec(path@) == Err::<Seq<char>, Seq<char>>(e.message@),
        },
{
    broadcast use lemma_deep_view_chars;

    let parts = path_components(path);
    let ghost pv = parts@.map_values(|p: PathPart| part_view(p));
    let mut names: Vec<Vec<char>> = Vec::new();
    let mut i: usize = 0;
    while i < parts.len()
        invariant
            i <= parts.len(),
            pv == parts@.map_values(|p: PathPart| part_view(p)),
            pv == path_parts_of(path@),
            normal_names(pv.take(i as int)) == Some(names.deep_view()),
        decreases parts.len() - i,
    {
        assert(pv.take(i as int + 1).drop_last() == pv.take(i as int));
        assert(pv.take(i as int + 1).last() == part_view(parts@[i as int]));
        match &parts[i] {
            PathPart::Normal(s) => {
                let ghost before = names.deep_view();
                let c = chars_of(s.as_str());
                names.push(c);
                assert(names.deep_view() =~= before.push(s@)) by {
                    assert(names@.last().deep_view() == names@.last()@);
                }
            },
            PathPart::CurDir => {},
            PathPart::Other => {
                assert(normal_names(pv.take(i as int + 1)) is None);
                assert(normal_names(pv) is None) by {
                    lemma_normal_names_none(pv, i as int + 1);
                }
                return Err(bad_args3("Unsafe CBZ entry path '", path, "'."));
            },
        }
        i += 1;
    }
    assert(pv.take(parts.len() as int) == pv);
    if names.len() == 0 {
        return Err(bad_args1("CBZ entry has an empty path."));
    }
    let sep: Vec<char> = vec!['/'];
    assert(sep@ == seq!['/']);
    Ok(string_of(&join_all(&names, &sep)))
}

/// Once a prefix of the components has a component other than a name or `.`,
/// so has the whole path.
proof fn lemma_normal_names_none(parts: Seq<PartView>, n: int)
    requires
        0 <= n <= parts.len(),
        normal_names(parts.take(n)) is None,
    ensures
        normal_names(parts) is None,
    decreases parts.len() - n,
{
    if n < parts.len() {
        assert(parts.take(n + 1).drop_last() == parts.take(n));
        lemma_normal_names_none(parts, n + 1);
    } else {
        assert(parts.take(n) == parts);
    }
}


// ---------------------------------------------------------------------------
// Classifying the entries of an archive.
// ---------------------------------------------------------------------------

/// What the archive's central directory says of one entry.
#[derive(Debug, Clone)]
pub struct ArchiveEntry {
    pub raw_name: String,
    /// The name as a relative path inside the archive, when it is one.
    pub enclosed_name: Option<String>,
    pub unix_mode: Option<u32>,
    pub is_dir: bool,
    pub size: u64,
    pub compressed_size: u64,
}

/// A descriptor as plain values: index, path, kind, declared and compressed size.
pub open spec fn desc_view(d: EntryDescriptor) -> (usize, Seq<char>, EntryKind, u64, u64) {
    (d.index, d.path@, d.kind, d.declared_size, d.compressed_size)
}

pub open spec fn descs_view(ds: Seq<EntryDescriptor>) -> Seq<(usize, Seq<char>, EntryKind, u64, u64)> {
    ds.map_values(|d: EntryDescriptor| desc_view(d))
}

/// Whether an archive library's message says that an entry is encrypted.
pub open spec fn mentions_password(message: Seq<char>) -> bool {
    contains_seq(message, "Password required"@) || contains_seq(message, "password"@)
}

/// The error for an entry that could not be opened by index.
pub open spec fn entry_error_message(index: usize, message: Seq<char>) -> Seq<char> {
    if mentions_password(message) {
        "CBZ entry #"@ + decimal(index as nat) + " is encrypted; encrypted archives are not supported."@
    } else {
        "Failed inspecting CBZ entry #"@ + decimal(index as nat) + ": "@ + message
    }
}

pub fn map_entry_error(index: usize, message: &str) -> (e: BaegunError)
    ensures
        bad_args_with(e, entry_error_message(index, message@)),
{
    let v = chars_of(message);
    if contains_exec(&v, &chars_of("Password required")) || contains_exec(&v, &chars_of("password")) {
        BaegunError::bad_args(cat_number("CBZ entry #", index as u64, " is encrypted; encrypted archives are not supported."))
    } else {
        let a = cat_number("Failed inspecting CBZ entry #", index as u64, ": ");
        BaegunError::bad_args(concat_str(a.as_str(), message))
    }
}

/// The error for an entry that could not be opened by name.
pub open spec fn named_entry_error_message(name: Seq<char>, message: Seq<char>) -> Seq<char> {
    if mentions_password(message) {
        "CBZ entry '"@ + name + "' is encrypted; encrypted archives are not supported."@
    } else {
        "Failed opening CBZ entry '"@ + name + "': "@ + message
    }
}

pub fn map_named_entry_error(name: &str, message: &str) -> (e: BaegunError)
    ensures
        bad_args_with(e, named_entry_error_message(name@, message@)),
{
    let v = chars_of(message);
    if contains_exec(&v, &chars_of("Password required")) || contains_exec(&v, &chars_of("password")) {
        bad_args3("CBZ entry '", name, "' is encrypted; encrypted archives are not supported.")
    } else {
        let a = bad_args3("Failed opening CBZ entry '", name, "': ");
        BaegunError::bad_args(concat_str(a.message.as_str(), message))
    }
}

/// The descriptors so far, whether a root ComicInfo.xml was seen, and the
/// declared expanded total.
pub type ClassifyState = (Seq<(usize, Seq<char>, EntryKind, u64, u64)>, bool, u64);

/// One entry's effect on the classification, or the error it raises.
pub open spec fn classify_step(st: ClassifyState, index: usize, e: ArchiveEntry) -> Result<ClassifyState, Seq<char>> {
    let raw = e.raw_name@;
    if unsafe_raw_spec(raw) || e.enclosed_name is None {
        Err("Unsafe CBZ entry path '"@ + raw + "'."@)
    } else if entry_type_error(e.unix_mode, e.is_dir, raw) is Some {
        Err(entry_type_error(e.unix_mode, e.is_dir, raw)->0)
    } else if e.is_dir {
        Ok(st)
    } else if e.size > MAX_ENTRY_BYTES {
        Err("CBZ entry '"@ + raw + "' expands to "@ + decimal(e.size as nat) + " bytes; per-entry limit is 104857600 bytes."@)
    } else if st.2 + e.size > u64::MAX {
        Err("CBZ declared expanded size overflowed."@)
    } else if st.2 + e.size > MAX_TOTAL_EXPANDED_BYTES {
        Err("CBZ metadata declares more than 2147483648 expanded bytes."@)
    } else if exceeds_ratio_spec(e.size, e.compressed_size) {
        Err("CBZ entry '"@ + raw + "' exceeds the 1000:1 compression-ratio limit."@)
    } else {
        let total = (st.2 + e.size) as u64;
        match normalized_path_spec(e.enclosed_name->0@) {
            Err(m) => Err(m),
            Ok(path) => if should_ignore_spec(path) {
                Ok((st.0.push((index, path, EntryKind::Ignored, e.size, e.compressed_size)), st.1, total))
            } else if eq_ignore_case(path, "ComicInfo.xml"@) {
                if st.1 {
                    Err("CBZ archive contains duplicate root ComicInfo.xml entries."@)
                } else if e.size > MAX_COMIC_INFO_BYTES {
                    Err("ComicInfo.xml exceeds the 1048576-byte limit."@)
                } else {
                    Ok((st.0.push((index, path, EntryKind::ComicInfo, e.size, e.compressed_size)), true, total))
                }
            } else {
                Ok((st.0.push((index, path, EntryKind::ImageCandidate, e.size, e.compressed_size)), st.1, total))
            },
        }
    }
}

/// The classification of the first entries, each either read from the central
/// directory or the message of the failure to read it.
pub open spec fn classify_spec(entries: Seq<Result<ArchiveEntry, String>>) -> Result<ClassifyState, Seq<char>>
    decreases entries.len(),
{
    if entries.len() == 0 {
        Ok((seq![], false, 0))
    } else {
        match classify_spec(entries.drop_last()) {
            Err(m) => Err(m),
            Ok(st) => match entries.last() {
                Err(msg) => Err(entry_error_message((entries.len() - 1) as usize, msg@)),
                Ok(e) => classify_step(st, (entries.len() - 1) as usize, e),
            },
        }
    }
}

/// The error for an archive with too many entries, if it has too many.
pub open spec fn archive_size_error(count: usize) -> Option<Seq<char>> {
    if count > MAX_ARCHIVE_ENTRIES {
        Some("CBZ archive has "@ + decimal(count as nat) + " entries; limit is 10000."@)
    } else {
        None
    }
}

pub fn check_archive_size(count: usize) -> (r: Result<(), BaegunError>)
    ensures
        match r {
            Ok(_) => archive_size_error(count) is None,
            Err(e) => e.kind == ErrorKind::BadArgs && archive_size_error(count) == Some(e.message@),
        },
{
    if count > MAX_ARCHIVE_ENTRIES {
        return Err(BaegunError::bad_args(cat_number("CBZ archive has ", count as u64, " entries; limit is 10000.")));
    }
    Ok(())
}

fn classify_entry(descriptors: &mut Vec<EntryDescriptor>, seen: &mut bool, total: &mut u64, index: usize, e: &ArchiveEntry) -> (r: Result<(), BaegunError>)
    ensures
        match r {
            Ok(_) => classify_step((descs_view(old(descriptors)@), *old(seen), *old(total)), index, *e)
                == Ok::<ClassifyState, Seq<char>>((descs_view(final(descriptors)@), *final(seen), *final(total))),
            Err(err) => err.kind == ErrorKind::BadArgs && classify_step((descs_view(old(descriptors)@), *old(seen), *old(total)), index, *e)
                == Err::<ClassifyState, Seq<char>>(err.message@),
        },
{
    let raw = e.raw_name.as_str();
    if unsafe_raw_name(raw) {
        return Err(bad_args3("Unsafe CBZ entry path '", raw, "'."));
    }
    let enclosed = match &e.enclosed_name {
        Some(n) => n,
        None => {
            return Err(bad_args3("Unsafe CBZ entry path '", raw, "'."));
        },
    };
    validate_entry_type(e.unix_mode, e.is_dir, raw)?;
    if e.is_dir {
        return Ok(());
    }
    if e.size > MAX_ENTRY_BYTES {
        let a = bad_args3("CBZ entry '", raw, "' expands to ");
        return Err(BaegunError::bad_args(cat_number(a.message.as_str(), e.size, " bytes; per-entry limit is 104857600 bytes.")));
    }
    let new_total = match total.checked_add(e.size) {
        Some(t) => t,
        None => {
            return Err(bad_args1("CBZ declared expanded size overflowed."));
        },
    };
    if new_total > MAX_TOTAL_EXPANDED_BYTES {
        return Err(bad_args1("CBZ metadata declares more than 2147483648 expanded bytes."));
    }
    if exceeds_compression_ratio(e.size, e.compressed_size) {
        return Err(bad_args3("CBZ entry '", raw, "' exceeds the 1000:1 compression-ratio limit."));
    }
    let path = normalized_relative_path(enclosed.as_str())?;
    let pv = chars_of(path.as_str());
    let kind = if should_ignore(path.as_str()) {
        EntryKind::Ignored
    } else if eq_ignore_case_str(&pv, "ComicInfo.xml") {
        if *seen {
            return Err(bad_args1("CBZ archive contains duplicate root ComicInfo.xml entries."));
        }
        if e.size > MAX_COMIC_INFO_BYTES {
            return Err(bad_args1("ComicInfo.xml exceeds the 1048576-byte limit."));
        }
        *seen = true;
        EntryKind::ComicInfo
    } else {
        EntryKind::ImageCandidate
    };
    *total = new_total;
    let ghost before = descs_view(descriptors@);
    descriptors.push(EntryDescriptor { index, path, kind, declared_size: e.size, compressed_size: e.compressed_size });
    assert(descs_view(descriptors@) =~= before.push((index, pv@, kind, e.size, e.compressed_size)));
    Ok(())
}

/// Classifies the entries of an archive, checking names, kinds and declared
/// sizes, in the order of the central directory.
pub fn classify_entries(entries: &Vec<Result<ArchiveEntry, String>>) -> (r: Result<Vec<EntryDescriptor>, BaegunError>)
    ensures
        archive_size_error(entries.len()) is Some ==> (r matches Err(e) && e.kind == ErrorKind::BadArgs
            && archive_size_error(entries.len()) == Some(e.message@)),
        archive_size_error(entries.len()) is None ==> match r {
            Ok(ds) => (classify_spec(entries@) matches Ok(st) && st.0 == descs_view(ds@)),
            Err(e) => e.kind == ErrorKind::BadArgs && classify_spec(entries@) == Err::<ClassifyState, Seq<char>>(e.message@),
        },
{
    check_archive_size(entries.len())?;
    let mut descriptors: Vec<EntryDescriptor> = Vec::new();
    let mut seen = false;
    let mut total: u64 = 0;
    let mut i: usize = 0;
    assert(descs_view(descriptors@) =~= Seq::<(usize, Seq<char>, EntryKind, u64, u64)>::empty());
    assert(entries@.take(0) =~= Seq::<Result<ArchiveEntry, String>>::empty());
    while i < entries.len()
        invariant
            i <= entries.len(),
            archive_size_error(entries.len()) is None,
            classify_spec(entries@.take(i as int)) == Ok::<ClassifyState, Seq<char>>((descs_view(descriptors@), seen, total)),
        decreases entries.len() - i,
    {
        assert(entries@.take(i as int + 1).drop_last() == entries@.take(i as int));
        assert(entries@.take(i as int + 1).last() == entries@[i as int]);
        match &entries[i] {
            Err(msg) => {
                let err = map_entry_error(i, msg.as_str());
                assert(classify_spec(entries@) == classify_spec(entries@.take(i as int + 1))) by {
                    lemma_classify_err_sticks(entries@, i as int + 1);
                }
                return Err(err);
            },
            Ok(e) => {
                match classify_entry(&mut descriptors, &mut seen, &mut total, i, e) {
                    Ok(_) => {},
                    Err(err) => {
                        assert(classify_spec(entries@) == classify_spec(entries@.take(i as int + 1))) by {
                            lemma_classify_err_sticks(entries@, i as int + 1);
                        }
                        return Err(err);
                    },
                }
            },
        }
        i += 1;
    }
    assert(entries@.take(entries.len() as int) == entries@);
    Ok(descriptors)
}

/// An error in the first entries is the error of the whole archive.
proof fn lemma_classify_err_sticks(entries: Seq<Result<ArchiveEntry, String>>, n: int)
    requires
        0 <= n <= entries.len(),
        classify_spec(entries.take(n)) is Err,
    ensures
        classify_spec(entries) == classify_spec(entries.take(n)),
    decreases entries.len() - n,
{
    if n < entries.len() {
        assert(entries.take(n + 1).drop_last() == entries.take(n));
        lemma_classify_err_sticks(entries, n + 1);
    } else {
        assert(entries.take(n) == entries);
    }
}


// ---------------------------------------------------------------------------
// The fixed-layout book.
// ---------------------------------------------------------------------------

/// A page image that passed inspection.
#[derive(Debug)]
pub struct ComicPage {
    pub source_index: usize,
    pub source_path: String,
    pub media_type: &'static str,
    pub extension: &'static str,
    pub width: u32,
    pub height: u32,
    pub bytes: Vec<u8>,
}

pub open spec fn comic_page_view(p: ComicPage) -> (usize, Seq<char>, Seq<char>, Seq<char>, u32, u32, Seq<u8>) {
    (p.source_index, p.source_path@, p.media_type@, p.extension@, p.width, p.height, p.bytes@)
}

pub open spec fn comic_pages_view(ps: Seq<ComicPage>) -> Seq<(usize, Seq<char>, Seq<char>, Seq<char>, u32, u32, Seq<u8>)> {
    ps.map_values(|p: ComicPage| comic_page_view(p))
}

/// The XHTML document that shows one page image at its own size.
pub open spec fn page_xhtml_spec(title: Seq<char>, language: Seq<char>, image: Seq<char>, width: u32, height: u32) -> Seq<char> {
    "<?xml version=\"1.0\" encoding=\"utf-8\"?>\n<!DOCTYPE html>\n<html class=\"fixed-layout\" xmlns=\"http://www.w3.org/1999/xhtml\" xml:lang=\""@
        + xml_escape_spec(language)
        + "\">\n  <head>\n    <meta charset=\"utf-8\" />\n    <meta name=\"viewport\" content=\"width="@
        + decimal(width as nat) + ", height="@ + decimal(height as nat)
        + "\" />\n    <title>"@ + xml_escape_spec(title)
        + "</title>\n    <link rel=\"stylesheet\" type=\"text/css\" href=\"../styles/book.css\" />\n  </head>\n  <body class=\"comic-page\">\n    <div class=\"comic-frame\">\n      <img src=\"../images/"@
        + xml_escape_spec(image) + "\" alt=\""@ + xml_escape_spec(title)
        + "\" />\n    </div>\n  </body>\n</html>\n"@
}

pub fn render_page_xhtml(title: &str, language: &str, image_name: &str, width: u32, height: u32) -> (r: String)
    ensures
        r@ == page_xhtml_spec(title@, language@, image_name@, width, height),
{
    let mut v: Vec<char> = Vec::new();
    extend_str(&mut v, "<?xml version=\"1.0\" encoding=\"utf-8\"?>\n<!DOCTYPE html>\n<html class=\"fixed-layout\" xmlns=\"http://www.w3.org/1999/xhtml\" xml:lang=\"");
    extend_str(&mut v, xml_escape(language).as_str());
    extend_str(&mut v, "\">\n  <head>\n    <meta charset=\"utf-8\" />\n    <meta name=\"viewport\" content=\"width=");
    extend_chars(&mut v, &decimal_exec(width as u64));
    extend_str(&mut v, ", height=");
    extend_chars(&mut v, &decimal_exec(height as u64));
    extend_str(&mut v, "\" />\n    <title>");
    extend_str(&mut v, xml_escape(title).as_str());
    extend_str(&mut v, "</title>\n    <link rel=\"stylesheet\" type=\"text/css\" href=\"../styles/book.css\" />\n  </head>\n  <body class=\"comic-page\">\n    <div class=\"comic-frame\">\n      <img src=\"../images/");
    extend_str(&mut v, xml_escape(image_name).as_str());
    extend_str(&mut v, "\" alt=\"");
    extend_str(&mut v, xml_escape(title).as_str());
    extend_str(&mut v, "\" />\n    </div>\n  </body>\n</html>\n");
    proof {
        assert(v@ =~= page_xhtml_spec(title@, language@, image_name@, width, height));
    }
    string_of(&v)
}

/// The four-digit number of the page at index `k`.
pub open spec fn page_tag(k: int) -> Seq<char> {
    zero_padded((k + 1) as nat, 4)
}

pub open spec fn page_image_name(k: int, extension: Seq<char>) -> Seq<char> {
    "page-"@ + page_tag(k) + "."@ + extension
}

pub open spec fn page_title(k: int) -> Seq<char> {
    "Page "@ + decimal((k + 1) as nat)
}

/// Page `k` as a chapter: id, title, file name, no markdown, and its document.
pub open spec fn page_chapter_spec(k: int, extension: Seq<char>, width: u32, height: u32, language: Seq<char>) -> (Seq<char>, Seq<char>, Seq<char>, Seq<char>, Seq<char>) {
    (
        "page-"@ + page_tag(k),
        page_title(k),
        "page-"@ + page_tag(k) + ".xhtml"@,
        seq![],
        page_xhtml_spec(page_title(k), language, page_image_name(k, extension), width, height),
    )
}

/// `Path::file_stem` of the source, trimmed, or `Comic`.
pub open spec fn source_title_spec(path: Seq<char>) -> Seq<char> {
    match file_stem_of(path) {
        Some(s) => if trim(s).len() > 0 {
            trim(s)
        } else {
            "Comic"@
        },
        None => "Comic"@,
    }
}

pub fn source_title(path: &str) -> (r: String)
    ensures
        r@ == source_title_spec(path@),
{
    match path_file_stem(path) {
        Some(s) => {
            let t = trim_exec(&chars_of(s.as_str()));
            if t.len() > 0 {
                string_of(&t)
            } else {
                string_of(&chars_of("Comic"))
            }
        },
        None => string_of(&chars_of("Comic")),
    }
}

/// A comic's language: the configured one unless it is blank or `en`, in which
/// case ComicInfo's, else `en`.
pub open spec fn comic_language(configured: Seq<char>, info_language: Option<Seq<char>>) -> Seq<char> {
    if trim(configured).len() == 0 || eq_ignore_case(configured, "en"@) {
        match info_language {
            Some(l) => l,
            None => "en"@,
        }
    } else {
        configured
    }
}

/// A comic's title: the configured one, else ComicInfo's, else the file's stem.
pub open spec fn comic_title(cfg: ConvertConfig, info_title: Option<Seq<char>>) -> Seq<char> {
    match opt_view(cfg.title) {
        Some(t) => t,
        None => match info_title {
            Some(t) => t,
            None => source_title_spec(cfg.input_pdf@),
        },
    }
}

pub open spec fn first_some(a: Option<Seq<char>>, b: Option<Seq<char>>) -> Option<Seq<char>> {
    match a {
        Some(x) => Some(x),
        None => b,
    }
}

/// What the book made of these pages says, page by page.
pub open spec fn comic_book_spec(
    book: RenderedBook,
    cfg: ConvertConfig,
    info: MetadataView,
    right_to_left: bool,
    pages: Seq<(usize, Seq<char>, Seq<char>, Seq<char>, u32, u32, Seq<u8>)>,
    cover_page: int,
    source_hash: Seq<char>,
) -> bool {
    let language = comic_language(cfg.language@, info.language);
    &&& book.title@ == comic_title(cfg, info.title)
    &&& opt_view(book.author) == first_some(opt_view(cfg.author), info.author)
    &&& book.language@ == language
    &&& opt_view(book.publisher) == first_some(opt_view(cfg.publisher), info.publisher)
    &&& opt_view(book.description) == info.description
    &&& strings_view(book.subjects@) == info.subjects
    &&& book.source_hash@ == source_hash
    &&& book.fixed_layout
    &&& book.page_progression_direction == (if right_to_left {
        PageProgressionDirection::RightToLeft
    } else {
        PageProgressionDirection::LeftToRight
    })
    &&& book.chapters.len() == pages.len()
    &&& book.images.len() == pages.len()
    &&& forall|k: int| 0 <= k < pages.len() ==> chapter_view(#[trigger] book.chapters@[k]) == page_chapter_spec(
        k,
        pages[k].3,
        pages[k].4,
        pages[k].5,
        language,
    )
    &&& forall|k: int| 0 <= k < pages.len() ==> asset_view(#[trigger] book.images@[k]) == (
        page_image_name(k, pages[k].3),
        pages[k].2,
        pages[k].6,
    )
    &&& opt_view(book.cover_image) == (if 0 <= cover_page < pages.len() {
        Some(page_image_name(cover_page, pages[cover_page].3))
    } else {
        None
    })
}

/// In a comic book the configured title, author and publisher win: ComicInfo's
/// `Title`, `Writer` and `Publisher` are used only where the settings give
/// none. Its summary and genres come from ComicInfo.
pub proof fn lemma_configured_author_wins(
    book: RenderedBook,
    cfg: ConvertConfig,
    info: MetadataView,
    right_to_left: bool,
    pages: Seq<(usize, Seq<char>, Seq<char>, Seq<char>, u32, u32, Seq<u8>)>,
    cover_page: int,
    source_hash: Seq<char>,
)
    requires
        comic_book_spec(book, cfg, info, right_to_left, pages, cover_page, source_hash),
    ensures
        cfg.author matches Some(a) ==> book.author matches Some(b) && b@ == a@,
        cfg.author is None ==> opt_view(book.author) == info.author,
        cfg.publisher matches Some(a) ==> book.publisher matches Some(b) && b@ == a@,
        cfg.publisher is None ==> opt_view(book.publisher) == info.publisher,
        cfg.title matches Some(t) ==> book.title@ == t@,
        cfg.title is None ==> (info.title matches Some(t) ==> book.title@ == t),
        opt_view(book.description) == info.description,
        strings_view(book.subjects@) == info.subjects,
{
}

fn comic_language_exec(cfg: &ConvertConfig, info_language: Option<String>) -> (r: String)
    ensures
        r@ == comic_language(cfg.language@, opt_view(info_language)),
{
    let configured = chars_of(cfg.language.as_str());
    if trim_exec(&configured).len() == 0 || eq_ignore_case_str(&configured, "en") {
        match info_language {
            Some(l) => l,
            None => string_of(&chars_of("en")),
        }
    } else {
        cfg.language.clone()
    }
}

fn or_else(a: Option<String>, b: Option<String>) -> (r: Option<String>)
    ensures
        opt_view(r) == first_some(opt_view(a), opt_view(b)),
{
    match a {
        Some(x) => Some(x),
        None => b,
    }
}

/// The fixed-layout book: one chapter per page image, in order.
pub fn render_book(cfg: &ConvertConfig, comic_info: ComicInfo, pages: Vec<ComicPage>, cover_page: usize, source_hash: String) -> (book: RenderedBook)
    ensures
        comic_book_spec(book, *cfg, comic_info.metadata@, comic_info.right_to_left, comic_pages_view(pages@), cover_page as int, source_hash@),
{
    let ghost pv = comic_pages_view(pages@);
    let ghost info = comic_info.metadata@;
    let ComicInfo { metadata, right_to_left, .. } = comic_info;
    let language = comic_language_exec(cfg, metadata.language);
    let title = match clone_opt(&cfg.title) {
        Some(t) => t,
        None => match metadata.title {
            Some(t) => t,
            None => source_title(cfg.input_pdf.as_str()),
        },
    };
    let author = or_else(clone_opt(&cfg.author), metadata.author);
    let publisher = or_else(clone_opt(&cfg.publisher), metadata.publisher);
    let mut chapters: Vec<RenderedChapter> = Vec::new();
    let mut images: Vec<ImageAsset> = Vec::new();
    let mut cover_image: Option<String> = None;
    let mut rest = pages;
    let mut k: usize = 0;
    let ghost lang = language@;
    assert(pv.len() == rest.len());
    while rest.len() > 0
        invariant
            k + rest.len() == pv.len(),
            pv.len() <= usize::MAX,
            lang == language@,
            comic_pages_view(rest@) == pv.subrange(k as int, pv.len() as int),
            chapters.len() == k,
            images.len() == k,
            forall|j: int| 0 <= j < k ==> chapter_view(#[trigger] chapters@[j]) == page_chapter_spec(j, pv[j].3, pv[j].4, pv[j].5, lang),
            forall|j: int| 0 <= j < k ==> asset_view(#[trigger] images@[j]) == (page_image_name(j, pv[j].3), pv[j].2, pv[j].6),
            opt_view(cover_image) == (if 0 <= cover_page < k {
                Some(page_image_name(cover_page as int, pv[cover_page as int].3))
            } else {
                None
            }),
        decreases rest.len(),
    {
        let ghost before = rest@;
        let page = rest.remove(0);
        proof {
            assert(page == before[0]);
            assert(rest@ == before.subrange(1, before.len() as int));
            assert(comic_pages_view(before)[0] == comic_page_view(before[0]));
            assert(comic_page_view(page) == pv[k as int]);
            assert(comic_pages_view(rest@) =~= pv.subrange(k as int + 1, pv.len() as int)) by {
                assert forall|j: int| 0 <= j < rest@.len() implies comic_pages_view(rest@)[j] == pv[k + 1 + j] by {
                    assert(rest@[j] == before[j + 1]);
                    assert(comic_pages_view(before)[j + 1] == comic_page_view(before[j + 1]));
                }
            }
        }
        let tag = zero_padded_exec((k + 1) as u64, 4);
        let mut image_name: Vec<char> = chars_of("page-");
        extend_chars(&mut image_name, &tag);
        extend_str(&mut image_name, ".");
        extend_str(&mut image_name, page.extension);
        let mut chapter_name: Vec<char> = chars_of("page-");
        extend_chars(&mut chapter_name, &tag);
        extend_str(&mut chapter_name, ".xhtml");
        let mut id: Vec<char> = chars_of("page-");
        extend_chars(&mut id, &tag);
        let mut page_title_v: Vec<char> = chars_of("Page ");
        extend_chars(&mut page_title_v, &decimal_exec((k + 1) as u64));
        let image_name = string_of(&image_name);
        let page_title_s = string_of(&page_title_v);
        if k == cover_page {
            cover_image = Some(image_name.clone());
        }
        let xhtml = render_page_xhtml(page_title_s.as_str(), language.as_str(), image_name.as_str(), page.width, page.height);
        proof {
            assert(image_name@ =~= page_image_name(k as int, pv[k as int].3));
            assert(page_title_s@ =~= page_title(k as int));
            assert(chapter_name@ =~= "page-"@ + page_tag(k as int) + ".xhtml"@);
            assert(id@ =~= "page-"@ + page_tag(k as int));
        }
        chapters.push(RenderedChapter {
            id: string_of(&id),
            title: page_title_s,
            file_name: string_of(&chapter_name),
            markdown: String::new(),
            xhtml,
        });
        images.push(ImageAsset { file_name: image_name, media_type: string_of(&chars_of(page.media_type)), bytes: page.bytes });
        proof {
            assert(chapter_view(chapters@[k as int]) == page_chapter_spec(k as int, pv[k as int].3, pv[k as int].4, pv[k as int].5, lang));
        }
        k += 1;
    }
    RenderedBook {
        title,
        author,
        language,
        publisher,
        description: metadata.description,
        subjects: metadata.subjects,
        source_hash,
        chapters,
        images,
        cover_image,
        fixed_layout: true,
        page_progression_direction: if right_to_left {
            PageProgressionDirection::RightToLeft
        } else {
            PageProgressionDirection::LeftToRight
        },
    }
}


// ---------------------------------------------------------------------------
// Assembling a comic from its entries.
// ---------------------------------------------------------------------------

/// Bytes that announce a PNG or a JPEG, whatever follows.
pub open spec fn image_signature(bytes: Seq<u8>) -> bool {
    bytes_start_with(bytes, png_signature()) || bytes_start_with(bytes, seq![0xFFu8, 0xD8u8])
}

/// The pages and the ComicInfo.xml of an archive, gathered entry by entry.
/// The outcome of reading ComicInfo.xml as a parse result: the kept metadata,
/// or the error.
pub open spec fn info_outcome(r: Result<(), BaegunError>, info: ComicInfo) -> Result<ComicInfo, BaegunError> {
    match r {
        Ok(_) => Ok(info),
        Err(e) => Err(e),
    }
}

pub struct ComicAssembly {
    pub info: ComicInfo,
    pub pages: Vec<ComicPage>,
}

impl ComicAssembly {
    pub fn new() -> (a: Self)
        ensures
            a.pages@.len() == 0,
            a.info.metadata@ == BookMetadata::empty_view(),
            !a.info.right_to_left,
            a.info.pages@.len() == 0,
    {
        ComicAssembly { info: ComicInfo::empty(), pages: Vec::new() }
    }

    /// Takes in one entry that was read in full: ComicInfo.xml is parsed, an
    /// image becomes the next page, and content that is not a JPEG or PNG is
    /// skipped unless its name or signature claims to be one.
    pub fn add_entry(&mut self, descriptor: EntryDescriptor, bytes: Vec<u8>) -> (r: Result<(), BaegunError>)
        ensures
            r matches Err(e) ==> e.kind == ErrorKind::BadArgs,
            descriptor.kind == EntryKind::Ignored ==> r is Ok && comic_pages_view(final(self).pages@)
                == comic_pages_view(old(self).pages@),
            descriptor.kind != EntryKind::ComicInfo ==> final(self).info == old(self).info,
            descriptor.kind == EntryKind::ComicInfo ==> comic_pages_view(final(self).pages@)
                == comic_pages_view(old(self).pages@),
            descriptor.kind == EntryKind::ComicInfo && bytes.len() > MAX_COMIC_INFO_BYTES ==> (r matches Err(e)
                && e.message@ == "ComicInfo.xml exceeds the 1048576-byte limit."@),
            descriptor.kind == EntryKind::ComicInfo && bytes.len() <= MAX_COMIC_INFO_BYTES ==> describes_events(
                xml_events_of(bytes@),
                info_outcome(r, final(self).info),
            ),
            descriptor.kind == EntryKind::ImageCandidate ==> match image_inspection(bytes@) {
                Ok((media_type, extension, width, height)) => if old(self).pages.len() >= MAX_PAGES {
                    r matches Err(e) && e.message@ == "CBZ archive has more than 2000 image pages."@
                } else {
                    r is Ok && comic_pages_view(final(self).pages@) == comic_pages_view(old(self).pages@).push(
                        (descriptor.index, descriptor.path@, media_type, extension, width, height, bytes@),
                    )
                },
                Err(reason) => if image_extension_spec(descriptor.path@) || image_signature(bytes@) {
                    r matches Err(e) && e.message@ == "Unsupported or malformed CBZ image '"@ + descriptor.path@ + "': "@ + reason
                } else {
                    r is Ok && comic_pages_view(final(self).pages@) == comic_pages_view(old(self).pages@)
                },
            },
    {
        match descriptor.kind {
            EntryKind::ComicInfo => {
                let parsed = crate::comic_info::parse_comic_info(&bytes);
                match parsed {
                    Ok(info) => {
                        self.info = info;
                        Ok(())
                    },
                    Err(e) => Err(e),
                }
            },
            EntryKind::Ignored => Ok(()),
            EntryKind::ImageCandidate => match inspect_image(&bytes) {
                Ok((media_type, extension, width, height)) => {
                    if self.pages.len() >= MAX_PAGES {
                        return Err(bad_args1("CBZ archive has more than 2000 image pages."));
                    }
                    let ghost before = comic_pages_view(self.pages@);
                    let ghost bv = bytes@;
                    let page = ComicPage {
                        source_index: descriptor.index,
                        source_path: descriptor.path,
                        media_type,
                        extension,
                        width,
                        height,
                        bytes,
                    };
                    self.pages.push(page);
                    assert(comic_pages_view(self.pages@) =~= before.push(
                        (descriptor.index, descriptor.path@, media_type@, extension@, width, height, bv),
                    ));
                    Ok(())
                },
                Err(reason) => {
                    let png_sig: [u8; 8] = [0x89, 0x50, 0x4E, 0x47, 0x0D, 0x0A, 0x1A, 0x0A];
                    let jpeg_sig: [u8; 2] = [0xFF, 0xD8];
                    assert(png_sig@ =~= png_signature());
                    assert(jpeg_sig@ =~= seq![0xFFu8, 0xD8u8]);
                    if has_image_extension(descriptor.path.as_str()) || starts_with_bytes(&bytes, &png_sig)
                        || starts_with_bytes(&bytes, &jpeg_sig) {
                        let a = bad_args3("Unsupported or malformed CBZ image '", descriptor.path.as_str(), "': ");
                        return Err(BaegunError::bad_args(concat_str(a.message.as_str(), reason.as_str())));
                    }
                    Ok(())
                },
            },
        }
    }

    /// Orders the pages naturally by path, drops the pages that ComicInfo.xml
    /// deletes, and renders the fixed-layout book; also gives the page count.
    pub fn finish(self, cfg: &ConvertConfig, source_hash: String) -> (r: Result<(RenderedBook, usize), BaegunError>)
        ensures
            r matches Err(e) ==> e.kind == ErrorKind::BadArgs,
            self.pages.len() == 0 ==> (r matches Err(e) && e.message@ == "CBZ archive contains no supported JPEG or PNG pages."@),
            self.pages.len() > 0 ==> exists|order: Seq<usize>| #![trigger sorted_positions(page_keys(self.pages@), order)] {
                &&& sorted_positions(page_keys(self.pages@), order)
                &&& {
                    let sorted = permute(comic_pages_view(self.pages@), order);
                    let kept = kept_pages(sorted, self.info.pages@, sorted.len() as int);
                    if kept.len() == 0 {
                        r matches Err(e) && e.message@ == "ComicInfo.xml marks every CBZ image page as deleted."@
                    } else {
                        r matches Ok((book, n)) && n == kept.len() && comic_book_spec(
                            book,
                            *cfg,
                            self.info.metadata@,
                            self.info.right_to_left,
                            kept,
                            remapped_cover(sorted, self.info.pages@),
                            source_hash@,
                        )
                    }
                }
            },
    {
        if self.pages.len() == 0 {
            return Err(bad_args1("CBZ archive contains no supported JPEG or PNG pages."));
        }
        let ComicAssembly { info, pages } = self;
        let ghost pv = comic_pages_view(pages@);
        let mut keys: Vec<(String, usize)> = Vec::new();
        let mut i: usize = 0;
        while i < pages.len()
            invariant
                i <= pages.len(),
                keys.len() == i,
                keys_view(keys@) == page_keys(pages@).take(i as int),
            decreases pages.len() - i,
        {
            let ghost before = keys@;
            let path = pages[i].source_path.clone();
            assert(path@ == pages@[i as int].source_path@);
            keys.push((path, pages[i].source_index));
            assert(keys@ == before.push((path, pages@[i as int].source_index)));
            assert(keys_view(keys@) =~= page_keys(pages@).take(i as int + 1)) by {
                assert forall|j: int| 0 <= j < i + 1 implies keys_view(keys@)[j] == page_keys(pages@).take(i as int + 1)[j] by {
                    if j < i {
                        assert(keys@[j] == before[j]);
                        assert(keys_view(before)[j] == page_keys(pages@).take(i as int)[j]);
                    }
                }
            }
            i += 1;
        }
        assert(page_keys(pages@).take(pages.len() as int) == page_keys(pages@));
        let order = natural_order_positions(&keys);
        let sorted = permute_pages(pages, &order);
        let ghost sv = comic_pages_view(sorted@);
        assert(sv == permute(pv, order@));
        let (kept, cover) = crate::comic_info::apply_comic_info_pages(sorted, info.pages.as_slice());
        proof {
            lemma_kept_view(sorted@, info.pages@, sorted@.len() as int);
        }
        if kept.len() == 0 {
            return Err(bad_args1("ComicInfo.xml marks every CBZ image page as deleted."));
        }
        let count = kept.len();
        let book = render_book(cfg, info, kept, cover, source_hash);
        Ok((book, count))
    }
}


/// The keys that pages are ordered by: path and archive index.
pub open spec fn page_keys(pages: Seq<ComicPage>) -> Seq<(Seq<char>, usize)> {
    pages.map_values(|p: ComicPage| (p.source_path@, p.source_index))
}

/// `s` in the order that `order` lists its positions.
pub open spec fn permute<T>(s: Seq<T>, order: Seq<usize>) -> Seq<T> {
    order.map_values(|i: usize| s[i as int])
}

proof fn lemma_kept_view(pages: Seq<ComicPage>, records: Seq<ComicInfoPage>, n: int)
    requires
        n <= pages.len(),
    ensures
        comic_pages_view(kept_pages(pages, records, n)) == kept_pages(comic_pages_view(pages), records, n),
        remapped_cover(pages, records) == remapped_cover(comic_pages_view(pages), records),
    decreases n,
{
    if n > 0 {
        lemma_kept_view(pages, records, n - 1);
        let r = kept_pages(pages, records, n - 1);
        if !is_deleted(records, n - 1) {
            assert(comic_pages_view(r.push(pages[n - 1])) =~= comic_pages_view(r).push(comic_page_view(pages[n - 1])));
        }
    }
    if let Some(ci) = cover_record(records, 0) {
        if ci < pages.len() {
            lemma_kept_len_view(pages, records, ci as int);
        }
    }
}

proof fn lemma_kept_len_view(pages: Seq<ComicPage>, records: Seq<ComicInfoPage>, n: int)
    requires
        n <= pages.len(),
    ensures
        kept_pages(pages, records, n).len() == kept_pages(comic_pages_view(pages), records, n).len(),
    decreases n,
{
    if n > 0 {
        lemma_kept_len_view(pages, records, n - 1);
    }
}

/// Moves the pages into the order that `order` lists.
fn permute_pages(pages: Vec<ComicPage>, order: &Vec<usize>) -> (r: Vec<ComicPage>)
    requires
        order.len() == pages.len(),
        forall|t: int| 0 <= t < order.len() ==> (#[trigger] order@[t]) < pages.len(),
        forall|s: int, t: int| 0 <= s < t < order.len() ==> #[trigger] order@[s] != #[trigger] order@[t],
    ensures
        comic_pages_view(r@) == permute(comic_pages_view(pages@), order@),
{
    let ghost pv = comic_pages_view(pages@);
    let ghost all = pages@;
    assert(all.len() == pages.len());
    let mut slots: Vec<Option<ComicPage>> = Vec::new();
    let mut rest = pages;
    let mut i: usize = 0;
    while rest.len() > 0
        invariant
            i + rest.len() == all.len(),
            all.len() <= usize::MAX,
            rest@ == all.subrange(i as int, all.len() as int),
            slots.len() == i,
            forall|j: int| 0 <= j < i ==> (#[trigger] slots@[j]) == Some(all[j]),
        decreases rest.len(),
    {
        let ghost before = rest@;
        let page = rest.remove(0);
        assert(page == before[0]);
        assert(rest@ =~= all.subrange(i as int + 1, all.len() as int));
        slots.push(Some(page));
        i += 1;
    }
    let mut sorted: Vec<ComicPage> = Vec::new();
    let mut t: usize = 0;
    while t < order.len()
        invariant
            t <= order.len(),
            order.len() == all.len(),
            slots.len() == all.len(),
            forall|q: int| 0 <= q < order.len() ==> (#[trigger] order@[q]) < all.len(),
            forall|s: int, q: int| 0 <= s < q < order.len() ==> #[trigger] order@[s] != #[trigger] order@[q],
            forall|q: int| t <= q < order.len() ==> slots@[#[trigger] order@[q] as int] == Some(all[order@[q] as int]),
            sorted.len() == t,
            forall|q: int| 0 <= q < t ==> #[trigger] sorted@[q] == all[order@[q] as int],
        decreases order.len() - t,
    {
        let pos = order[t];
        let mut taken: Option<ComicPage> = None;
        let ghost before = slots@;
        std::mem::swap(&mut slots[pos], &mut taken);
        assert(taken == Some(all[pos as int]));
        assert forall|q: int| t + 1 <= q < order.len() implies slots@[#[trigger] order@[q] as int] == Some(all[order@[q] as int]) by {
            assert(order@[q] != order@[t as int]);
            assert(slots@[order@[q] as int] == before[order@[q] as int]);
        }
        match taken {
            Some(p) => {
                sorted.push(p);
            },
            None => {},
        }
        t += 1;
    }
    assert(comic_pages_view(sorted@) =~= permute(pv, order@));
    sorted
}


/// Comic mode is for PDFs; a CBZ is always rendered as fixed-layout pages.
pub fn reject_comic_mode(cfg: &ConvertConfig) -> (r: Result<(), BaegunError>)
    ensures
        !cfg.comic_mode ==> r is Ok,
        cfg.comic_mode ==> (r matches Err(e) && e.kind == ErrorKind::BadArgs
            && e.message@ == "--comic is PDF-only; CBZ files are always rendered as fixed-layout image pages."@),
{
    if cfg.comic_mode {
        return Err(bad_args1("--comic is PDF-only; CBZ files are always rendered as fixed-layout image pages."));
    }
    Ok(())
}


// ---------------------------------------------------------------------------
// Reading an archive.
// ---------------------------------------------------------------------------

/// The entries of a ZIP archive's central directory, in order, each in plain
/// values, up to and including the first one that cannot be opened (as the text
/// of its error); or why the archive cannot be opened.
pub uninterp spec fn zip_entries_of(bytes: Seq<u8>) -> Result<Seq<Result<ArchiveEntry, String>>, Seq<char>>;

/// Opens the archive with `zip::ZipArchive::new` and reads each entry's
/// metadata with `ZipArchive::by_index` (`name`, `enclosed_name`, `unix_mode`,
/// `is_dir`, `size`, `compressed_size`), stopping at the first entry that fails.
#[verifier::external_body]
fn zip_entries(bytes: &[u8]) -> (r: Result<Vec<Result<ArchiveEntry, String>>, String>)
    ensures
        match r {
            Ok(es) => zip_entries_of(bytes@) == Ok::<Seq<Result<ArchiveEntry, String>>, Seq<char>>(es@),
            Err(m) => zip_entries_of(bytes@) == Err::<Seq<Result<ArchiveEntry, String>>, Seq<char>>(m@),
        },
{
    let mut archive = zip::ZipArchive::new(std::io::Cursor::new(bytes)).map_err(|error| error.to_string())?;
    let mut entries = Vec::new();
    for index in 0..archive.len() {
        match archive.by_index(index) {
            Ok(e) => entries.push(Ok(ArchiveEntry { raw_name: e.name().to_owned(), enclosed_name: e.enclosed_name().map(|p| p.to_string_lossy().into_owned()), unix_mode: e.unix_mode(), is_dir: e.is_dir(), size: e.size(), compressed_size: e.compressed_size() })),
            Err(error) => {
                entries.push(Err(error.to_string()));
                break;
            },
        }
    }
    Ok(entries)
}

/// Why an entry's bytes could not be had: it could not be opened, or reading it
/// (and checking its CRC) failed.
pub enum ZipReadFailure {
    Open(String),
    Read(String),
}

/// What reading entry `index` of an archive through a reader cut off after
/// `limit` bytes gives: the bytes, or the failure.
pub uninterp spec fn zip_entry_read_of(bytes: Seq<u8>, index: usize, limit: u64) -> Result<Seq<u8>, ZipReadFailure>;

/// Opens the archive with `zip::ZipArchive::new`, the entry with
/// `ZipArchive::by_index`, and reads it to its end through `Read::take(limit)`.
#[verifier::external_body]
fn read_zip_entry(bytes: &[u8], index: usize, limit: u64) -> (r: Result<Vec<u8>, ZipReadFailure>)
    ensures
        match r {
            Ok(d) => zip_entry_read_of(bytes@, index, limit) == Ok::<Seq<u8>, ZipReadFailure>(d@),
            Err(f) => zip_entry_read_of(bytes@, index, limit) == Err::<Seq<u8>, ZipReadFailure>(f),
        },
{
    let mut archive = zip::ZipArchive::new(std::io::Cursor::new(bytes)).map_err(|error| ZipReadFailure::Open(error.to_string()))?;
    let entry = archive.by_index(index).map_err(|error| ZipReadFailure::Open(error.to_string()))?;
    let mut data = Vec::new();
    std::io::Read::read_to_end(&mut std::io::Read::take(entry, limit), &mut data).map_err(|error| ZipReadFailure::Read(error.to_string()))?;
    Ok(data)
}

proof fn lemma_kept_len<T>(pages: Seq<T>, records: Seq<ComicInfoPage>, n: int)
    ensures
        n >= 0 ==> kept_pages(pages, records, n).len() <= n,
    decreases n,
{
    if n > 0 {
        lemma_kept_len(pages, records, n - 1);
    }
}

/// A page as plain values: archive index, path, media type, extension, width,
/// height and bytes.
pub type PageTuple = (usize, Seq<char>, Seq<char>, Seq<char>, u32, u32, Seq<u8>);

/// An entry descriptor as plain values: index, path, kind, declared and
/// compressed size.
pub type DescTuple = (usize, Seq<char>, EntryKind, u64, u64);

/// What ComicInfo.xml said so far: metadata, right to left, page records.
pub type InfoTriple = (MetadataView, bool, Seq<ComicInfoPage>);

/// What one entry gives once read whole within the limits: the bytes kept (none
/// for an ignored entry) and the archive's new expanded total; or the error.
pub open spec fn entry_read_spec(bytes: Seq<u8>, d: DescTuple, total: u64) -> Result<(Seq<u8>, u64), Seq<char>> {
    let limit = read_limit_spec(d.2, d.4, total) as u64;
    match zip_entry_read_of(bytes, d.0, limit) {
        Err(ZipReadFailure::Open(m)) => Err(named_entry_error_message(d.1, m@)),
        Err(ZipReadFailure::Read(m)) => Err("Failed reading CBZ entry '"@ + d.1 + "' or validating its CRC: "@ + m@),
        Ok(data) => {
            let counted = if data.len() > 0 {
                account_chunk_spec(d.1, d.2, d.4, 0, total, data.len() as u64)
            } else {
                Ok::<(u64, u64), Seq<char>>((0u64, total))
            };
            match counted {
                Err(m) => Err(m),
                Ok((e, t)) => if e != d.3 {
                    Err(size_mismatch_message(d.1, e, d.3))
                } else if d.2 != EntryKind::Ignored {
                    Ok((data, t))
                } else {
                    Ok((seq![], t))
                },
            }
        },
    }
}

/// What one entry's bytes do to the pages and ComicInfo.xml so far.
pub open spec fn entry_add_spec(d: DescTuple, data: Seq<u8>, pages: Seq<PageTuple>, info: InfoTriple) -> Result<(Seq<PageTuple>, InfoTriple), Seq<char>> {
    match d.2 {
        EntryKind::Ignored => Ok((pages, info)),
        EntryKind::ComicInfo => if data.len() > MAX_COMIC_INFO_BYTES {
            Err("ComicInfo.xml exceeds the 1048576-byte limit."@)
        } else {
            match comic_info_spec(xml_events_of(data)) {
                Ok(i) => Ok((pages, i)),
                Err(m) => Err(m),
            }
        },
        EntryKind::ImageCandidate => match image_inspection(data) {
            Ok((media_type, extension, width, height)) => if pages.len() >= MAX_PAGES {
                Err("CBZ archive has more than 2000 image pages."@)
            } else {
                Ok((pages.push((d.0, d.1, media_type, extension, width, height, data)), info))
            },
            Err(reason) => if image_extension_spec(d.1) || image_signature(data) {
                Err("Unsupported or malformed CBZ image '"@ + d.1 + "': "@ + reason)
            } else {
                Ok((pages, info))
            },
        },
    }
}

/// The pages, ComicInfo.xml and expanded total after some entries.
pub struct LoadState {
    pub pages: Seq<PageTuple>,
    pub info: InfoTriple,
    pub total: u64,
}

pub open spec fn initial_load_state() -> LoadState {
    LoadState { pages: seq![], info: (BookMetadata::empty_view(), false, seq![]), total: 0 }
}

/// The entries read and taken in, in order, up to the first error.
pub open spec fn load_entries_spec(bytes: Seq<u8>, ds: Seq<DescTuple>, st: LoadState) -> Result<LoadState, Seq<char>>
    decreases ds.len(),
{
    if ds.len() == 0 {
        Ok(st)
    } else {
        match entry_read_spec(bytes, ds[0], st.total) {
            Err(m) => Err(m),
            Ok((data, t)) => match entry_add_spec(ds[0], data, st.pages, st.info) {
                Err(m) => Err(m),
                Ok((p, i)) => load_entries_spec(bytes, ds.drop_first(), LoadState { pages: p, info: i, total: t }),
            },
        }
    }
}

/// The keys that pages are ordered by, from their plain values.
pub open spec fn view_keys(pages: Seq<PageTuple>) -> Seq<(Seq<char>, usize)> {
    pages.map_values(|p: PageTuple| (p.1, p.0))
}

/// The outcome of assembling the pages in the order `order`: the book of the
/// kept pages, or the error when ComicInfo.xml deletes every page.
pub open spec fn assembled_as(r: Result<(RenderedBook, usize), BaegunError>, cfg: ConvertConfig, fs: LoadState, order: Seq<usize>, source_hash: Seq<char>) -> bool {
    let sorted = permute(fs.pages, order);
    let kept = kept_pages(sorted, fs.info.2, sorted.len() as int);
    if kept.len() == 0 {
        r matches Err(e) && e.message@ == "ComicInfo.xml marks every CBZ image page as deleted."@
    } else {
        r matches Ok((book, n)) && n == kept.len() && book.images.len() == n && comic_book_spec(
            book,
            cfg,
            fs.info.0,
            fs.info.1,
            kept,
            remapped_cover(sorted, fs.info.2),
            source_hash,
        )
    }
}

/// The outcome of loading classified entries: the first reading or decoding
/// error, the error for an archive without pages, or the book of the pages in
/// natural order, ComicInfo.xml deletions applied.
pub open spec fn loaded_as(r: Result<(RenderedBook, usize), BaegunError>, cfg: ConvertConfig, bytes: Seq<u8>, ds: Seq<DescTuple>) -> bool {
    match load_entries_spec(bytes, ds, initial_load_state()) {
        Err(m) => r matches Err(e) && e.message@ == m,
        Ok(fs) => if fs.pages.len() == 0 {
            r matches Err(e) && e.message@ == "CBZ archive contains no supported JPEG or PNG pages."@
        } else {
            exists|order: Seq<usize>| #![trigger sorted_positions(view_keys(fs.pages), order)]
                sorted_positions(view_keys(fs.pages), order) && assembled_as(r, cfg, fs, order, sha256_hex_of(bytes))
        },
    }
}

proof fn lemma_page_keys_view(pages: Seq<ComicPage>)
    ensures
        page_keys(pages) == view_keys(comic_pages_view(pages)),
{
    assert(page_keys(pages) =~= view_keys(comic_pages_view(pages)));
}

/// Reads one entry whole and accounts for what it expanded to.
fn read_entry(bytes: &[u8], d: &EntryDescriptor, total_expanded: u64) -> (r: Result<(Vec<u8>, u64), BaegunError>)
    ensures
        match r {
            Ok((v, t)) => entry_read_spec(bytes@, desc_view(*d), total_expanded) == Ok::<(Seq<u8>, u64), Seq<char>>((v@, t)),
            Err(e) => e.kind == ErrorKind::BadArgs && entry_read_spec(bytes@, desc_view(*d), total_expanded)
                == Err::<(Seq<u8>, u64), Seq<char>>(e.message@),
        },
{
    let limit = observed_read_limit(d, total_expanded);
    let data = match read_zip_entry(bytes, d.index, limit) {
        Ok(v) => v,
        Err(ZipReadFailure::Open(m)) => {
            return Err(map_named_entry_error(d.path.as_str(), m.as_str()));
        },
        Err(ZipReadFailure::Read(m)) => {
            let a = bad_args3("Failed reading CBZ entry '", d.path.as_str(), "' or validating its CRC: ");
            return Err(BaegunError::bad_args(concat_str(a.message.as_str(), m.as_str())));
        },
    };
    let (entry_expanded, total) = if data.len() > 0 {
        account_chunk(d, 0, total_expanded, data.len() as u64)?
    } else {
        (0, total_expanded)
    };
    check_expanded_size(d, entry_expanded)?;
    if keeps_bytes(d.kind) {
        Ok((data, total))
    } else {
        Ok((Vec::new(), total))
    }
}

/// The plain values of what an assembly holds.
pub open spec fn assembly_state(a: ComicAssembly, total: u64) -> LoadState {
    LoadState {
        pages: comic_pages_view(a.pages@),
        info: (a.info.metadata@, a.info.right_to_left, a.info.pages@),
        total,
    }
}

/// A comic archive's fixed-layout book and page count: the archive's entries are
/// classified, read within the expansion limits, and assembled.
pub fn load_cbz(cfg: &ConvertConfig, bytes: &[u8]) -> (r: Result<(RenderedBook, usize), BaegunError>)
    ensures
        r matches Err(e) ==> e.kind == ErrorKind::BadArgs,
        cfg.comic_mode ==> (r matches Err(e)
            && e.message@ == "--comic is PDF-only; CBZ files are always rendered as fixed-layout image pages."@),
        !cfg.comic_mode ==> match zip_entries_of(bytes@) {
            Err(m) => r matches Err(e) && e.message@ == "Invalid CBZ ZIP archive '"@ + cfg.input_pdf@ + "': "@ + m,
            Ok(es) => match archive_size_error(es.len() as usize) {
                Some(m) => r matches Err(e) && e.message@ == m,
                None => match classify_spec(es) {
                    Err(m) => r matches Err(e) && e.message@ == m,
                    Ok(cs) => loaded_as(r, *cfg, bytes@, cs.0),
                },
            },
        },
        r matches Ok((book, n)) ==> {
            &&& book.source_hash@ == sha256_hex_of(bytes@)
            &&& book.chapters.len() == n
            &&& book.images.len() == n
            &&& 1 <= n <= MAX_PAGES
            &&& book.fixed_layout
        },
{
    reject_comic_mode(cfg)?;
    let source_hash = hash_source_bytes(bytes);
    let entries = match zip_entries(bytes) {
        Ok(es) => es,
        Err(m) => {
            let a = bad_args3("Invalid CBZ ZIP archive '", cfg.input_pdf.as_str(), "': ");
            return Err(BaegunError::bad_args(concat_str(a.message.as_str(), m.as_str())));
        },
    };
    let mut descriptors = classify_entries(&entries)?;
    let ghost all = descs_view(descriptors@);
    let mut assembly = ComicAssembly::new();
    let mut total: u64 = 0;
    proof {
        assert(comic_pages_view(assembly.pages@) =~= Seq::<PageTuple>::empty());
        assert(assembly.info.pages@ =~= Seq::<ComicInfoPage>::empty());
        assert(assembly_state(assembly, total) == initial_load_state());
    }
    while descriptors.len() > 0
        invariant
            assembly.pages.len() <= MAX_PAGES,
            !cfg.comic_mode,
            zip_entries_of(bytes@) == Ok::<Seq<Result<ArchiveEntry, String>>, Seq<char>>(entries@),
            archive_size_error(entries.len()) is None,
            classify_spec(entries@) matches Ok(cs) && cs.0 == all,
            source_hash@ == sha256_hex_of(bytes@),
            load_entries_spec(bytes@, all, initial_load_state()) == load_entries_spec(
                bytes@,
                descs_view(descriptors@),
                assembly_state(assembly, total),
            ),
        decreases descriptors.len(),
    {
        let ghost rest_before = descs_view(descriptors@);
        let ghost st = assembly_state(assembly, total);
        let d = descriptors.remove(0);
        proof {
            assert(rest_before[0] == desc_view(d));
            assert(descs_view(descriptors@) =~= rest_before.drop_first());
        }
        let ghost dv = desc_view(d);
        let (data, t) = read_entry(bytes, &d, total)?;
        total = t;
        let ghost before = assembly.pages@;
        let ghost kind = d.kind;
        let ghost content = data@;
        let added = assembly.add_entry(d, data);
        let ghost outcome = added;
        proof {
            assert(comic_pages_view(before).len() == before.len());
            assert(comic_pages_view(assembly.pages@).len() == assembly.pages@.len());
            if kind == EntryKind::ImageCandidate {
                if let Ok((media_type, extension, width, height)) = image_inspection(content) {
                    if outcome is Ok {
                        assert(before.len() < MAX_PAGES);
                    }
                }
            }
            match outcome {
                Ok(_) => {
                    assert(entry_add_spec(dv, content, st.pages, st.info) == Ok::<(Seq<PageTuple>, InfoTriple), Seq<char>>(
                        (assembly_state(assembly, total).pages, assembly_state(assembly, total).info),
                    ));
                },
                Err(e) => {
                    assert(entry_add_spec(dv, content, st.pages, st.info) == Err::<(Seq<PageTuple>, InfoTriple), Seq<char>>(e.message@));
                },
            }
        }
        added?;
    }
    let ghost pages = assembly.pages@;
    let ghost info = assembly.info;
    let ghost fs = assembly_state(assembly, total);
    proof {
        lemma_page_keys_view(pages);
        assert(descs_view(descriptors@) =~= Seq::<DescTuple>::empty());
        assert(load_entries_spec(bytes@, all, initial_load_state()) == Ok::<LoadState, Seq<char>>(fs));
        assert(fs.pages.len() == pages.len());
    }
    let r = assembly.finish(cfg, source_hash);
    proof {
        if pages.len() > 0 {
            let order = choose|order: Seq<usize>| #![trigger sorted_positions(page_keys(pages), order)]
                sorted_positions(page_keys(pages), order) && {
                    let sorted = permute(comic_pages_view(pages), order);
                    let kept = kept_pages(sorted, info.pages@, sorted.len() as int);
                    if kept.len() == 0 {
                        r matches Err(e) && e.message@ == "ComicInfo.xml marks every CBZ image page as deleted."@
                    } else {
                        r matches Ok((book, n)) && n == kept.len() && comic_book_spec(
                            book,
                            *cfg,
                            info.metadata@,
                            info.right_to_left,
                            kept,
                            remapped_cover(sorted, info.pages@),
                            source_hash@,
                        )
                    }
                };
            let sorted = permute(comic_pages_view(pages), order);
            lemma_kept_len(sorted, info.pages@, sorted.len() as int);
            assert(sorted_positions(view_keys(fs.pages), order));
            assert(assembled_as(r, *cfg, fs, order, sha256_hex_of(bytes@)));
            assert(exists|order: Seq<usize>| #![trigger sorted_positions(view_keys(fs.pages), order)]
                sorted_positions(view_keys(fs.pages), order) && assembled_as(r, *cfg, fs, order, sha256_hex_of(bytes@)));
        } else {
            assert(fs.pages.len() == 0);
        }
        assert(loaded_as(r, *cfg, bytes@, all));
    }
    r
}

} // verus!
