//! The OCR cache: the key that identifies a conversion's OCR request, and
//! where its cached results live.
use vstd::prelude::*;
use crate::models::{table_format_name, ConvertConfig, OcrBackend};
use crate::paths::{joined, path_join};
use crate::text::{concat_str, string_of};

verus! {

/// The version of this library, part of every cache key so that a new version
/// never reads results cached by an older one.
pub const CACHE_KEY_VERSION: &'static str = "1.0.0";

/// The lowercase hexadecimal SHA-256 digest of `bytes`.
pub uninterp spec fn sha256_hex_of(bytes: Seq<u8>) -> Seq<char>;

/// Calls `sha2::Sha256::digest` and formats the 32-byte digest as lowercase hex.
#[verifier::external_body]
pub(crate) fn sha256_hex(bytes: &[u8]) -> (r: String)
    ensures
        r@ == sha256_hex_of(bytes@),
        r@.len() == 64,
{
    format!("{:x}", <sha2::Sha256 as sha2::Digest>::digest(bytes))
}

fn append_bytes(v: &mut Vec<u8>, b: &[u8])
    ensures
        final(v)@ == old(v)@ + b@,
{
    let mut i: usize = 0;
    while i < b.len()
        invariant
            i <= b.len(),
            v@ == old(v)@ + b@.take(i as int),
        decreases b.len() - i,
    {
        v.push(b[i]);
        assert(b@.take(i as int + 1) == b@.take(i as int).push(b@[i as int]));
        i += 1;
    }
    assert(b@.take(b.len() as int) == b@);
}

pub open spec fn flag_byte(b: bool) -> Seq<u8> {
    if b {
        seq![49u8]
    } else {
        seq![48u8]
    }
}

/// The name of an OCR backend.
pub open spec fn backend_name(b: OcrBackend) -> Seq<char> {
    match b {
        OcrBackend::Mistral => "mistral"@,
    }
}

/// What the cache key digests: the PDF, then the OCR provider's name, the model,
/// the table format, the header and footer flags, the image flag (always on) and
/// the library version, as UTF-8.
pub open spec fn cache_key_input(cfg: ConvertConfig, pdf: Seq<u8>) -> Seq<u8> {
    pdf + vstd::utf8::encode_utf8(backend_name(cfg.provider)) + vstd::utf8::encode_utf8(cfg.model@)
        + vstd::utf8::encode_utf8(table_format_name(cfg.table_format)) + flag_byte(cfg.extract_header)
        + flag_byte(cfg.extract_footer) + flag_byte(true) + vstd::utf8::encode_utf8(CACHE_KEY_VERSION@)
}

fn flag(v: &mut Vec<u8>, b: bool)
    ensures
        final(v)@ == old(v)@ + flag_byte(b),
{
    v.push(if b {
        49u8
    } else {
        48u8
    });
    assert(v@ =~= old(v)@ + flag_byte(b));
}

/// The key of a conversion's OCR results.
pub fn compute_cache_key(cfg: &ConvertConfig, pdf_bytes: &[u8]) -> (r: String)
    ensures
        r@ == sha256_hex_of(cache_key_input(*cfg, pdf_bytes@)),
        r@.len() == 64,
{
    let mut input: Vec<u8> = Vec::new();
    append_bytes(&mut input, pdf_bytes);
    append_bytes(&mut input, cfg.provider.as_str().as_bytes());
    append_bytes(&mut input, cfg.model.as_str().as_bytes());
    append_bytes(&mut input, cfg.table_format.as_str().as_bytes());
    flag(&mut input, cfg.extract_header);
    flag(&mut input, cfg.extract_footer);
    flag(&mut input, true);
    append_bytes(&mut input, CACHE_KEY_VERSION.as_bytes());
    assert(input@ =~= cache_key_input(*cfg, pdf_bytes@));
    sha256_hex(&input)
}

/// The SHA-256 of a source file's bytes, as lowercase hex.
pub fn hash_source_bytes(bytes: &[u8]) -> (r: String)
    ensures
        r@ == sha256_hex_of(bytes@),
        r@.len() == 64,
{
    sha256_hex(bytes)
}

/// Where the OCR results for a key are cached.
pub fn cache_file_path(cfg: &ConvertConfig, cache_key: &str) -> (r: String)
    ensures
        r@ == joined(cfg.cache_dir@, cache_key@ + ".ocr.json"@),
{
    let name = concat_str(cache_key, ".ocr.json");
    path_join(cfg.cache_dir.as_str(), name.as_str())
}

/// Where the generated metadata for a key is cached.
pub fn metadata_cache_file_path(cfg: &ConvertConfig, cache_key: &str) -> (r: String)
    ensures
        r@ == joined(cfg.cache_dir@, cache_key@ + ".metadata.json"@),
{
    let name = concat_str(cache_key, ".metadata.json");
    path_join(cfg.cache_dir.as_str(), name.as_str())
}

/// For one key, the OCR cache and the metadata cache are given different file
/// names inside the cache directory.
pub proof fn lemma_cache_file_names_differ(cache_key: Seq<char>)
    ensures
        cache_key + ".ocr.json"@ != cache_key + ".metadata.json"@,
{
    reveal_strlit(".ocr.json");
    reveal_strlit(".metadata.json");
    let n = cache_key.len() as int;
    assert((cache_key + ".ocr.json"@)[n + 1] == 'o');
    assert((cache_key + ".metadata.json"@)[n + 1] == 'm');
}

} // verus!
