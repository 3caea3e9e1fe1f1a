//! The content-addressed thumbnail cache: a thumbnail is filed under a digest
//! of the image's path, modification time and requested size, so a changed
//! file gets a new key and a cached thumbnail is never stale.
use vstd::prelude::*;
use vstd::bytes::{spec_u32_to_le_bytes, u32_to_le_bytes, lemma_auto_spec_u32_to_from_le_bytes};
use crate::text::{decimal, digit_char, push_decimal, concat, lemma_decimal_len};

verus! {

/// The size of a thumbnail when none is asked for.
pub const THUMB_SIZE: u32 = 256;

/// The largest thumbnail size served.
pub const MAX_THUMB_SIZE: u32 = 512;

#[derive(Debug)]
pub struct GetThumbnailPayload {
    pub path: String,
    pub size: Option<u32>,
}

#[derive(Debug)]
pub struct GetImageDataUrlPayload {
    pub path: String,
    /// Longest side of the preview; 0 for full size.
    pub max_side: Option<u32>,
}

/// The thumbnail size served for a request.
pub open spec fn served_size(requested: Option<u32>) -> u32 {
    let s = match requested {
        Some(x) => x,
        None => THUMB_SIZE,
    };
    if s < MAX_THUMB_SIZE { s } else { MAX_THUMB_SIZE }
}

pub fn thumbnail_size(requested: Option<u32>) -> (r: u32)
    ensures
        r == served_size(requested),
{
    let s = match requested {
        Some(x) => x,
        None => THUMB_SIZE,
    };
    if s < MAX_THUMB_SIZE { s } else { MAX_THUMB_SIZE }
}

/// The SHA-256 digest of `data`.
pub uninterp spec fn sha256_of(data: Seq<u8>) -> Seq<u8>;

/// Relies on `sha2::Sha256::digest`: the SHA-256 digest of the data, which
/// is 32 bytes long.
#[verifier::external_body]
fn sha256(data: &[u8]) -> (r: Vec<u8>)
    ensures
        r@ == sha256_of(data@),
        r@.len() == 32,
{
    <sha2::Sha256 as sha2::Digest>::digest(data).to_vec()
}

/// A lower-case hexadecimal digit.
pub open spec fn hex_digit(n: nat) -> char {
    "0123456789abcdef"@[n as int]
}

/// The bytes in lower-case hexadecimal, two digits each, high half first.
pub open spec fn hex_lower(b: Seq<u8>) -> Seq<char>
    decreases b.len(),
{
    if b.len() == 0 {
        Seq::empty()
    } else {
        hex_lower(b.drop_last()) + seq![hex_digit((b.last() / 16) as nat), hex_digit((b.last() % 16) as nat)]
    }
}

/// Relies on `hex::encode`: each byte as two lower-case hex digits, high half
/// first.
#[verifier::external_body]
fn hex_encode(data: &[u8]) -> (r: String)
    ensures
        r@ == hex_lower(data@),
{
    hex::encode(data)
}

/// A digit of the standard base64 alphabet.
pub open spec fn base64_digit(n: nat) -> char {
    "ABCDEFGHIJKLMNOPQRSTUVWXYZabcdefghijklmnopqrstuvwxyz0123456789+/"@[n as int]
}

/// The standard base64 encoding of `data`, with padding: each three bytes
/// give four digits of six bits each, high bits first; a last group of one
/// or two bytes is padded with `=`.
pub open spec fn base64_of(data: Seq<u8>) -> Seq<char>
    decreases data.len(),
{
    if data.len() == 0 {
        Seq::empty()
    } else if data.len() == 1 {
        seq![base64_digit((data[0] / 4) as nat), base64_digit(((data[0] % 4) * 16) as nat), '=', '=']
    } else if data.len() == 2 {
        seq![
            base64_digit((data[0] / 4) as nat),
            base64_digit(((data[0] % 4) * 16 + data[1] / 16) as nat),
            base64_digit(((data[1] % 16) * 4) as nat),
            '=',
        ]
    } else {
        seq![
            base64_digit((data[0] / 4) as nat),
            base64_digit(((data[0] % 4) * 16 + data[1] / 16) as nat),
            base64_digit(((data[1] % 16) * 4 + data[2] / 64) as nat),
            base64_digit((data[2] % 64) as nat),
        ] + base64_of(data.subrange(3, data.len() as int))
    }
}

/// Relies on the `encode` of base64's `STANDARD` engine: the standard
/// alphabet, with padding.
#[verifier::external_body]
fn base64_encode(data: &[u8]) -> (r: String)
    ensures
        r@ == base64_of(data@),
{
    base64::Engine::encode(&base64::engine::general_purpose::STANDARD, data)
}

/// The ASCII bytes of the decimal representation of `n`.
pub open spec fn decimal_bytes(n: nat) -> Seq<u8> {
    decimal(n).map_values(|c: char| c as u8)
}

/// What is digested for a cache key: the path's UTF-8 bytes, the
/// modification time in nanoseconds as decimal text, and the size as four
/// little-endian bytes.
pub open spec fn key_input(path: Seq<char>, mtime_ns: nat, size: u32) -> Seq<u8> {
    vstd::utf8::encode_utf8(path) + decimal_bytes(mtime_ns) + spec_u32_to_le_bytes(size)
}

/// The cache key: the first 16 bytes of the digest, in hexadecimal.
pub open spec fn cache_key(path: Seq<char>, mtime_ns: nat, size: u32) -> Seq<char> {
    hex_lower(sha256_of(key_input(path, mtime_ns, size)).subrange(0, 16))
}

/// The bytes digested for the cache key of `path` at `mtime_ns` and `size`.
pub fn thumbnail_key_input(path: &str, mtime_ns: u128, size: u32) -> (r: Vec<u8>)
    ensures
        r@ == key_input(path@, mtime_ns as nat, size),
{
    let b = path.as_bytes();
    let mut r: Vec<u8> = Vec::new();
    let mut i: usize = 0;
    while i < b.len()
        invariant
            i <= b@.len(),
            b@ == vstd::utf8::encode_utf8(path@),
            r@ == b@.subrange(0, i as int),
        decreases b@.len() - i,
    {
        r.push(b[i]);
        i += 1;
        assert(r@ =~= b@.subrange(0, i as int));
    }
    assert(b@.subrange(0, i as int) =~= b@);
    let mut d: Vec<char> = Vec::new();
    push_decimal(&mut d, mtime_ns);
    assert(d@ =~= decimal(mtime_ns as nat));
    let ghost head = r@;
    let mut j: usize = 0;
    while j < d.len()
        invariant
            j <= d@.len(),
            d@ == decimal(mtime_ns as nat),
            r@ == head + d@.subrange(0, j as int).map_values(|c: char| c as u8),
        decreases d@.len() - j,
    {
        r.push(d[j] as u8);
        j += 1;
        assert(r@ =~= head + d@.subrange(0, j as int).map_values(|c: char| c as u8));
    }
    assert(d@.subrange(0, j as int) =~= d@);
    let le = u32_to_le_bytes(size);
    let ghost mid = r@;
    let mut k: usize = 0;
    while k < le.len()
        invariant
            k <= le@.len(),
            r@ == mid + le@.subrange(0, k as int),
        decreases le@.len() - k,
    {
        r.push(le[k]);
        k += 1;
        assert(r@ =~= mid + le@.subrange(0, k as int));
    }
    assert(le@.subrange(0, k as int) =~= le@);
    r
}

/// The cache key of the thumbnail of `path`, modified at `mtime_ns`
/// nanoseconds after the Unix epoch, at `size`.
pub fn thumbnail_cache_key(path: &str, mtime_ns: u128, size: u32) -> (r: String)
    ensures
        r@ == cache_key(path@, mtime_ns as nat, size),
{
    let input = thumbnail_key_input(path, mtime_ns, size);
    let digest = sha256(input.as_slice());
    let head = crate::paths::copy_range_u8(&digest, 0, 16);
    hex_encode(head.as_slice())
}

/// The name of the cache file for `key`.
pub fn cache_file_name(key: &str) -> (r: String)
    ensures
        r@ == key@ + ".jpg"@,
{
    concat(key, ".jpg")
}

/// The data URL under which JPEG bytes are handed to the viewer.
pub fn jpeg_data_url(jpeg: &[u8]) -> (r: String)
    ensures
        r@ == "data:image/jpeg;base64,"@ + base64_of(jpeg@),
{
    let b = base64_encode(jpeg);
    concat("data:image/jpeg;base64,", b.as_str())
}

/// What to do once the cache has been looked up.
pub enum ThumbnailStep {
    /// The cache held the thumbnail: serve these bytes as they are.
    Serve(Vec<u8>),
    /// Nothing cached: render the thumbnail, then file it best-effort.
    Render,
}

/// The step after a cache lookup: a hit is served verbatim, without
/// rendering; only a miss renders.
pub fn after_lookup(cached: Option<Vec<u8>>) -> (r: ThumbnailStep)
    ensures
        cached matches Some(b) ==> (r matches ThumbnailStep::Serve(x) && x@ == b@),
        cached is None ==> r is Render,
{
    match cached {
        Some(b) => ThumbnailStep::Serve(b),
        None => ThumbnailStep::Render,
    }
}

proof fn lemma_digit_bytes(d: nat)
    requires
        d < 10,
    ensures
        (digit_char(d) as u8) == 48 + d,
{
}

proof fn lemma_decimal_bytes_injective(a: nat, b: nat)
    requires
        decimal_bytes(a) == decimal_bytes(b),
    ensures
        a == b,
    decreases a,
{
    lemma_decimal_len(a);
    lemma_decimal_len(b);
    let da = decimal(a);
    let db = decimal(b);
    assert(decimal_bytes(a).len() == da.len());
    assert(decimal_bytes(b).len() == db.len());
    assert(da.len() == db.len());
    let la = da.last();
    let lb = db.last();
    assert(decimal_bytes(a)[da.len() - 1] == decimal_bytes(b)[db.len() - 1]);
    lemma_digit_bytes(a % 10);
    lemma_digit_bytes(b % 10);
    assert(a % 10 == b % 10);
    if a >= 10 {
        lemma_decimal_len(a / 10);
        if b < 10 {
            assert(false);
        }
        assert(decimal_bytes(a / 10) =~= decimal_bytes(a).drop_last());
        assert(decimal_bytes(b / 10) =~= decimal_bytes(b).drop_last());
        lemma_decimal_bytes_injective(a / 10, b / 10);
    } else if b >= 10 {
        lemma_decimal_len(b / 10);
        assert(false);
    }
}

/// A file modified at another time has another digest input: for the same
/// path and size, different modification times give different bytes to
/// digest, so the cached thumbnail of the old version is never found.
pub proof fn lemma_key_input_changes_with_mtime(path: Seq<char>, m1: nat, m2: nat, size: u32)
    requires
        m1 != m2,
    ensures
        key_input(path, m1, size) != key_input(path, m2, size),
{
    lemma_auto_spec_u32_to_from_le_bytes();
    let p = vstd::utf8::encode_utf8(path);
    let k1 = key_input(path, m1, size);
    let k2 = key_input(path, m2, size);
    if k1 == k2 {
        let n1 = decimal_bytes(m1).len();
        let n2 = decimal_bytes(m2).len();
        assert(k1.len() == p.len() + n1 + 4);
        assert(k2.len() == p.len() + n2 + 4);
        assert(n1 == n2);
        assert(decimal_bytes(m1) =~= k1.subrange(p.len() as int, (p.len() + n1) as int));
        assert(decimal_bytes(m2) =~= k2.subrange(p.len() as int, (p.len() + n2) as int));
        lemma_decimal_bytes_injective(m1, m2);
    }
}

/// The same path, time and size always give the same key, so a second
/// request for an unchanged file looks up the thumbnail filed by the first.
pub proof fn lemma_cache_key_stable(path: Seq<char>, m: nat, size: u32, path2: Seq<char>, m2: nat, size2: u32)
    requires
        path == path2,
        m == m2,
        size == size2,
    ensures
        cache_key(path, m, size) == cache_key(path2, m2, size2),
{
}

#[verifier::external_type_specification]
#[verifier::external_body]
pub struct ExImageError(image::ImageError);

/// The JPEG thumbnail the image codec makes of the image `source`: decoded,
/// scaled with the triangle filter to fit `size` by `size` with its aspect
/// ratio kept, and encoded as JPEG; `None` where the codec fails.
pub uninterp spec fn jpeg_thumbnail(source: Seq<u8>, size: u32) -> Option<Seq<u8>>;

/// Relies on `image::load_from_memory`, `DynamicImage::resize` with
/// `FilterType::Triangle` and `DynamicImage::write_to` with
/// `ImageFormat::Jpeg` into memory: the outcome depends on the bytes and the
/// size alone, and none of them panics on these inputs.
#[verifier::external_body]
fn codec_thumbnail(source: &[u8], size: u32) -> (r: Result<Vec<u8>, image::ImageError>)
    ensures
        r is Ok <==> jpeg_thumbnail(source@, size) is Some,
        r matches Ok(b) ==> Some(b@) == jpeg_thumbnail(source@, size),
{
    let img = image::load_from_memory(source)?;
    let thumb = img.resize(size, size, image::imageops::FilterType::Triangle);
    let mut buf = Vec::new();
    thumb.write_to(&mut std::io::Cursor::new(&mut buf), image::ImageFormat::Jpeg)?;
    Ok(buf)
}

/// Relies on the `Display` of `image::ImageError` for a message.
#[verifier::external_body]
fn image_error_message(e: &image::ImageError) -> String {
    e.to_string()
}

/// Why a thumbnail could not be rendered.
#[derive(Debug)]
pub enum RenderError {
    /// The codec could not read the source bytes or write the thumbnail.
    Decode(String),
}

/// Renders the thumbnail of the image `source` at `size`: the codec's
/// decode, resize to fit `size` by `size`, and JPEG encoding; an error
/// exactly where the codec fails.
pub fn render_thumbnail(source: &[u8], size: u32) -> (r: Result<Vec<u8>, RenderError>)
    ensures
        r is Ok <==> jpeg_thumbnail(source@, size) is Some,
        r matches Ok(b) ==> Some(b@) == jpeg_thumbnail(source@, size),
{
    match codec_thumbnail(source, size) {
        Ok(bytes) => Ok(bytes),
        Err(e) => Err(RenderError::Decode(image_error_message(&e))),
    }
}

/// What serving a thumbnail gives: on a cache hit the cached bytes as they
/// are; on a miss the codec's rendering of the current source bytes.
pub open spec fn served_thumbnail(cached: Option<Seq<u8>>, source: Seq<u8>, size: u32) -> Option<Seq<u8>> {
    match cached {
        Some(b) => Some(b),
        None => jpeg_thumbnail(source, size),
    }
}

/// A changed file is rendered afresh: its key differs from the old one's
/// digest input, and a miss serves the codec's output for the new bytes,
/// never bytes cached for the old version.
pub proof fn lemma_changed_file_rerendered(path: Seq<char>, m1: nat, m2: nat, size: u32, source: Seq<u8>)
    requires
        m1 != m2,
    ensures
        key_input(path, m1, size) != key_input(path, m2, size),
        served_thumbnail(None, source, size) == jpeg_thumbnail(source, size),
{
    lemma_key_input_changes_with_mtime(path, m1, m2, size);
}

} // verus!
