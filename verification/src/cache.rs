//! On-disk thumbnail cache: cache keys, cache file names and the raw
//! thumbnail file format.
//!
//! A cache file holds `[u32 width][u32 height][RGBA bytes]`, integers little
//! endian, named by a 64-bit xxh3 of the source path, size, mtime and crop
//! variant.

use vstd::prelude::*;
use crate::scan::{clean_path, clean_parent, last_index_of, last_segment, ImageEntry, Timestamp};
use crate::text::{chars_of, push_all, string_of};
use crate::picture::{Picture, Raster};

verus! {

/// What `xxhash_rust::xxh3::xxh3_64` returns for a byte string.
pub uninterp spec fn xxh3_of(bytes: Seq<u8>) -> u64;

/// Calls `xxhash_rust::xxh3::xxh3_64`.
#[verifier::external_body]
fn xxh3_64(bytes: &[u8]) -> (r: u64)
    ensures
        r == xxh3_of(bytes@),
{
    xxhash_rust::xxh3::xxh3_64(bytes)
}

/// `256^k`.
pub open spec fn p256(k: nat) -> nat
    decreases k,
{
    if k == 0 {
        1
    } else {
        256 * p256((k - 1) as nat)
    }
}

/// The `k` low bytes of `v`, least significant first.
pub open spec fn le_bytes(v: nat, k: nat) -> Seq<u8>
    decreases k,
{
    if k == 0 {
        Seq::empty()
    } else {
        seq![(v % 256) as u8] + le_bytes(v / 256, (k - 1) as nat)
    }
}

/// The number whose little-endian bytes are `s`.
pub open spec fn le_value(s: Seq<u8>) -> nat
    decreases s.len(),
{
    if s.len() == 0 {
        0
    } else {
        s[0] as nat + 256 * le_value(s.drop_first())
    }
}

pub proof fn lemma_le_roundtrip(v: nat, k: nat)
    requires
        v < p256(k),
    ensures
        le_value(le_bytes(v, k)) == v,
        le_bytes(v, k).len() == k,
    decreases k,
{
    if k > 0 {
        assert(v / 256 < p256((k - 1) as nat)) by (nonlinear_arith)
            requires
                v < 256 * p256((k - 1) as nat),
        ;
        lemma_le_roundtrip(v / 256, (k - 1) as nat);
        let s = le_bytes(v, k);
        assert(s.drop_first() =~= le_bytes(v / 256, (k - 1) as nat));
        assert(v == v % 256 + 256 * (v / 256)) by (nonlinear_arith);
    }
}

fn push_le(out: &mut Vec<u8>, v: u64, k: usize)
    requires
        k <= 8,
    ensures
        final(out)@ == old(out)@ + le_bytes(v as nat, k as nat),
{
    let ghost start = out@;
    let mut x = v;
    let mut i: usize = 0;
    while i < k
        invariant
            i <= k <= 8,
            out@ + le_bytes(x as nat, (k - i) as nat) == start + le_bytes(v as nat, k as nat),
        decreases k - i,
    {
        let ghost rest = le_bytes(x as nat, (k - i) as nat);
        assert(rest == seq![(x % 256) as u8] + le_bytes((x / 256) as nat, (k - i - 1) as nat));
        out.push((x % 256) as u8);
        x = x / 256;
        i = i + 1;
        assert(out@ + le_bytes(x as nat, (k - i) as nat) =~= start + le_bytes(v as nat, k as nat));
    }
}

/// Nanoseconds since the epoch, truncated to 64 bits; 0 before the epoch.
pub open spec fn mtime_nanos(t: Timestamp) -> nat {
    if t.secs < 0 {
        0
    } else {
        ((t.secs * 1_000_000_000 + t.nanos) % 0x1_0000_0000_0000_0000) as nat
    }
}

fn mtime_ns(t: Timestamp) -> (r: u64)
    ensures
        r == mtime_nanos(t),
{
    if t.secs < 0 {
        0
    } else {
        let total: u128 = (t.secs as u128) * 1_000_000_000u128 + (t.nanos as u128);
        (total % 0x1_0000_0000_0000_0000u128) as u64
    }
}

/// The bytes a cache key hashes: the path's UTF-8 bytes, then the size, the
/// modification time (nanoseconds) and the crop variant as 8 bytes each.
pub open spec fn key_bytes(entry: ImageEntry, variant: u64) -> Seq<u8> {
    vstd::utf8::encode_utf8(entry.path@) + le_bytes(entry.size as nat, 8) + le_bytes(mtime_nanos(entry.modified), 8)
        + le_bytes(variant as nat, 8)
}

/// What a cache key hashes tells apart everything it is made of: for one
/// path, a different size, modification time or crop variant gives
/// different hashed bytes, so an edited file or a changed crop setting is
/// not served a stale thumbnail (short of a hash collision).
pub proof fn lemma_key_input_tracks_file(e1: ImageEntry, v1: u64, e2: ImageEntry, v2: u64)
    requires
        e1.path@ == e2.path@,
        key_bytes(e1, v1) == key_bytes(e2, v2),
    ensures
        e1.size == e2.size,
        mtime_nanos(e1.modified) == mtime_nanos(e2.modified),
        v1 == v2,
{
    reveal_with_fuel(p256, 9);
    assert(mtime_nanos(e1.modified) < p256(8));
    assert(mtime_nanos(e2.modified) < p256(8));
    lemma_le_roundtrip(e1.size as nat, 8);
    lemma_le_roundtrip(e2.size as nat, 8);
    lemma_le_roundtrip(mtime_nanos(e1.modified), 8);
    lemma_le_roundtrip(mtime_nanos(e2.modified), 8);
    lemma_le_roundtrip(v1 as nat, 8);
    lemma_le_roundtrip(v2 as nat, 8);
    let n = vstd::utf8::encode_utf8(e1.path@).len() as int;
    let k1 = key_bytes(e1, v1);
    let k2 = key_bytes(e2, v2);
    assert(k1.subrange(n, n + 8) =~= le_bytes(e1.size as nat, 8));
    assert(k2.subrange(n, n + 8) =~= le_bytes(e2.size as nat, 8));
    assert(k1.subrange(n + 8, n + 16) =~= le_bytes(mtime_nanos(e1.modified), 8));
    assert(k2.subrange(n + 8, n + 16) =~= le_bytes(mtime_nanos(e2.modified), 8));
    assert(k1.subrange(n + 16, n + 24) =~= le_bytes(v1 as nat, 8));
    assert(k2.subrange(n + 16, n + 24) =~= le_bytes(v2 as nat, 8));
}

/// Compute a stable cache key for an image entry and crop variant.
pub fn key_for(entry: &ImageEntry, variant: u64) -> (r: u64)
    ensures
        r == xxh3_of(key_bytes(*entry, variant)),
{
    let mut bytes: Vec<u8> = Vec::new();
    let pb = entry.path.as_str().as_bytes();
    let mut i: usize = 0;
    while i < pb.len()
        invariant
            i <= pb@.len(),
            bytes@ == pb@.take(i as int),
        decreases pb@.len() - i,
    {
        bytes.push(pb[i]);
        i = i + 1;
        assert(bytes@ =~= pb@.take(i as int));
    }
    assert(pb@.take(pb@.len() as int) =~= pb@);
    push_le(&mut bytes, entry.size, 8);
    push_le(&mut bytes, mtime_ns(entry.modified), 8);
    push_le(&mut bytes, variant, 8);
    assert(bytes@ =~= key_bytes(*entry, variant));
    xxh3_64(bytes.as_slice())
}

/// The character of a hex digit (lower case).
pub open spec fn hex_digit(d: nat) -> char {
    if d < 10 {
        (48 + d) as char
    } else {
        (87 + d) as char
    }
}

/// `v` as exactly `k` lower-case hex digits (the low `4k` bits).
pub open spec fn hex_pad(v: nat, k: nat) -> Seq<char>
    decreases k,
{
    if k == 0 {
        Seq::empty()
    } else {
        hex_pad(v / 16, (k - 1) as nat).push(hex_digit(v % 16))
    }
}

fn hex_chars(v: u64, k: usize) -> (r: Vec<char>)
    requires
        k <= 16,
    ensures
        r@ == hex_pad(v as nat, k as nat),
    decreases k,
{
    if k == 0 {
        return Vec::new();
    }
    let mut r = hex_chars(v / 16, k - 1);
    let d = (v % 16) as u8;
    let c = if d < 10 {
        (48u8 + d) as char
    } else {
        (87u8 + d) as char
    };
    r.push(c);
    r
}

/// `dir` joined with the relative name `name` (`PathBuf::push` on Unix:
/// a `/` goes between them unless `dir` is empty or already ends in `/`).
pub open spec fn join_path(dir: Seq<char>, name: Seq<char>) -> Seq<char> {
    if dir.len() == 0 || dir.last() == '/' {
        dir + name
    } else {
        dir + seq!['/'] + name
    }
}

/// `16^k`.
pub open spec fn p16(k: nat) -> nat
    decreases k,
{
    if k == 0 {
        1
    } else {
        16 * p16((k - 1) as nat)
    }
}

proof fn lemma_hex_pad_len(v: nat, k: nat)
    ensures
        hex_pad(v, k).len() == k,
    decreases k,
{
    if k > 0 {
        lemma_hex_pad_len(v / 16, (k - 1) as nat);
    }
}

proof fn lemma_hex_pad_injective(a: nat, b: nat, k: nat)
    requires
        hex_pad(a, k) == hex_pad(b, k),
    ensures
        a % p16(k) == b % p16(k),
    decreases k,
{
    if k == 0 {
        assert(a % 1 == 0 && b % 1 == 0) by (nonlinear_arith);
    } else {
        let (pa, pb) = (hex_pad(a / 16, (k - 1) as nat), hex_pad(b / 16, (k - 1) as nat));
        lemma_hex_pad_len(a / 16, (k - 1) as nat);
        lemma_hex_pad_len(b / 16, (k - 1) as nat);
        assert(pa == hex_pad(a, k).drop_last());
        assert(pb == hex_pad(b, k).drop_last());
        lemma_hex_pad_injective(a / 16, b / 16, (k - 1) as nat);
        let (da, db) = (a % 16, b % 16);
        assert(hex_pad(a, k).last() == hex_digit(da));
        assert(hex_pad(b, k).last() == hex_digit(db));
        assert(hex_digit(da) == hex_digit(db));
        assert(da == db) by {
            if da < 10 && db < 10 {
                assert((48 + da) as char == (48 + db) as char);
            } else if da >= 10 && db >= 10 {
                assert((87 + da) as char == (87 + db) as char);
            } else if da < 10 {
                assert((48 + da) as char == (87 + db) as char);
            } else {
                assert((87 + da) as char == (48 + db) as char);
            }
        }
        let q = p16((k - 1) as nat);
        assert(q >= 1) by {
            lemma_p16_pos((k - 1) as nat);
        }
        assert(a % (16 * q) == a % 16 + 16 * ((a / 16) % q)) by {
            vstd::arithmetic::div_mod::lemma_breakdown(a as int, 16, q as int);
        }
        assert(b % (16 * q) == b % 16 + 16 * ((b / 16) % q)) by {
            vstd::arithmetic::div_mod::lemma_breakdown(b as int, 16, q as int);
        }
    }
}

proof fn lemma_p16_pos(k: nat)
    ensures
        p16(k) >= 1,
    decreases k,
{
    if k > 0 {
        lemma_p16_pos((k - 1) as nat);
    }
}

/// Distinct cache keys get distinct cache file names.
pub proof fn lemma_cache_names_distinct(a: u64, b: u64)
    requires
        a != b,
    ensures
        cache_file_name(a) != cache_file_name(b),
{
    if cache_file_name(a) == cache_file_name(b) {
        lemma_hex_pad_len(a as nat, 16);
        lemma_hex_pad_len(b as nat, 16);
        assert(hex_pad(a as nat, 16) == cache_file_name(a).take(16));
        assert(hex_pad(b as nat, 16) == cache_file_name(b).take(16));
        lemma_hex_pad_injective(a as nat, b as nat, 16);
        reveal_with_fuel(p16, 17);
        assert(p16(16) == 0x1_0000_0000_0000_0000);
        vstd::arithmetic::div_mod::lemma_small_mod(a as nat, p16(16));
        vstd::arithmetic::div_mod::lemma_small_mod(b as nat, p16(16));
    }
}

proof fn lemma_hex_pad_no_slash(v: nat, k: nat)
    ensures
        forall|i: int| 0 <= i < hex_pad(v, k).len() ==> #[trigger] hex_pad(v, k)[i] != '/',
    decreases k,
{
    if k > 0 {
        lemma_hex_pad_no_slash(v / 16, (k - 1) as nat);
        let d = v % 16;
        assert(hex_digit(d) != '/');
        assert forall|i: int| 0 <= i < hex_pad(v, k).len() implies #[trigger] hex_pad(v, k)[i] != '/' by {
            if i < hex_pad(v / 16, (k - 1) as nat).len() {
                assert(hex_pad(v, k)[i] == hex_pad(v / 16, (k - 1) as nat)[i]);
            }
        }
    }
}

proof fn lemma_last_slash(a: Seq<char>, b: Seq<char>)
    requires
        a.len() > 0,
        a.last() == '/',
        forall|i: int| 0 <= i < b.len() ==> #[trigger] b[i] != '/',
    ensures
        last_index_of(a + b, '/') == Some(a.len() - 1),
    decreases b.len(),
{
    if b.len() == 0 {
        assert(a + b =~= a);
    } else {
        let b2 = b.drop_last();
        assert forall|i: int| 0 <= i < b2.len() implies #[trigger] b2[i] != '/' by {
            assert(b2[i] == b[i]);
        }
        lemma_last_slash(a, b2);
        assert((a + b).drop_last() =~= a + b2);
        assert((a + b).last() == b[b.len() - 1]);
    }
}

/// A cache path is the cache directory and the key's file name: its last
/// part is the 16-hex-digit name with `.raw`, and the directory (a clean
/// path, absolute or relative) is its parent; distinct keys give distinct
/// paths.
pub proof fn lemma_cache_path_parts(dir: Seq<char>, a: u64, b: u64)
    requires
        dir.len() > 0,
    ensures
        last_segment(join_path(dir, cache_file_name(a))) == cache_file_name(a),
        clean_path(dir) ==> clean_parent(join_path(dir, cache_file_name(a))) == Some(dir),
        (join_path(dir, cache_file_name(a)) == join_path(dir, cache_file_name(b))) == (a == b),
{
    let name = cache_file_name(a);
    lemma_hex_pad_no_slash(a as nat, 16);
    lemma_hex_pad_len(a as nat, 16);
    reveal_strlit(".raw");
    assert forall|i: int| 0 <= i < name.len() implies #[trigger] name[i] != '/' by {
        if i < 16 {
            assert(name[i] == hex_pad(a as nat, 16)[i]);
        } else {
            assert(name[i] == ".raw"@[i - 16]);
        }
    }
    let prefix = if dir.last() == '/' {
        dir
    } else {
        dir + seq!['/']
    };
    assert(join_path(dir, name) =~= prefix + name);
    assert(prefix.last() == '/');
    lemma_last_slash(prefix, name);
    assert((prefix + name).skip(prefix.len() as int) =~= name);
    if clean_path(dir) {
        if dir.len() == 1 && dir[0] == '/' {
            reveal_strlit("/");
            assert(dir =~= "/"@);
            assert(prefix =~= dir);
        } else {
            assert(prefix.len() == dir.len() + 1);
            assert((prefix + name).take(dir.len() as int) =~= dir);
        }
    }
    if a != b {
        lemma_cache_names_distinct(a, b);
        lemma_hex_pad_len(b as nat, 16);
        let other = cache_file_name(b);
        if join_path(dir, name) == join_path(dir, other) {
            assert(join_path(dir, other) =~= prefix + other);
            assert((prefix + other).skip(prefix.len() as int) =~= other);
        }
    }
}

/// The cache file name of a key: 16 hex digits and `.raw`.
pub open spec fn cache_file_name(key: u64) -> Seq<char> {
    hex_pad(key as nat, 16) + ".raw"@
}

/// Path where the cached thumbnail for `key` lives (file may or may not exist).
pub fn path_for(cache_dir: &str, key: u64) -> (r: String)
    ensures
        r@ == join_path(cache_dir@, cache_file_name(key)),
{
    let mut out = chars_of(cache_dir);
    if out.len() > 0 && out[out.len() - 1] != '/' {
        out.push('/');
    }
    let name = hex_chars(key, 16);
    push_all(&mut out, name.as_slice());
    push_all(&mut out, chars_of(".raw").as_slice());
    proof {
        if cache_dir@.len() == 0 || cache_dir@.last() == '/' {
            assert(out@ =~= join_path(cache_dir@, cache_file_name(key)));
        } else {
            assert(out@ =~= join_path(cache_dir@, cache_file_name(key)));
        }
    }
    string_of(out.as_slice())
}

/// A cache file's bytes for a `width` x `height` thumbnail with RGBA bytes `pixels`.
pub open spec fn raw_encoding(width: u32, height: u32, pixels: Seq<u8>) -> Seq<u8> {
    le_bytes(width as nat, 4) + le_bytes(height as nat, 4) + pixels
}

/// Why a cache file could not be read back.
#[derive(Debug, Clone, Copy, PartialEq, Eq, Structural)]
pub enum CacheError {
    /// Shorter than the 8-byte header.
    TooSmall,
    /// The length disagrees with the header's dimensions.
    SizeMismatch { expected: u128, got: usize },
}

/// What reading a cache file's bytes gives: the dimensions and pixels, or
/// why they are unusable.
pub open spec fn raw_decoding(data: Seq<u8>) -> Result<(u32, u32, Seq<u8>), CacheError> {
    if data.len() < 8 {
        Err(CacheError::TooSmall)
    } else {
        let w = le_value(data.subrange(0, 4));
        let h = le_value(data.subrange(4, 8));
        let expected = 8 + w * h * 4;
        if data.len() != expected {
            Err(CacheError::SizeMismatch { expected: expected as u128, got: data.len() as usize })
        } else {
            Ok((w as u32, h as u32, data.subrange(8, data.len() as int)))
        }
    }
}

/// The bytes of a cache file for a thumbnail.
pub fn encode_raw(width: u32, height: u32, pixels: &[u8]) -> (r: Vec<u8>)
    ensures
        r@ == raw_encoding(width, height, pixels@),
{
    let mut data: Vec<u8> = Vec::new();
    push_le(&mut data, width as u64, 4);
    push_le(&mut data, height as u64, 4);
    let mut i: usize = 0;
    let ghost head = data@;
    while i < pixels.len()
        invariant
            i <= pixels@.len(),
            data@ == head + pixels@.take(i as int),
        decreases pixels@.len() - i,
    {
        data.push(pixels[i]);
        i = i + 1;
        assert(data@ =~= head + pixels@.take(i as int));
    }
    assert(pixels@.take(pixels@.len() as int) =~= pixels@);
    assert(data@ =~= raw_encoding(width, height, pixels@));
    data
}

fn le_u32_at(data: &[u8], at: usize) -> (r: u32)
    requires
        at + 4 <= data@.len(),
    ensures
        r == le_value(data@.subrange(at as int, at + 4)),
{
    let ghost s = data@.subrange(at as int, at + 4);
    let (b0, b1, b2, b3) = (data[at] as u32, data[at + 1] as u32, data[at + 2] as u32, data[at + 3] as u32);
    proof {
        let s1 = s.drop_first();
        let s2 = s1.drop_first();
        let s3 = s2.drop_first();
        let s4 = s3.drop_first();
        assert(s[0] == b0 && s1[0] == b1 && s2[0] == b2 && s3[0] == b3);
        assert(s4.len() == 0);
        assert(le_value(s4) == 0);
        assert(le_value(s3) == b3 + 256 * le_value(s4));
        assert(le_value(s2) == b2 + 256 * le_value(s3));
        assert(le_value(s1) == b1 + 256 * le_value(s2));
        assert(le_value(s) == b0 + 256 * le_value(s1));
    }
    b0 + b1 * 256 + b2 * 65536 + b3 * 16777216
}

/// Read back the dimensions and RGBA bytes of a cache file.
pub fn decode_raw(data: &[u8]) -> (r: Result<(u32, u32, Vec<u8>), CacheError>)
    ensures
        match (r, raw_decoding(data@)) {
            (Ok((w, h, px)), Ok((w2, h2, px2))) => w == w2 && h == h2 && px@ == px2,
            (Err(e), Err(e2)) => e == e2,
            _ => false,
        },
        r matches Ok((w, h, px)) ==> data@.len() == 8 + w * h * 4 && px@.len() == 4 * w * h,
{
    if data.len() < 8 {
        return Err(CacheError::TooSmall);
    }
    let w = le_u32_at(data, 0);
    let h = le_u32_at(data, 4);
    assert((w as u128) * (h as u128) <= 0xffff_ffff * 0xffff_ffff) by (nonlinear_arith)
        requires
            w <= 0xffff_ffff,
            h <= 0xffff_ffff,
    ;
    let expected: u128 = 8 + (w as u128) * (h as u128) * 4;
    assert(expected == 8 + w * h * 4) by (nonlinear_arith)
        requires
            expected == 8 + (w as u128) * (h as u128) * 4,
    ;
    if (data.len() as u128) != expected {
        return Err(CacheError::SizeMismatch { expected, got: data.len() });
    }
    let mut px: Vec<u8> = Vec::new();
    let mut i: usize = 8;
    while i < data.len()
        invariant
            8 <= i <= data@.len(),
            px@ == data@.subrange(8, i as int),
        decreases data@.len() - i,
    {
        px.push(data[i]);
        i = i + 1;
        assert(px@ =~= data@.subrange(8, i as int));
    }
    assert(px@.len() == 4 * w * h) by (nonlinear_arith)
        requires
            px@.len() + 8 == data@.len(),
            data@.len() == 8 + w * h * 4,
    ;
    Ok((w, h, px))
}

/// Reading back what [`encode_raw`] wrote gives the same thumbnail, for
/// pixel buffers of exactly `4 * width * height` bytes.
pub proof fn lemma_raw_roundtrip(width: u32, height: u32, pixels: Seq<u8>)
    requires
        pixels.len() == 4 * width * height,
    ensures
        raw_decoding(raw_encoding(width, height, pixels)) == Ok::<(u32, u32, Seq<u8>), CacheError>(
            (width, height, pixels),
        ),
{
    reveal_with_fuel(p256, 5);
    lemma_le_roundtrip(width as nat, 4);
    lemma_le_roundtrip(height as nat, 4);
    let d = raw_encoding(width, height, pixels);
    assert(d.subrange(0, 4) =~= le_bytes(width as nat, 4));
    assert(d.subrange(4, 8) =~= le_bytes(height as nat, 4));
    assert(d.subrange(8, d.len() as int) =~= pixels);
    assert(width * height * 4 == 4 * width * height) by (nonlinear_arith);
}

/// A thumbnail as cache-file bytes (see [`raw_encoding`]).
pub fn encode_thumbnail(img: &Picture) -> (r: Vec<u8>)
    ensures
        r@ == raw_encoding(img@.width, img@.height, img@.bytes),
{
    encode_raw(img.width(), img.height(), img.rgba())
}

/// A thumbnail read back from cache-file bytes (see [`raw_decoding`]).
pub fn decode_thumbnail(data: &[u8]) -> (r: Result<Picture, CacheError>)
    ensures
        match (r, raw_decoding(data@)) {
            (Ok(p), Ok((w, h, px))) => p@ == (Raster { width: w, height: h, bytes: px }),
            (Err(e), Err(e2)) => e == e2,
            _ => false,
        },
{
    match decode_raw(data) {
        Err(e) => Err(e),
        Ok((w, h, px)) => {
            let p = Picture::new(w, h, px);
            Ok(p.unwrap())
        },
    }
}

} // verus!
