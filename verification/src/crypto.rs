//! The payload ciphers. An `x` payload is four random bytes followed by the
//! data, all XOR-ed with a one-byte mask; an `lx` payload is an LZ4 frame
//! whose first hundred bytes are XOR-ed with the mask. In both, the first two
//! bytes are a magic pair and bytes 2 and 3 carry the mask's bits in their
//! even positions.

use vstd::prelude::*;
use crate::text::decimal;

verus! {

/// The largest decompressed payload accepted by default (32 MiB).
pub const DEFAULT_MAX_DECOMPRESSED_SIZE: usize = 33554432;

/// The first bytes of an LZ4 frame (its magic number, little-endian).
pub open spec fn lz4_magic() -> Seq<u8> {
    seq![4u8, 34, 77, 24]
}

/// Byte 2 of a frame: the odd bits of `x` with the mask's four high bits in
/// the even positions.
pub open spec fn mix_hi(x: u8, mask: u8) -> u8 {
    (x & 0xaa) | (((mask >> 7) & 1) << 6) | (((mask >> 6) & 1) << 4) | (((mask >> 5) & 1) << 2) | ((
    mask >> 4) & 1)
}

/// Byte 3 of a frame: the odd bits of `x` with the mask's four low bits in
/// the even positions.
pub open spec fn mix_lo(x: u8, mask: u8) -> u8 {
    (x & 0xaa) | (((mask >> 3) & 1) << 6) | (((mask >> 2) & 1) << 4) | (((mask >> 1) & 1) << 2) | (
    mask & 1)
}

/// The mask carried by a frame, if it has the four header bytes.
pub open spec fn frame_mask(d: Seq<u8>) -> Option<u8> {
    if d.len() < 4 {
        None
    } else {
        Some(
            (((d[2] >> 6) & 1) << 7) | (((d[2] >> 4) & 1) << 6) | (((d[2] >> 2) & 1) << 5) | ((d[2]
                & 1) << 4) | (((d[3] >> 6) & 1) << 3) | (((d[3] >> 4) & 1) << 2) | (((d[3] >> 2) & 1)
                << 1) | (d[3] & 1),
        )
    }
}

/// Every byte XOR-ed with the mask.
pub open spec fn xor_all(d: Seq<u8>, mask: u8) -> Seq<u8> {
    Seq::new(d.len(), |i: int| d[i] ^ mask)
}

/// The four bytes of a random word, least significant first.
pub open spec fn word_bytes(r: u32) -> Seq<u8> {
    seq![
        (r % 0x100) as u8,
        (r / 0x100 % 0x100) as u8,
        (r / 0x1_0000 % 0x100) as u8,
        (r / 0x100_0000) as u8,
    ]
}

/// An `x` payload of `d` under `mask`, with `r` as its random word.
pub open spec fn x_frame(d: Seq<u8>, mask: u8, r: u32) -> Seq<u8> {
    let w = xor_all(word_bytes(r), mask);
    seq![112u8, 120u8, mix_hi(w[2], mask), mix_lo(w[3], mask)] + xor_all(d, mask)
}

/// What the `x` cipher makes of a payload: everything after the header,
/// unmasked; nothing when there is no header.
pub open spec fn x_plain(d: Seq<u8>) -> Seq<u8> {
    match frame_mask(d) {
        Some(m) => xor_all(d.skip(4), m),
        None => seq![],
    }
}

/// An `lx` payload made of the LZ4 frame `c` under `mask`.
pub open spec fn lx_frame(c: Seq<u8>, mask: u8) -> Seq<u8> {
    Seq::new(
        c.len(),
        |i: int|
            if i == 0 {
                112u8
            } else if i == 1 {
                108u8
            } else if i == 2 {
                mix_hi(c[2] ^ mask, mask)
            } else if i == 3 {
                mix_lo(c[3] ^ mask, mask)
            } else if i < 100 {
                c[i] ^ mask
            } else {
                c[i]
            },
    )
}

/// The LZ4 frame inside an `lx` payload: bytes 2 to 99 unmasked, then the
/// frame's magic number restored over the first four.
pub open spec fn lx_unmasked(d: Seq<u8>, mask: u8) -> Seq<u8> {
    Seq::new(
        d.len(),
        |i: int|
            if i < 4 {
                lz4_magic()[i]
            } else if i < 100 {
                d[i] ^ mask
            } else {
                d[i]
            },
    )
}

// ------------------------------------------------------------------
// Outside calls
// ------------------------------------------------------------------

/// The frame that `lz4_flex::frame::FrameEncoder` writes for `d` with its
/// default settings.
pub uninterp spec fn lz4_frame(d: Seq<u8>) -> Seq<u8>;

/// The bytes that `lz4_flex::frame::FrameDecoder` reads from a frame, at most
/// `limit` of them, when it succeeds.
pub uninterp spec fn lz4_unframe(f: Seq<u8>, limit: u64) -> Option<Seq<u8>>;

/// The text of the error that `lz4_flex::frame::FrameDecoder` reports for a
/// frame it cannot read.
pub uninterp spec fn lz4_error_text(f: Seq<u8>, limit: u64) -> Seq<char>;

/// Compresses with `lz4_flex::frame::FrameEncoder::new(Vec::new())`,
/// `write_all` and `finish`. With its default settings and a `Vec` to write
/// to, the encoder reports no error. The frame it writes starts with the
/// magic number, and the crate's `FrameDecoder` reads the data back from it
/// when allowed more bytes than the data has; the frame itself is only named.
#[verifier::external_body]
fn lz4_compress(data: &[u8]) -> (r: Option<Vec<u8>>)
    ensures
        r matches Some(c) && c@ == lz4_frame(data@) && c@.len() >= 4 && c@.subrange(0, 4) == lz4_magic()
            && forall|l: u64| data@.len() < l ==> #[trigger] lz4_unframe(c@, l) == Some(data@),
{
    let mut encoder = lz4_flex::frame::FrameEncoder::new(Vec::new());
    if std::io::Write::write_all(&mut encoder, data).is_err() {
        return None;
    }
    encoder.finish().ok()
}

/// Decompresses with `lz4_flex::frame::FrameDecoder::new(frame)`, reading at
/// most `limit` bytes (`Read::take`) to the end. A frame that the encoder
/// made of `x` reads back as `x` when `x` is shorter than the limit; of
/// other frames the result and the error text are only named.
#[verifier::external_body]
fn lz4_decompress(frame: &[u8], limit: u64) -> (r: Result<Vec<u8>, String>)
    ensures
        match r {
            Ok(v) => lz4_unframe(frame@, limit) == Some(v@) && v@.len() <= limit,
            Err(e) => lz4_unframe(frame@, limit) is None && e@ == lz4_error_text(frame@, limit),
        },
        r matches Ok(v) ==> forall|x: Seq<u8>| frame@ == lz4_frame(x) && x.len() < limit ==> v@ == x,
        r is Err ==> forall|x: Seq<u8>| !(frame@ == lz4_frame(x) && x.len() < limit),
{
    let decoder = lz4_flex::frame::FrameDecoder::new(frame);
    let mut output = Vec::new();
    let mut limited = std::io::Read::take(decoder, limit);
    match std::io::Read::read_to_end(&mut limited, &mut output) {
        Ok(_) => Ok(output),
        Err(e) => Err(e.to_string()),
    }
}

/// Draws a byte with `rand::random_range(lo..hi)`: any value in the range,
/// which must not be empty.
#[verifier::external_body]
fn random_in(lo: u8, hi: u8) -> (r: u8)
    requires
        lo < hi,
    ensures
        lo <= r < hi,
{
    rand::random_range(lo..hi)
}

/// The masks the ciphers draw from: `2..250`.
pub const MASK_LOW: u8 = 2;
pub const MASK_END: u8 = 250;

/// Draws a word with `rand::random`: any value.
#[verifier::external_body]
fn random_word() -> (r: u32) {
    rand::random()
}

// ------------------------------------------------------------------
// Verified parts
// ------------------------------------------------------------------

/// The mask carried by a payload's header bytes.
pub fn extract_mask(data: &[u8]) -> (r: Option<u8>)
    ensures
        r == frame_mask(data@),
{
    if data.len() < 4 {
        return None;
    }
    let a = data[2];
    let b = data[3];
    Some(
        ((a >> 6) & 1) << 7 | ((a >> 4) & 1) << 6 | ((a >> 2) & 1) << 5 | (a & 1) << 4 | ((b >> 6) & 1)
            << 3 | ((b >> 4) & 1) << 2 | ((b >> 2) & 1) << 1 | (b & 1),
    )
}

/// The mask survives its header encoding, whatever the other bits.
pub proof fn lemma_mask_recovered(x2: u8, x3: u8, mask: u8)
    ensures
        frame_mask(seq![0u8, 0u8, mix_hi(x2, mask), mix_lo(x3, mask)]) == Some(mask),
{
    let h = mix_hi(x2, mask);
    let l = mix_lo(x3, mask);
    assert((((h >> 6) & 1) << 7) | (((h >> 4) & 1) << 6) | (((h >> 2) & 1) << 5) | ((h & 1) << 4) | (
    ((l >> 6) & 1) << 3) | (((l >> 4) & 1) << 2) | (((l >> 2) & 1) << 1) | (l & 1) == mask)
        by (bit_vector)
        requires
            h == (x2 & 0xaa) | (((mask >> 7) & 1) << 6) | (((mask >> 6) & 1) << 4) | (((mask >> 5) & 1)
                << 2) | ((mask >> 4) & 1),
            l == (x3 & 0xaa) | (((mask >> 3) & 1) << 6) | (((mask >> 2) & 1) << 4) | (((mask >> 1) & 1)
                << 2) | (mask & 1),
    ;
}

proof fn lemma_frame_mask_of(d: Seq<u8>, x2: u8, x3: u8, mask: u8)
    requires
        d.len() >= 4,
        d[2] == mix_hi(x2, mask),
        d[3] == mix_lo(x3, mask),
    ensures
        frame_mask(d) == Some(mask),
{
    lemma_mask_recovered(x2, x3, mask);
}

proof fn lemma_xor_twice(x: u8, m: u8)
    ensures
        (x ^ m) ^ m == x,
{
    assert((x ^ m) ^ m == x) by (bit_vector);
}

fn mix_hi_exec(x: u8, mask: u8) -> (r: u8)
    ensures
        r == mix_hi(x, mask),
{
    (x & 0xaa) | ((mask >> 7) & 1) << 6 | ((mask >> 6) & 1) << 4 | ((mask >> 5) & 1) << 2 | ((mask
        >> 4) & 1)
}

fn mix_lo_exec(x: u8, mask: u8) -> (r: u8)
    ensures
        r == mix_lo(x, mask),
{
    (x & 0xaa) | ((mask >> 3) & 1) << 6 | ((mask >> 2) & 1) << 4 | ((mask >> 1) & 1) << 2 | (mask
        & 1)
}

/// Builds an `x` payload of `data` from a given mask and random word.
pub fn x_encrypt_with(data: &[u8], mask: u8, rnd: u32) -> (r: Vec<u8>)
    ensures
        r@ == x_frame(data@, mask, rnd),
{
    let mut n: Vec<u8> = Vec::new();
    let w0 = (rnd % 0x100) as u8;
    let w1 = (rnd / 0x100 % 0x100) as u8;
    let w2 = (rnd / 0x1_0000 % 0x100) as u8;
    let w3 = (rnd / 0x100_0000) as u8;
    n.push(112);
    n.push(120);
    n.push(mix_hi_exec(w2 ^ mask, mask));
    n.push(mix_lo_exec(w3 ^ mask, mask));
    let mut i: usize = 0;
    while i < data.len()
        invariant
            i <= data.len(),
            n@.len() == 4 + i,
            n@.subrange(0, 4) == seq![112u8, 120u8, mix_hi(w2 ^ mask, mask), mix_lo(w3 ^ mask, mask)],
            forall|j: int| 0 <= j < i ==> #[trigger] n@[4 + j] == data@[j] ^ mask,
        decreases data.len() - i,
    {
        n.push(data[i] ^ mask);
        i = i + 1;
    }
    assert(word_bytes(rnd) == seq![w0, w1, w2, w3]);
    assert(xor_all(word_bytes(rnd), mask)[2] == w2 ^ mask);
    assert(xor_all(word_bytes(rnd), mask)[3] == w3 ^ mask);
    assert(n@ =~= x_frame(data@, mask, rnd)) by {
        assert(n@.subrange(0, 4)[2] == n@[2]);
        assert(n@.subrange(0, 4)[3] == n@[3]);
        assert(n@.subrange(0, 4)[0] == n@[0]);
        assert(n@.subrange(0, 4)[1] == n@[1]);
        assert forall|k: int| 4 <= k < n@.len() implies n@[k] == x_frame(data@, mask, rnd)[k] by {
            assert(n@[4 + (k - 4)] == data@[k - 4] ^ mask);
        }
    }
    n
}

/// Unmasks an `x` payload.
pub fn x_decrypt(data: &[u8]) -> (r: Vec<u8>)
    ensures
        r@ == x_plain(data@),
{
    let mask = match extract_mask(data) {
        Some(m) => m,
        None => {
            return Vec::new();
        },
    };
    let mut out: Vec<u8> = Vec::with_capacity(data.len() - 4);
    let mut i: usize = 4;
    while i < data.len()
        invariant
            4 <= i <= data.len(),
            out@.len() == i - 4,
            forall|j: int| 0 <= j < i - 4 ==> #[trigger] out@[j] == data@[4 + j] ^ mask,
        decreases data.len() - i,
    {
        out.push(data[i] ^ mask);
        i = i + 1;
    }
    assert(out@ =~= x_plain(data@));
    out
}

/// Masks an LZ4 frame into an `lx` payload.
pub fn lx_mask(c: &[u8], mask: u8) -> (r: Vec<u8>)
    requires
        c@.len() >= 4,
    ensures
        r@ == lx_frame(c@, mask),
{
    let mut out: Vec<u8> = Vec::with_capacity(c.len());
    out.push(112);
    out.push(108);
    out.push(mix_hi_exec(c[2] ^ mask, mask));
    out.push(mix_lo_exec(c[3] ^ mask, mask));
    let mut i: usize = 4;
    while i < c.len()
        invariant
            4 <= i <= c.len(),
            out@.len() == i,
            forall|j: int| 0 <= j < i ==> #[trigger] out@[j] == lx_frame(c@, mask)[j],
        decreases c.len() - i,
    {
        if i < 100 {
            out.push(c[i] ^ mask);
        } else {
            out.push(c[i]);
        }
        i = i + 1;
    }
    assert(out@ =~= lx_frame(c@, mask));
    out
}

/// Recovers the LZ4 frame from an `lx` payload whose mask is `mask`.
pub fn lx_unmask(d: &[u8], mask: u8) -> (r: Vec<u8>)
    requires
        d@.len() >= 4,
    ensures
        r@ == lx_unmasked(d@, mask),
{
    let mut out: Vec<u8> = Vec::with_capacity(d.len());
    out.push(4);
    out.push(34);
    out.push(77);
    out.push(24);
    let mut i: usize = 4;
    while i < d.len()
        invariant
            4 <= i <= d.len(),
            out@.len() == i,
            forall|j: int| 0 <= j < i ==> #[trigger] out@[j] == lx_unmasked(d@, mask)[j],
        decreases d.len() - i,
    {
        if i < 100 {
            out.push(d[i] ^ mask);
        } else {
            out.push(d[i]);
        }
        i = i + 1;
    }
    assert(out@ =~= lx_unmasked(d@, mask));
    out
}


// ------------------------------------------------------------------
// Outcomes
// ------------------------------------------------------------------

/// The message of a payload over a size limit.
pub open spec fn exceeds_message(what: Seq<char>, actual: nat, max: nat) -> Seq<char> {
    what + " exceeds limit: "@ + decimal(actual) + " > "@ + decimal(max) + " bytes"@
}

/// The read limit handed to the decompressor: one byte past the accepted
/// size, so that a longer output shows.
pub open spec fn read_limit(max: usize) -> u64 {
    if max == usize::MAX {
        max as u64
    } else {
        (max + 1) as u64
    }
}

pub open spec fn result_view(r: Result<Vec<u8>, String>) -> Result<Seq<u8>, Seq<char>> {
    match r {
        Ok(v) => Ok(v@),
        Err(e) => Err(e@),
    }
}

/// What the size check makes of the decompressor's answer.
pub open spec fn lz4_checked(decoded: Result<Seq<u8>, Seq<char>>, max: usize) -> Result<Seq<u8>, Seq<char>> {
    match decoded {
        Ok(out) => if out.len() > max {
            Err(exceeds_message("LZ4 output"@, out.len(), max as nat))
        } else {
            Ok(out)
        },
        Err(e) => Err("LZ4 decode failed: "@ + e),
    }
}

/// What the decompressor answers for an `lx` payload whose mask is `m`.
pub open spec fn lx_decoded(d: Seq<u8>, m: u8, max: usize) -> Result<Seq<u8>, Seq<char>> {
    let f = lx_unmasked(d, m);
    match lz4_unframe(f, read_limit(max)) {
        Some(out) => Ok(out),
        None => Err(lz4_error_text(f, read_limit(max))),
    }
}

/// The outcome of decrypting an `lx` payload.
pub open spec fn lx_outcome(d: Seq<u8>, max: usize) -> Result<Seq<u8>, Seq<char>> {
    match frame_mask(d) {
        None => Err("truncated lx payload"@),
        Some(m) => lz4_checked(lx_decoded(d, m, max), max),
    }
}

/// The outcome of decrypting a payload of unknown kind: `pl` starts an `lx`
/// payload, `px` an `x` payload, anything else is plain.
pub open spec fn auto_outcome(d: Seq<u8>, max: usize) -> Result<Seq<u8>, Seq<char>> {
    if d.len() >= 2 && d[0] == 112 && d[1] == 108 {
        lx_outcome(d, max)
    } else if d.len() >= 2 && d[0] == 112 && d[1] == 120 {
        if d.len() < 4 {
            Err("truncated x payload"@)
        } else if d.len() - 4 > max {
            Err(exceeds_message("x payload"@, (d.len() - 4) as nat, max as nat))
        } else {
            Ok(x_plain(d))
        }
    } else if d.len() > max {
        Err(exceeds_message("plain payload"@, d.len(), max as nat))
    } else {
        Ok(d)
    }
}

/// The message for a payload of `actual` bytes over the limit `max`.
pub fn exceeds_text(what: &str, actual: usize, max: usize) -> (r: String)
    ensures
        r@ == exceeds_message(what@, actual as nat, max as nat),
{
    let mut m = String::from_str(what);
    m.append(" exceeds limit: ");
    m.append(crate::text::nat_text(actual as u64).as_str());
    m.append(" > ");
    m.append(crate::text::nat_text(max as u64).as_str());
    m.append(" bytes");
    m
}

/// Applies the size limit to what the decompressor returned.
pub fn lz4_checked_output(decoded: Result<Vec<u8>, String>, max: usize) -> (r: Result<Vec<u8>, String>)
    ensures
        result_view(r) == lz4_checked(result_view(decoded), max),
{
    match decoded {
        Ok(output) => {
            if output.len() > max {
                Err(exceeds_text("LZ4 output", output.len(), max))
            } else {
                Ok(output)
            }
        },
        Err(e) => {
            let mut m = String::from_str("LZ4 decode failed: ");
            m.append(e.as_str());
            Err(m)
        },
    }
}

fn decrypt_lz4_checked(data: &[u8], max_decompressed_size: usize) -> (r: Result<Vec<u8>, String>)
    ensures
        result_view(r) == lx_outcome(data@, max_decompressed_size),
{
    let mask = match extract_mask(data) {
        Some(m) => m,
        None => {
            return Err(String::from_str("truncated lx payload"));
        },
    };
    let frame = lx_unmask(data, mask);
    let limit: u64 = if max_decompressed_size == usize::MAX {
        max_decompressed_size as u64
    } else {
        (max_decompressed_size + 1) as u64
    };
    let decoded = lz4_decompress(frame.as_slice(), limit);
    lz4_checked_output(decoded, max_decompressed_size)
}

/// Decrypts a payload of any kind within a size limit.
pub fn try_auto_decrypt(data: &[u8], max_decompressed_size: usize) -> (r: Result<Vec<u8>, String>)
    ensures
        result_view(r) == auto_outcome(data@, max_decompressed_size),
{
    let n = data.len();
    if n >= 2 && data[0] == 112 && data[1] == 108 {
        decrypt_lz4_checked(data, max_decompressed_size)
    } else if n >= 2 && data[0] == 112 && data[1] == 120 {
        if n < 4 {
            return Err(String::from_str("truncated x payload"));
        }
        if n - 4 > max_decompressed_size {
            return Err(exceeds_text("x payload", n - 4, max_decompressed_size));
        }
        Ok(x_decrypt(data))
    } else {
        if n > max_decompressed_size {
            return Err(exceeds_text("plain payload", n, max_decompressed_size));
        }
        Ok(crate::bytes_io::slice_to_vec(data))
    }
}

/// Decrypts a payload of any kind within the default limit; a payload that
/// cannot be decrypted gives no bytes.
pub fn auto_decrypt(data: &[u8]) -> (r: Vec<u8>)
    ensures
        r@ == match auto_outcome(data@, DEFAULT_MAX_DECOMPRESSED_SIZE) {
            Ok(v) => v,
            Err(_) => Seq::<u8>::empty(),
        },
{
    match try_auto_decrypt(data, DEFAULT_MAX_DECOMPRESSED_SIZE) {
        Ok(v) => v,
        Err(_) => Vec::new(),
    }
}

// ------------------------------------------------------------------
// The ciphers
// ------------------------------------------------------------------

/// A payload cipher.
pub trait Encryptor {
    fn encrypt(&self, data: &[u8]) -> Vec<u8>;

    fn decrypt(&self, data: &[u8]) -> Vec<u8>;
}

/// The `x` cipher.
pub struct XorCrypto;

impl XorCrypto {
    pub fn new() -> (r: Self) {
        XorCrypto
    }
}

impl Encryptor for XorCrypto {
    /// An `x` payload of `data` under a random mask in `2..250` and a random
    /// word.
    fn encrypt(&self, data: &[u8]) -> (r: Vec<u8>)
        ensures
            exists|m: u8, w: u32| 2 <= m < 250 && r@ == x_frame(data@, m, w),
    {
        let mask = random_in(MASK_LOW, MASK_END);
        let rnd = random_word();
        x_encrypt_with(data, mask, rnd)
    }

    fn decrypt(&self, data: &[u8]) -> (r: Vec<u8>)
        ensures
            r@ == x_plain(data@),
    {
        x_decrypt(data)
    }
}

/// The `lx` cipher.
pub struct Lz4Crypto;

impl Lz4Crypto {
    pub fn new() -> (r: Self) {
        Lz4Crypto
    }
}

impl Encryptor for Lz4Crypto {
    /// The data's LZ4 frame under a random mask in `2..250`; no bytes when
    /// the compressor fails.
    fn encrypt(&self, data: &[u8]) -> (r: Vec<u8>)
        ensures
            exists|m: u8| 2 <= m < 250 && r@ == lx_frame(lz4_frame(data@), m),
            data@.len() <= DEFAULT_MAX_DECOMPRESSED_SIZE ==> lx_outcome(r@, DEFAULT_MAX_DECOMPRESSED_SIZE)
                == Ok::<Seq<u8>, Seq<char>>(data@),
    {
        let compressed = match lz4_compress(data) {
            Some(c) => c,
            None => {
                return Vec::new();
            },
        };
        let mask = random_in(MASK_LOW, MASK_END);
        let r = lx_mask(compressed.as_slice(), mask);
        proof {
            if data@.len() <= DEFAULT_MAX_DECOMPRESSED_SIZE {
                law_lx_roundtrip(compressed@, mask, data@, DEFAULT_MAX_DECOMPRESSED_SIZE);
            }
        }
        r
    }

    fn decrypt(&self, data: &[u8]) -> (r: Vec<u8>)
        ensures
            r@ == match lx_outcome(data@, DEFAULT_MAX_DECOMPRESSED_SIZE) {
                Ok(v) => v,
                Err(_) => Seq::<u8>::empty(),
            },
    {
        match decrypt_lz4_checked(data, DEFAULT_MAX_DECOMPRESSED_SIZE) {
            Ok(v) => v,
            Err(_) => Vec::new(),
        }
    }
}

/// One of the two ciphers, chosen by name.
pub enum Cipher {
    Xor(XorCrypto),
    Lz4(Lz4Crypto),
}

impl Encryptor for Cipher {
    fn encrypt(&self, data: &[u8]) -> (r: Vec<u8>)
        ensures
            self is Xor ==> exists|m: u8, w: u32| 2 <= m < 250 && r@ == x_frame(data@, m, w),
            self is Lz4 ==> exists|m: u8| 2 <= m < 250 && r@ == lx_frame(lz4_frame(data@), m),
            self is Lz4 && data@.len() <= DEFAULT_MAX_DECOMPRESSED_SIZE ==> lx_outcome(
                r@,
                DEFAULT_MAX_DECOMPRESSED_SIZE,
            ) == Ok::<Seq<u8>, Seq<char>>(data@),
    {
        match self {
            Cipher::Xor(c) => c.encrypt(data),
            Cipher::Lz4(c) => c.encrypt(data),
        }
    }

    fn decrypt(&self, data: &[u8]) -> (r: Vec<u8>)
        ensures
            self is Xor ==> r@ == x_plain(data@),
            self is Lz4 ==> r@ == match lx_outcome(data@, DEFAULT_MAX_DECOMPRESSED_SIZE) {
                Ok(v) => v,
                Err(_) => Seq::<u8>::empty(),
            },
    {
        match self {
            Cipher::Xor(c) => c.decrypt(data),
            Cipher::Lz4(c) => c.decrypt(data),
        }
    }
}

/// The cipher for a name: `lx` is the LZ4 cipher, any other name (`x`
/// among them) the XOR cipher.
pub fn get_encryptor(name: &str) -> (r: Cipher)
    ensures
        r is Lz4 <==> name@ == seq!['l', 'x'],
{
    let b = name.as_bytes();
    proof {
        vstd::utf8::encode_utf8_decode_utf8(name@);
        crate::b64::lemma_ascii_utf8(seq![0x6cu8, 0x78]);
        assert(crate::b64::ascii_chars(seq![0x6cu8, 0x78]) =~= seq!['l', 'x']);
        if name@ == seq!['l', 'x'] {
            assert(b@ == seq![0x6cu8, 0x78]);
        }
    }
    if b.len() == 2 && b[0] == 0x6c && b[1] == 0x78 {
        assert(b@ =~= seq![0x6cu8, 0x78]);
        Cipher::Lz4(Lz4Crypto::new())
    } else {
        Cipher::Xor(XorCrypto::new())
    }
}

// ------------------------------------------------------------------
// What decryption undoes
// ------------------------------------------------------------------

/// Decrypting an `x` payload gives back the data, whatever the mask and the
/// random word.
pub proof fn law_x_roundtrip(d: Seq<u8>, mask: u8, w: u32)
    ensures
        x_plain(x_frame(d, mask, w)) == d,
{
    let f = x_frame(d, mask, w);
    let ws = xor_all(word_bytes(w), mask);
    lemma_frame_mask_of(f, ws[2], ws[3], mask);
    assert forall|i: int| 0 <= i < d.len() implies x_plain(f)[i] == d[i] by {
        lemma_xor_twice(d[i], mask);
        assert(f.skip(4)[i] == f[4 + i]);
    }
    assert(x_plain(f) =~= d);
}

/// Unmasking an `lx` payload gives back the LZ4 frame it was made of,
/// whatever the mask.
pub proof fn law_lx_unmask_roundtrip(c: Seq<u8>, mask: u8)
    requires
        c.len() >= 4,
        c.subrange(0, 4) == lz4_magic(),
    ensures
        frame_mask(lx_frame(c, mask)) == Some(mask),
        lx_unmasked(lx_frame(c, mask), mask) == c,
{
    let f = lx_frame(c, mask);
    lemma_frame_mask_of(f, c[2] ^ mask, c[3] ^ mask, mask);
    assert forall|i: int| 0 <= i < c.len() implies lx_unmasked(f, mask)[i] == c[i] by {
        if i < 4 {
            assert(c.subrange(0, 4)[i] == c[i]);
        } else if i < 100 {
            lemma_xor_twice(c[i], mask);
        }
    }
    assert(lx_unmasked(f, mask) =~= c);
}

/// Decrypting an `lx` payload gives back the data, whatever the mask: for an
/// LZ4 frame `c` that the decompressor reads back as `d` when allowed one
/// byte more than the limit, and data within the limit, the payload made of
/// `c` under any mask decrypts to `d`. The frames that `Lz4Crypto::encrypt`
/// makes are such frames, so its payloads decrypt to the data.
pub proof fn law_lx_roundtrip(c: Seq<u8>, mask: u8, d: Seq<u8>, max: usize)
    requires
        c.len() >= 4,
        c.subrange(0, 4) == lz4_magic(),
        lz4_unframe(c, read_limit(max)) == Some(d),
        d.len() <= max,
    ensures
        lx_outcome(lx_frame(c, mask), max) == Ok::<Seq<u8>, Seq<char>>(d),
{
    law_lx_unmask_roundtrip(c, mask);
}

/// Decrypting an `x` payload of any kind-sniffing reader gives back the
/// data, when the data fits the limit.
pub proof fn law_x_auto_roundtrip(d: Seq<u8>, mask: u8, w: u32, max: usize)
    requires
        d.len() <= max,
    ensures
        auto_outcome(x_frame(d, mask, w), max) == Ok::<Seq<u8>, Seq<char>>(d),
{
    let f = x_frame(d, mask, w);
    law_x_roundtrip(d, mask, w);
    assert(f.len() == d.len() + 4);
    assert(f[0] == 112 && f[1] == 120);
}

} // verus!
