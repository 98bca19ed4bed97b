use vstd::prelude::*;
use aes::Aes128;
use cosmian_fpe::ff1::{BinaryNumeralString, FF1};

verus! {

/// Length in bytes of a cipher key (AES-128).
pub const KEY_LEN: usize = 16;

/// Fewest bytes the cipher takes: FF1 over bits needs 20 numerals.
pub const MIN_CIPHER_BYTES: usize = 3;

/// Most bytes the cipher takes: FF1 counts numerals in 32 bits.
pub const MAX_CIPHER_BYTES: usize = 536870911;

/// What URL-safe base64 decoding makes of `s`; `None` when it is not valid.
pub uninterp spec fn base64url_decoding(s: Seq<char>) -> Option<Seq<u8>>;

/// The URL-safe base64 text of `b`.
pub uninterp spec fn base64url_encoding(b: Seq<u8>) -> Seq<char>;

/// FF1 (AES-128, radix 2, empty tweak) encryption of the bits of `data`.
pub uninterp spec fn ff1_encrypted(key: Seq<u8>, data: Seq<u8>) -> Seq<u8>;

/// FF1 (AES-128, radix 2, empty tweak) decryption of the bits of `data`.
pub uninterp spec fn ff1_decrypted(key: Seq<u8>, data: Seq<u8>) -> Seq<u8>;

/// The zstd frame that default-level compression makes of `data`.
pub uninterp spec fn zstd_compressed(data: Seq<u8>) -> Seq<u8>;

/// What decompressing the zstd frame `data` gives; `None` when it is not one.
pub uninterp spec fn zstd_decompressed(data: Seq<u8>) -> Option<Seq<u8>>;

/// Relies on `base64_url::decode`: the bytes a URL-safe base64 text stands for.
#[verifier::external_body]
pub fn base64url_to_bytes(code: &str) -> (r: Option<Vec<u8>>)
    ensures
        match r {
            Some(v) => base64url_decoding(code@) == Some(v@),
            None => base64url_decoding(code@) is None,
        },
{
    base64_url::decode(code).ok()
}

/// Relies on `base64_url::encode`: URL-safe base64 text, which decodes back
/// to the same bytes.
#[verifier::external_body]
fn bytes_to_base64url(bytes: &[u8]) -> (r: String)
    ensures
        r@ == base64url_encoding(bytes@),
        base64url_decoding(r@) == Some(bytes@),
{
    base64_url::encode(bytes)
}

/// Relies on `FF1::<Aes128>::new` with radix 2 and `FF1::encrypt` on a
/// `BinaryNumeralString`: a key of 16 bytes, at least 20 bits and fewer than
/// 2^32 bits are accepted; the output has as many bits, and decrypting it with
/// the same key gives the input back.
#[verifier::external_body]
fn ff1_encrypt(key: &[u8], data: &[u8]) -> (r: Vec<u8>)
    requires
        key@.len() == KEY_LEN,
        MIN_CIPHER_BYTES <= data@.len() <= MAX_CIPHER_BYTES,
    ensures
        r@ == ff1_encrypted(key@, data@),
        r@.len() == data@.len(),
        ff1_decrypted(key@, r@) == data@,
{
    let ff1 = FF1::<Aes128>::new(key, 2).expect("radix 2 is valid");
    let bn = BinaryNumeralString::from_bytes_le(data);
    ff1.encrypt(&[], &bn).expect("length checked").to_bytes_le()
}

/// Relies on `FF1::<Aes128>::new` with radix 2 and `FF1::decrypt` on a
/// `BinaryNumeralString`: same key and length limits as encryption; the output
/// has as many bits.
#[verifier::external_body]
fn ff1_decrypt(key: &[u8], data: &[u8]) -> (r: Vec<u8>)
    requires
        key@.len() == KEY_LEN,
        MIN_CIPHER_BYTES <= data@.len() <= MAX_CIPHER_BYTES,
    ensures
        r@ == ff1_decrypted(key@, data@),
        r@.len() == data@.len(),
{
    let ff1 = FF1::<Aes128>::new(key, 2).expect("radix 2 is valid");
    let bn = BinaryNumeralString::from_bytes_le(data);
    ff1.decrypt(&[], &bn).expect("length checked").to_bytes_le()
}

/// Relies on `zstd::encode_all` at level 0 (zstd's default): a zstd frame
/// that decompresses to the input. On an in-memory slice at a valid level the
/// encoder has no failure path short of running out of memory.
#[verifier::external_body]
fn zstd_compress(data: &[u8]) -> (r: Vec<u8>)
    ensures
        r@ == zstd_compressed(data@),
        zstd_decompressed(r@) == Some(data@),
{
    zstd::encode_all(data, 0).expect("in-memory compression")
}

/// Relies on `zstd::decode_all`: the bytes a zstd frame holds; `None` when
/// `data` is not a valid frame.
#[verifier::external_body]
pub(crate) fn zstd_decompress(data: &[u8]) -> (r: Option<Vec<u8>>)
    ensures
        match r {
            Some(v) => zstd_decompressed(data@) == Some(v@),
            None => zstd_decompressed(data@) is None,
        },
{
    zstd::decode_all(data).ok()
}

/// Relies on `rand::random::<u8>`: a byte from the thread-local generator.
#[verifier::external_body]
fn random_byte() -> (r: u8) {
    rand::random::<u8>()
}

/// Relies on `num_cpus::get`: the number of usable logical CPUs, at least 1.
#[verifier::external_body]
pub(crate) fn cpu_count() -> (r: usize)
    ensures
        r >= 1,
{
    num_cpus::get()
}

/// The key bytes of `key` when it is URL-safe base64 for exactly 16 bytes.
pub open spec fn key_bytes(key: Seq<char>) -> Option<Seq<u8>> {
    match base64url_decoding(key) {
        Some(k) => if k.len() == KEY_LEN {
            Some(k)
        } else {
            None
        },
        None => None,
    }
}

/// Whether the cipher takes `key` and a stream of `len` bytes.
pub open spec fn cipher_accepts(key: Seq<char>, len: int) -> bool {
    key_bytes(key) is Some && MIN_CIPHER_BYTES <= len <= MAX_CIPHER_BYTES
}

/// The stream `data` encrypted under `key`, when the cipher takes them.
pub open spec fn encrypted(key: Seq<char>, data: Seq<u8>) -> Option<Seq<u8>> {
    if cipher_accepts(key, data.len() as int) {
        Some(ff1_encrypted(key_bytes(key).unwrap(), data))
    } else {
        None
    }
}

/// The stream `data` decrypted under `key`, when the cipher takes them.
pub open spec fn decrypted(key: Seq<char>, data: Seq<u8>) -> Option<Seq<u8>> {
    if cipher_accepts(key, data.len() as int) {
        Some(ff1_decrypted(key_bytes(key).unwrap(), data))
    } else {
        None
    }
}

fn decode_key(key: &str) -> (r: Option<Vec<u8>>)
    ensures
        match r {
            Some(k) => key_bytes(key@) == Some(k@),
            None => key_bytes(key@) is None,
        },
{
    match base64url_to_bytes(key) {
        Some(k) => if k.len() == KEY_LEN {
            Some(k)
        } else {
            None
        },
        None => None,
    }
}

/// Encrypts `bytes` in place, keeping their length, under the URL-safe base64
/// `key`. Fails, leaving `bytes` as they were, when the key is not 16 bytes of
/// valid base64 or the stream is shorter than 3 bytes or too long. What it
/// writes decrypts back to the input under the same key.
pub fn encrypt(bytes: &mut Vec<u8>, key: &str) -> (r: Option<()>)
    ensures
        r is Some <==> cipher_accepts(key@, old(bytes)@.len() as int),
        r is Some ==> encrypted(key@, old(bytes)@) == Some(final(bytes)@),
        r is Some ==> decrypted(key@, final(bytes)@) == Some(old(bytes)@),
        r is None ==> final(bytes)@ == old(bytes)@,
{
    let k = match decode_key(key) {
        Some(k) => k,
        None => return None,
    };
    if bytes.len() < MIN_CIPHER_BYTES || bytes.len() > MAX_CIPHER_BYTES {
        return None;
    }
    let out = ff1_encrypt(k.as_slice(), bytes.as_slice());
    *bytes = out;
    Some(())
}

/// Decrypts `bytes` in place, keeping their length, under the URL-safe base64
/// `key`; the same failures as `encrypt`. A wrong key of the right shape does
/// not fail: it gives other bytes of the same length.
pub fn decrypt(cipher: &mut Vec<u8>, key: &str) -> (r: Option<()>)
    ensures
        r is Some <==> cipher_accepts(key@, old(cipher)@.len() as int),
        r is Some ==> decrypted(key@, old(cipher)@) == Some(final(cipher)@),
        r is Some ==> final(cipher)@.len() == old(cipher)@.len(),
        r is None ==> final(cipher)@ == old(cipher)@,
{
    let k = match decode_key(key) {
        Some(k) => k,
        None => return None,
    };
    if cipher.len() < MIN_CIPHER_BYTES || cipher.len() > MAX_CIPHER_BYTES {
        return None;
    }
    let out = ff1_decrypt(k.as_slice(), cipher.as_slice());
    *cipher = out;
    Some(())
}

/// What storing `data` with compression keeps: the zstd frame when it is
/// strictly shorter, else `data` itself.
pub open spec fn stored(data: Seq<u8>) -> Seq<u8> {
    if zstd_compressed(data).len() < data.len() {
        zstd_compressed(data)
    } else {
        data
    }
}

/// Compresses `data` when that makes it strictly shorter; otherwise hands
/// back `data` unchanged. Whatever is kept gives `data` back: it is either
/// `data` itself or a zstd frame that decompresses to it.
pub fn compress_if_smaller(data: Vec<u8>) -> (r: Vec<u8>)
    ensures
        r@ == stored(data@),
        r@ == data@ || zstd_decompressed(r@) == Some(data@),
        r@.len() <= data@.len(),
{
    let c = zstd_compress(data.as_slice());
    if c.len() < data.len() {
        c
    } else {
        data
    }
}

/// A fresh random cipher key: 16 random bytes as URL-safe base64, which
/// the cipher accepts.
pub fn gen_key() -> (r: String)
    ensures
        exists|k: Seq<u8>| k.len() == KEY_LEN && r@ == base64url_encoding(k),
        key_bytes(r@) is Some,
{
    let mut bytes: Vec<u8> = Vec::new();
    let mut i: usize = 0;
    while i < KEY_LEN
        invariant
            i <= KEY_LEN,
            bytes@.len() == i,
        decreases KEY_LEN - i,
    {
        bytes.push(random_byte());
        i = i + 1;
    }
    let r = bytes_to_base64url(bytes.as_slice());
    r
}

} // verus!
