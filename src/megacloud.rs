//! The MegaCloud payload: an OpenSSL-style salted key derivation followed by
//! AES-256-CBC decryption with PKCS#7 padding.
use vstd::prelude::*;
use aes::cipher::generic_array::GenericArray;
use aes::cipher::KeyIvInit;
use cbc::cipher::block_padding::Pkcs7;
use cbc::cipher::BlockDecryptMut;
use vstd::utf8::{decode_utf8, encode_utf8, valid_utf8};
use crate::codec::{b64_decoded, decode_standard_base64};

verus! {

/// The values that the site's remotely fetched decoder hands back for a
/// session: the shared secret and the parameters of the sources request.
#[derive(Debug)]
pub struct Rabbit {
    pub secret: String,
    pub pid: String,
    pub kversion: String,
    pub kid: String,
    pub browser_version: String,
}

/// Why a payload could not be decrypted.
#[derive(Debug, PartialEq, Eq, Structural, Clone, Copy)]
pub enum DecryptError {
    /// The payload is not standard base64.
    BadBase64,
    /// The decoded payload is shorter than its 16-byte salt header.
    Truncated,
    /// The ciphertext is not a whole number of 16-byte blocks.
    BadBlockSize,
    /// The last block does not end in valid PKCS#7 padding.
    BadPadding,
}

/// The MD5 digest of `data`.
pub uninterp spec fn md5_of(data: Seq<u8>) -> Seq<u8>;

/// Relies on `md5::compute`: the 16-byte MD5 digest of `data`.
#[verifier::external_body]
fn md5_digest(data: &Vec<u8>) -> (r: Vec<u8>)
    ensures
        r@ == md5_of(data@),
        r@.len() == 16,
{
    md5::compute(data).0.to_vec()
}

/// The `n`-th hash block of the key derivation: the digest of the secret and
/// the salt, then of the previous block, the secret and the salt.
pub open spec fn kdf_block(salt: Seq<u8>, secret: Seq<u8>, n: nat) -> Seq<u8>
    decreases n,
{
    if n == 0 {
        md5_of(secret + salt)
    } else {
        md5_of(kdf_block(salt, secret, (n - 1) as nat) + secret + salt)
    }
}

/// The first `n` hash blocks, one after the other.
pub open spec fn kdf_blocks(salt: Seq<u8>, secret: Seq<u8>, n: nat) -> Seq<u8>
    decreases n,
{
    if n == 0 {
        seq![]
    } else {
        kdf_blocks(salt, secret, (n - 1) as nat) + kdf_block(salt, secret, (n - 1) as nat)
    }
}

/// The 48 bytes of key material: three hash blocks; bytes 0..32 are the AES
/// key and bytes 32..48 the IV.
pub open spec fn key_material(salt: Seq<u8>, secret: Seq<u8>) -> Seq<u8> {
    kdf_blocks(salt, secret, 3)
}

fn joined(a: &[u8], b: &[u8]) -> (r: Vec<u8>)
    ensures
        r@ == a@ + b@,
{
    let mut r: Vec<u8> = Vec::new();
    r.extend_from_slice(a);
    r.extend_from_slice(b);
    r
}

/// Derives the key material from a salt and a shared secret: hash blocks
/// are chained until there are at least 48 bytes.
pub fn generate_encryption_key(salt: &[u8], secret_bytes: &[u8]) -> (r: Vec<u8>)
    ensures
        r@ == key_material(salt@, secret_bytes@),
        r@.len() == 48,
        r@.subrange(0, 16) == kdf_block(salt@, secret_bytes@, 0),
        r@.subrange(16, 32) == kdf_block(salt@, secret_bytes@, 1),
        r@.subrange(32, 48) == kdf_block(salt@, secret_bytes@, 2),
{
    let mut key = md5_digest(&joined(secret_bytes, salt));
    let mut current_key: Vec<u8> = Vec::new();
    current_key.extend_from_slice(key.as_slice());
    let mut n: usize = 1;
    assert(kdf_blocks(salt@, secret_bytes@, 0) == Seq::<u8>::empty());
    assert(current_key@ =~= kdf_blocks(salt@, secret_bytes@, 1));
    assert(current_key@.subrange(0, 16) =~= key@);
    while current_key.len() < 48
        invariant
            1 <= n <= 3,
            current_key@.len() == 16 * n,
            current_key@ == kdf_blocks(salt@, secret_bytes@, n as nat),
            key@ == kdf_block(salt@, secret_bytes@, (n - 1) as nat),
            current_key@.subrange(0, 16) == kdf_block(salt@, secret_bytes@, 0),
            n >= 2 ==> current_key@.subrange(16, 32) == kdf_block(salt@, secret_bytes@, 1),
            n >= 3 ==> current_key@.subrange(32, 48) == kdf_block(salt@, secret_bytes@, 2),
        decreases 48 - current_key@.len(),
    {
        let ghost before = current_key@;
        let with_secret = joined(key.as_slice(), secret_bytes);
        key = md5_digest(&joined(with_secret.as_slice(), salt));
        current_key.extend_from_slice(key.as_slice());
        n += 1;
        assert(current_key@.subrange(0, 16) =~= before.subrange(0, 16));
        if n == 3 {
            assert(current_key@.subrange(16, 32) =~= before.subrange(16, 32));
        }
        assert(current_key@.subrange(16 * (n - 1) as int, 16 * n as int) =~= key@);
    }
    current_key
}

/// The AES-256 CBC decryption of the whole blocks `ct` under `key` and `iv`,
/// padding still in place.
pub uninterp spec fn aes256_cbc_blocks_of(key: Seq<u8>, iv: Seq<u8>, ct: Seq<u8>) -> Seq<u8>;

/// `d` without its PKCS#7 padding for 16-byte blocks: the last byte `n` is
/// between 1 and 16 and the last `n` bytes all equal `n`; `None` otherwise.
pub open spec fn pkcs7_unpadded(d: Seq<u8>) -> Option<Seq<u8>> {
    if d.len() == 0 {
        None
    } else {
        let n = d.last() as int;
        if n == 0 || n > 16 || n > d.len() {
            None
        } else if exists|i: int| d.len() - n <= i < d.len() && d[i] != n {
            None
        } else {
            Some(d.take(d.len() - n))
        }
    }
}

/// The plaintext of `ct`: it must be one or more whole blocks whose
/// decryption ends in valid padding.
pub open spec fn cbc_plaintext(key: Seq<u8>, iv: Seq<u8>, ct: Seq<u8>) -> Option<Seq<u8>> {
    if ct.len() == 0 || ct.len() % 16 != 0 {
        None
    } else {
        pkcs7_unpadded(aes256_cbc_blocks_of(key, iv, ct))
    }
}

/// Relies on `cbc::Decryptor<aes::Aes256Dec>`: `new` takes a 32-byte key and
/// a 16-byte IV (`GenericArray::from_slice` panics on other lengths);
/// `decrypt_padded_mut::<Pkcs7>` fails on input that is not one or more whole
/// blocks, else decrypts the blocks and strips the PKCS#7 padding of the
/// last one, failing where it is malformed.
#[verifier::external_body]
fn aes256_cbc_decrypt(key: &[u8], iv: &[u8], ct: &[u8]) -> (r: Option<Vec<u8>>)
    requires
        key@.len() == 32,
        iv@.len() == 16,
    ensures
        ct@.len() == 0 || ct@.len() % 16 != 0 ==> r is None,
        ct@.len() > 0 && ct@.len() % 16 == 0 ==> match pkcs7_unpadded(
            aes256_cbc_blocks_of(key@, iv@, ct@),
        ) {
            Some(p) => r is Some && r->Some_0@ == p,
            None => r is None,
        },
{
    let mut buf = ct.to_vec();
    let dec = cbc::Decryptor::<aes::Aes256Dec>::new(
        GenericArray::from_slice(key),
        GenericArray::from_slice(iv),
    );
    dec.decrypt_padded_mut::<Pkcs7>(&mut buf).ok().map(|p| p.to_vec())
}

/// The text that `String::from_utf8_lossy` makes of `b`.
pub uninterp spec fn utf8_lossy_of(b: Seq<u8>) -> Seq<char>;

/// Relies on `String::from_utf8_lossy`: valid UTF-8 is decoded as it is;
/// invalid sequences become U+FFFD.
#[verifier::external_body]
fn utf8_lossy(b: &[u8]) -> (r: String)
    ensures
        r@ == utf8_lossy_of(b@),
        valid_utf8(b@) ==> r@ == decode_utf8(b@),
{
    String::from_utf8_lossy(b).into_owned()
}

/// The text of plaintext bytes: decoded exactly where they are UTF-8, read
/// lossily otherwise.
pub open spec fn plaintext_text(p: Seq<u8>) -> Seq<char> {
    if valid_utf8(p) {
        decode_utf8(p)
    } else {
        utf8_lossy_of(p)
    }
}

/// What `decrypt_aes` gives for a ciphertext and 48 bytes of key material.
pub open spec fn aes_result(ct: Seq<u8>, key: Seq<u8>) -> Result<Seq<char>, DecryptError> {
    if ct.len() % 16 != 0 {
        Err(DecryptError::BadBlockSize)
    } else {
        match cbc_plaintext(key.take(32), key.subrange(32, 48), ct) {
            Some(p) => Ok(plaintext_text(p)),
            None => Err(DecryptError::BadPadding),
        }
    }
}

/// Decrypts `ciphertext` with AES-256-CBC under key material of 48 bytes
/// (key, then IV) and reads the plaintext as UTF-8, lossily.
pub fn decrypt_aes(ciphertext: &[u8], key: &[u8]) -> (r: Result<String, DecryptError>)
    requires
        key@.len() == 48,
    ensures
        match aes_result(ciphertext@, key@) {
            Ok(t) => r is Ok && r->Ok_0@ == t,
            Err(e) => r == Err::<String, DecryptError>(e),
        },
{
    if ciphertext.len() % 16 != 0 {
        return Err(DecryptError::BadBlockSize);
    }
    let iv = &key[32..48];
    let k = &key[0..32];
    assert(k@ == key@.take(32));
    match aes256_cbc_decrypt(k, iv, ciphertext) {
        Some(p) => Ok(utf8_lossy(p.as_slice())),
        None => Err(DecryptError::BadPadding),
    }
}

/// What `decrypt` gives for a base64 payload and a shared secret.
pub open spec fn payload_result(ct_b64: Seq<char>, secret: Seq<char>) -> Result<Seq<char>, DecryptError> {
    match b64_decoded(ct_b64, false, true) {
        None => Err(DecryptError::BadBase64),
        Some(data) => if data.len() < 16 {
            Err(DecryptError::Truncated)
        } else {
            aes_result(
                data.subrange(16, data.len() as int),
                key_material(data.subrange(8, 16), encode_utf8(secret)),
            )
        },
    }
}

/// Decrypts a payload: standard base64 of an 8-byte marker, an 8-byte salt
/// and the ciphertext, under key material derived from the salt and the
/// shared secret.
pub fn decrypt(ciphertext_b64: &str, secret: &str) -> (r: Result<String, DecryptError>)
    ensures
        match payload_result(ciphertext_b64@, secret@) {
            Ok(t) => r is Ok && r->Ok_0@ == t,
            Err(e) => r == Err::<String, DecryptError>(e),
        },
{
    let encrypted_data = match decode_standard_base64(ciphertext_b64) {
        Some(d) => d,
        None => return Err(DecryptError::BadBase64),
    };
    if encrypted_data.len() < 16 {
        return Err(DecryptError::Truncated);
    }
    let salt = &encrypted_data[8..16];
    let encrypted_payload = &encrypted_data[16..encrypted_data.len()];
    let key = generate_encryption_key(salt, secret.as_bytes());
    decrypt_aes(encrypted_payload, key.as_slice())
}

} // verus!
