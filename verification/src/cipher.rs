//! The payload cipher: AES-128 in ECB mode under the device key, wrapped in
//! base64 for version 3.1, and the keyed MD5 digest of version 3.3.
use vstd::prelude::*;
use vstd::slice::slice_subrange;
use vstd::slice::slice_to_vec;
use base64::Engine;
use crate::error::ErrorKind;
use crate::error::ParseErrorKind;
use crate::error::Result;
use crate::mesparse::TuyaVersion;

verus! {

/// The longest input the AES backend takes: it counts the bytes of its
/// output, which may be a block longer than the input, in a C `int`.
pub const MAX_CIPHER_INPUT: usize = 0x7fff_ffef;

/// AES-128-ECB of `data` under `key`, padded as PKCS#7 asks; `None` where the
/// backend does not encrypt `data` under `key`.
pub uninterp spec fn aes_128_ecb_encrypted(key: Seq<u8>, data: Seq<u8>) -> Option<Seq<u8>>;

/// What `data` decrypts to under `key` with AES-128-ECB, the PKCS#7 padding
/// taken off; `None` where `data` is no such ciphertext.
pub uninterp spec fn aes_128_ecb_decrypted(key: Seq<u8>, data: Seq<u8>) -> Option<Seq<u8>>;

/// `data` in standard base64 with padding, as ASCII.
pub uninterp spec fn base64_encoded(data: Seq<u8>) -> Seq<u8>;

/// The bytes that `text` is the standard padded base64 of; `None` where it is
/// not base64.
pub uninterp spec fn base64_decoded(text: Seq<u8>) -> Option<Seq<u8>>;

/// The MD5 digest of `data`.
pub uninterp spec fn md5_digest(data: Seq<u8>) -> Seq<u8>;

/// Whether `b` can occur in standard padded base64.
pub open spec fn is_base64_byte(b: u8) -> bool {
    ||| 0x41 <= b <= 0x5a
    ||| 0x61 <= b <= 0x7a
    ||| 0x30 <= b <= 0x39
    ||| b == 0x2b
    ||| b == 0x2f
    ||| b == 0x3d
}

/// Calls `openssl::symm::encrypt` with the cipher AES-128-ECB and no IV.
/// Trusted: it succeeds exactly where [`aes_128_ecb_encrypted`] has a value,
/// and then returns that value; PKCS#7 padding makes it the next multiple of
/// 16 bytes above the input's length; and it decrypts to the input under the
/// same key.
#[verifier::external_body]
fn aes_encrypt(key: &[u8], data: &[u8]) -> (res: core::result::Result<
    Vec<u8>,
    openssl::error::ErrorStack,
>)
    requires
        key@.len() == 16,
        data@.len() <= MAX_CIPHER_INPUT,
    ensures
        match res {
            Ok(c) => {
                &&& aes_128_ecb_encrypted(key@, data@) == Some(c@)
                &&& c@.len() == (data@.len() / 16 + 1) * 16
                &&& aes_128_ecb_decrypted(key@, c@) == Some(data@)
            },
            Err(_) => aes_128_ecb_encrypted(key@, data@) is None,
        },
{
    openssl::symm::encrypt(openssl::symm::Cipher::aes_128_ecb(), key, None, data)
}

/// Calls `openssl::symm::decrypt` with the cipher AES-128-ECB and no IV.
/// Trusted: it succeeds exactly where [`aes_128_ecb_decrypted`] has a value,
/// and then returns that value.
#[verifier::external_body]
fn aes_decrypt(key: &[u8], data: &[u8]) -> (res: core::result::Result<
    Vec<u8>,
    openssl::error::ErrorStack,
>)
    requires
        key@.len() == 16,
        data@.len() <= MAX_CIPHER_INPUT,
    ensures
        match res {
            Ok(plain) => aes_128_ecb_decrypted(key@, data@) == Some(plain@),
            Err(_) => aes_128_ecb_decrypted(key@, data@) is None,
        },
{
    openssl::symm::decrypt(openssl::symm::Cipher::aes_128_ecb(), key, None, data)
}

/// Calls `encode` of base64's `STANDARD` engine. Trusted: the result is the
/// text that [`base64_encoded`] names, four characters of the base64 alphabet
/// or padding for every three bytes begun, and it decodes to the input.
#[verifier::external_body]
fn base64_encode(data: &[u8]) -> (text: Vec<u8>)
    requires
        (data@.len() + 2) / 3 * 4 <= usize::MAX,
    ensures
        text@ == base64_encoded(data@),
        text@.len() == (data@.len() + 2) / 3 * 4,
        forall|i: int| 0 <= i < text@.len() ==> is_base64_byte(#[trigger] text@[i]),
        base64_decoded(text@) == Some(data@),
{
    base64::engine::general_purpose::STANDARD.encode(data).into_bytes()
}

/// Calls `decode` of base64's `STANDARD` engine. Trusted: it succeeds exactly
/// where [`base64_decoded`] has a value, and then returns that value, which is
/// no longer than the text.
#[verifier::external_body]
fn base64_decode(text: &[u8]) -> (res: core::result::Result<Vec<u8>, base64::DecodeError>)
    ensures
        match res {
            Ok(data) => base64_decoded(text@) == Some(data@) && data@.len() <= text@.len(),
            Err(_) => base64_decoded(text@) is None,
        },
{
    base64::engine::general_purpose::STANDARD.decode(text)
}

/// Calls `md5::compute`. Trusted: the result is the 16-byte digest that
/// [`md5_digest`] names.
#[verifier::external_body]
pub(crate) fn md5_compute(data: &[u8]) -> (digest: Vec<u8>)
    ensures
        digest@ == md5_digest(data@),
        digest@.len() == 16,
{
    md5::compute(data).0.to_vec()
}

/// Whether `data` opens with the version's tag and goes on behind it.
pub open spec fn has_header(version: TuyaVersion, data: Seq<u8>) -> bool {
    data.len() > 3 && data.subrange(0, 3) == version.tag()
}

/// The length of the header in front of a ciphertext: the tag and 16 more
/// bytes in 3.1, the tag and a 12-byte digest in 3.3.
pub open spec fn header_len(version: TuyaVersion) -> int {
    match version {
        TuyaVersion::ThreeOne => 19,
        TuyaVersion::ThreeThree => 15,
    }
}

/// `data` without its header, where it has one. A header that `data` is too
/// short to hold in full takes all of it.
pub open spec fn without_header(version: TuyaVersion, data: Seq<u8>) -> Seq<u8> {
    if !has_header(version, data) {
        data
    } else if header_len(version) <= data.len() {
        data.subrange(header_len(version), data.len() as int)
    } else {
        Seq::empty()
    }
}

/// The text that stands for an AES ciphertext: in 3.1 its base64, in 3.3
/// itself.
pub open spec fn wrapped(version: TuyaVersion, ciphertext: Seq<u8>) -> Seq<u8> {
    match version {
        TuyaVersion::ThreeOne => base64_encoded(ciphertext),
        TuyaVersion::ThreeThree => ciphertext,
    }
}

/// What [`TuyaCipher::encrypt`] makes of `data`: the AES ciphertext, in 3.1 as
/// base64 text; `None` where the backend does not encrypt `data`.
pub open spec fn encrypted(version: TuyaVersion, key: Seq<u8>, data: Seq<u8>) -> Option<Seq<u8>> {
    match aes_128_ecb_encrypted(key, data) {
        Some(ciphertext) => Some(wrapped(version, ciphertext)),
        None => None,
    }
}

/// The length of what [`TuyaCipher::encrypt`] makes of `len` bytes: the next
/// multiple of 16 above `len`, and in 3.1 four characters for every three
/// bytes of that, or part of three.
pub open spec fn encrypted_len(version: TuyaVersion, len: nat) -> nat {
    let padded = (len / 16 + 1) * 16;
    match version {
        TuyaVersion::ThreeOne => ((padded + 2) / 3 * 4) as nat,
        TuyaVersion::ThreeThree => padded,
    }
}

/// The AES ciphertext that `text` stands for: in 3.1 what it is the base64
/// of, in 3.3 itself. `None` where a 3.1 text is not base64.
pub open spec fn unwrapped(version: TuyaVersion, text: Seq<u8>) -> Option<Seq<u8>> {
    match version {
        TuyaVersion::ThreeOne => base64_decoded(text),
        TuyaVersion::ThreeThree => Some(text),
    }
}

/// What a text without a header decrypts to: the text is [`unwrapped`], and
/// the ciphertext decrypted. `None` where either fails.
pub open spec fn decrypted_bare(version: TuyaVersion, key: Seq<u8>, text: Seq<u8>) -> Option<
    Seq<u8>,
> {
    match unwrapped(version, text) {
        Some(c) => aes_128_ecb_decrypted(key, c),
        None => None,
    }
}

/// The AES ciphertext inside `data`: what stands behind the header,
/// [`unwrapped`].
pub open spec fn ciphertext_of(version: TuyaVersion, data: Seq<u8>) -> Option<Seq<u8>> {
    unwrapped(version, without_header(version, data))
}

/// What [`TuyaCipher::decrypt`] makes of `data`; `None` where it fails.
pub open spec fn decrypted(version: TuyaVersion, key: Seq<u8>, data: Seq<u8>) -> Option<Seq<u8>> {
    if data.len() > MAX_CIPHER_INPUT {
        None
    } else {
        match ciphertext_of(version, data) {
            Some(c) => aes_128_ecb_decrypted(key, c),
            None => None,
        }
    }
}

/// The text whose MD5 authenticates a 3.3 payload:
/// `data=` payload `||lpv=` version `||` key.
pub open spec fn hash_line(version: TuyaVersion, key: Seq<u8>, payload: Seq<u8>) -> Seq<u8> {
    seq![0x64u8, 0x61u8, 0x74u8, 0x61u8, 0x3du8] + payload + seq![
        0x7cu8,
        0x7cu8,
        0x6cu8,
        0x70u8,
        0x76u8,
        0x3du8,
    ] + version.tag() + seq![0x7cu8, 0x7cu8] + key
}

/// The digest that a 3.3 header carries: bytes 4 to 15 of the MD5 of the
/// [`hash_line`].
pub open spec fn digest12(version: TuyaVersion, key: Seq<u8>, payload: Seq<u8>) -> Seq<u8> {
    md5_digest(hash_line(version, key, payload)).subrange(4, 16)
}

/// Takes the header off `data` where it has one: see [`without_header`].
pub fn maybe_strip_header(version: &TuyaVersion, data: &[u8]) -> (rest: Vec<u8>)
    ensures
        rest@ == without_header(*version, data@),
{
    let tag = version.as_bytes();
    if data.len() > 3 && data[0] == tag[0] && data[1] == tag[1] && data[2] == tag[2] {
        assert(data@.subrange(0, 3) =~= version.tag());
        let skip: usize = match version {
            TuyaVersion::ThreeOne => 19,
            TuyaVersion::ThreeThree => 15,
        };
        if skip <= data.len() {
            slice_to_vec(slice_subrange(data, skip, data.len()))
        } else {
            Vec::new()
        }
    } else {
        assert(data@.len() > 3 ==> data@.subrange(0, 3)[0] == data@[0]
            && data@.subrange(0, 3)[1] == data@[1]
            && data@.subrange(0, 3)[2] == data@[2]);
        slice_to_vec(data)
    }
}

/// A device key with the protocol version it is used under.
pub struct TuyaCipher {
    key: Vec<u8>,
    version: TuyaVersion,
}

impl TuyaCipher {
    #[verifier::type_invariant]
    spec fn key_has_16_bytes(&self) -> bool {
        self.key@.len() == 16
    }

    /// The device key.
    pub closed spec fn key(&self) -> Seq<u8> {
        self.key@
    }

    /// The protocol version.
    pub closed spec fn version(&self) -> TuyaVersion {
        self.version
    }

    /// A cipher for `key`, which has to be 16 bytes long. Fails with
    /// `KeyLength` of the number of bytes that the key has instead.
    pub fn create(key: &[u8], version: TuyaVersion) -> (res: Result<TuyaCipher>)
        ensures
            key@.len() == 16 ==> (res matches Ok(c) && c.key() == key@ && c.version() == version),
            key@.len() != 16 ==> (res matches Err(ErrorKind::KeyLength(n)) && n == key@.len()),
    {
        if key.len() == 16 {
            Ok(TuyaCipher { key: slice_to_vec(key), version })
        } else {
            Err(ErrorKind::KeyLength(key.len()))
        }
    }

    /// Encrypts `data`. What comes back is longer than `data`, and decrypts
    /// to `data` again unless it is too long itself, or a 3.3 ciphertext
    /// happens to open like a header.
    ///
    /// Fails with `ParseError(TooLarge)` where `data` has more than
    /// [`MAX_CIPHER_INPUT`] bytes, and with `EncryptionError` where the AES
    /// backend does not encrypt `data`.
    pub fn encrypt(&self, data: &[u8]) -> (res: Result<Vec<u8>>)
        ensures
            match res {
                Ok(c) => {
                    &&& data@.len() <= MAX_CIPHER_INPUT
                    &&& encrypted(self.version(), self.key(), data@) == Some(c@)
                    &&& c@.len() == encrypted_len(self.version(), data@.len())
                    &&& data@.len() < c@.len()
                    &&& unwrapped(self.version(), c@) == aes_128_ecb_encrypted(
                        self.key(),
                        data@,
                    )
                    &&& decrypted_bare(self.version(), self.key(), c@) == Some(data@)
                    &&& self.version() == TuyaVersion::ThreeOne ==> !has_header(self.version(), c@)
                    &&& !has_header(self.version(), c@) && c@.len() <= MAX_CIPHER_INPUT
                        ==> decrypted(self.version(), self.key(), c@) == Some(data@)
                },
                Err(ErrorKind::ParseError(ParseErrorKind::TooLarge)) => data@.len()
                    > MAX_CIPHER_INPUT,
                Err(ErrorKind::EncryptionError(_)) => data@.len() <= MAX_CIPHER_INPUT
                    && aes_128_ecb_encrypted(self.key(), data@) is None,
                Err(_) => false,
            },
    {
        proof {
            use_type_invariant(self);
        }
        if data.len() > MAX_CIPHER_INPUT {
            return Err(ErrorKind::ParseError(ParseErrorKind::TooLarge));
        }
        match aes_encrypt(self.key.as_slice(), data) {
            Err(e) => Err(ErrorKind::EncryptionError(e)),
            Ok(c) => match self.version {
                TuyaVersion::ThreeThree => Ok(c),
                TuyaVersion::ThreeOne => {
                    let text = base64_encode(c.as_slice());
                    proof {
                        if has_header(self.version, text@) {
                            assert(text@.subrange(0, 3)[1] == text@[1]);
                            assert(is_base64_byte(text@[1]));
                        }
                    }
                    Ok(text)
                },
            },
        }
    }

    /// Decrypts `data`: takes off the header where there is one, in 3.1
    /// decodes the base64 text, and decrypts what is left.
    ///
    /// Fails with `ParseError(TooLarge)` where `data` has more than
    /// [`MAX_CIPHER_INPUT`] bytes, with `Base64DecodeError` where a 3.1 text
    /// is not base64, and with `DecryptionError` where what is left is no
    /// ciphertext of this key.
    pub fn decrypt(&self, data: &[u8]) -> (res: Result<Vec<u8>>)
        ensures
            match res {
                Ok(plain) => decrypted(self.version(), self.key(), data@) == Some(plain@),
                Err(ErrorKind::ParseError(ParseErrorKind::TooLarge)) => data@.len()
                    > MAX_CIPHER_INPUT,
                Err(ErrorKind::Base64DecodeError(_)) => data@.len() <= MAX_CIPHER_INPUT
                    && ciphertext_of(self.version(), data@) is None,
                Err(ErrorKind::DecryptionError(_)) => data@.len() <= MAX_CIPHER_INPUT
                    && ciphertext_of(self.version(), data@) is Some && decrypted(
                    self.version(),
                    self.key(),
                    data@,
                ) is None,
                Err(_) => false,
            },
    {
        proof {
            use_type_invariant(self);
        }
        if data.len() > MAX_CIPHER_INPUT {
            return Err(ErrorKind::ParseError(ParseErrorKind::TooLarge));
        }
        let data = maybe_strip_header(&self.version, data);
        let data = match self.version {
            TuyaVersion::ThreeOne => match base64_decode(data.as_slice()) {
                Ok(c) => c,
                Err(e) => {
                    return Err(ErrorKind::Base64DecodeError(e));
                },
            },
            TuyaVersion::ThreeThree => data,
        };
        match aes_decrypt(self.key.as_slice(), data.as_slice()) {
            Ok(plain) => Ok(plain),
            Err(e) => Err(ErrorKind::DecryptionError(e)),
        }
    }

    /// The 12 bytes that authenticate `payload` in a 3.3 header.
    pub fn md5(&self, payload: &[u8]) -> (digest: Vec<u8>)
        ensures
            digest@ == digest12(self.version(), self.key(), payload@),
            digest@.len() == 12,
    {
        let mut line: Vec<u8> = Vec::new();
        line.extend_from_slice(&[0x64u8, 0x61u8, 0x74u8, 0x61u8, 0x3du8]);
        line.extend_from_slice(payload);
        line.extend_from_slice(&[0x7cu8, 0x7cu8, 0x6cu8, 0x70u8, 0x76u8, 0x3du8]);
        line.extend_from_slice(self.version.as_bytes());
        line.extend_from_slice(&[0x7cu8, 0x7cu8]);
        line.extend_from_slice(self.key.as_slice());
        assert(line@ =~= hash_line(self.version, self.key@, payload@));
        let digest = md5_compute(line.as_slice());
        slice_to_vec(slice_subrange(digest.as_slice(), 4, 16))
    }
}

} // verus!
