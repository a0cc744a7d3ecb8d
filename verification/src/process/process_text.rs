//! Signing a text, checking a signature, and naming the files of new keys.
use vstd::prelude::*;
use vstd::slice::slice_to_vec;
use vstd::utf8::{encode_utf8, valid_utf8};
use ed25519_dalek::{Signature, Signer, SigningKey, Verifier, VerifyingKey};
use crate::cli::text::{TextSignFormat, TextSubcommand};
use crate::process::process_base64::{
    base64_bytes, base64_text, decode_url_safe_no_pad, decoded_bytes, encode_url_safe_no_pad,
};
use crate::resp::equal::bytes_eq;
use crate::resp::wire::append_bytes;
use crate::text::{string_from_utf8, trim_end, trimmed_end};

verus! {

/// The number of bytes of a key, of either scheme.
pub const KEY_LENGTH: usize = 32;

/// The number of bytes of an Ed25519 signature.
pub const SIGNATURE_LENGTH: usize = 64;

/// The file that a new BLAKE3 key goes to.
pub const FILE_BLAKE3: &'static str = "blake3.txt";

/// The file that a new Ed25519 signing key goes to.
pub const FILE_SIGNING_KEY: &'static str = "sk";

/// The file that a new Ed25519 verifying key goes to.
pub const FILE_VERIFYING_KEY: &'static str = "pk";

/// The BLAKE3 hash of `data`.
pub uninterp spec fn blake3_digest(data: Seq<u8>) -> Seq<u8>;

/// The Ed25519 signature of `message` under the signing key `key`.
pub uninterp spec fn ed25519_signature(key: Seq<u8>, message: Seq<u8>) -> Seq<u8>;

/// Whether the 32 bytes `key` are an Ed25519 verifying key.
pub uninterp spec fn ed25519_public_key(key: Seq<u8>) -> bool;

/// Whether the verifying key `key` accepts `signature` for `message`.
pub uninterp spec fn ed25519_accepts(key: Seq<u8>, message: Seq<u8>, signature: Seq<u8>) -> bool;

/// `hash` of the crate blake3: the hash of `data`, which has 32 bytes.
#[verifier::external_body]
fn blake3_hash(data: &[u8]) -> (digest: Vec<u8>)
    ensures
        digest@ == blake3_digest(data@),
        digest@.len() == 32,
{
    blake3::hash(data).as_bytes().to_vec()
}

/// `Signer::sign` of the crate ed25519_dalek, on the `SigningKey` that
/// `SigningKey::from_bytes` makes of `key`: the signature of `message`, which
/// has 64 bytes.
#[verifier::external_body]
fn ed25519_sign(key: &[u8], message: &[u8]) -> (signature: Vec<u8>)
    requires
        key@.len() == 32,
    ensures
        signature@ == ed25519_signature(key@, message@),
        signature@.len() == 64,
{
    let secret: &[u8; 32] = key.try_into().unwrap();
    SigningKey::from_bytes(secret).sign(message).to_vec()
}

/// `VerifyingKey::from_bytes` of the crate ed25519_dalek: whether it takes
/// `key` for a verifying key.
#[verifier::external_body]
fn ed25519_is_public_key(key: &[u8]) -> (r: bool)
    requires
        key@.len() == 32,
    ensures
        r == ed25519_public_key(key@),
{
    let public: &[u8; 32] = key.try_into().unwrap();
    VerifyingKey::from_bytes(public).is_ok()
}

/// `Verifier::verify` of the crate ed25519_dalek, on the `VerifyingKey` that
/// `VerifyingKey::from_bytes` makes of `key` and the `Signature` that
/// `Signature::from_bytes` makes of `signature`: whether the key accepts the
/// signature for `message`.
#[verifier::external_body]
fn ed25519_verify(key: &[u8], message: &[u8], signature: &[u8]) -> (r: bool)
    requires
        key@.len() == 32,
        ed25519_public_key(key@),
        signature@.len() == 64,
    ensures
        r == ed25519_accepts(key@, message@, signature@),
{
    let public: &[u8; 32] = key.try_into().unwrap();
    let raw: &[u8; 64] = signature.try_into().unwrap();
    VerifyingKey::from_bytes(public).unwrap().verify(message, &Signature::from_bytes(raw)).is_ok()
}

/// Why a text command produced nothing.
#[derive(PartialEq, Eq, Structural, Debug, Clone, Copy)]
pub enum TextError {
    /// No key was handed in, or fewer keys than the scheme has.
    MissingKey,
    /// The key has not 32 bytes.
    KeyLength,
    /// The key is no Ed25519 verifying key.
    PublicKey,
    /// The signature is no base64 text for URLs without padding.
    NotBase64,
    /// The signature has not 64 bytes.
    SignatureLength,
    /// The new key is not UTF-8, and so cannot be written as text.
    KeyNotText,
}

/// What a text command came to.
#[derive(PartialEq, Eq, Debug)]
pub enum TextOutcome {
    /// The signature, as base64 text for URLs without padding.
    Signed(String),
    /// Whether the signature is one of the text under the key.
    Verified(bool),
    /// The files to write, each with its name and what goes into it.
    KeyFiles(Vec<(String, Vec<u8>)>),
}

/// Signs and verifies with a BLAKE3 hash over the text and a shared key.
pub struct Blake3 {
    key: Vec<u8>,
}

impl Blake3 {
    /// The key has 32 bytes.
    #[verifier::type_invariant]
    spec fn well_formed(self) -> bool {
        self.key@.len() == 32
    }

    /// The shared key.
    pub closed spec fn view(&self) -> Seq<u8> {
        self.key@
    }

    /// The signer and verifier that shares `key`.
    pub fn new(key: [u8; 32]) -> (r: Blake3)
        ensures
            r@ == key@,
    {
        Blake3 { key: slice_to_vec(key.as_slice()) }
    }

    /// The signer and verifier that shares the key that a key file held.
    pub fn load(key: Vec<u8>) -> (r: Result<Blake3, TextError>)
        ensures
            match r {
                Ok(loaded) => key@.len() == 32 && loaded@ == key@,
                Err(e) => key@.len() != 32 && e == TextError::KeyLength,
            },
    {
        if key.len() != KEY_LENGTH {
            return Err(TextError::KeyLength);
        }
        Ok(Blake3 { key })
    }

    /// The signature of `data`: the hash of `data` with the key behind it.
    pub fn sign(&self, data: Vec<u8>) -> (signature: Vec<u8>)
        ensures
            signature@ == blake3_digest(data@ + self@),
            signature@.len() == 32,
    {
        let mut keyed: Vec<u8> = data;
        append_bytes(&mut keyed, self.key.as_slice());
        blake3_hash(keyed.as_slice())
    }

    /// Whether `sig` is the signature of `data`.
    pub fn verify(&self, data: Vec<u8>, sig: &[u8]) -> (r: bool)
        ensures
            r == (blake3_digest(data@ + self@) == sig@),
    {
        let hash: Vec<u8> = self.sign(data);
        bytes_eq(hash.as_slice(), sig)
    }
}

/// Signs with an Ed25519 signing key.
pub struct Ed25519Signer {
    key: Vec<u8>,
}

impl Ed25519Signer {
    /// The key has 32 bytes.
    #[verifier::type_invariant]
    spec fn well_formed(self) -> bool {
        self.key@.len() == 32
    }

    /// The signing key.
    pub closed spec fn view(&self) -> Seq<u8> {
        self.key@
    }

    /// The signer with the key that a key file held.
    pub fn load(key: Vec<u8>) -> (r: Result<Ed25519Signer, TextError>)
        ensures
            match r {
                Ok(loaded) => key@.len() == 32 && loaded@ == key@,
                Err(e) => key@.len() != 32 && e == TextError::KeyLength,
            },
    {
        if key.len() != KEY_LENGTH {
            return Err(TextError::KeyLength);
        }
        Ok(Ed25519Signer { key })
    }

    /// The signature of `data`.
    pub fn sign(&self, data: &[u8]) -> (signature: Vec<u8>)
        ensures
            signature@ == ed25519_signature(self@, data@),
            signature@.len() == 64,
    {
        proof {
            use_type_invariant(self);
        }
        ed25519_sign(self.key.as_slice(), data)
    }
}

/// Verifies with an Ed25519 verifying key.
pub struct Ed25519Verifier {
    key: Vec<u8>,
}

impl Ed25519Verifier {
    /// The key has 32 bytes and is a verifying key.
    #[verifier::type_invariant]
    spec fn well_formed(self) -> bool {
        self.key@.len() == 32 && ed25519_public_key(self.key@)
    }

    /// The verifying key.
    pub closed spec fn view(&self) -> Seq<u8> {
        self.key@
    }

    /// The verifier with the key that a key file held.
    pub fn load(key: Vec<u8>) -> (r: Result<Ed25519Verifier, TextError>)
        ensures
            match r {
                Ok(loaded) => key@.len() == 32 && ed25519_public_key(key@) && loaded@ == key@,
                Err(e) => if key@.len() != 32 {
                    e == TextError::KeyLength
                } else {
                    !ed25519_public_key(key@) && e == TextError::PublicKey
                },
            },
    {
        if key.len() != KEY_LENGTH {
            return Err(TextError::KeyLength);
        }
        if !ed25519_is_public_key(key.as_slice()) {
            return Err(TextError::PublicKey);
        }
        Ok(Ed25519Verifier { key })
    }

    /// Whether the key accepts `sig` for `data`; a signature that has not 64
    /// bytes is none.
    pub fn verify(&self, data: &[u8], sig: &[u8]) -> (r: Result<bool, TextError>)
        ensures
            match r {
                Ok(accepted) => sig@.len() == 64 && accepted == ed25519_accepts(
                    self@,
                    data@,
                    sig@,
                ),
                Err(e) => sig@.len() != 64 && e == TextError::SignatureLength,
            },
    {
        proof {
            use_type_invariant(self);
        }
        if sig.len() != SIGNATURE_LENGTH {
            return Err(TextError::SignatureLength);
        }
        Ok(ed25519_verify(self.key.as_slice(), data, sig))
    }
}

/// The signature of `input` under `key` in the scheme `format`, as bytes.
pub open spec fn signature_of(format: TextSignFormat, input: Seq<u8>, key: Seq<u8>) -> Result<
    Seq<u8>,
    TextError,
> {
    if key.len() != 32 {
        Err(TextError::KeyLength)
    } else {
        match format {
            TextSignFormat::Blake3 => Ok(blake3_digest(input + key)),
            TextSignFormat::Ed25519 => Ok(ed25519_signature(key, input)),
        }
    }
}

/// Whether `signature` is one of `input` under `key` in the scheme `format`,
/// where `decoded` is what the base64 text of the signature stands for.
pub open spec fn verdict_of(
    format: TextSignFormat,
    input: Seq<u8>,
    key: Seq<u8>,
    decoded: Option<Seq<u8>>,
) -> Result<bool, TextError> {
    match decoded {
        None => Err(TextError::NotBase64),
        Some(signature) => if key.len() != 32 {
            Err(TextError::KeyLength)
        } else {
            match format {
                TextSignFormat::Blake3 => Ok(blake3_digest(input + key) == signature),
                TextSignFormat::Ed25519 => if !ed25519_public_key(key) {
                    Err(TextError::PublicKey)
                } else if signature.len() != 64 {
                    Err(TextError::SignatureLength)
                } else {
                    Ok(ed25519_accepts(key, input, signature))
                },
            }
        },
    }
}

/// The signature of `input` under `key` in the scheme `format`, as base64
/// text for URLs without padding.
pub fn process_sign(input: Vec<u8>, key: Vec<u8>, format: TextSignFormat) -> (r: Result<
    String,
    TextError,
>)
    ensures
        match r {
            Ok(text) => match signature_of(format, input@, key@) {
                Ok(signature) => text@ == base64_text(true, false, signature),
                Err(_) => false,
            },
            Err(e) => signature_of(format, input@, key@) == Err::<Seq<u8>, TextError>(e),
        },
{
    let signed: Vec<u8> = match format {
        TextSignFormat::Blake3 => match Blake3::load(key) {
            Ok(signer) => signer.sign(input),
            Err(e) => {
                return Err(e);
            },
        },
        TextSignFormat::Ed25519 => match Ed25519Signer::load(key) {
            Ok(signer) => signer.sign(input.as_slice()),
            Err(e) => {
                return Err(e);
            },
        },
    };
    Ok(encode_url_safe_no_pad(signed.as_slice()))
}

/// Whether the signature is one of `input` under `key` in the scheme
/// `format`: `decoded` is what decoding the base64 text of the signature gave.
pub fn verify_decoded(
    input: Vec<u8>,
    key: Vec<u8>,
    decoded: Option<Vec<u8>>,
    format: TextSignFormat,
) -> (r: Result<bool, TextError>)
    ensures
        r == verdict_of(
            format,
            input@,
            key@,
            match decoded {
                Some(signature) => Some(signature@),
                None => None,
            },
        ),
{
    let signature: Vec<u8> = match decoded {
        Some(signature) => signature,
        None => {
            return Err(TextError::NotBase64);
        },
    };
    match format {
        TextSignFormat::Blake3 => match Blake3::load(key) {
            Ok(verifier) => Ok(verifier.verify(input, signature.as_slice())),
            Err(e) => Err(e),
        },
        TextSignFormat::Ed25519 => match Ed25519Verifier::load(key) {
            Ok(verifier) => verifier.verify(input.as_slice(), signature.as_slice()),
            Err(e) => Err(e),
        },
    }
}

/// Whether `sig`, a base64 text for URLs without padding, is a signature of
/// `input` under `key` in the scheme `format`.
pub fn process_verify(input: Vec<u8>, key: Vec<u8>, sig: &[u8], format: TextSignFormat) -> (r:
    Result<bool, TextError>)
    ensures
        r == verdict_of(format, input@, key@, base64_bytes(true, false, sig@)),
{
    verify_decoded(input, key, decoded_bytes(decode_url_safe_no_pad(sig)), format)
}

/// The names of the files that new keys of the scheme `format` go to, first key first.
pub open spec fn key_file_names(format: TextSignFormat) -> Seq<Seq<char>> {
    match format {
        TextSignFormat::Blake3 => seq![FILE_BLAKE3@],
        TextSignFormat::Ed25519 => seq![FILE_SIGNING_KEY@, FILE_VERIFYING_KEY@],
    }
}

/// Whether `keys` can be written out as new keys of the scheme `format`, and
/// why not.
pub open spec fn key_files_fault(format: TextSignFormat, keys: Seq<Seq<u8>>) -> Option<TextError> {
    if keys.len() < key_file_names(format).len() {
        Some(TextError::MissingKey)
    } else if format == TextSignFormat::Blake3 && !valid_utf8(keys[0]) {
        Some(TextError::KeyNotText)
    } else {
        None
    }
}

/// The files that the new keys `keys` of the scheme `format` go to, each with
/// its name and what goes into it. A BLAKE3 key is written as text.
pub fn process_generate(format: TextSignFormat, keys: Vec<Vec<u8>>) -> (r: Result<
    Vec<(String, Vec<u8>)>,
    TextError,
>)
    ensures
        match r {
            Ok(files) => key_files_fault(format, keys@.map_values(|k: Vec<u8>| k@)) is None
                && files@.len() == key_file_names(format).len() && forall|i: int|
                0 <= i < files@.len() ==> files@[i].0@ == key_file_names(format)[i]
                    && files@[i].1@ == keys@[i]@,
            Err(e) => key_files_fault(format, keys@.map_values(|k: Vec<u8>| k@)) == Some(e),
        },
{
    let mut keys: Vec<Vec<u8>> = keys;
    let ghost given = keys@;
    let mut files: Vec<(String, Vec<u8>)> = Vec::new();
    match format {
        TextSignFormat::Blake3 => {
            if keys.len() < 1 {
                return Err(TextError::MissingKey);
            }
            let key: Vec<u8> = keys.remove(0);
            match string_from_utf8(slice_to_vec(key.as_slice())) {
                Some(_) => {},
                None => {
                    return Err(TextError::KeyNotText);
                },
            }
            files.push((FILE_BLAKE3.to_owned(), key));
        },
        TextSignFormat::Ed25519 => {
            if keys.len() < 2 {
                return Err(TextError::MissingKey);
            }
            let signing: Vec<u8> = keys.remove(0);
            let verifying: Vec<u8> = keys.remove(0);
            files.push((FILE_SIGNING_KEY.to_owned(), signing));
            files.push((FILE_VERIFYING_KEY.to_owned(), verifying));
        },
    }
    Ok(files)
}

/// What the text command `cmd` comes to, where `input` is what was read of
/// the text and `keys` holds what the key file held, or the new keys, first
/// key first.
pub fn process_text(cmd: TextSubcommand, input: Vec<u8>, keys: Vec<Vec<u8>>) -> (r: Result<
    TextOutcome,
    TextError,
>)
    ensures
        match cmd {
            TextSubcommand::Sign(opts) => if keys@.len() == 0 {
                r == Err::<TextOutcome, TextError>(TextError::MissingKey)
            } else {
                match signature_of(opts.format, input@, keys@[0]@) {
                    Ok(signature) => match r {
                        Ok(TextOutcome::Signed(text)) => text@ == base64_text(
                            true,
                            false,
                            signature,
                        ),
                        _ => false,
                    },
                    Err(e) => r == Err::<TextOutcome, TextError>(e),
                }
            },
            TextSubcommand::Verify(opts) => if keys@.len() == 0 {
                r == Err::<TextOutcome, TextError>(TextError::MissingKey)
            } else {
                match verdict_of(
                    opts.format,
                    input@,
                    keys@[0]@,
                    base64_bytes(true, false, encode_utf8(trimmed_end(opts.sig@))),
                ) {
                    Ok(accepted) => r == Ok::<TextOutcome, TextError>(
                        TextOutcome::Verified(accepted),
                    ),
                    Err(e) => r == Err::<TextOutcome, TextError>(e),
                }
            },
            TextSubcommand::Generate(opts) => match r {
                Ok(TextOutcome::KeyFiles(files)) => key_files_fault(
                    opts.format,
                    keys@.map_values(|k: Vec<u8>| k@),
                ) is None && files@.len() == key_file_names(opts.format).len() && forall|i: int|
                    0 <= i < files@.len() ==> files@[i].0@ == key_file_names(opts.format)[i]
                        && files@[i].1@ == keys@[i]@,
                Ok(_) => false,
                Err(e) => key_files_fault(opts.format, keys@.map_values(|k: Vec<u8>| k@))
                    == Some(e),
            },
        },
{
    let mut keys: Vec<Vec<u8>> = keys;
    match cmd {
        TextSubcommand::Sign(opts) => {
            if keys.len() == 0 {
                return Err(TextError::MissingKey);
            }
            let key: Vec<u8> = keys.remove(0);
            match process_sign(input, key, opts.format) {
                Ok(text) => Ok(TextOutcome::Signed(text)),
                Err(e) => Err(e),
            }
        },
        TextSubcommand::Verify(opts) => {
            if keys.len() == 0 {
                return Err(TextError::MissingKey);
            }
            let key: Vec<u8> = keys.remove(0);
            let sig: &str = trim_end(opts.sig.as_str());
            match process_verify(input, key, sig.as_bytes(), opts.format) {
                Ok(accepted) => Ok(TextOutcome::Verified(accepted)),
                Err(e) => Err(e),
            }
        },
        TextSubcommand::Generate(opts) => match process_generate(opts.format, keys) {
            Ok(files) => Ok(TextOutcome::KeyFiles(files)),
            Err(e) => Err(e),
        },
    }
}

} // verus!
