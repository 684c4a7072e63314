//! Encryption of the synchronised state with a passphrase (`age`, scrypt
//! recipient), and the errors shown for each way it can fail.
use vstd::prelude::*;
use crate::text::push_str;

verus! {

/// Start of the error text of a decryption the passphrase could not open,
/// so that the frontend can offer to update the passphrase (rotated on
/// another device) instead of a generic error.
pub const BAD_PASSPHRASE_MARKER: &'static str = "sync-passphrase:";

/// `age::Decryptor::new` accepts the bytes: they start with a well-formed
/// age header (a function of the bytes alone).
pub uninterp spec fn age_header_ok(ciphertext: Seq<u8>) -> bool;

/// What an age file gives when it is opened with a passphrase. Whether it
/// can be opened at all also depends on the machine (the scrypt work
/// accepted is measured on it); when it opens, the plaintext is this.
pub uninterp spec fn age_plaintext_of(passphrase: Seq<char>, ciphertext: Seq<u8>) -> Seq<u8>;

/// Where the encryption of a plaintext failed, with the crate's error text.
#[derive(Debug, Clone, PartialEq, Eq)]
pub enum EncryptFailure {
    /// Writing the header (`wrap_output`).
    Wrap(String),
    /// Writing the payload.
    Write(String),
    /// Closing the stream (`finish`).
    Finish(String),
}

/// Where the decryption of an age file failed, with the crate's error text.
#[derive(Debug, Clone, PartialEq, Eq)]
pub enum DecryptFailure {
    /// The bytes are not an age file (`Decryptor::new`).
    Header(String),
    /// The passphrase does not open the file, or the work it asks is too
    /// much for this machine (`Decryptor::decrypt`).
    Key(String),
    /// The payload is damaged or cut short (reading the plaintext).
    Payload(String),
}

/// `age::Encryptor::with_user_passphrase`, `wrap_output` into a `Vec`,
/// `write_all` and `finish`. The salt, the file key and the nonce are
/// random, so the bytes are not stated; what holds of every outcome is that
/// a ciphertext made has a well-formed header and that what it holds under
/// the same passphrase is the plaintext.
#[verifier::external_body]
fn age_encrypt(passphrase: &str, plaintext: &[u8]) -> (r: Result<Vec<u8>, EncryptFailure>)
    ensures
        r matches Ok(c) ==> age_header_ok(c@) && age_plaintext_of(passphrase@, c@) == plaintext@,
{
    let enc = age::Encryptor::with_user_passphrase(age::secrecy::SecretString::new(passphrase.into()));
    let mut out = Vec::new();
    let mut w = enc.wrap_output(&mut out).map_err(|e| EncryptFailure::Wrap(e.to_string()))?;
    std::io::Write::write_all(&mut w, plaintext).map_err(|e| EncryptFailure::Write(e.to_string()))?;
    w.finish().map_err(|e| EncryptFailure::Finish(e.to_string()))?;
    Ok(out)
}

/// `age::Decryptor::new`, `decrypt` with an `age::scrypt::Identity` of the
/// passphrase, and `read_to_end`. The header stage fails exactly when the
/// bytes are not an age file; the plaintext, when there is one, is the one
/// the file holds under that passphrase. Whether the key stage succeeds is
/// not stated: it also depends on the scrypt work this machine accepts.
#[verifier::external_body]
fn age_decrypt(passphrase: &str, ciphertext: &[u8]) -> (r: Result<Vec<u8>, DecryptFailure>)
    ensures
        match r {
            Ok(p) => age_header_ok(ciphertext@) && p@ == age_plaintext_of(passphrase@, ciphertext@),
            Err(DecryptFailure::Header(_)) => !age_header_ok(ciphertext@),
            Err(_) => age_header_ok(ciphertext@),
        },
{
    let d = age::Decryptor::new(ciphertext).map_err(|e| DecryptFailure::Header(e.to_string()))?;
    let id = age::scrypt::Identity::new(age::secrecy::SecretString::new(passphrase.into()));
    let mut reader = d.decrypt(std::iter::once(&id as &dyn age::Identity)).map_err(|e| DecryptFailure::Key(e.to_string()))?;
    let mut plain = Vec::new();
    std::io::Read::read_to_end(&mut reader, &mut plain).map_err(|e| DecryptFailure::Payload(e.to_string()))?;
    Ok(plain)
}

pub open spec fn msg_encrypt(f: EncryptFailure) -> Seq<char> {
    match f {
        EncryptFailure::Wrap(e) => "wrap_output: "@ + e@,
        EncryptFailure::Write(e) => "write encrypted: "@ + e@,
        EncryptFailure::Finish(e) => "finish encryptor: "@ + e@,
    }
}

pub open spec fn msg_decrypt(f: DecryptFailure) -> Seq<char> {
    match f {
        DecryptFailure::Header(e) => "decryptor: "@ + e@,
        DecryptFailure::Key(e) => BAD_PASSPHRASE_MARKER@ + " passphrase incorrecta o datos corruptos: "@ + e@,
        DecryptFailure::Payload(e) => "read decrypted: "@ + e@,
    }
}

/// The error text of each way an encryption can fail; a ciphertext passes.
pub fn encrypt_result(outcome: Result<Vec<u8>, EncryptFailure>) -> (r: Result<Vec<u8>, String>)
    ensures
        match outcome {
            Ok(c) => r == Ok::<Vec<u8>, String>(c),
            Err(f) => r matches Err(m) && m@ == msg_encrypt(f),
        },
{
    match outcome {
        Ok(c) => Ok(c),
        Err(f) => {
            let mut m = String::new();
            match f {
                EncryptFailure::Wrap(e) => {
                    push_str(&mut m, "wrap_output: ");
                    push_str(&mut m, e.as_str());
                },
                EncryptFailure::Write(e) => {
                    push_str(&mut m, "write encrypted: ");
                    push_str(&mut m, e.as_str());
                },
                EncryptFailure::Finish(e) => {
                    push_str(&mut m, "finish encryptor: ");
                    push_str(&mut m, e.as_str());
                },
            }
            Err(m)
        },
    }
}

/// The error text of each way a decryption can fail: only a file the
/// passphrase does not open carries `BAD_PASSPHRASE_MARKER`; a plaintext
/// passes.
pub fn decrypt_result(outcome: Result<Vec<u8>, DecryptFailure>) -> (r: Result<Vec<u8>, String>)
    ensures
        match outcome {
            Ok(p) => r == Ok::<Vec<u8>, String>(p),
            Err(f) => r matches Err(m) && m@ == msg_decrypt(f),
        },
{
    match outcome {
        Ok(p) => Ok(p),
        Err(f) => {
            let mut m = String::new();
            match f {
                DecryptFailure::Header(e) => {
                    push_str(&mut m, "decryptor: ");
                    push_str(&mut m, e.as_str());
                },
                DecryptFailure::Key(e) => {
                    push_str(&mut m, BAD_PASSPHRASE_MARKER);
                    push_str(&mut m, " passphrase incorrecta o datos corruptos: ");
                    push_str(&mut m, e.as_str());
                },
                DecryptFailure::Payload(e) => {
                    push_str(&mut m, "read decrypted: ");
                    push_str(&mut m, e.as_str());
                },
            }
            Err(m)
        },
    }
}

/// Encrypts `plaintext` with `passphrase`: a ciphertext that opens under
/// the same passphrase to the plaintext, or the error text of the stage
/// that failed.
pub fn encrypt(passphrase: &str, plaintext: &[u8]) -> (r: Result<Vec<u8>, String>)
    ensures
        match r {
            Ok(c) => age_header_ok(c@) && age_plaintext_of(passphrase@, c@) == plaintext@,
            Err(m) => exists|f: EncryptFailure| m@ == msg_encrypt(f),
        },
{
    encrypt_result(age_encrypt(passphrase, plaintext))
}

/// Decrypts an age file with `passphrase`: its plaintext, or the error text
/// of the stage that failed. Bytes that are not an age file give
/// `decryptor: …`; an age file the passphrase does not open gives the
/// marked error; a damaged payload gives `read decrypted: …`.
pub fn decrypt(passphrase: &str, ciphertext: &[u8]) -> (r: Result<Vec<u8>, String>)
    ensures
        match r {
            Ok(p) => age_header_ok(ciphertext@) && p@ == age_plaintext_of(passphrase@, ciphertext@),
            Err(m) => if age_header_ok(ciphertext@) {
                exists|e: String|
                    m@ == msg_decrypt(DecryptFailure::Key(e)) || m@ == msg_decrypt(DecryptFailure::Payload(e))
            } else {
                exists|e: String| m@ == msg_decrypt(DecryptFailure::Header(e))
            },
        },
{
    decrypt_result(age_decrypt(passphrase, ciphertext))
}

/// What a decryption gives back of an encryption: a ciphertext that
/// `encrypt` made with a passphrase, once `decrypt` opens it with the same
/// passphrase, gives the plaintext that was encrypted.
pub proof fn lemma_decrypt_gives_back_encrypt(passphrase: Seq<char>, plaintext: Seq<u8>, ciphertext: Seq<u8>, opened: Seq<u8>)
    requires
        age_plaintext_of(passphrase, ciphertext) == plaintext,
        opened == age_plaintext_of(passphrase, ciphertext),
    ensures
        opened == plaintext,
{
}

} // verus!
