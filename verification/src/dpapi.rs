//! Storage form of secrets (API keys): the bytes of the text are sealed by
//! the platform's data-protection service and kept as Base64 text. The
//! service itself is handed in by the caller.
use vstd::prelude::*;
use vstd::utf8::{decode_utf8, encode_utf8, valid_utf8};
use crate::base64::{base64, base64_decode, base64_decoded, base64_encode};
use crate::text::{concat, string_from_utf8, utf8_error_text};

verus! {

/// The view of a byte result.
pub open spec fn bytes_result(r: Result<Vec<u8>, String>) -> Result<Seq<u8>, Seq<char>> {
    match r {
        Ok(v) => Ok(v@),
        Err(e) => Err(e@),
    }
}

/// The view of a text result.
pub open spec fn text_result(r: Result<String, String>) -> Result<Seq<char>, Seq<char>> {
    match r {
        Ok(v) => Ok(v@),
        Err(e) => Err(e@),
    }
}

/// The stored form of a text, given what sealing its UTF-8 bytes returned:
/// empty text is stored as empty text; otherwise the Base64 text of the
/// sealed bytes, or the sealing error.
pub open spec fn sealed_text(plain: Seq<char>, sealed: Result<Seq<u8>, Seq<char>>) -> Result<
    Seq<char>,
    Seq<char>,
> {
    if plain.len() == 0 {
        Ok(seq![])
    } else {
        match sealed {
            Ok(b) => Ok(base64(b)),
            Err(e) => Err(e),
        }
    }
}

/// The text recovered from what unsealing returned: the bytes decoded as
/// UTF-8, or an error.
pub open spec fn opened_text(opened: Result<Seq<u8>, Seq<char>>) -> Result<Seq<char>, Seq<char>> {
    match opened {
        Ok(b) => if valid_utf8(b) {
            Ok(decode_utf8(b))
        } else {
            Err("UTF-8 decode error: "@ + utf8_error_text(b))
        },
        Err(e) => Err(e),
    }
}

/// `r` is what storing `plain` can give with the sealing service `encrypt`:
/// empty text is stored as empty text without a call; otherwise `encrypt` is
/// called on the UTF-8 bytes of the text and the result is `sealed_text` of
/// what it returned.
pub open spec fn encrypts_to<F: Fn(&[u8]) -> Result<Vec<u8>, String>>(
    encrypt: F,
    plain: Seq<char>,
    r: Result<Seq<char>, Seq<char>>,
) -> bool {
    if plain.len() == 0 {
        r == Ok::<Seq<char>, Seq<char>>(seq![])
    } else {
        exists|b: &[u8], c: Result<Vec<u8>, String>|
            #![trigger call_ensures(encrypt, (b,), c)]
            b@ == encode_utf8(plain) && call_ensures(encrypt, (b,), c) && r == sealed_text(
                plain,
                bytes_result(c),
            )
    }
}

/// `r` is what reading back `encoded` can give with the unsealing service
/// `decrypt`: empty text gives empty text without a call; text that is not
/// Base64 gives the decoding error; otherwise `decrypt` is called on the
/// decoded bytes and the result is `opened_text` of what it returned.
pub open spec fn decrypts_to<F: Fn(&[u8]) -> Result<Vec<u8>, String>>(
    decrypt: F,
    encoded: Seq<char>,
    r: Result<Seq<char>, Seq<char>>,
) -> bool {
    if encoded.len() == 0 {
        r == Ok::<Seq<char>, Seq<char>>(seq![])
    } else {
        match base64_decoded(encoded) {
            Err(e) => r == Err::<Seq<char>, Seq<char>>(e),
            Ok(bytes) => exists|b: &[u8], c: Result<Vec<u8>, String>|
                #![trigger call_ensures(decrypt, (b,), c)]
                b@ == bytes && call_ensures(decrypt, (b,), c) && r == opened_text(bytes_result(c)),
        }
    }
}

/// Turns a text into its stored form with the sealing service `encrypt`.
pub fn encrypt_string<F: Fn(&[u8]) -> Result<Vec<u8>, String>>(plaintext: &str, encrypt: &F) -> (r:
    Result<String, String>)
    requires
        forall|b: &[u8]| #[trigger] call_requires(*encrypt, (b,)),
    ensures
        encrypts_to(*encrypt, plaintext@, text_result(r)),
{
    if plaintext.is_empty() {
        return Ok(String::new());
    }
    let bytes = plaintext.as_bytes();
    let sealed = encrypt(bytes);
    let r = match &sealed {
        Ok(v) => Ok(base64_encode(v.as_slice())),
        Err(e) => Err(e.clone()),
    };
    assert(call_ensures(*encrypt, (bytes,), sealed));
    r
}

/// Recovers a text from its stored form with the unsealing service
/// `decrypt`.
pub fn decrypt_string<F: Fn(&[u8]) -> Result<Vec<u8>, String>>(encoded: &str, decrypt: &F) -> (r:
    Result<String, String>)
    requires
        forall|b: &[u8]| #[trigger] call_requires(*decrypt, (b,)),
    ensures
        decrypts_to(*decrypt, encoded@, text_result(r)),
{
    if encoded.is_empty() {
        return Ok(String::new());
    }
    let encrypted = base64_decode(encoded)?;
    let slice = encrypted.as_slice();
    let opened = decrypt(slice);
    assert(call_ensures(*decrypt, (slice,), opened));
    match opened {
        Ok(v) => match string_from_utf8(v) {
            Ok(s) => Ok(s),
            Err(e) => Err(concat("UTF-8 decode error: ", e.as_str())),
        },
        Err(e) => Err(e),
    }
}

/// What decrypting a stored text gives, when unsealing maps bytes as `open`
/// does.
pub open spec fn decrypted_text(
    encoded: Seq<char>,
    open: spec_fn(Seq<u8>) -> Result<Seq<u8>, Seq<char>>,
) -> Result<Seq<char>, Seq<char>> {
    if encoded.len() == 0 {
        Ok(seq![])
    } else {
        match base64_decoded(encoded) {
            Err(e) => Err(e),
            Ok(b) => opened_text(open(b)),
        }
    }
}

/// Law: a text stored with a sealing service and read back with an
/// unsealing service that returns the bytes that were sealed is the text
/// itself (for non-empty text and a non-empty sealed form).
pub proof fn lemma_secret_roundtrip(
    plain: Seq<char>,
    sealed: Seq<u8>,
    open: spec_fn(Seq<u8>) -> Result<Seq<u8>, Seq<char>>,
)
    requires
        plain.len() > 0,
        sealed.len() > 0,
        open(sealed) == Ok::<Seq<u8>, Seq<char>>(encode_utf8(plain)),
    ensures
        sealed_text(plain, Ok(sealed)) == Ok::<Seq<char>, Seq<char>>(base64(sealed)),
        decrypted_text(base64(sealed), open) == Ok::<Seq<char>, Seq<char>>(plain),
{
    crate::base64::lemma_base64_roundtrip(sealed);
    crate::base64::lemma_base64_len(sealed);
    vstd::utf8::encode_utf8_valid_utf8(plain);
    vstd::utf8::encode_utf8_decode_utf8(plain);
}

} // verus!
