//! Fingerprints: tokens by which a stored secret can be compared with an expected value without
//! showing either of them.

use base64::engine::general_purpose::URL_SAFE_NO_PAD;
use base64::Engine;
use hmac::{Hmac, Mac};
use rand::rngs::OsRng;
use rand::RngCore;
use sha2::Sha256;
use vstd::prelude::*;
use vstd::utf8::encode_utf8;

use crate::error::{outcome, success};
use crate::error::{Error, ErrorModel, Fault};
use crate::secret::{push_bytes, same_bytes, SecretBytes};
use crate::text::{law_parts_make_up_the_text, lemma_parted_at, lemma_parted_length, parted};
use crate::text::{same_text, split_once};

verus! {

broadcast use vstd::string::group_string_axioms;

/// The bytes of a fingerprint key.
pub const KEY_LENGTH: usize = 32;

/// The bytes of a key id.
pub const KEY_ID_LENGTH: usize = 16;

/// The bytes of a tag.
pub const TAG_LENGTH: usize = 32;

/// The characters of a token: the prefix, a key id, a tag and two dots.
pub const TOKEN_LENGTH: usize = 75;

/// The HMAC-SHA-256 of a message under a key.
pub uninterp spec fn hmac_sha256(key: Seq<u8>, message: Seq<u8>) -> Seq<u8>;

/// `Mac::finalize` of `hmac::Hmac<sha2::Sha256>`: the 32 bytes of the HMAC of everything that was
/// fed to it, here `head` and then `value`. A key of any length is accepted.
#[verifier::external_body]
fn hmac_tag(key: &[u8], head: &[u8], value: &[u8]) -> (r: Vec<u8>)
    ensures
        r@ == hmac_sha256(key@, head@ + value@),
        r@.len() == TAG_LENGTH,
{
    let mut mac = Hmac::<Sha256>::new_from_slice(key).expect("HMAC takes keys of any length");
    mac.update(head);
    mac.update(value);
    mac.finalize().into_bytes().to_vec()
}

/// `Mac::verify_slice` of `hmac::Hmac<sha2::Sha256>`: whether `tag` is the HMAC of everything that
/// was fed to it, here `head` and then `value`. The time it takes does not depend on where the two
/// differ; nothing is stated of that.
#[verifier::external_body]
fn hmac_verifies(key: &[u8], head: &[u8], value: &[u8], tag: &[u8]) -> (r: bool)
    ensures
        r == (tag@ == hmac_sha256(key@, head@ + value@)),
{
    let mut mac = Hmac::<Sha256>::new_from_slice(key).expect("HMAC takes keys of any length");
    mac.update(head);
    mac.update(value);
    mac.verify_slice(tag).is_ok()
}

/// The unpadded Base64URL form of some bytes.
pub uninterp spec fn base64url(bytes: Seq<u8>) -> Seq<char>;

/// The bytes that a text in unpadded Base64URL stands for, or the words of the decoder's error.
pub uninterp spec fn base64url_decoded(text: Seq<char>) -> Result<Seq<u8>, Seq<char>>;

/// Whether a text in unpadded Base64URL stands for these bytes.
pub open spec fn decodes_to(text: Seq<char>, bytes: Seq<u8>) -> bool {
    base64url_decoded(text) matches Ok(decoded) && decoded == bytes
}

/// A character of the URL-safe Base64 alphabet.
pub open spec fn base64url_character(character: char) -> bool {
    ||| 'A' <= character <= 'Z'
    ||| 'a' <= character <= 'z'
    ||| '0' <= character <= '9'
    ||| character == '-'
    ||| character == '_'
}

/// A text over the URL-safe Base64 alphabet.
pub open spec fn base64url_text(text: Seq<char>) -> bool {
    forall|i: int| 0 <= i < text.len() ==> base64url_character(#[trigger] text[i])
}

/// `Engine::encode` of `URL_SAFE_NO_PAD`: a text over the URL-safe alphabet, without padding, that
/// the same engine decodes to the bytes it was made from: four characters for three bytes, and two
/// or three for one or two bytes left over. It panics only where the length of the text is beyond
/// `usize`.
#[verifier::external_body]
fn base64url_encode(bytes: &[u8]) -> (r: String)
    requires
        bytes@.len() <= usize::MAX / 4,
    ensures
        r@ == base64url(bytes@),
        decodes_to(r@, bytes@),
        base64url_text(r@),
        r@.len() == (4 * bytes@.len() + 2) / 3,
{
    URL_SAFE_NO_PAD.encode(bytes)
}

/// `Engine::decode` of `URL_SAFE_NO_PAD`, with its error as words. What it decodes is a text over
/// the URL-safe alphabet, and gives three bytes for four characters, or one or two for two or three
/// characters left over.
#[verifier::external_body]
fn base64url_decode(text: &str) -> (r: Result<Vec<u8>, String>)
    ensures
        match r {
            Ok(bytes) => {
                &&& decodes_to(text@, bytes@)
                &&& base64url_text(text@)
                &&& bytes@.len() == 3 * text@.len() / 4
            },
            Err(words) => base64url_decoded(text@) matches Err(said) && said == words@,
        },
{
    URL_SAFE_NO_PAD.decode(text).map_err(|error| error.to_string())
}

/// `RngCore::fill_bytes` of `rand::rngs::OsRng`: bytes of the operating system's random source, as
/// many as were asked for. It panics where that source fails; which bytes come is left open.
#[verifier::external_body]
fn random_bytes(count: usize) -> (r: Vec<u8>)
    ensures
        r@.len() == count,
{
    let mut bytes = vec![0u8; count];
    OsRng.fill_bytes(&mut bytes);
    bytes
}

/// The key that fingerprints are made with, and the id of its generation. The key is wiped from
/// memory when it is dropped, and `Debug` does not show it.
#[derive(Debug)]
pub struct FingerprintKey {
    key: SecretBytes,
    key_id: [u8; KEY_ID_LENGTH],
}

/// What a fingerprint key holds.
pub struct KeyModel {
    pub key: Seq<u8>,
    pub key_id: Seq<u8>,
}

impl View for FingerprintKey {
    type V = KeyModel;

    closed spec fn view(&self) -> KeyModel {
        KeyModel { key: self.key@, key_id: self.key_id@ }
    }
}

/// The sizes of a key and its id.
pub open spec fn key_sized(key: KeyModel) -> bool {
    key.key.len() == KEY_LENGTH && key.key_id.len() == KEY_ID_LENGTH
}

impl FingerprintKey {
    /// A key and its id have their sizes.
    #[verifier::type_invariant]
    pub open spec fn sized(&self) -> bool {
        key_sized(self@)
    }

    /// The key that consists of these parts, which have their sizes.
    fn assembled(key: Vec<u8>, key_id: Vec<u8>) -> (r: Self)
        requires
            key@.len() == KEY_LENGTH,
            key_id@.len() == KEY_ID_LENGTH,
        ensures
            r@ == (KeyModel { key: key@, key_id: key_id@ }),
    {
        let fixed = array_of_key_id(&key_id);
        FingerprintKey { key: SecretBytes::new(key), key_id: fixed }
    }

    /// A new key of a new generation: two draws from the random source of the operating system, the
    /// first for the key and the second for its id.
    pub fn generate() -> (r: Self)
        ensures
            key_sized(r@),
    {
        FingerprintKey::assembled(random_bytes(KEY_LENGTH), random_bytes(KEY_ID_LENGTH))
    }

    /// The key that consists of these parts.
    pub fn from_parts(key: Vec<u8>, key_id: Vec<u8>) -> (r: Result<Self, Error>)
        ensures
            match r {
                Ok(made) => {
                    &&& key@.len() == KEY_LENGTH
                    &&& key_id@.len() == KEY_ID_LENGTH
                    &&& made@ == (KeyModel { key: key@, key_id: key_id@ })
                    &&& key@.len() == 32
                    &&& key_id@.len() == 16
                },
                Err(error) => if key@.len() != KEY_LENGTH {
                    error@ == ErrorModel::KeyLength
                } else {
                    &&& key_id@.len() != KEY_ID_LENGTH
                    &&& error@ == ErrorModel::KeyIdLength
                },
            },
    {
        if key.len() != KEY_LENGTH {
            return Err(Fault::KeyLength);
        }
        if key_id.len() != KEY_ID_LENGTH {
            return Err(Fault::KeyIdLength);
        }
        Ok(FingerprintKey::assembled(key, key_id))
    }

    /// The bytes of the key.
    pub fn key_bytes(&self) -> (r: &[u8])
        ensures
            r@ == self@.key,
            r@.len() == KEY_LENGTH,
    {
        proof {
            use_type_invariant(self);
        }
        self.key.expose()
    }

    /// The id of the key's generation.
    pub fn key_id(&self) -> (r: &[u8; KEY_ID_LENGTH])
        ensures
            r@ == self@.key_id,
            r@.len() == KEY_ID_LENGTH,
    {
        &self.key_id
    }
}

fn array_of_key_id(bytes: &Vec<u8>) -> (r: [u8; KEY_ID_LENGTH])
    requires
        bytes@.len() == KEY_ID_LENGTH,
    ensures
        r@ == bytes@,
{
    let mut fixed: [u8; KEY_ID_LENGTH] = [0u8; KEY_ID_LENGTH];
    let mut index: usize = 0;
    while index < KEY_ID_LENGTH
        invariant
            bytes@.len() == KEY_ID_LENGTH,
            index <= KEY_ID_LENGTH,
            fixed@.len() == KEY_ID_LENGTH,
            forall|i: int| 0 <= i < index ==> fixed@[i] == bytes@[i],
        decreases KEY_ID_LENGTH - index,
    {
        fixed[index] = bytes[index];
        index += 1;
    }
    assert(fixed@ =~= bytes@);
    fixed
}

/// What comes of comparing a stored secret with a fingerprint.
#[derive(Debug, Clone, Copy, PartialEq, Eq, Structural)]
pub enum VerificationStatus {
    /// The secret is the expected one.
    Match,
    /// The secret is another one.
    Mismatch,
    /// The fingerprint belongs to another key generation.
    Stale,
    /// There is no such secret.
    Missing,
}

/// The words that a token begins with.
pub open spec fn token_prefix() -> Seq<char> {
    "nc-fp-v1"@
}

/// What the authenticated message begins with.
pub open spec fn domain_separator() -> Seq<u8> {
    encode_utf8("no-clone-secret-fingerprint-v1\0"@)
}

/// The eight bytes of a number, the highest first.
pub open spec fn big_endian(number: u64) -> Seq<u8> {
    seq![
        (number >> 56) as u8,
        (number >> 48) as u8,
        (number >> 40) as u8,
        (number >> 32) as u8,
        (number >> 24) as u8,
        (number >> 16) as u8,
        (number >> 8) as u8,
        number as u8,
    ]
}

/// Bytes with their length before them.
pub open spec fn framed(bytes: Seq<u8>) -> Seq<u8> {
    big_endian(bytes.len() as u64) + bytes
}

/// The authenticated message up to the value: what it is about, and the length of the value.
pub open spec fn message_head(
    key_id: Seq<u8>,
    profile: Seq<char>,
    secret: Seq<char>,
    length: nat,
) -> Seq<u8> {
    domain_separator() + key_id + framed(encode_utf8(profile)) + framed(encode_utf8(secret))
        + big_endian(length as u64)
}

/// The message that a tag authenticates: the domain, the key generation, and the profile, the
/// secret and the value, each with its length before it.
pub open spec fn tagged_message(
    key_id: Seq<u8>,
    profile: Seq<char>,
    secret: Seq<char>,
    value: Seq<u8>,
) -> Seq<u8> {
    domain_separator() + key_id + framed(encode_utf8(profile)) + framed(encode_utf8(secret))
        + framed(value)
}

/// The tag of a value under a name.
pub open spec fn tag_of(
    key: KeyModel,
    profile: Seq<char>,
    secret: Seq<char>,
    value: Seq<u8>,
) -> Seq<u8> {
    hmac_sha256(key.key, tagged_message(key.key_id, profile, secret, value))
}

/// The token that bears a key id and a tag.
pub open spec fn token_text(key_id: Seq<u8>, tag: Seq<u8>) -> Seq<char> {
    token_prefix() + "."@ + base64url(key_id) + "."@ + base64url(tag)
}

/// One field of a token.
pub open spec fn token_field(
    text: Seq<char>,
    length: nat,
    encoding: spec_fn(Seq<char>) -> ErrorModel,
    size: ErrorModel,
) -> Result<Seq<u8>, ErrorModel> {
    match base64url_decoded(text) {
        Err(cause) => Err(encoding(cause)),
        Ok(bytes) => if bytes.len() != length {
            Err(size)
        } else {
            Ok(bytes)
        },
    }
}

/// The key id and the tag that a token bears: the prefix, the key id and the tag, parted by dots.
pub open spec fn token_fields(token: Seq<char>) -> Result<(Seq<u8>, Seq<u8>), ErrorModel> {
    match parted(token, '.') {
        None => Err(Fault::TokenShape),
        Some((prefix, rest)) => match parted(rest, '.') {
            None => Err(Fault::TokenShape),
            Some((key_id, tag)) => if prefix != token_prefix() || tag.contains('.') {
                Err(Fault::TokenShape)
            } else {
                match token_field(
                    key_id,
                    KEY_ID_LENGTH as nat,
                    |cause: Seq<char>| Fault::TokenKeyIdEncoding { cause },
                    Fault::TokenKeyIdLength,
                ) {
                    Err(fault) => Err(fault),
                    Ok(id) => match token_field(
                        tag,
                        TAG_LENGTH as nat,
                        |cause: Seq<char>| Fault::TokenTagEncoding { cause },
                        Fault::TokenTagLength,
                    ) {
                        Err(fault) => Err(fault),
                        Ok(bytes) => Ok((id, bytes)),
                    },
                }
            },
        },
    }
}

/// What a token says of a value under a name.
pub open spec fn verdict(
    key: KeyModel,
    profile: Seq<char>,
    secret: Seq<char>,
    value: Seq<u8>,
    token: Seq<char>,
) -> Result<VerificationStatus, ErrorModel> {
    match token_fields(token) {
        Err(fault) => Err(fault),
        Ok((key_id, tag)) => if key_id != key.key_id {
            Ok(VerificationStatus::Stale)
        } else if tag == tag_of(key, profile, secret, value) {
            Ok(VerificationStatus::Match)
        } else {
            Ok(VerificationStatus::Mismatch)
        },
    }
}

/// A text of ASCII characters.
pub open spec fn ascii_text(text: Seq<char>) -> bool {
    forall|i: int| 0 <= i < text.len() ==> (#[trigger] text[i]) as u32 <= 127
}

/// A token that bears the id of a key and the tag of a value under a name.
pub open spec fn issued(
    token: Seq<char>,
    key: KeyModel,
    profile: Seq<char>,
    secret: Seq<char>,
    value: Seq<u8>,
) -> bool {
    token_fields(token) == success(
        (key.key_id, tag_of(key, profile, secret, value)),
    )
}

fn push_length(out: &mut Vec<u8>, length: u64)
    ensures
        final(out)@ == old(out)@ + big_endian(length),
{
    let ghost before = out@;
    out.push(#[verifier::truncate] ((length >> 56) as u8));
    out.push(#[verifier::truncate] ((length >> 48) as u8));
    out.push(#[verifier::truncate] ((length >> 40) as u8));
    out.push(#[verifier::truncate] ((length >> 32) as u8));
    out.push(#[verifier::truncate] ((length >> 24) as u8));
    out.push(#[verifier::truncate] ((length >> 16) as u8));
    out.push(#[verifier::truncate] ((length >> 8) as u8));
    out.push(#[verifier::truncate] (length as u8));
    assert(out@ =~= before + big_endian(length));
}

fn push_framed(out: &mut Vec<u8>, bytes: &[u8])
    ensures
        final(out)@ == old(out)@ + framed(bytes@),
{
    let ghost before = out@;
    push_length(out, bytes.len() as u64);
    push_bytes(out, bytes);
    assert(out@ =~= before + framed(bytes@));
}

/// The authenticated message up to the value.
fn head_of(key: &FingerprintKey, profile: &str, secret: &str, length: usize) -> (r: Vec<u8>)
    ensures
        r@ == message_head(key@.key_id, profile@, secret@, length as nat),
{
    let mut head: Vec<u8> = Vec::new();
    push_bytes(&mut head, "no-clone-secret-fingerprint-v1\0".as_bytes());
    assert(head@ =~= domain_separator());
    push_bytes(&mut head, key.key_id().as_slice());
    push_framed(&mut head, profile.as_bytes());
    push_framed(&mut head, secret.as_bytes());
    push_length(&mut head, length as u64);
    head
}

proof fn lemma_head_and_value(
    key_id: Seq<u8>,
    profile: Seq<char>,
    secret: Seq<char>,
    value: Seq<u8>,
)
    ensures
        message_head(key_id, profile, secret, value.len()) + value == tagged_message(
            key_id,
            profile,
            secret,
            value,
        ),
{
    assert(message_head(key_id, profile, secret, value.len()) + value =~= tagged_message(
        key_id,
        profile,
        secret,
        value,
    ));
}

proof fn lemma_token_fields(key_id: Seq<char>, tag: Seq<char>, token: Seq<char>)
    requires
        token == token_prefix() + "."@ + key_id + "."@ + tag,
        base64url_text(key_id),
        base64url_text(tag),
    ensures
        parted(token, '.') == Some((token_prefix(), key_id + seq!['.'] + tag)),
        parted(key_id + seq!['.'] + tag, '.') == Some((key_id, tag)),
        !tag.contains('.'),
{
    reveal_strlit("nc-fp-v1");
    reveal_strlit(".");
    assert("."@ =~= seq!['.']);
    let rest = key_id + seq!['.'] + tag;
    assert(token =~= token_prefix() + seq!['.'] + rest);
    assert(!token_prefix().contains('.'));
    lemma_parted_at(token_prefix(), '.', rest);
    lemma_parted_at(key_id, '.', tag);
}

proof fn lemma_token_is_ascii(key_id: Seq<char>, tag: Seq<char>)
    requires
        base64url_text(key_id),
        base64url_text(tag),
    ensures
        ascii_text(token_prefix() + "."@ + key_id + "."@ + tag),
{
    reveal_strlit("nc-fp-v1");
    reveal_strlit(".");
    let dotted = token_prefix() + "."@;
    let identified = dotted + key_id + "."@;
    let token = identified + tag;
    assert forall|i: int| 0 <= i < token.len() implies (#[trigger] token[i]) as u32 <= 127 by {
        if i < dotted.len() {
            assert(token[i] == dotted[i]);
        } else if i < dotted.len() + key_id.len() {
            assert(token[i] == key_id[i - dotted.len()]);
        } else if i < identified.len() {
            assert(token[i] == '.');
        } else {
            assert(token[i] == tag[i - identified.len()]);
        }
    }
}

/// The fingerprint of an expected value under a name: a text of ASCII characters, of the same
/// length for every value.
pub fn token_for(key: &FingerprintKey, profile: &str, secret: &str, value: &[u8]) -> (r: String)
    ensures
        r@ == token_text(key@.key_id, tag_of(key@, profile@, secret@, value@)),
        issued(r@, key@, profile@, secret@, value@),
        r@.len() == TOKEN_LENGTH,
        ascii_text(r@),
{
    proof {
        reveal_strlit("nc-fp-v1");
        reveal_strlit(".");
    }
    let head = head_of(key, profile, secret, value.len());
    proof {
        lemma_head_and_value(key@.key_id, profile@, secret@, value@);
    }
    let tag = hmac_tag(key.key_bytes(), head.as_slice(), value);
    let id_text = base64url_encode(key.key_id().as_slice());
    let tag_text = base64url_encode(tag.as_slice());
    let mut token: String = "nc-fp-v1".to_owned();
    token.append(".");
    token.append(id_text.as_str());
    token.append(".");
    token.append(tag_text.as_str());
    proof {
        lemma_token_fields(id_text@, tag_text@, token@);
        lemma_token_is_ascii(id_text@, tag_text@);
    }
    token
}

/// The fields of a token.
struct ParsedToken {
    key_id: Vec<u8>,
    tag: Vec<u8>,
}

fn parse_token(token: &str) -> (r: Result<ParsedToken, Error>)
    ensures
        match r {
            Ok(parsed) => {
                &&& token_fields(token@) == success((parsed.key_id@, parsed.tag@))
                &&& token@.len() == TOKEN_LENGTH
            },
            Err(error) => token_fields(token@) matches Err(fault) && fault == error@,
        },
{
    proof {
        reveal_strlit("nc-fp-v1");
        lemma_parted_length(token@, '.');
    }
    let (prefix, rest) = match split_once(token, '.') {
        Some(parts) => parts,
        None => {
            return Err(Fault::TokenShape);
        },
    };
    proof {
        lemma_parted_length(rest@, '.');
    }
    let (key_id_text, tag_text) = match split_once(rest, '.') {
        Some(parts) => parts,
        None => {
            return Err(Fault::TokenShape);
        },
    };
    proof {
        tag_text@.index_of_first_ensures('.');
    }
    if !same_text(prefix, "nc-fp-v1") || split_once(tag_text, '.').is_some() {
        return Err(Fault::TokenShape);
    }
    let key_id = match base64url_decode(key_id_text) {
        Ok(bytes) => bytes,
        Err(cause) => {
            return Err(Fault::TokenKeyIdEncoding { cause });
        },
    };
    if key_id.len() != KEY_ID_LENGTH {
        return Err(Fault::TokenKeyIdLength);
    }
    let tag = match base64url_decode(tag_text) {
        Ok(bytes) => bytes,
        Err(cause) => {
            return Err(Fault::TokenTagEncoding { cause });
        },
    };
    if tag.len() != TAG_LENGTH {
        return Err(Fault::TokenTagLength);
    }
    Ok(ParsedToken { key_id, tag })
}

/// Checks that a token is well formed.
pub fn check_token(token: &str) -> (r: Result<(), Error>)
    ensures
        match r {
            Ok(()) => token_fields(token@) is Ok && token@.len() == TOKEN_LENGTH,
            Err(error) => token_fields(token@) matches Err(fault) && fault == error@,
        },
{
    match parse_token(token) {
        Ok(_) => Ok(()),
        Err(error) => Err(error),
    }
}

/// Compares a value under a name with a fingerprint.
pub fn verify_token(
    key: &FingerprintKey,
    profile: &str,
    secret: &str,
    value: &[u8],
    token: &str,
) -> (r: Result<VerificationStatus, Error>)
    ensures
        outcome(r) == verdict(key@, profile@, secret@, value@, token@),
        r is Ok ==> token@.len() == TOKEN_LENGTH,
{
    let parsed = match parse_token(token) {
        Ok(parsed) => parsed,
        Err(error) => {
            return Err(error);
        },
    };
    if !same_bytes(parsed.key_id.as_slice(), key.key_id().as_slice()) {
        return Ok(VerificationStatus::Stale);
    }
    let head = head_of(key, profile, secret, value.len());
    proof {
        lemma_head_and_value(key@.key_id, profile@, secret@, value@);
    }
    if hmac_verifies(key.key_bytes(), head.as_slice(), value, parsed.tag.as_slice()) {
        Ok(VerificationStatus::Match)
    } else {
        Ok(VerificationStatus::Mismatch)
    }
}

/// A fingerprint matches the value that it was made from, under the names and the key that it was
/// made with.
pub proof fn law_fingerprint_matches_its_value(
    token: Seq<char>,
    key: KeyModel,
    profile: Seq<char>,
    secret: Seq<char>,
    value: Seq<u8>,
)
    requires
        issued(token, key, profile, secret, value),
    ensures
        verdict(key, profile, secret, value, token) == success(
            VerificationStatus::Match,
        ),
{
}

/// Under a key of another generation a fingerprint is stale, whatever it is compared with.
pub proof fn law_other_generations_are_stale(
    token: Seq<char>,
    key: KeyModel,
    profile: Seq<char>,
    secret: Seq<char>,
    value: Seq<u8>,
    other_key: KeyModel,
    other_profile: Seq<char>,
    other_secret: Seq<char>,
    other_value: Seq<u8>,
)
    requires
        issued(token, key, profile, secret, value),
        other_key.key_id != key.key_id,
    ensures
        verdict(other_key, other_profile, other_secret, other_value, token) == success(
            VerificationStatus::Stale,
        ),
{
}

proof fn lemma_big_endian_injective(a: u64, b: u64)
    requires
        big_endian(a) == big_endian(b),
    ensures
        a == b,
{
    let x = big_endian(a);
    let y = big_endian(b);
    assert(x[0] == y[0] && x[1] == y[1] && x[2] == y[2] && x[3] == y[3] && x[4] == y[4] && x[5]
        == y[5] && x[6] == y[6] && x[7] == y[7]);
    assert(a == b) by (bit_vector)
        requires
            (a >> 56) as u8 == (b >> 56) as u8,
            (a >> 48) as u8 == (b >> 48) as u8,
            (a >> 40) as u8 == (b >> 40) as u8,
            (a >> 32) as u8 == (b >> 32) as u8,
            (a >> 24) as u8 == (b >> 24) as u8,
            (a >> 16) as u8 == (b >> 16) as u8,
            (a >> 8) as u8 == (b >> 8) as u8,
            a as u8 == b as u8,
    ;
}

proof fn lemma_framed_cancels(a: Seq<u8>, b: Seq<u8>, after_a: Seq<u8>, after_b: Seq<u8>)
    requires
        a.len() <= u64::MAX,
        b.len() <= u64::MAX,
        framed(a) + after_a == framed(b) + after_b,
    ensures
        a == b,
        after_a == after_b,
{
    let left = framed(a) + after_a;
    let right = framed(b) + after_b;
    assert(left.take(8) =~= big_endian(a.len() as u64));
    assert(right.take(8) =~= big_endian(b.len() as u64));
    lemma_big_endian_injective(a.len() as u64, b.len() as u64);
    assert(left.subrange(8, 8 + a.len() as int) =~= a);
    assert(right.subrange(8, 8 + b.len() as int) =~= b);
    assert(left.skip(8 + a.len() as int) =~= after_a);
    assert(right.skip(8 + b.len() as int) =~= after_b);
}

/// Two authenticated messages of one key generation are the same only if the profile, the secret
/// and the value are the same: the lengths leave no doubt where one ends and the next begins.
pub proof fn law_messages_are_unambiguous(
    key_id: Seq<u8>,
    profile: Seq<char>,
    secret: Seq<char>,
    value: Seq<u8>,
    other_profile: Seq<char>,
    other_secret: Seq<char>,
    other_value: Seq<u8>,
)
    requires
        encode_utf8(profile).len() <= u64::MAX,
        encode_utf8(secret).len() <= u64::MAX,
        value.len() <= u64::MAX,
        encode_utf8(other_profile).len() <= u64::MAX,
        encode_utf8(other_secret).len() <= u64::MAX,
        other_value.len() <= u64::MAX,
    ensures
        tagged_message(key_id, profile, secret, value) == tagged_message(
            key_id,
            other_profile,
            other_secret,
            other_value,
        ) <==> profile == other_profile && secret == other_secret && value == other_value,
{
    let left = tagged_message(key_id, profile, secret, value);
    let right = tagged_message(key_id, other_profile, other_secret, other_value);
    if left == right {
        let start = domain_separator() + key_id;
        let p = encode_utf8(profile);
        let s = encode_utf8(secret);
        let op = encode_utf8(other_profile);
        let os = encode_utf8(other_secret);
        let empty = Seq::<u8>::empty();
        assert(left.skip(start.len() as int) =~= framed(p) + (framed(s) + (framed(value)
            + empty)));
        assert(right.skip(start.len() as int) =~= framed(op) + (framed(os) + (framed(other_value)
            + empty)));
        lemma_framed_cancels(
            p,
            op,
            framed(s) + (framed(value) + empty),
            framed(os) + (framed(other_value) + empty),
        );
        lemma_framed_cancels(s, os, framed(value) + empty, framed(other_value) + empty);
        lemma_framed_cancels(value, other_value, empty, empty);
        crate::text::lemma_encoding_injective(profile, other_profile);
        crate::text::lemma_encoding_injective(secret, other_secret);
    }
}

/// Under its own key a fingerprint matches another profile, secret or value only if HMAC-SHA-256
/// gives two different messages one tag; otherwise the answer is a mismatch.
pub proof fn law_fingerprint_binds_names_and_value(
    token: Seq<char>,
    key: KeyModel,
    profile: Seq<char>,
    secret: Seq<char>,
    value: Seq<u8>,
    other_profile: Seq<char>,
    other_secret: Seq<char>,
    other_value: Seq<u8>,
)
    requires
        issued(token, key, profile, secret, value),
        encode_utf8(profile).len() <= u64::MAX,
        encode_utf8(secret).len() <= u64::MAX,
        value.len() <= u64::MAX,
        encode_utf8(other_profile).len() <= u64::MAX,
        encode_utf8(other_secret).len() <= u64::MAX,
        other_value.len() <= u64::MAX,
        profile != other_profile || secret != other_secret || value != other_value,
    ensures
        ({
            let message = tagged_message(key.key_id, profile, secret, value);
            let other = tagged_message(key.key_id, other_profile, other_secret, other_value);
            let answer = verdict(key, other_profile, other_secret, other_value, token);
            &&& message != other
            &&& answer == success(
                if hmac_sha256(key.key, message) == hmac_sha256(key.key, other) {
                    VerificationStatus::Match
                } else {
                    VerificationStatus::Mismatch
                },
            )
        }),
{
    law_messages_are_unambiguous(
        key.key_id,
        profile,
        secret,
        value,
        other_profile,
        other_secret,
        other_value,
    );
}

/// The eight bytes that stand for a number are its digits to the base 256, the highest first.
pub proof fn law_lengths_are_written_to_the_base_256(number: u64)
    ensures
        ({
            let bytes = big_endian(number);
            &&& bytes.len() == 8
            &&& number == bytes[0] * 0x100_0000_0000_0000 + bytes[1] * 0x1_0000_0000_0000 + bytes[2]
                * 0x100_0000_0000 + bytes[3] * 0x1_0000_0000 + bytes[4] * 0x100_0000 + bytes[5]
                * 0x1_0000 + bytes[6] * 0x100 + bytes[7]
        }),
{
    assert(number == ((number >> 56) as u8) as u64 * 0x100_0000_0000_0000 + ((number >> 48) as u8)
        as u64 * 0x1_0000_0000_0000 + ((number >> 40) as u8) as u64 * 0x100_0000_0000 + ((number
        >> 32) as u8) as u64 * 0x1_0000_0000 + ((number >> 24) as u8) as u64 * 0x100_0000 + ((number
        >> 16) as u8) as u64 * 0x1_0000 + ((number >> 8) as u8) as u64 * 0x100 + (number as u8)
        as u64) by (bit_vector);
}

/// What a tag authenticates are, one after the other, the words `no-clone-secret-fingerprint-v1`
/// with a zero byte, the id of the key generation, and the profile, the secret and the value, each
/// with its length in eight bytes before it and byte for byte.
pub proof fn law_messages_hold_names_and_value(
    key: KeyModel,
    profile: Seq<char>,
    secret: Seq<char>,
    value: Seq<u8>,
)
    ensures
        ({
            let p = encode_utf8(profile);
            let s = encode_utf8(secret);
            let message = encode_utf8("no-clone-secret-fingerprint-v1\0"@) + key.key_id
                + big_endian(p.len() as u64) + p + big_endian(s.len() as u64) + s + big_endian(
                value.len() as u64,
            ) + value;
            &&& tagged_message(key.key_id, profile, secret, value) == message
            &&& tag_of(key, profile, secret, value) == hmac_sha256(key.key, message)
        }),
{
    let p = encode_utf8(profile);
    let s = encode_utf8(secret);
    assert(tagged_message(key.key_id, profile, secret, value) =~= encode_utf8(
        "no-clone-secret-fingerprint-v1\0"@,
    ) + key.key_id + big_endian(p.len() as u64) + p + big_endian(s.len() as u64) + s + big_endian(
        value.len() as u64,
    ) + value);
}

/// A token is the words `nc-fp-v1`, a key id and a tag in Base64URL, parted by dots.
pub proof fn law_tokens_have_three_parts(key_id: Seq<u8>, tag: Seq<u8>)
    ensures
        token_text(key_id, tag) == seq!['n', 'c', '-', 'f', 'p', '-', 'v', '1', '.'] + base64url(
            key_id,
        ) + seq!['.'] + base64url(tag),
{
    reveal_strlit("nc-fp-v1");
    reveal_strlit(".");
    assert(token_text(key_id, tag) =~= seq!['n', 'c', '-', 'f', 'p', '-', 'v', '1', '.']
        + base64url(key_id) + seq!['.'] + base64url(tag));
}

/// A token is well formed exactly if it consists of the words `nc-fp-v1` and two fields, parted by
/// two dots, of which the first decodes to 16 bytes and the second to 32; those are the key id and
/// the tag that it bears.
pub proof fn law_tokens_are_read_by_their_parts(
    token: Seq<char>,
    key_id: Seq<char>,
    tag: Seq<char>,
)
    requires
        !key_id.contains('.'),
        !tag.contains('.'),
        token == seq!['n', 'c', '-', 'f', 'p', '-', 'v', '1', '.'] + key_id + seq!['.'] + tag,
    ensures
        ({
            let answer = token_fields(token);
            let id = base64url_decoded(key_id);
            let bytes = base64url_decoded(tag);
            let refused = |fault: ErrorModel| Err::<(Seq<u8>, Seq<u8>), ErrorModel>(fault);
            &&& answer is Ok <==> id is Ok && id->Ok_0.len() == 16 && bytes is Ok
                && bytes->Ok_0.len() == 32
            &&& answer matches Ok(fields) ==> fields == (id->Ok_0, bytes->Ok_0)
            &&& id matches Err(cause) ==> answer == refused(Fault::TokenKeyIdEncoding { cause })
            &&& id is Ok && id->Ok_0.len() != 16 ==> answer == refused(Fault::TokenKeyIdLength)
            &&& id is Ok && id->Ok_0.len() == 16 ==> {
                &&& bytes matches Err(cause) ==> answer == refused(
                    Fault::TokenTagEncoding { cause },
                )
                &&& bytes is Ok && bytes->Ok_0.len() != 32 ==> answer == refused(
                    Fault::TokenTagLength,
                )
            }
        }),
{
    reveal_strlit("nc-fp-v1");
    let rest = key_id + seq!['.'] + tag;
    assert(token_prefix() =~= seq!['n', 'c', '-', 'f', 'p', '-', 'v', '1']);
    assert(!token_prefix().contains('.'));
    assert(token =~= token_prefix() + seq!['.'] + rest);
    lemma_parted_at(token_prefix(), '.', rest);
    lemma_parted_at(key_id, '.', tag);
}

/// Whether a text consists of the words `nc-fp-v1` and these fields, parted by two dots.
pub open spec fn consists_of(token: Seq<char>, key_id: Seq<char>, tag: Seq<char>) -> bool {
    &&& !key_id.contains('.')
    &&& !tag.contains('.')
    &&& token == seq!['n', 'c', '-', 'f', 'p', '-', 'v', '1', '.'] + key_id + seq!['.'] + tag
}

/// A text that is no token because of its shape is refused for that: one that does not consist of
/// the words `nc-fp-v1` and two fields, parted by two dots.
pub proof fn law_other_texts_are_no_tokens(token: Seq<char>)
    ensures
        token_fields(token) == Err::<(Seq<u8>, Seq<u8>), ErrorModel>(Fault::TokenShape) <==> !exists|
            key_id: Seq<char>,
            tag: Seq<char>,
        | #[trigger]
            consists_of(token, key_id, tag),
{
    reveal_strlit("nc-fp-v1");
    assert(token_prefix() =~= seq!['n', 'c', '-', 'f', 'p', '-', 'v', '1']);
    law_parts_make_up_the_text(token, '.');
    if exists|key_id: Seq<char>, tag: Seq<char>| #[trigger] consists_of(token, key_id, tag) {
        let (key_id, tag) = choose|key_id: Seq<char>, tag: Seq<char>| #[trigger]
            consists_of(token, key_id, tag);
        law_tokens_are_read_by_their_parts(token, key_id, tag);
    } else if let Some((prefix, rest)) = parted(token, '.') {
        law_parts_make_up_the_text(rest, '.');
        if let Some((key_id, tag)) = parted(rest, '.') {
            if prefix == token_prefix() && !tag.contains('.') {
                assert(token =~= seq!['n', 'c', '-', 'f', 'p', '-', 'v', '1', '.'] + key_id + seq![
                    '.',
                ] + tag);
                assert(consists_of(token, key_id, tag));
            }
        }
    }
}

/// What a well-formed token says of a value: it is stale exactly if it bears another key id than
/// the key, and otherwise it matches exactly if its tag is the HMAC of the message for the names and
/// the value.
pub proof fn law_tokens_judge_values(
    key: KeyModel,
    profile: Seq<char>,
    secret: Seq<char>,
    value: Seq<u8>,
    token: Seq<char>,
)
    ensures
        ({
            let answer = verdict(key, profile, secret, value, token);
            let message = tagged_message(key.key_id, profile, secret, value);
            &&& token_fields(token) matches Err(fault) ==> answer == Err::<
                VerificationStatus,
                ErrorModel,
            >(fault)
            &&& token_fields(token) matches Ok((key_id, tag)) ==> {
                &&& answer is Ok
                &&& answer->Ok_0 == VerificationStatus::Stale <==> key_id != key.key_id
                &&& answer->Ok_0 == VerificationStatus::Match <==> key_id == key.key_id && tag
                    == hmac_sha256(key.key, message)
                &&& answer->Ok_0 == VerificationStatus::Mismatch <==> key_id == key.key_id && tag
                    != hmac_sha256(key.key, message)
            }
        }),
{
}

/// A key and its id have their sizes exactly if they have 32 and 16 bytes.
pub proof fn law_keys_have_their_sizes(key: KeyModel)
    ensures
        key_sized(key) <==> key.key.len() == 32 && key.key_id.len() == 16,
        TAG_LENGTH == 32,
        TOKEN_LENGTH == 75,
{
}

} // verus!
