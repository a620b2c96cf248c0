//! Calls into other crates and into parts of the standard library.
use aes_gcm::aead::{Aead, KeyInit};
use base64::Engine;
use rand::RngCore;
use sha2::Digest;
use vstd::prelude::*;

use crate::dup::{pair_views, views};

verus! {

/// Whether serde_json reads the text as a JSON document.
pub uninterp spec fn json_valid(text: Seq<char>) -> bool;

/// `serde_json::from_str` into a `serde_json::Value`: the result says whether it succeeds.
#[verifier::external_body]
pub(crate) fn is_json(text: &str) -> (r: bool)
    ensures
        r == json_valid(text@),
{
    serde_json::from_str::<serde_json::Value>(text).is_ok()
}

/// A character inside a JSON string literal: quotes, backslashes and control characters are escaped.
pub open spec fn json_char(c: char) -> Seq<char> {
    let digits = "0123456789abcdef"@;
    let n = c as int;
    match c {
        '"' => seq!['\\', '"'],
        '\\' => seq!['\\', '\\'],
        '\u{8}' => seq!['\\', 'b'],
        '\t' => seq!['\\', 't'],
        '\n' => seq!['\\', 'n'],
        '\u{c}' => seq!['\\', 'f'],
        '\r' => seq!['\\', 'r'],
        _ => if n < 0x20 {
            seq!['\\', 'u', '0', '0', digits[n / 16], digits[n % 16]]
        } else {
            seq![c]
        },
    }
}

/// The JSON string literal for a text.
pub open spec fn json_literal(text: Seq<char>) -> Seq<char> {
    seq!['"'] + text.map_values(|c: char| json_char(c)).flatten() + seq!['"']
}

/// `serde_json::to_string` of a string slice: the text between quotes, with each character as
/// [`json_char`] says. Writing a string slice into memory does not fail.
#[verifier::external_body]
pub(crate) fn json_string(text: &str) -> (r: String)
    ensures
        r@ == json_literal(text@),
{
    serde_json::to_string(text).unwrap_or_default()
}

/// The text that serde_json writes for the floating-point number that it reads from a text.
pub uninterp spec fn float_text(text: Seq<char>) -> Option<Seq<char>>;

/// `serde_json::from_str` into a `serde_json::Number`, its value as a floating-point number, and the
/// text of that number; `None` where the text is not a number or its value is not finite.
#[verifier::external_body]
pub(crate) fn canonical_float(text: &str) -> (r: Option<String>)
    ensures
        match r {
            Some(s) => float_text(text@) == Some(s@),
            None => float_text(text@) is None,
        },
{
    let n: serde_json::Number = serde_json::from_str(text).ok()?;
    let m: serde_json::Number = serde_json::Number::from_f64(n.as_f64()?)?;
    Some(m.to_string())
}

/// The text in quotes, with the escapes of Rust's `Debug`.
pub uninterp spec fn quoted(text: Seq<char>) -> Seq<char>;

/// `Debug` of a string slice.
#[verifier::external_body]
pub(crate) fn quote(text: &str) -> (r: String)
    ensures
        r@ == quoted(text@),
{
    format!("{text:?}")
}

/// The SHA-256 digest of bytes.
pub uninterp spec fn sha256(data: Seq<u8>) -> Seq<u8>;

/// `sha2::Sha256::digest`: 32 bytes.
#[verifier::external_body]
pub(crate) fn sha256_digest(data: &[u8]) -> (r: Vec<u8>)
    ensures
        r@ == sha256(data@),
        r@.len() == 32,
{
    sha2::Sha256::digest(data).to_vec()
}

/// The base64 text of bytes, in the standard alphabet with padding.
pub uninterp spec fn b64_text(data: Seq<u8>) -> Seq<char>;

/// What the standard base64 decoder makes of a text: bytes, or the text of its error.
pub uninterp spec fn b64_bytes(text: Seq<char>) -> Result<Seq<u8>, Seq<char>>;

/// `base64::engine::general_purpose::STANDARD.encode`. Decoding the text gives the bytes back.
#[verifier::external_body]
pub(crate) fn b64_encode(data: &[u8]) -> (r: String)
    ensures
        r@ == b64_text(data@),
        (match b64_bytes(r@) {
            Ok(v) => v == data@,
            Err(_) => false,
        }),
{
    base64::engine::general_purpose::STANDARD.encode(data)
}

/// `base64::engine::general_purpose::STANDARD.decode`.
#[verifier::external_body]
pub(crate) fn b64_decode(text: &str) -> (r: Result<Vec<u8>, String>)
    ensures
        match r {
            Ok(v) => b64_bytes(text@) == Ok::<Seq<u8>, Seq<char>>(v@),
            Err(e) => b64_bytes(text@) == Err::<Seq<u8>, Seq<char>>(e@),
        },
{
    base64::engine::general_purpose::STANDARD.decode(text).map_err(|e| e.to_string())
}

/// What AES-256-GCM encryption gives for a key, a nonce and a plaintext.
pub uninterp spec fn aead_sealed(key: Seq<u8>, nonce: Seq<u8>, data: Seq<u8>) -> Option<Seq<u8>>;

/// What AES-256-GCM decryption gives for a key, a nonce and a ciphertext.
pub uninterp spec fn aead_opened(key: Seq<u8>, nonce: Seq<u8>, data: Seq<u8>) -> Option<Seq<u8>>;

/// Whether a plaintext is short enough for AES-GCM: it has at most 2 to the power of 36 bytes.
pub open spec fn sealable(data: Seq<u8>) -> bool {
    data.len() <= 0x10_0000_0000
}

/// `aes_gcm::Aes256Gcm::encrypt`; `None` stands for its error, which comes for a plaintext that is too
/// long and only then. Decryption with the same key and nonce gives the plaintext back.
#[verifier::external_body]
pub(crate) fn aead_seal(key: &[u8], nonce: &[u8], data: &[u8]) -> (r: Option<Vec<u8>>)
    requires
        key@.len() == 32,
        nonce@.len() == 12,
    ensures
        match r {
            Some(v) => aead_sealed(key@, nonce@, data@) == Some(v@) && aead_opened(key@, nonce@, v@)
                == Some(data@),
            None => aead_sealed(key@, nonce@, data@) is None,
        },
        (r is Some) == sealable(data@),
{
    let cipher = aes_gcm::Aes256Gcm::new_from_slice(key).ok()?;
    cipher.encrypt(aes_gcm::Nonce::from_slice(nonce), data).ok()
}

/// `aes_gcm::Aes256Gcm::decrypt`; `None` stands for its error.
#[verifier::external_body]
pub(crate) fn aead_open(key: &[u8], nonce: &[u8], data: &[u8]) -> (r: Option<Vec<u8>>)
    requires
        key@.len() == 32,
        nonce@.len() == 12,
    ensures
        match r {
            Some(v) => aead_opened(key@, nonce@, data@) == Some(v@),
            None => aead_opened(key@, nonce@, data@) is None,
        },
{
    let cipher = aes_gcm::Aes256Gcm::new_from_slice(key).ok()?;
    cipher.decrypt(aes_gcm::Nonce::from_slice(nonce), data).ok()
}

/// `rand::RngCore::fill_bytes` of the generator of the thread: any `n` bytes.
#[verifier::external_body]
pub(crate) fn random_bytes(n: usize) -> (r: Vec<u8>)
    ensures
        r@.len() == n,
{
    let mut b = vec![0u8; n];
    rand::thread_rng().fill_bytes(&mut b);
    b
}

/// What serde_json reads from bytes as a list of strings: the strings, or the text of its error.
pub uninterp spec fn string_list(data: Seq<u8>) -> Result<Seq<Seq<char>>, Seq<char>>;

/// The bytes that serde_json writes for a list of strings.
pub uninterp spec fn string_list_bytes(list: Seq<Seq<char>>) -> Seq<u8>;

/// `serde_json::from_slice` into a list of strings.
#[verifier::external_body]
pub(crate) fn read_string_list(data: &[u8]) -> (r: Result<Vec<String>, String>)
    ensures
        match r {
            Ok(v) => string_list(data@) == Ok::<Seq<Seq<char>>, Seq<char>>(views(v@)),
            Err(e) => string_list(data@) == Err::<Seq<Seq<char>>, Seq<char>>(e@),
        },
{
    serde_json::from_slice::<Vec<String>>(data).map_err(|e| e.to_string())
}

/// `serde_json::to_vec` of a list of strings, which does not fail in memory; an error would give no
/// bytes. Reading the bytes gives the list back.
#[verifier::external_body]
pub(crate) fn write_string_list(list: &Vec<String>) -> (r: Vec<u8>)
    ensures
        r@ == string_list_bytes(views(list@)),
        (match string_list(r@) {
            Ok(v) => v == views(list@),
            Err(_) => false,
        }),
{
    serde_json::to_vec(list).unwrap_or_default()
}

/// The text of bytes in UTF-8, with the replacement character for what is not.
pub uninterp spec fn lossy_text(data: Seq<u8>) -> Seq<char>;

/// `String::from_utf8_lossy`.
#[verifier::external_body]
pub(crate) fn text_lossy(data: &[u8]) -> (r: String)
    ensures
        r@ == lossy_text(data@),
{
    String::from_utf8_lossy(data).into_owned()
}

/// A tree of two levels whose leaves are the texts of JSON values.
pub type TreeRows = Vec<(String, Vec<(String, String)>)>;

/// What [`TreeRows`] stand for.
pub type TreeView = Seq<(Seq<char>, Seq<(Seq<char>, Seq<char>)>)>;

pub open spec fn tree_view(rows: Seq<(String, Vec<(String, String)>)>) -> TreeView {
    Seq::new(rows.len(), |i: int| (rows[i].0@, pair_views(rows[i].1@)))
}

/// The YAML that serde_yaml writes for a tree, or the text of its error.
pub uninterp spec fn yaml_text(tree: TreeView) -> Result<Seq<char>, Seq<char>>;

/// The TOML that the toml crate writes for a tree, or the text of its error.
pub uninterp spec fn toml_text(tree: TreeView) -> Result<Seq<char>, Seq<char>>;

/// The indented JSON that serde_json writes for a tree, or the text of its error.
pub uninterp spec fn json_text(tree: TreeView) -> Result<Seq<char>, Seq<char>>;

/// The result is the named one.
pub open spec fn writes(r: Result<String, String>, want: Result<Seq<char>, Seq<char>>) -> bool {
    match (r, want) {
        (Ok(s), Ok(t)) => s@ == t,
        (Err(s), Err(t)) => s@ == t,
        _ => false,
    }
}

/// `serde_yaml::to_string` of the tree, its leaves read by serde_json.
#[verifier::external_body]
pub(crate) fn write_yaml(rows: &TreeRows) -> (r: Result<String, String>)
    ensures
        writes(r, yaml_text(tree_view(rows@))),
{
    let mut tree = std::collections::BTreeMap::new();
    for (group, items) in rows {
        let leaf = |(k, v): &(String, String)| (k.clone(), serde_json::from_str(v).unwrap_or_default());
        let inner: std::collections::BTreeMap<String, serde_json::Value> = items.iter().map(leaf).collect();
        tree.insert(group.clone(), inner);
    }
    serde_yaml::to_string(&tree).map_err(|e| e.to_string())
}

/// `toml::to_string` of the tree, its leaves read by serde_json.
#[verifier::external_body]
pub(crate) fn write_toml(rows: &TreeRows) -> (r: Result<String, String>)
    ensures
        writes(r, toml_text(tree_view(rows@))),
{
    let mut tree = std::collections::BTreeMap::new();
    for (group, items) in rows {
        let leaf = |(k, v): &(String, String)| (k.clone(), serde_json::from_str(v).unwrap_or_default());
        let inner: std::collections::BTreeMap<String, serde_json::Value> = items.iter().map(leaf).collect();
        tree.insert(group.clone(), inner);
    }
    toml::to_string(&tree).map_err(|e| e.to_string())
}

/// `serde_json::to_string_pretty` of the tree, its leaves read by serde_json.
#[verifier::external_body]
pub(crate) fn write_json(rows: &TreeRows) -> (r: Result<String, String>)
    ensures
        writes(r, json_text(tree_view(rows@))),
{
    let mut tree = std::collections::BTreeMap::new();
    for (group, items) in rows {
        let leaf = |(k, v): &(String, String)| (k.clone(), serde_json::from_str(v).unwrap_or_default());
        let inner: std::collections::BTreeMap<String, serde_json::Value> = items.iter().map(leaf).collect();
        tree.insert(group.clone(), inner);
    }
    serde_json::to_string_pretty(&tree).map_err(|e| e.to_string())
}

} // verus!
