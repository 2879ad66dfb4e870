//! The data column of a stored thread: JSON text, plain or compressed with
//! zstd.
use crate::json::{parsed_json, Json};
use crate::text::{joined, same_text};
use vstd::prelude::*;
use vstd::slice::slice_to_vec;
use vstd::string::*;
use vstd::utf8::*;

verus! {

/// `std::io::Error`, carried through unread.
#[verifier::external_type_specification]
#[verifier::external_body]
pub struct ExIoError(std::io::Error);

/// `std::string::FromUtf8Error`, carried through unread.
#[verifier::external_type_specification]
#[verifier::external_body]
pub struct ExFromUtf8Error(std::string::FromUtf8Error);

/// What zstd makes of a sequence of frames: their content, or nothing where
/// they are not valid.
pub uninterp spec fn zstd_content(frames: Seq<u8>) -> Option<Seq<u8>>;

/// The frame that zstd compresses a content to at a level, if it succeeds.
pub uninterp spec fn zstd_frame(content: Seq<u8>, level: i32) -> Option<Seq<u8>>;

/// `zstd::stream::decode_all`: the content of the frames, or an error where
/// they are not valid. Both depend on the bytes alone.
#[verifier::external_body]
fn zstd_decode(frames: &[u8]) -> (r: Result<Vec<u8>, std::io::Error>)
    ensures
        match r {
            Ok(content) => zstd_content(frames@) == Some(content@),
            Err(_) => zstd_content(frames@) is None,
        },
{
    zstd::stream::decode_all(frames)
}

/// `zstd::stream::encode_all`: a frame that depends on the content and the
/// level alone, and from which `zstd::stream::decode_all` gives the content
/// back.
#[verifier::external_body]
fn zstd_encode(content: &[u8], level: i32) -> (r: Result<Vec<u8>, std::io::Error>)
    ensures
        match r {
            Ok(frame) => zstd_frame(content@, level) == Some(frame@) && zstd_content(frame@)
                == Some(content@),
            Err(_) => zstd_frame(content@, level) is None,
        },
{
    zstd::stream::encode_all(content, level)
}

/// `String::from_utf8`: the text that the bytes encode, or an error exactly
/// where they are not UTF-8.
#[verifier::external_body]
fn string_from_utf8(bytes: Vec<u8>) -> (r: Result<String, std::string::FromUtf8Error>)
    ensures
        match r {
            Ok(s) => encode_utf8(s@) == bytes@,
            Err(_) => !valid_utf8(bytes@),
        },
{
    String::from_utf8(bytes)
}

/// Why a blob could not be read or made.
#[derive(Debug)]
pub enum BlobError {
    /// zstd refused the data.
    Zstd(std::io::Error),
    /// The content is not UTF-8.
    Utf8(std::string::FromUtf8Error),
    /// The data type is neither "zstd" nor "json".
    UnknownDataType(String),
}

/// What is said of a data type that is not known.
pub fn unknown_type_message(data_type: &str) -> (r: String)
    ensures
        r@ == "Unknown data_type: "@ + data_type@,
{
    joined("Unknown data_type: ", data_type)
}

/// The bytes that a blob of a data type holds.
pub open spec fn blob_bytes(data: Seq<u8>, data_type: Seq<char>) -> Option<Seq<u8>> {
    if data_type == "zstd"@ {
        zstd_content(data)
    } else if data_type == "json"@ {
        Some(data)
    } else {
        None
    }
}

/// The text that bytes encode, where they are UTF-8.
pub open spec fn utf8_text(bytes: Seq<u8>) -> Option<Seq<char>> {
    if valid_utf8(bytes) {
        Some(decode_utf8(bytes))
    } else {
        None
    }
}

/// The text that a blob of a data type holds.
pub open spec fn blob_text(data: Seq<u8>, data_type: Seq<char>) -> Option<Seq<char>> {
    match blob_bytes(data, data_type) {
        Some(bytes) => utf8_text(bytes),
        None => None,
    }
}

/// The JSON value that a blob of a data type holds.
pub open spec fn blob_value(data: Seq<u8>, data_type: Seq<char>) -> Option<Json> {
    match blob_text(data, data_type) {
        Some(text) => parsed_json(text),
        None => None,
    }
}

/// `needle` stands in `bytes` at `i`.
pub open spec fn stands_at(bytes: Seq<u8>, needle: Seq<u8>, i: int) -> bool {
    0 <= i && i + needle.len() <= bytes.len() && bytes.subrange(i, i + needle.len()) == needle
}

/// `needle` stands somewhere in `bytes`.
pub open spec fn holds_bytes(bytes: Seq<u8>, needle: Seq<u8>) -> bool {
    exists|i: int| stands_at(bytes, needle, i)
}

/// A byte that JSON allows between its tokens: space, tab, line feed or
/// carriage return.
pub open spec fn is_blank(b: u8) -> bool {
    b == 0x20 || b == 0x09 || b == 0x0a || b == 0x0d
}

/// The first place from `i` on that holds no blank, or the end of the bytes.
pub open spec fn after_blanks(bytes: Seq<u8>, i: int) -> int
    decreases bytes.len() - i,
{
    if 0 <= i < bytes.len() && is_blank(bytes[i]) {
        after_blanks(bytes, i + 1)
    } else {
        i
    }
}

/// The key of the subagent context, with its quotes.
pub open spec fn context_key() -> Seq<u8> {
    encode_utf8("\"subagent_context\""@)
}

/// The key of the subagent context stands in `bytes` at `i`, followed by a
/// colon and `null`, with blanks before and behind the colon or without.
pub open spec fn null_context_at(bytes: Seq<u8>, i: int) -> bool {
    let colon = after_blanks(bytes, i + context_key().len());
    &&& stands_at(bytes, context_key(), i)
    &&& colon < bytes.len()
    &&& bytes[colon] == 0x3a
    &&& stands_at(bytes, encode_utf8("null"@), after_blanks(bytes, colon + 1))
}

/// The type of a thread, told from its JSON bytes: it was spawned from another
/// thread where it has a subagent context and none that is `null`.
pub open spec fn type_of_bytes(bytes: Seq<u8>) -> Seq<char> {
    if holds_bytes(bytes, context_key()) && !(exists|i: int| null_context_at(bytes, i)) {
        "Subagent"@
    } else {
        "Chat"@
    }
}

/// The type of a stored thread; nothing where its data cannot be unpacked.
pub open spec fn type_of_blob(data: Seq<u8>, data_type: Seq<char>) -> Seq<char> {
    match blob_bytes(data, data_type) {
        Some(bytes) => type_of_bytes(bytes),
        None => ""@,
    }
}

fn bytes_at(bytes: &[u8], needle: &[u8], i: usize) -> (r: bool)
    ensures
        r == stands_at(bytes@, needle@, i as int),
{
    let len: usize = bytes.len();
    if i > len || needle.len() > len - i {
        return false;
    }
    let mut k: usize = 0;
    while k < needle.len()
        invariant
            k <= needle@.len(),
            len == bytes@.len(),
            i + needle@.len() <= bytes@.len(),
            forall|j: int| 0 <= j < k ==> bytes@[i + j] == #[trigger] needle@[j],
        decreases needle@.len() - k,
    {
        if bytes[i + k] != needle[k] {
            assert(bytes@.subrange(i as int, i + needle@.len())[k as int] != needle@[k as int]);
            return false;
        }
        k += 1;
    }
    assert(bytes@.subrange(i as int, i + needle@.len()) =~= needle@);
    true
}

/// Whether `needle` stands somewhere in `bytes`.
pub fn contains_bytes(bytes: &[u8], needle: &[u8]) -> (r: bool)
    ensures
        r == holds_bytes(bytes@, needle@),
{
    if needle.len() > bytes.len() {
        return false;
    }
    let last: usize = bytes.len() - needle.len();
    let mut i: usize = 0;
    loop
        invariant
            i <= last,
            last + needle@.len() == bytes@.len(),
            forall|j: int| 0 <= j < i ==> !stands_at(bytes@, needle@, j),
        decreases last - i,
    {
        if bytes_at(bytes, needle, i) {
            return true;
        }
        if i == last {
            return false;
        }
        i += 1;
    }
}

fn skip_blanks(bytes: &[u8], i: usize) -> (r: usize)
    requires
        i <= bytes@.len(),
    ensures
        r == after_blanks(bytes@, i as int),
        i <= r <= bytes@.len(),
{
    let mut k: usize = i;
    while k < bytes.len() && (bytes[k] == 0x20 || bytes[k] == 0x09 || bytes[k] == 0x0a || bytes[k]
        == 0x0d)
        invariant
            i <= k <= bytes@.len(),
            after_blanks(bytes@, i as int) == after_blanks(bytes@, k as int),
        decreases bytes@.len() - k,
    {
        k += 1;
    }
    k
}

/// Whether a subagent context that is `null` stands at `i`.
fn is_null_context(bytes: &[u8], i: usize) -> (r: bool)
    ensures
        r == null_context_at(bytes@, i as int),
{
    let key = "\"subagent_context\"".as_bytes();
    if !bytes_at(bytes, key, i) {
        return false;
    }
    let len: usize = bytes.len();
    let colon: usize = skip_blanks(bytes, i + key.len());
    if colon == len || bytes[colon] != 0x3a {
        return false;
    }
    bytes_at(bytes, "null".as_bytes(), skip_blanks(bytes, colon + 1))
}

/// Whether a subagent context that is `null` stands somewhere.
fn has_null_context(bytes: &[u8]) -> (r: bool)
    ensures
        r == exists|i: int| null_context_at(bytes@, i),
{
    let mut i: usize = 0;
    while i < bytes.len()
        invariant
            i <= bytes@.len(),
            forall|j: int| 0 <= j < i ==> !null_context_at(bytes@, j),
        decreases bytes@.len() - i,
    {
        if is_null_context(bytes, i) {
            return true;
        }
        i += 1;
    }
    assert forall|j: int| !null_context_at(bytes@, j) by {
        if null_context_at(bytes@, j) {
            assert(j >= bytes@.len());
            assert(after_blanks(bytes@, j + context_key().len()) >= bytes@.len());
        }
    }
    false
}

/// The type of a thread, told from its JSON bytes: "Subagent" or "Chat".
pub fn detect_type_of_bytes(bytes: &[u8]) -> (r: String)
    ensures
        r@ == type_of_bytes(bytes@),
{
    if contains_bytes(bytes, "\"subagent_context\"".as_bytes()) && !has_null_context(bytes) {
        "Subagent".to_owned()
    } else {
        "Chat".to_owned()
    }
}

/// The type of a stored thread by a search in its bytes, without parsing them:
/// "Subagent", "Chat", or nothing where the data cannot be unpacked.
pub fn detect_type_fast(data: &[u8], data_type: &str) -> (r: String)
    ensures
        r@ == type_of_blob(data@, data_type@),
{
    if same_text(data_type, "zstd") {
        match zstd_decode(data) {
            Ok(bytes) => detect_type_of_bytes(bytes.as_slice()),
            Err(_) => "".to_owned(),
        }
    } else if same_text(data_type, "json") {
        detect_type_of_bytes(data)
    } else {
        "".to_owned()
    }
}

/// The text that bytes encode.
pub fn text_of_bytes(bytes: Vec<u8>) -> (r: Result<String, BlobError>)
    ensures
        match r {
            Ok(s) => utf8_text(bytes@) == Some(s@),
            Err(e) => e is Utf8 && utf8_text(bytes@) is None,
        },
{
    match string_from_utf8(bytes) {
        Ok(s) => {
            proof {
                encode_utf8_valid_utf8(s@);
                encode_utf8_decode_utf8(s@);
            }
            Ok(s)
        },
        Err(e) => Err(BlobError::Utf8(e)),
    }
}

/// The outcome of unpacking the data of a stored thread: its text, or what kept
/// it from being read.
pub open spec fn is_unpacked(
    r: Result<String, BlobError>,
    data: Seq<u8>,
    data_type: Seq<char>,
) -> bool {
    match r {
        Ok(s) => blob_text(data, data_type) == Some(s@),
        Err(BlobError::UnknownDataType(t)) => t@ == data_type && data_type != "zstd"@ && data_type
            != "json"@,
        Err(BlobError::Zstd(_)) => data_type == "zstd"@ && zstd_content(data) is None,
        Err(BlobError::Utf8(_)) => blob_bytes(data, data_type) is Some && blob_text(
            data,
            data_type,
        ) is None,
    }
}

/// The outcome of packing a JSON text: data that holds it, or why there is none.
pub open spec fn is_packed(
    r: Result<Vec<u8>, BlobError>,
    json: Seq<char>,
    data_type: Seq<char>,
) -> bool {
    match r {
        Ok(data) => {
            &&& blob_text(data@, data_type) == Some(json)
            &&& data_type == "zstd"@ ==> zstd_frame(encode_utf8(json), 3) == Some(data@)
            &&& data_type == "json"@ ==> data@ == encode_utf8(json)
        },
        Err(BlobError::UnknownDataType(t)) => t@ == data_type && data_type != "zstd"@ && data_type
            != "json"@,
        Err(BlobError::Zstd(_)) => data_type == "zstd"@ && zstd_frame(
            encode_utf8(json),
            3,
        ) is None,
        Err(BlobError::Utf8(_)) => false,
    }
}

/// Unpacks the data of a stored thread.
pub fn decompress_data(data: &[u8], data_type: &str) -> (r: Result<String, BlobError>)
    ensures
        is_unpacked(r, data@, data_type@),
{
    if same_text(data_type, "zstd") {
        match zstd_decode(data) {
            Ok(bytes) => text_of_bytes(bytes),
            Err(e) => Err(BlobError::Zstd(e)),
        }
    } else if same_text(data_type, "json") {
        text_of_bytes(slice_to_vec(data))
    } else {
        Err(BlobError::UnknownDataType(data_type.to_owned()))
    }
}

/// Compresses a text with zstd.
pub fn compress_text(text: &str) -> (r: Result<Vec<u8>, std::io::Error>)
    ensures
        match r {
            Ok(data) => {
                &&& zstd_frame(encode_utf8(text@), 3) == Some(data@)
                &&& blob_text(data@, "zstd"@) == Some(text@)
            },
            Err(_) => zstd_frame(encode_utf8(text@), 3) is None,
        },
{
    proof {
        encode_utf8_valid_utf8(text@);
        encode_utf8_decode_utf8(text@);
    }
    zstd_encode(text.as_bytes(), 3)
}

/// Packs JSON text as the data of a thread. What is packed is what
/// [`decompress_data`] gives back.
pub fn compress_data(json: &str, data_type: &str) -> (r: Result<Vec<u8>, BlobError>)
    ensures
        is_packed(r, json@, data_type@),
{
    proof {
        reveal_strlit("zstd");
        reveal_strlit("json");
        assert("zstd"@[0] != "json"@[0]);
        encode_utf8_valid_utf8(json@);
        encode_utf8_decode_utf8(json@);
    }
    if same_text(data_type, "zstd") {
        match compress_text(json) {
            Ok(data) => Ok(data),
            Err(e) => Err(BlobError::Zstd(e)),
        }
    } else if same_text(data_type, "json") {
        Ok(slice_to_vec(json.as_bytes()))
    } else {
        Err(BlobError::UnknownDataType(data_type.to_owned()))
    }
}

/// The type of a stored thread does not depend on how its text is packed.
pub proof fn law_packing_keeps_the_type(data: Seq<u8>, data_type: Seq<char>, json: Seq<char>)
    requires
        blob_text(data, data_type) == Some(json),
    ensures
        type_of_blob(data, data_type) == type_of_bytes(encode_utf8(json)),
{
    decode_utf8_encode_utf8(blob_bytes(data, data_type)->0);
}

proof fn lemma_after_blanks(bytes: Seq<u8>, i: int, end: int)
    requires
        0 <= i <= end < bytes.len(),
        forall|j: int| i <= j < end ==> is_blank(#[trigger] bytes[j]),
        !is_blank(bytes[end]),
    ensures
        after_blanks(bytes, i) == end,
    decreases end - i,
{
    if i < end {
        lemma_after_blanks(bytes, i + 1, end);
    }
}

/// A thread whose subagent context is `null` is a chat, however its JSON is
/// laid out: with any blanks before and behind the colon.
pub proof fn law_a_null_context_is_a_chat(bytes: Seq<u8>, i: int, colon: int, value: int)
    requires
        stands_at(bytes, context_key(), i),
        i + context_key().len() <= colon < value,
        colon < bytes.len(),
        forall|j: int| i + context_key().len() <= j < colon ==> is_blank(#[trigger] bytes[j]),
        bytes[colon] == 0x3a,
        forall|j: int| colon < j < value ==> is_blank(#[trigger] bytes[j]),
        stands_at(bytes, encode_utf8("null"@), value),
    ensures
        type_of_bytes(bytes) == "Chat"@,
{
    reveal_strlit("null");
    is_ascii_chars_encode_utf8("null"@);
    let null = encode_utf8("null"@);
    assert("null"@[0] == 'n');
    assert(null[0] == 'n' as u8);
    assert(bytes[value] == bytes.subrange(value, value + null.len())[0]);
    lemma_after_blanks(bytes, i + context_key().len(), colon);
    lemma_after_blanks(bytes, colon + 1, value);
    assert(null_context_at(bytes, i));
}

} // verus!
