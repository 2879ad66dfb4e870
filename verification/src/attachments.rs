//! Large images and file mentions in User messages, which a cleanup replaces
//! by a short note.
use crate::config::CleanConfig;
use crate::duplicate::Duplicate;
use crate::json::{compact_text, object_of, Json, JsonValue};
use crate::size_label::{format_bytes, size_label};
use crate::text::{byte_count, byte_len, starts_with};
use crate::types::{UserContent, UserContentModel, UserMessage, UserModel};
use vstd::prelude::*;
use vstd::string::*;

verus! {

/// What kind of image base64 data holds, told by how it begins.
pub open spec fn image_kind(source: Option<Seq<char>>) -> Seq<char> {
    match source {
        Some(s) => if "iVBOR"@.is_prefix_of(s) {
            "PNG image"@
        } else if "/9j/"@.is_prefix_of(s) {
            "JPEG image"@
        } else if "R0lG"@.is_prefix_of(s) {
            "GIF image"@
        } else {
            "image"@
        },
        None => "image"@,
    }
}

/// The block that stands for a removed image of `size` bytes.
pub open spec fn removed_image(img: Json, size: nat) -> Json {
    let note = "[REMOVED: "@ + image_kind(img.text_member("source"@)) + ", original "@ + size_label(
        size,
    ) + " base64]"@;
    object_of("Image"@, object_of("source"@, Json::Text(note)))
}

/// The block that stands for a mention whose content was cut; its uri stays.
pub open spec fn truncated_mention(mention: Json, size: nat) -> Json {
    let uri = match mention.member("uri"@) {
        Some(v) => v,
        None => Json::Null,
    };
    let note = "[CONTENT TRUNCATED: original "@ + size_label(size) + "]"@;
    object_of(
        "Mention"@,
        Json::Object(
            Map::<Seq<char>, Json>::empty().insert("uri"@, uri).insert(
                "content"@,
                Json::Text(note),
            ),
        ),
    )
}

/// Size of the content of a mention block, where it is text.
pub open spec fn mention_size(v: Json) -> Option<nat> {
    match v.member("Mention"@) {
        Some(mention) => match mention.text_member("content"@) {
            Some(content) => Some(byte_count(content)),
            None => None,
        },
        None => None,
    }
}

/// A block of User content after cleanup, where `image_size` is the size of
/// the JSON text of its member `Image`.
pub open spec fn shrunk_attachment(v: Json, image_size: nat, threshold: nat) -> Json {
    if v.member("Image"@) is Some && image_size > threshold {
        removed_image(v.member("Image"@)->0, image_size)
    } else if mention_size(v) is Some && mention_size(v)->0 > threshold {
        truncated_mention(v.member("Mention"@)->0, mention_size(v)->0)
    } else {
        v
    }
}

/// Size of the JSON text of the member `Image` of a block.
pub open spec fn image_size(v: Json) -> nat {
    match v.member("Image"@) {
        Some(img) => byte_count(compact_text(img)),
        None => 0,
    }
}

/// A piece of User content after cleanup.
pub open spec fn cleaned_user_content(c: UserContentModel, threshold: nat) -> UserContentModel {
    match c {
        UserContentModel::Other(v) => UserContentModel::Other(
            shrunk_attachment(v, image_size(v), threshold),
        ),
        UserContentModel::Text(_) => c,
    }
}

/// A User message after cleanup.
pub open spec fn cleaned_user(u: UserModel, threshold: nat) -> UserModel {
    UserModel {
        id: u.id,
        content: Seq::new(
            u.content.len(),
            |i: int| cleaned_user_content(u.content[i], threshold),
        ),
    }
}

fn image_label(img: &JsonValue) -> (r: &'static str)
    ensures
        r@ == image_kind(img@.text_member("source"@)),
{
    match img.get_str("source") {
        Some(s) => if starts_with(s, "iVBOR") {
            "PNG image"
        } else if starts_with(s, "/9j/") {
            "JPEG image"
        } else if starts_with(s, "R0lG") {
            "GIF image"
        } else {
            "image"
        },
        None => "image",
    }
}

/// Replaces a block that holds a large image or a large mention by a note,
/// given the size of the JSON text of its member `Image`.
pub fn shrink_attachment(val: &JsonValue, image_size: usize, threshold: usize) -> (r: JsonValue)
    ensures
        r@ == shrunk_attachment(val@, image_size as nat, threshold as nat),
{
    if let Some(img) = val.get("Image") {
        if image_size > threshold {
            let mut note = String::new();
            note.append("[REMOVED: ");
            note.append(image_label(img));
            note.append(", original ");
            note.append(format_bytes(image_size).as_str());
            note.append(" base64]");
            proof {
                assert(note@ =~= "[REMOVED: "@ + image_kind(img@.text_member("source"@))
                    + ", original "@ + size_label(image_size as nat) + " base64]"@);
            }
            return JsonValue::object("Image", JsonValue::object("source", JsonValue::Text(note)));
        }
    }
    if let Some(mention) = val.get("Mention") {
        if let Some(content) = mention.get_str("content") {
            let size: usize = byte_len(content);
            if size > threshold {
                let uri = match mention.get("uri") {
                    Some(uri) => uri.duplicate(),
                    None => JsonValue::Null,
                };
                let mut note = String::new();
                note.append("[CONTENT TRUNCATED: original ");
                note.append(format_bytes(size).as_str());
                note.append("]");
                proof {
                    assert(note@ =~= "[CONTENT TRUNCATED: original "@ + size_label(size as nat)
                        + "]"@);
                }
                return JsonValue::object(
                    "Mention",
                    JsonValue::object("uri", uri).with_member("content", JsonValue::Text(note)),
                );
            }
        }
    }
    val.duplicate()
}

fn clean_user_content(c: &UserContent, threshold: usize) -> (r: UserContent)
    ensures
        r@ == cleaned_user_content(c@, threshold as nat),
{
    match c {
        UserContent::Text { text } => UserContent::Text { text: text.duplicate() },
        UserContent::Other(val) => {
            let size: usize = match val.get("Image") {
                Some(img) => byte_len(img.to_text().as_str()),
                None => 0,
            };
            UserContent::Other(shrink_attachment(val, size, threshold))
        },
    }
}

/// Removes large Image/Mention blocks from a User message.
pub fn clean_user_message(user: &UserMessage, config: &CleanConfig) -> (r: UserMessage)
    ensures
        r@ == cleaned_user(user@, config.large_image_threshold as nat),
{
    let mut content: Vec<UserContent> = Vec::new();
    let mut i: usize = 0;
    while i < user.content.len()
        invariant
            i <= user.content@.len(),
            content@.len() == i,
            forall|j: int|
                0 <= j < i ==> (#[trigger] content@[j])@ == cleaned_user_content(
                    user.content@[j]@,
                    config.large_image_threshold as nat,
                ),
        decreases user.content@.len() - i,
    {
        content.push(clean_user_content(&user.content[i], config.large_image_threshold));
        i += 1;
    }
    let r = UserMessage { id: user.id.duplicate(), content };
    assert(r@.content =~= cleaned_user(user@, config.large_image_threshold as nat).content);
    r
}

} // verus!
