//! What an event's payload asks of the model: plain text, or text with images
//! that lie in files or come along in base64.

use crate::inference;
use crate::inference::{ImageModel, ImagePart};
use crate::json;
use crate::json::Json;
use crate::record;
use crate::text;
use crate::text::Text;
use vstd::prelude::*;

verus! {

/// Where an image comes from.
#[derive(Debug)]
pub enum ImageSource {
    /// A file that is still to be read.
    File(String),
    /// An image that came along.
    Ready(ImagePart),
}

/// A source as the contracts see it.
pub enum SourceModel {
    File(Text),
    Ready(ImageModel),
}

impl View for ImageSource {
    type V = SourceModel;

    open spec fn view(&self) -> SourceModel {
        match *self {
            ImageSource::File(path) => SourceModel::File(path@),
            ImageSource::Ready(image) => SourceModel::Ready(image@),
        }
    }
}

/// The sources of a vector, in order.
pub open spec fn sources(v: Seq<ImageSource>) -> Seq<SourceModel> {
    Seq::new(v.len(), |i: int| v[i]@)
}

/// `t` ends with `suffix`.
pub open spec fn ends_with(t: Text, suffix: Text) -> bool {
    t.len() >= suffix.len() && t.skip(t.len() - suffix.len()) == suffix
}

/// The mime type of an image file, by the ending of its path.
pub open spec fn mime_of(path: Text) -> Text {
    if ends_with(path, ".jpg"@) || ends_with(path, ".jpeg"@) {
        "image/jpeg"@
    } else if ends_with(path, ".png"@) {
        "image/png"@
    } else if ends_with(path, ".webp"@) {
        "image/webp"@
    } else if ends_with(path, ".bmp"@) {
        "image/bmp"@
    } else {
        "application/octet-stream"@
    }
}

/// The string member `key` of an object.
pub open spec fn string_member(document: Text, key: Text) -> Option<Text> {
    match record::member(document, key) {
        Some(v) => json::json_string(v),
        None => None,
    }
}

/// The source that one entry of the image list gives: `{"path"}`, or
/// `{"mime", "b64"}`.
pub open spec fn source_of(item: Text) -> Option<SourceModel> {
    match string_member(item, "path"@) {
        Some(path) => Some(SourceModel::File(path)),
        None => match (string_member(item, "mime"@), string_member(item, "b64"@)) {
            (Some(mime), Some(b64)) => match inference::base64_bytes(b64) {
                Some(data) => Some(SourceModel::Ready(ImageModel { mime, data })),
                None => None,
            },
            _ => None,
        },
    }
}

pub open spec fn image_complaint() -> Text {
    "image must be {\"path\"} or {\"mime\", \"b64\"}"@
}

/// The sources of an image list.
pub open spec fn sources_of(items: Seq<Text>) -> Result<Seq<SourceModel>, Text> {
    if forall|i: int| 0 <= i < items.len() ==> source_of(#[trigger] items[i]) is Some {
        Ok(Seq::new(items.len(), |i: int| source_of(items[i])->0))
    } else {
        Err(image_complaint())
    }
}

/// The text and the image list of a payload that is text with images: an object with
/// a string `text`, an array `images` and nothing else.
pub open spec fn pictured(payload: Text) -> Option<(Text, Seq<Text>)> {
    match (string_member(payload, "text"@), record::member(payload, "images"@)) {
        (Some(t), Some(list)) => match json::json_elements(list) {
            Some(items) => if json::json_members(payload)->0.len() == 2 {
                Some((t, items))
            } else {
                None
            },
            None => None,
        },
        _ => None,
    }
}

/// What a payload asks: a string is the text; text with images is that text with
/// those images; and anything else is handed over as it is.
pub open spec fn request_of(payload: Text) -> Result<(Text, Seq<SourceModel>), Text> {
    match json::json_string(payload) {
        Some(t) => Ok((t, seq![])),
        None => match pictured(payload) {
            None => Ok((payload, seq![])),
            Some((t, items)) => match sources_of(items) {
                Ok(s) => Ok((t, s)),
                Err(e) => Err(e),
            },
        },
    }
}

fn text_ends_with(t: &str, suffix: &str) -> (r: bool)
    ensures
        r == ends_with(t@, suffix@),
{
    let n: usize = t.unicode_len();
    let m: usize = suffix.unicode_len();
    if n < m {
        return false;
    }
    let tail = t.substring_char(n - m, n);
    assert(tail@ =~= t@.skip(n - m));
    text::same_text(tail, suffix)
}

/// The mime type of an image file, by the ending of its path.
pub fn path_mime(path: &str) -> (r: &'static str)
    ensures
        r@ == mime_of(path@),
{
    if text_ends_with(path, ".jpg") || text_ends_with(path, ".jpeg") {
        "image/jpeg"
    } else if text_ends_with(path, ".png") {
        "image/png"
    } else if text_ends_with(path, ".webp") {
        "image/webp"
    } else if text_ends_with(path, ".bmp") {
        "image/bmp"
    } else {
        "application/octet-stream"
    }
}

fn read_member(document: &Json, key: &str) -> (r: Option<String>)
    ensures
        text::opt_text(r) == string_member(document@, key@),
{
    match document.get(key) {
        Some(v) => v.as_str(),
        None => None,
    }
}

fn read_source(item: &Json) -> (r: Option<ImageSource>)
    ensures
        r is Some <==> source_of(item@) is Some,
        r matches Some(s) ==> Some(s@) == source_of(item@),
{
    match read_member(item, "path") {
        Some(path) => Some(ImageSource::File(path)),
        None => match (read_member(item, "mime"), read_member(item, "b64")) {
            (Some(mime), Some(b64)) => match inference::base64_decode(b64.as_str()) {
                Some(data) => Some(ImageSource::Ready(ImagePart { mime, data })),
                None => None,
            },
            _ => None,
        },
    }
}

fn read_sources(items: &[String]) -> (r: Result<Vec<ImageSource>, String>)
    ensures
        match sources_of(text::texts(items@)) {
            Ok(s) => r is Ok && sources(r->Ok_0@) == s,
            Err(e) => r is Err && r->Err_0@ == e,
        },
{
    let ghost all = text::texts(items@);
    let mut out: Vec<ImageSource> = Vec::new();
    let mut i: usize = 0;
    while i < items.len()
        invariant
            i <= items@.len(),
            all == text::texts(items@),
            out@.len() == i,
            forall|j: int| 0 <= j < i ==> source_of(#[trigger] all[j]) == Some(out@[j]@),
        decreases items.len() - i,
    {
        let item = Json { text: items[i].clone() };
        match read_source(&item) {
            Some(s) => {
                out.push(s);
            },
            None => {
                assert(source_of(all[i as int]) is None);
                return Err("image must be {\"path\"} or {\"mime\", \"b64\"}".to_string());
            },
        }
        i += 1;
    }
    assert(sources(out@) =~= Seq::new(all.len(), |i: int| source_of(all[i])->0));
    Ok(out)
}

fn read_pictured(payload: &Json) -> (r: Option<(String, Vec<String>)>)
    ensures
        r is Some <==> pictured(payload@) is Some,
        r matches Some((t, items)) ==> pictured(payload@) == Some((t@, text::texts(items@))),
{
    let count: usize = match json::read_members(payload.text.as_str()) {
        Some(members) => members.len(),
        None => {
            return None;
        },
    };
    match (read_member(payload, "text"), payload.get("images")) {
        (Some(t), Some(list)) => match list.elements() {
            Some(items) => {
                if count == 2 {
                    Some((t, items))
                } else {
                    None
                }
            },
            None => None,
        },
        _ => None,
    }
}

/// What a payload asks.
pub fn read_request(payload: &Json) -> (r: Result<(String, Vec<ImageSource>), String>)
    ensures
        match request_of(payload@) {
            Ok((t, s)) => r is Ok && r->Ok_0.0@ == t && sources(r->Ok_0.1@) == s,
            Err(e) => r is Err && r->Err_0@ == e,
        },
{
    let none: Vec<ImageSource> = Vec::new();
    assert(sources(none@) =~= Seq::<SourceModel>::empty());
    match payload.as_str() {
        Some(t) => Ok((t, none)),
        None => match read_pictured(payload) {
            None => Ok((payload.text.clone(), none)),
            Some((t, items)) => match read_sources(items.as_slice()) {
                Ok(s) => Ok((t, s)),
                Err(e) => Err(e),
            },
        },
    }
}

/// A payload that is a string asks just what the string says.
pub proof fn law_strings_are_asked_as_they_stand(t: Text)
    ensures
        request_of(json::quoted(t)) == Ok::<(Text, Seq<SourceModel>), Text>((t, seq![])),
{
    json::law_strings_read_back(t);
}

/// The type of an image file goes by the ending of its path, whatever stands before it.
pub proof fn law_endings_tell_the_type(stem: Text)
    ensures
        mime_of(stem + ".jpg"@) == "image/jpeg"@,
        mime_of(stem + ".jpeg"@) == "image/jpeg"@,
        mime_of(stem + ".png"@) == "image/png"@,
        mime_of(stem + ".webp"@) == "image/webp"@,
        mime_of(stem + ".bmp"@) == "image/bmp"@,
        mime_of(stem + ".bin"@) == "application/octet-stream"@,
{
    reveal_strlit(".jpg");
    reveal_strlit(".jpeg");
    reveal_strlit(".png");
    reveal_strlit(".webp");
    reveal_strlit(".bmp");
    reveal_strlit(".bin");
    assert(".png"@.len() == 4 && ".png"@[2] == 'n');
    assert(".jpg"@.len() == 4 && ".jpg"@[2] == 'p');
    assert(".jpeg"@.len() == 5 && ".jpeg"@[3] == 'e');
    lemma_ending(stem, ".jpg"@);
    lemma_ending(stem, ".jpeg"@);
    lemma_ending(stem, ".png"@);
    lemma_ending(stem, ".webp"@);
    lemma_ending(stem, ".bmp"@);
    lemma_other_ending(stem, ".png"@, ".jpg"@, 2);
    lemma_other_ending(stem, ".png"@, ".jpeg"@, 2);
    lemma_other_ending(stem, ".webp"@, ".jpg"@, 1);
    lemma_other_ending(stem, ".webp"@, ".jpeg"@, 1);
    lemma_other_ending(stem, ".webp"@, ".png"@, 1);
    lemma_other_ending(stem, ".bmp"@, ".jpg"@, 1);
    lemma_other_ending(stem, ".bmp"@, ".jpeg"@, 1);
    lemma_other_ending(stem, ".bmp"@, ".png"@, 1);
    lemma_other_ending(stem, ".bmp"@, ".webp"@, 2);
    lemma_other_ending(stem, ".bin"@, ".jpg"@, 1);
    lemma_other_ending(stem, ".bin"@, ".jpeg"@, 1);
    lemma_other_ending(stem, ".bin"@, ".png"@, 1);
    lemma_other_ending(stem, ".bin"@, ".webp"@, 1);
    lemma_other_ending(stem, ".bin"@, ".bmp"@, 1);
}

proof fn lemma_ending(stem: Text, end: Text)
    ensures
        ends_with(stem + end, end),
{
    assert((stem + end).skip(stem.len() as int) =~= end);
}

/// A text that ends in one way does not end in another, where the two differ at some
/// place from the end.
proof fn lemma_other_ending(stem: Text, end: Text, other: Text, back: int)
    requires
        1 <= back <= end.len(),
        back <= other.len(),
        end[end.len() - back] != other[other.len() - back],
    ensures
        !ends_with(stem + end, other),
{
    let t = stem + end;
    if ends_with(t, other) {
        let tail = t.skip(t.len() - other.len());
        assert(tail[other.len() - back] == t[t.len() - back]);
        assert(t[t.len() - back] == end[end.len() - back]);
    }
}

/// An image that is written to a file is read back as what it is: the ending that goes
/// with a type that is known tells that type.
pub proof fn law_types_and_endings_agree(stem: Text, mime: Text)
    requires
        mime == "image/jpeg"@ || mime == "image/png"@ || mime == "image/webp"@ || mime
            == "image/bmp"@,
    ensures
        mime_of(stem + "."@ + inference::extension_of(mime)) == mime,
{
    reveal_strlit(".");
    reveal_strlit("jpg");
    reveal_strlit("png");
    reveal_strlit("webp");
    reveal_strlit("bmp");
    reveal_strlit(".jpg");
    reveal_strlit(".png");
    reveal_strlit(".webp");
    reveal_strlit(".bmp");
    reveal_strlit("image/jpeg");
    reveal_strlit("image/jpg");
    reveal_strlit("image/png");
    reveal_strlit("image/webp");
    reveal_strlit("image/bmp");
    assert("image/jpeg"@.len() == 10 && "image/webp"@.len() == 10 && "image/png"@.len() == 9
        && "image/bmp"@.len() == 9 && "image/jpg"@.len() == 9);
    assert("image/jpeg"@[6] == 'j' && "image/webp"@[6] == 'w' && "image/png"@[6] == 'p'
        && "image/bmp"@[6] == 'b' && "image/jpg"@[6] == 'j');
    law_endings_tell_the_type(stem);
    assert(stem + "."@ + "jpg"@ =~= stem + ".jpg"@);
    assert(stem + "."@ + "png"@ =~= stem + ".png"@);
    assert(stem + "."@ + "webp"@ =~= stem + ".webp"@);
    assert(stem + "."@ + "bmp"@ =~= stem + ".bmp"@);
}

/// An image with a path lies in that file; one with a type and with base64 comes along,
/// with just these bytes.
pub proof fn law_images_are_where_they_say(path: Text, mime: Text, b64: Text)
    ensures
        source_of(json::object_text(seq![("path"@, json::quoted(path))])) == Some(
            SourceModel::File(path),
        ),
        inference::base64_bytes(b64) matches Some(data) ==> source_of(
            json::object_text(seq![("mime"@, json::quoted(mime)), ("b64"@, json::quoted(b64))]),
        ) == Some(SourceModel::Ready(ImageModel { mime, data })),
        inference::base64_bytes(b64) is None ==> source_of(
            json::object_text(seq![("mime"@, json::quoted(mime)), ("b64"@, json::quoted(b64))]),
        ) is None,
{
    reveal_strlit("path");
    reveal_strlit("mime");
    reveal_strlit("b64");
    assert("path"@[0] == 'p' && "mime"@[0] == 'm' && "b64"@.len() == 3 && "mime"@.len() == 4
        && "path"@.len() == 4);
    record::lemma_one_text("path"@, path);
    record::lemma_two_texts("mime"@, mime, "b64"@, b64);
    let members = seq![("mime"@, json::quoted(mime)), ("b64"@, json::quoted(b64))];
    json::law_strings_read_back(mime);
    json::law_strings_read_back(b64);
    assert(members[0].0 == "mime"@ && members[1].0 == "b64"@);
    record::law_members_read_back(members, "path"@);
    record::lemma_lookup_none(members, "path"@);
}

/// A list of images is taken whole and in its order, or not at all.
pub proof fn law_image_lists_are_taken_whole(items: Seq<Text>)
    ensures
        sources_of(items) matches Ok(list) ==> list.len() == items.len() && forall|i: int|
            0 <= i < items.len() ==> source_of(#[trigger] items[i]) == Some(list[i]),
        sources_of(items) is Err <==> exists|i: int|
            0 <= i < items.len() && source_of(#[trigger] items[i]) is None,
        sources_of(items) matches Err(e) ==> e
            == "image must be {\"path\"} or {\"mime\", \"b64\"}"@,
{
}

/// A payload with a text and with a list of images, and with nothing else, asks that text
/// with those images. Any other payload that is no string is handed over as it is.
pub proof fn law_pictures_are_asked_with_their_text(
    payload: Text,
    members: Seq<(Text, Text)>,
    t: Text,
    list: Text,
    items: Seq<Text>,
)
    requires
        json::json_string(payload) is None,
        json::json_members(payload) == Some(members),
    ensures
        members.len() == 2 && record::lookup(members, "text"@) == Some(json::quoted(t))
            && record::lookup(members, "images"@) == Some(list) && json::json_elements(list)
            == Some(items) ==> request_of(payload) == (match sources_of(items) {
            Ok(sources) => Ok::<(Text, Seq<SourceModel>), Text>((t, sources)),
            Err(e) => Err(e),
        }),
        members.len() != 2 || record::lookup(members, "text"@) is None || record::lookup(
            members,
            "images"@,
        ) is None ==> request_of(payload) == Ok::<(Text, Seq<SourceModel>), Text>(
            (payload, seq![]),
        ),
{
    json::law_strings_read_back(t);
}

/// A payload that is neither a string nor an object is handed over as it is.
pub proof fn law_anything_else_is_handed_over(payload: Text)
    requires
        json::json_string(payload) is None,
        json::json_members(payload) is None,
    ensures
        request_of(payload) == Ok::<(Text, Seq<SourceModel>), Text>((payload, seq![])),
{
}

} // verus!
