//! Names and pages of the thumbnail server: file names of images and their
//! thumbnails, the tag search pattern and the search result page.

use vstd::prelude::*;

use crate::text::decimal;
use crate::text::push_decimal;
use crate::text::replace;
use crate::text::replace_all;
use vstd::utf8::encode_utf8;
use vstd::utf8::valid_utf8;

verus! {

/// `images/<id>.jpg`.
pub open spec fn image_path_spec(id: int) -> Seq<char> {
    "images/"@ + decimal(id) + ".jpg"@
}

/// `images/<id>_thumb.jpg`.
pub open spec fn thumbnail_path_spec(id: int) -> Seq<char> {
    "images/"@ + decimal(id) + "_thumb.jpg"@
}

/// The result entry of one image: a link to the image showing its thumbnail.
pub open spec fn search_result_entry(id: int) -> Seq<char> {
    "<a href=\"/image/"@ + decimal(id) + "\"><img src='/thumb/"@ + decimal(id) + "' /></a><br />"@
}

/// The result entries of all images, in order.
pub open spec fn search_results(ids: Seq<i64>) -> Seq<char>
    decreases ids.len(),
{
    if ids.len() == 0 {
        Seq::empty()
    } else {
        search_results(ids.drop_last()) + search_result_entry(ids.last() as int)
    }
}

/// The file name under which the image `id` is stored.
pub fn image_path(id: i64) -> (path: String)
    ensures
        path@ == image_path_spec(id as int),
{
    let mut path = String::from_str("images/");
    push_decimal(&mut path, id);
    path.append(".jpg");
    path
}

/// The file name under which the thumbnail of the image `id` is stored.
pub fn thumbnail_path(id: i64) -> (path: String)
    ensures
        path@ == thumbnail_path_spec(id as int),
{
    let mut path = String::from_str("images/");
    push_decimal(&mut path, id);
    path.append("_thumb.jpg");
    path
}

/// The value of the `Content-Disposition` header for a file.
pub fn attachment(filename: &str) -> (header: String)
    ensures
        header@ == "filename="@ + filename@,
{
    let mut header = String::from_str("filename=");
    header.append(filename);
    header
}

/// The SQL `LIKE` pattern that finds `tags` anywhere in the stored tags.
pub fn search_pattern(tags: &str) -> (pattern: String)
    ensures
        pattern@ == "%"@ + tags@ + "%"@,
{
    let mut pattern = String::from_str("%");
    pattern.append(tags);
    pattern.append("%");
    pattern
}

/// The message that reports how many images are stored.
pub fn count_message(count: i64) -> (message: String)
    ensures
        message@ == decimal(count as int) + " images in the database"@,
{
    let mut message = String::new();
    push_decimal(&mut message, count);
    message.append(" images in the database");
    message
}

/// The result entries for the images found, in order.
pub fn search_results_html(ids: &[i64]) -> (html: String)
    ensures
        html@ == search_results(ids@),
{
    let mut html = String::new();
    let mut i: usize = 0;
    while i < ids.len()
        invariant
            i <= ids@.len(),
            html@ == search_results(ids@.take(i as int)),
        decreases ids@.len() - i,
    {
        let ghost before = html@;
        let id = ids[i];
        html.append("<a href=\"/image/");
        push_decimal(&mut html, id);
        html.append("\"><img src='/thumb/");
        push_decimal(&mut html, id);
        html.append("' /></a><br />");
        assert(ids@.take(i + 1).drop_last() =~= ids@.take(i as int));
        assert(html@ =~= before + search_result_entry(id as int));
        i = i + 1;
    }
    assert(ids@.take(i as int) =~= ids@);
    html
}

/// The search page: the template with each `{results}` replaced by the results.
pub fn render_search_page(template: &str, results: &str) -> (page: String)
    ensures
        page@ == replace_all(template@, "{results}"@, results@),
{
    proof {
        reveal_strlit("{results}");
    }
    replace(template, "{results}", results)
}

/// Decodes UTF-8 text with `String::from_utf8`, which the standard library
/// documents as failing exactly when the bytes are not valid UTF-8; on success
/// the string's UTF-8 encoding is exactly the given bytes.
#[verifier::external_body]
fn utf8_to_string(bytes: Vec<u8>) -> (text: Option<String>)
    ensures
        text is Some <==> valid_utf8(bytes@),
        text matches Some(s) ==> encode_utf8(s@) == bytes@,
{
    String::from_utf8(bytes).ok()
}

/// Why an upload cannot be accepted.
#[derive(Debug, PartialEq, Eq, Clone, Copy, Structural)]
pub enum UploadError {
    /// A form field other than `tags` and `image` was sent.
    UnknownField,
    /// The `tags` field is not UTF-8 text.
    InvalidTags,
    /// The `tags` or the `image` field is missing.
    MissingField,
}

/// The fields of an upload form received so far.
pub struct UploadForm {
    pub tags: Option<String>,
    pub image: Option<Vec<u8>>,
}

impl UploadForm {
    /// A form with no fields yet.
    pub fn new() -> (form: Self)
        ensures
            form.tags is None,
            form.image is None,
    {
        UploadForm { tags: None, image: None }
    }

    /// Records one field. `tags` takes UTF-8 text and `image` the raw bytes; a
    /// later field of the same name replaces an earlier one. Tags are accepted
    /// exactly when they are valid UTF-8. An unknown field or tags that are not
    /// text are refused, and the form stays as it was.
    pub fn add_field(&mut self, name: &str, data: Vec<u8>) -> (res: Result<(), UploadError>)
        ensures
            name@ == "tags"@ ==> (res is Ok <==> valid_utf8(data@)),
            name@ == "tags"@ ==> match res {
                Ok(()) => {
                    &&& final(self).tags matches Some(t)
                    &&& encode_utf8(t@) == data@
                    &&& final(self).image == old(self).image
                },
                Err(e) => {
                    &&& e == UploadError::InvalidTags
                    &&& final(self).tags == old(self).tags
                    &&& final(self).image == old(self).image
                },
            },
            name@ == "image"@ ==> {
                &&& res == Ok::<(), UploadError>(())
                &&& final(self).image == Some(data)
                &&& final(self).tags == old(self).tags
            },
            name@ != "tags"@ && name@ != "image"@ ==> {
                &&& res == Err::<(), UploadError>(UploadError::UnknownField)
                &&& final(self).tags == old(self).tags
                &&& final(self).image == old(self).image
            },
    {
        proof {
            reveal_strlit("tags");
            reveal_strlit("image");
            assert("tags"@.len() == 4 && "image"@.len() == 5);
        }
        let field = String::from_str(name);
        if field == String::from_str("tags") {
            match utf8_to_string(data) {
                Some(text) => {
                    self.tags = Some(text);
                    Ok(())
                },
                None => Err(UploadError::InvalidTags),
            }
        } else if field == String::from_str("image") {
            self.image = Some(data);
            Ok(())
        } else {
            Err(UploadError::UnknownField)
        }
    }

    /// The tags and the image, once both were received.
    pub fn finish(self) -> (res: Result<(String, Vec<u8>), UploadError>)
        ensures
            match (self.tags, self.image) {
                (Some(t), Some(i)) => res == Ok::<(String, Vec<u8>), UploadError>((t, i)),
                _ => res == Err::<(String, Vec<u8>), UploadError>(UploadError::MissingField),
            },
    {
        match (self.tags, self.image) {
            (Some(t), Some(i)) => Ok((t, i)),
            _ => Err(UploadError::MissingField),
        }
    }
}

} // verus!
