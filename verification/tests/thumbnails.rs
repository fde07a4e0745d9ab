use rust_examples::thumbnails::{UploadError, UploadForm};
use rust_examples::text::{push_decimal, replace, to_hex_upper};
use rust_examples::thumbnails::{
    attachment, count_message, image_path, render_search_page, search_pattern,
    search_results_html, thumbnail_path,
};

#[test]
fn file_names() {
    assert_eq!("images/42.jpg", image_path(42));
    assert_eq!("images/0_thumb.jpg", thumbnail_path(0));
    assert_eq!("images/-7.jpg", image_path(-7));
    assert_eq!("filename=images/42.jpg", attachment(&image_path(42)));
}

#[test]
fn decimal_extremes() {
    let mut s = String::new();
    push_decimal(&mut s, i64::MIN);
    assert_eq!(i64::MIN.to_string(), s);
    let mut t = String::from("x");
    push_decimal(&mut t, i64::MAX);
    assert_eq!(format!("x{}", i64::MAX), t);
}

#[test]
fn search_text() {
    assert_eq!("%cat%", search_pattern("cat"));
    assert_eq!("3 images in the database", count_message(3));
    assert_eq!(
        "<a href=\"/image/1\"><img src='/thumb/1' /></a><br /><a href=\"/image/12\"><img src='/thumb/12' /></a><br />",
        search_results_html(&[1, 12])
    );
    assert_eq!("", search_results_html(&[]));
}

#[test]
fn search_page_replaces_all() {
    assert_eq!("<p>R</p><i>R</i>", render_search_page("<p>{results}</p><i>{results}</i>", "R"));
    assert_eq!("no marker", render_search_page("no marker", "R"));
    assert_eq!("Xa", replace("aaa", "aa", "X"));
    assert_eq!(replace("\u{e9}t\u{e9} {results}", "{results}", "ok"), "\u{e9}t\u{e9} ok");
}

#[test]
fn hex_rendering() {
    assert_eq!("00FFA1", to_hex_upper(&[0, 255, 0xa1]));
    assert_eq!("", to_hex_upper(&[]));
}

#[test]
fn upload_form_fields() {
    let mut form = UploadForm::new();
    assert_eq!(Ok(()), form.add_field("tags", b"cats, dogs".to_vec()));
    assert_eq!(Err(UploadError::InvalidTags), form.add_field("tags", vec![0xff, 0xfe]));
    assert_eq!(Some("cats, dogs".to_string()), form.tags.clone());
    assert_eq!(Err(UploadError::UnknownField), form.add_field("other", vec![1]));
    assert!(form.image.is_none());
    assert_eq!(Ok(()), form.add_field("image", vec![1, 2, 3]));
    assert_eq!(Ok(("cats, dogs".to_string(), vec![1, 2, 3])), form.finish());
}

#[test]
fn upload_form_missing_field() {
    let mut form = UploadForm::new();
    assert_eq!(Ok(()), form.add_field("image", vec![9]));
    assert_eq!(Err(UploadError::MissingField), form.finish());
}

#[test]
fn replace_with_empty_pattern() {
    assert_eq!("-a-b-", replace("ab", "", "-"));
    assert_eq!("-", replace("", "", "-"));
    assert_eq!("x", replace("x", "", ""));
}
