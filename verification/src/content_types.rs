//! The content types of common web file extensions.

use crate::headers::{field_value, static_value};
use crate::text::{same, text};
use http::HeaderValue;
use vstd::prelude::*;

verus! {

/// A list of file extensions, without leading dots, and their content types. A later entry
/// takes precedence over an earlier one for the same extension.
pub type ExtensionList = Vec<(String, HeaderValue)>;

/// The extensions and content types of a list.
pub open spec fn extension_types(list: Seq<(String, HeaderValue)>) -> Seq<(Seq<char>, Seq<u8>)> {
    list.map_values(|e: (String, HeaderValue)| (e.0@, field_value(e.1)))
}

/// The content type of an extension, if it is listed.
pub open spec fn type_of(list: Seq<(Seq<char>, Seq<u8>)>, extension: Seq<u8>) -> Option<Seq<u8>>
    decreases list.len(),
{
    if list.len() == 0 {
        None
    } else if text(list.last().0) == extension {
        Some(list.last().1)
    } else {
        type_of(list.drop_last(), extension)
    }
}

/// Adds an entry to a list.
pub(crate) fn add_extension(list: &mut ExtensionList, extension: String, content_type: HeaderValue)
    ensures
        extension_types(final(list)@) == extension_types(old(list)@).push(
            (extension@, field_value(content_type)),
        ),
{
    let ghost entry = (extension@, field_value(content_type));
    list.push((extension, content_type));
    assert(extension_types(list@) =~= extension_types(old(list)@).push(entry));
}

/// The content type of an extension, if it is listed.
pub(crate) fn find_type<'a>(list: &'a ExtensionList, extension: &[u8]) -> (r: Option<&'a HeaderValue>)
    ensures
        match r {
            Some(v) => type_of(extension_types(list@), extension@) == Some(field_value(*v)),
            None => type_of(extension_types(list@), extension@) is None,
        },
{
    let ghost all = extension_types(list@);
    let mut n: usize = list.len();
    assert(all.take(n as int) =~= all);
    while n > 0
        invariant
            n <= list@.len(),
            all == extension_types(list@),
            type_of(all, extension@) == type_of(all.take(n as int), extension@),
        decreases n,
    {
        assert(all.take(n as int).drop_last() =~= all.take(n - 1));
        assert(all.take(n as int).last() == all[n - 1]);
        if same(list[n - 1].0.as_str().as_bytes(), extension) {
            return Some(&list[n - 1].1);
        }
        n -= 1;
    }
    None
}

/// Adds an entry of string constants to a list.
fn add_constant(list: &mut ExtensionList, extension: &'static str, content_type: &'static str)
    requires
        crate::headers::is_visible_chars(content_type@),
    ensures
        extension_types(final(list)@) == extension_types(old(list)@).push(
            (extension@, text(content_type@)),
        ),
{
    add_extension(list, String::from_str(extension), static_value(content_type));
}

/// Extensions and content types as they are written in a list.
pub open spec fn encoded(list: Seq<(Seq<char>, Seq<char>)>) -> Seq<(Seq<char>, Seq<u8>)> {
    list.map_values(|e: (Seq<char>, Seq<char>)| (e.0, text(e.1)))
}

/// The content types of pages and scripts.
pub open spec fn page_types() -> Seq<(Seq<char>, Seq<char>)> {
    seq![
        ("html"@, "text/html"@),
        ("htm"@, "text/html"@),
        ("hxt"@, "text/html"@),
        ("css"@, "text/css"@),
        ("js"@, "text/javascript"@),
        ("es"@, "text/javascript"@),
        ("ecma"@, "text/javascript"@),
        ("jsm"@, "text/javascript"@),
        ("jsx"@, "text/javascript"@),
    ]
}

fn add_page_types(list: &mut ExtensionList)
    ensures
        extension_types(final(list)@) == extension_types(old(list)@) + encoded(page_types()),
{
    proof {
        reveal_strlit("text/html");
        reveal_strlit("text/css");
        reveal_strlit("text/javascript");
    }
    add_constant(list, "html", "text/html");
    add_constant(list, "htm", "text/html");
    add_constant(list, "hxt", "text/html");
    add_constant(list, "css", "text/css");
    add_constant(list, "js", "text/javascript");
    add_constant(list, "es", "text/javascript");
    add_constant(list, "ecma", "text/javascript");
    add_constant(list, "jsm", "text/javascript");
    add_constant(list, "jsx", "text/javascript");
    assert(extension_types(list@) =~= extension_types(old(list)@) + encoded(page_types()));
}

/// The content types of images.
pub open spec fn image_types() -> Seq<(Seq<char>, Seq<char>)> {
    seq![
        ("png"@, "image/png"@),
        ("apng"@, "image/apng"@),
        ("avif"@, "image/avif"@),
        ("gif"@, "image/gif"@),
        ("ico"@, "image/x-icon"@),
        ("jpeg"@, "image/jpeg"@),
        ("jfif"@, "image/jpeg"@),
        ("pjpeg"@, "image/jpeg"@),
        ("pjp"@, "image/jpeg"@),
        ("jpg"@, "image/jpeg"@),
        ("svg"@, "image/svg+xml"@),
        ("tiff"@, "image/tiff"@),
        ("webp"@, "image/webp"@),
        ("bmp"@, "image/bmp"@),
    ]
}

fn add_image_types(list: &mut ExtensionList)
    ensures
        extension_types(final(list)@) == extension_types(old(list)@) + encoded(image_types()),
{
    proof {
        reveal_strlit("image/png");
        reveal_strlit("image/apng");
        reveal_strlit("image/avif");
        reveal_strlit("image/gif");
        reveal_strlit("image/x-icon");
        reveal_strlit("image/jpeg");
        reveal_strlit("image/svg+xml");
        reveal_strlit("image/tiff");
        reveal_strlit("image/webp");
        reveal_strlit("image/bmp");
    }
    add_constant(list, "png", "image/png");
    add_constant(list, "apng", "image/apng");
    add_constant(list, "avif", "image/avif");
    add_constant(list, "gif", "image/gif");
    add_constant(list, "ico", "image/x-icon");
    add_constant(list, "jpeg", "image/jpeg");
    add_constant(list, "jfif", "image/jpeg");
    add_constant(list, "pjpeg", "image/jpeg");
    add_constant(list, "pjp", "image/jpeg");
    add_constant(list, "jpg", "image/jpeg");
    add_constant(list, "svg", "image/svg+xml");
    add_constant(list, "tiff", "image/tiff");
    add_constant(list, "webp", "image/webp");
    add_constant(list, "bmp", "image/bmp");
    assert(extension_types(list@) =~= extension_types(old(list)@) + encoded(image_types()));
}

/// The content types of documents and archives.
pub open spec fn archive_types() -> Seq<(Seq<char>, Seq<char>)> {
    seq![
        ("pdf"@, "application/pdf"@),
        ("zip"@, "application/zip"@),
        ("gz"@, "application/gzip"@),
        ("tar"@, "application/tar"@),
        ("bz"@, "application/x-bzip"@),
        ("bz2"@, "application/x-bzip2"@),
        ("xz"@, "application/x-xz"@),
    ]
}

fn add_archive_types(list: &mut ExtensionList)
    ensures
        extension_types(final(list)@) == extension_types(old(list)@) + encoded(archive_types()),
{
    proof {
        reveal_strlit("application/pdf");
        reveal_strlit("application/zip");
        reveal_strlit("application/gzip");
        reveal_strlit("application/tar");
        reveal_strlit("application/x-bzip");
        reveal_strlit("application/x-bzip2");
        reveal_strlit("application/x-xz");
    }
    add_constant(list, "pdf", "application/pdf");
    add_constant(list, "zip", "application/zip");
    add_constant(list, "gz", "application/gzip");
    add_constant(list, "tar", "application/tar");
    add_constant(list, "bz", "application/x-bzip");
    add_constant(list, "bz2", "application/x-bzip2");
    add_constant(list, "xz", "application/x-xz");
    assert(extension_types(list@) =~= extension_types(old(list)@) + encoded(archive_types()));
}

/// The content types of texts.
pub open spec fn text_types() -> Seq<(Seq<char>, Seq<char>)> {
    seq![
        ("csv"@, "text/csv"@),
        ("txt"@, "text/plain"@),
        ("text"@, "text/plain"@),
        ("log"@, "text/plain"@),
        ("md"@, "text/markdown"@),
        ("markdown"@, "text/x-markdown"@),
        ("mkd"@, "text/x-markdown"@),
    ]
}

fn add_text_types(list: &mut ExtensionList)
    ensures
        extension_types(final(list)@) == extension_types(old(list)@) + encoded(text_types()),
{
    proof {
        reveal_strlit("text/csv");
        reveal_strlit("text/plain");
        reveal_strlit("text/markdown");
        reveal_strlit("text/x-markdown");
    }
    add_constant(list, "csv", "text/csv");
    add_constant(list, "txt", "text/plain");
    add_constant(list, "text", "text/plain");
    add_constant(list, "log", "text/plain");
    add_constant(list, "md", "text/markdown");
    add_constant(list, "markdown", "text/x-markdown");
    add_constant(list, "mkd", "text/x-markdown");
    assert(extension_types(list@) =~= extension_types(old(list)@) + encoded(text_types()));
}

/// The content types of videos.
pub open spec fn video_types() -> Seq<(Seq<char>, Seq<char>)> {
    seq![
        ("mp4"@, "video/mp4"@),
        ("webm"@, "video/webm"@),
        ("mpeg"@, "video/mpeg"@),
        ("mpg"@, "video/mpeg"@),
        ("mpg4"@, "video/mp4"@),
    ]
}

fn add_video_types(list: &mut ExtensionList)
    ensures
        extension_types(final(list)@) == extension_types(old(list)@) + encoded(video_types()),
{
    proof {
        reveal_strlit("video/mp4");
        reveal_strlit("video/webm");
        reveal_strlit("video/mpeg");
    }
    add_constant(list, "mp4", "video/mp4");
    add_constant(list, "webm", "video/webm");
    add_constant(list, "mpeg", "video/mpeg");
    add_constant(list, "mpg", "video/mpeg");
    add_constant(list, "mpg4", "video/mp4");
    assert(extension_types(list@) =~= extension_types(old(list)@) + encoded(video_types()));
}

/// The content types of data and configuration.
pub open spec fn data_types() -> Seq<(Seq<char>, Seq<char>)> {
    seq![
        ("xml"@, "application/xml"@),
        ("json"@, "application/json"@),
        ("yaml"@, "application/yaml"@),
        ("yml"@, "application/yaml"@),
        ("toml"@, "application/toml"@),
        ("ini"@, "application/ini"@),
        ("ics"@, "text/calendar"@),
    ]
}

fn add_data_types(list: &mut ExtensionList)
    ensures
        extension_types(final(list)@) == extension_types(old(list)@) + encoded(data_types()),
{
    proof {
        reveal_strlit("application/xml");
        reveal_strlit("application/json");
        reveal_strlit("application/yaml");
        reveal_strlit("application/toml");
        reveal_strlit("application/ini");
        reveal_strlit("text/calendar");
    }
    add_constant(list, "xml", "application/xml");
    add_constant(list, "json", "application/json");
    add_constant(list, "yaml", "application/yaml");
    add_constant(list, "yml", "application/yaml");
    add_constant(list, "toml", "application/toml");
    add_constant(list, "ini", "application/ini");
    add_constant(list, "ics", "text/calendar");
    assert(extension_types(list@) =~= extension_types(old(list)@) + encoded(data_types()));
}

/// The content types of office documents.
pub open spec fn office_types() -> Seq<(Seq<char>, Seq<char>)> {
    seq![
        ("doc"@, "application/msword"@),
        ("docx"@, "application/vnd.openxmlformats-officedocument.wordprocessingml.document"@),
        ("xls"@, "application/vnd.ms-excel"@),
        ("xlsx"@, "application/vnd.openxmlformats-officedocument.spreadsheetml.sheet"@),
        ("ppt"@, "application/vnd.ms-powerpoint"@),
        ("pptx"@, "application/vnd.openxmlformats-officedocument.presentationml.presentation"@),
    ]
}

fn add_office_types(list: &mut ExtensionList)
    ensures
        extension_types(final(list)@) == extension_types(old(list)@) + encoded(office_types()),
{
    proof {
        reveal_strlit("application/msword");
        reveal_strlit("application/vnd.openxmlformats-officedocument.wordprocessingml.document");
        reveal_strlit("application/vnd.ms-excel");
        reveal_strlit("application/vnd.openxmlformats-officedocument.spreadsheetml.sheet");
        reveal_strlit("application/vnd.ms-powerpoint");
        reveal_strlit("application/vnd.openxmlformats-officedocument.presentationml.presentation");
    }
    add_constant(list, "doc", "application/msword");
    add_constant(
        list,
        "docx",
        "application/vnd.openxmlformats-officedocument.wordprocessingml.document",
    );
    add_constant(list, "xls", "application/vnd.ms-excel");
    add_constant(
        list,
        "xlsx",
        "application/vnd.openxmlformats-officedocument.spreadsheetml.sheet",
    );
    add_constant(list, "ppt", "application/vnd.ms-powerpoint");
    add_constant(
        list,
        "pptx",
        "application/vnd.openxmlformats-officedocument.presentationml.presentation",
    );
    assert(extension_types(list@) =~= extension_types(old(list)@) + encoded(office_types()));
}

/// The builtin content types of common web file extensions.
pub open spec fn builtin_types() -> Seq<(Seq<char>, Seq<char>)> {
    page_types() + image_types() + archive_types() + text_types() + video_types() + data_types()
        + office_types()
}

/// Returns the builtin content types of common web file extensions.
pub(crate) fn builtin_list() -> (r: ExtensionList)
    ensures
        extension_types(r@) == encoded(builtin_types()),
{
    let mut list: ExtensionList = Vec::new();
    add_page_types(&mut list);
    add_image_types(&mut list);
    add_archive_types(&mut list);
    add_text_types(&mut list);
    add_video_types(&mut list);
    add_data_types(&mut list);
    add_office_types(&mut list);
    assert(extension_types(list@) =~= encoded(builtin_types()));
    list
}

/// An entry for an extension takes precedence over all earlier ones, and makes no difference to
/// other extensions. An empty list has no types.
pub proof fn a_later_type_takes_precedence(
    list: Seq<(Seq<char>, Seq<u8>)>,
    extension: Seq<char>,
    content_type: Seq<u8>,
    other: Seq<u8>,
)
    ensures
        type_of(list.push((extension, content_type)), text(extension)) == Some(content_type),
        other != text(extension) ==> type_of(list.push((extension, content_type)), other)
            == type_of(list, other),
        type_of(Seq::empty(), other) is None,
{
    assert(list.push((extension, content_type)).drop_last() =~= list);
}

} // verus!
