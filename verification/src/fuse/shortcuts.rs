//! Shortcuts for native cloud documents.
//!
//! Documents, spreadsheets and the like have no bytes to download. The
//! filesystem shows each of them as a small document that opens the file in a
//! browser: an HTML page that redirects at once, or a desktop entry of type
//! `Link`.
use vstd::prelude::*;
use vstd::string::*;
use crate::text::{is_prefix, starts_with, str_eq};

verus! {

/// The prefix shared by every mime type of a native cloud document.
pub open spec fn workspace_prefix() -> Seq<char> {
    "application/vnd.google-apps."@
}

/// A mime type names a native cloud document iff it starts with the prefix.
pub open spec fn is_workspace_mime(mime: Seq<char>) -> bool {
    is_prefix(workspace_prefix(), mime)
}

/// The address that opens the file `file_id` of type `mime` in a browser:
/// the editor of its kind, or the generic file view.
pub open spec fn shortcut_url_spec(file_id: Seq<char>, mime: Seq<char>) -> Seq<char> {
    if mime == "application/vnd.google-apps.document"@ {
        "https://docs.google.com/document/d/"@ + file_id + "/edit"@
    } else if mime == "application/vnd.google-apps.spreadsheet"@ {
        "https://docs.google.com/spreadsheets/d/"@ + file_id + "/edit"@
    } else if mime == "application/vnd.google-apps.presentation"@ {
        "https://docs.google.com/presentation/d/"@ + file_id + "/edit"@
    } else if mime == "application/vnd.google-apps.form"@ {
        "https://docs.google.com/forms/d/"@ + file_id + "/edit"@
    } else if mime == "application/vnd.google-apps.drawing"@ {
        "https://docs.google.com/drawings/d/"@ + file_id + "/edit"@
    } else {
        "https://drive.google.com/file/d/"@ + file_id + "/view"@
    }
}

/// The icon name that a desktop shows for a file of type `mime`.
pub open spec fn shortcut_icon_spec(mime: Seq<char>) -> Seq<char> {
    if mime == "application/vnd.google-apps.document"@ {
        "x-office-document"@
    } else if mime == "application/vnd.google-apps.spreadsheet"@ {
        "x-office-spreadsheet"@
    } else if mime == "application/vnd.google-apps.presentation"@ {
        "x-office-presentation"@
    } else if mime == "application/vnd.google-apps.drawing"@ {
        "image-x-generic"@
    } else {
        "text-html"@
    }
}

/// The desktop entry of type `Link` for a file.
pub open spec fn desktop_entry_spec(file_id: Seq<char>, name: Seq<char>, mime: Seq<char>) -> Seq<
    char,
> {
    "[Desktop Entry]\nVersion=1.0\nType=Link\nName="@ + name + "\nIcon="@ + shortcut_icon_spec(mime)
        + "\nURL="@ + shortcut_url_spec(file_id, mime) + "\n"@
}

/// The HTML page for a file: titled with the file's name, it redirects to the
/// file's address with a zero-delay refresh, with a script and a plain link
/// as fallbacks.
pub open spec fn html_spec(file_id: Seq<char>, name: Seq<char>, mime: Seq<char>) -> Seq<char> {
    let url = shortcut_url_spec(file_id, mime);
    "<!DOCTYPE html>\n<html>\n<head>\n<meta charset=\"utf-8\">\n<title>"@ + name
        + "</title>\n<meta http-equiv=\"refresh\" content=\"0; url="@ + url
        + "\">\n<script>window.location.replace(\""@ + url
        + "\");</script>\n</head>\n<body>\n<a href=\""@ + url + "\">"@ + name
        + "</a>\n</body>\n</html>\n"@
}

/// Whether `mime_type` names a native cloud document.
pub fn is_workspace_file(mime_type: &str) -> (r: bool)
    ensures
        r == is_workspace_mime(mime_type@),
{
    starts_with(mime_type, "application/vnd.google-apps.")
}

/// Builds the address that opens a file in a browser.
pub fn shortcut_url(file_id: &str, mime_type: &str) -> (url: String)
    ensures
        url@ == shortcut_url_spec(file_id@, mime_type@),
{
    let tail = "/edit";
    let mut url = if str_eq(mime_type, "application/vnd.google-apps.document") {
        String::from_str("https://docs.google.com/document/d/")
    } else if str_eq(mime_type, "application/vnd.google-apps.spreadsheet") {
        String::from_str("https://docs.google.com/spreadsheets/d/")
    } else if str_eq(mime_type, "application/vnd.google-apps.presentation") {
        String::from_str("https://docs.google.com/presentation/d/")
    } else if str_eq(mime_type, "application/vnd.google-apps.form") {
        String::from_str("https://docs.google.com/forms/d/")
    } else if str_eq(mime_type, "application/vnd.google-apps.drawing") {
        String::from_str("https://docs.google.com/drawings/d/")
    } else {
        let mut view = String::from_str("https://drive.google.com/file/d/");
        view.append(file_id);
        view.append("/view");
        return view;
    };
    url.append(file_id);
    url.append(tail);
    url
}

/// Picks the icon name for a file of type `mime_type`.
pub fn shortcut_icon(mime_type: &str) -> (icon: &'static str)
    ensures
        icon@ == shortcut_icon_spec(mime_type@),
{
    if str_eq(mime_type, "application/vnd.google-apps.document") {
        "x-office-document"
    } else if str_eq(mime_type, "application/vnd.google-apps.spreadsheet") {
        "x-office-spreadsheet"
    } else if str_eq(mime_type, "application/vnd.google-apps.presentation") {
        "x-office-presentation"
    } else if str_eq(mime_type, "application/vnd.google-apps.drawing") {
        "image-x-generic"
    } else {
        "text-html"
    }
}

/// Builds the desktop entry of type `Link` for a native cloud document.
pub fn generate_desktop_entry(file_id: &str, name: &str, mime_type: &str) -> (entry: String)
    ensures
        entry@ == desktop_entry_spec(file_id@, name@, mime_type@),
{
    let url = shortcut_url(file_id, mime_type);
    let icon = shortcut_icon(mime_type);
    let mut entry = String::from_str("[Desktop Entry]\nVersion=1.0\nType=Link\nName=");
    entry.append(name);
    entry.append("\nIcon=");
    entry.append(icon);
    entry.append("\nURL=");
    entry.append(url.as_str());
    entry.append("\n");
    entry
}

/// Builds the HTML page that redirects to a native cloud document.
pub fn generate_html(file_id: &str, name: &str, mime_type: &str) -> (page: String)
    ensures
        page@ == html_spec(file_id@, name@, mime_type@),
{
    let url = shortcut_url(file_id, mime_type);
    let mut page = String::from_str(
        "<!DOCTYPE html>\n<html>\n<head>\n<meta charset=\"utf-8\">\n<title>",
    );
    page.append(name);
    page.append("</title>\n<meta http-equiv=\"refresh\" content=\"0; url=");
    page.append(url.as_str());
    page.append("\">\n<script>window.location.replace(\"");
    page.append(url.as_str());
    page.append("\");</script>\n</head>\n<body>\n<a href=\"");
    page.append(url.as_str());
    page.append("\">");
    page.append(name);
    page.append("</a>\n</body>\n</html>\n");
    page
}

} // verus!
