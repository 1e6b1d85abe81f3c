use gdrivexp::fuse::shortcuts::{
    generate_desktop_entry, generate_html, is_workspace_file, shortcut_icon, shortcut_url,
};

#[test]
fn test_is_workspace_file() {
    assert!(is_workspace_file("application/vnd.google-apps.document"));
    assert!(is_workspace_file("application/vnd.google-apps.spreadsheet"));
    assert!(!is_workspace_file("application/pdf"));
    assert!(!is_workspace_file("image/png"));
}

#[test]
fn test_generate_desktop_entry_document() {
    let entry = generate_desktop_entry(
        "ABC123",
        "Mi Documento",
        "application/vnd.google-apps.document",
    );

    assert!(entry.contains("[Desktop Entry]"));
    assert!(entry.contains("Type=Link"));
    assert!(entry.contains("Name=Mi Documento"));
    assert!(entry.contains("https://docs.google.com/document/d/ABC123/edit"));
    assert!(entry.contains("Icon=x-office-document"));
}

#[test]
fn test_generate_desktop_entry_spreadsheet() {
    let entry = generate_desktop_entry(
        "XYZ789",
        "Hoja de Cálculo",
        "application/vnd.google-apps.spreadsheet",
    );

    assert!(entry.contains("https://docs.google.com/spreadsheets/d/XYZ789/edit"));
    assert!(entry.contains("Icon=x-office-spreadsheet"));
}

#[test]
fn workspace_prefix_must_be_complete() {
    assert!(is_workspace_file("application/vnd.google-apps."));
    assert!(is_workspace_file("application/vnd.google-apps.folder"));
    assert!(!is_workspace_file("application/vnd.google-apps"));
    assert!(!is_workspace_file(""));
    assert!(!is_workspace_file("xapplication/vnd.google-apps.document"));
}

#[test]
fn desktop_entry_has_the_exact_text() {
    let entry = generate_desktop_entry("ID", "Name", "application/vnd.google-apps.form");
    assert_eq!(
        entry,
        "[Desktop Entry]\nVersion=1.0\nType=Link\nName=Name\nIcon=text-html\nURL=https://docs.google.com/forms/d/ID/edit\n"
    );
}

#[test]
fn every_kind_of_document_has_its_address() {
    let id = "Q";
    assert_eq!(
        shortcut_url(id, "application/vnd.google-apps.document"),
        "https://docs.google.com/document/d/Q/edit"
    );
    assert_eq!(
        shortcut_url(id, "application/vnd.google-apps.spreadsheet"),
        "https://docs.google.com/spreadsheets/d/Q/edit"
    );
    assert_eq!(
        shortcut_url(id, "application/vnd.google-apps.presentation"),
        "https://docs.google.com/presentation/d/Q/edit"
    );
    assert_eq!(
        shortcut_url(id, "application/vnd.google-apps.form"),
        "https://docs.google.com/forms/d/Q/edit"
    );
    assert_eq!(
        shortcut_url(id, "application/vnd.google-apps.drawing"),
        "https://docs.google.com/drawings/d/Q/edit"
    );
    assert_eq!(
        shortcut_url(id, "application/vnd.google-apps.map"),
        "https://drive.google.com/file/d/Q/view"
    );
    assert_eq!(shortcut_icon("application/vnd.google-apps.presentation"), "x-office-presentation");
    assert_eq!(shortcut_icon("application/vnd.google-apps.drawing"), "image-x-generic");
    assert_eq!(shortcut_icon("application/vnd.google-apps.form"), "text-html");
    assert_eq!(shortcut_icon("application/pdf"), "text-html");
}

#[test]
fn html_page_redirects_to_the_document() {
    let page = generate_html("y", "y.gdoc", "application/vnd.google-apps.document");
    let url = "https://docs.google.com/document/d/y/edit";
    assert_eq!(
        page,
        format!(
            "<!DOCTYPE html>\n<html>\n<head>\n<meta charset=\"utf-8\">\n<title>y.gdoc</title>\n<meta http-equiv=\"refresh\" content=\"0; url={u}\">\n<script>window.location.replace(\"{u}\");</script>\n</head>\n<body>\n<a href=\"{u}\">y.gdoc</a>\n</body>\n</html>\n",
            u = url
        )
    );
}
