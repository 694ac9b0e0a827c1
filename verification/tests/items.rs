use clipboard_vault::error::AppError;
use clipboard_vault::items::{
    default_auto, default_path, export_csv, list_limit, page_of, prepare_text_item, search_text, trim_end_string,
    upload_field, validate_patch, FileItemFields, ItemCreate, ItemPatch, ItemRow, UploadField,
};

fn validation(e: AppError) -> String {
    match e {
        AppError::Validation(m) => m,
        other => panic!("expected a validation error, got {other:?}"),
    }
}

fn text(payload: &str) -> ItemCreate {
    ItemCreate {
        payload: payload.into(),
        kind: default_auto(),
        virtual_path: default_path(),
        tags: vec![],
        source_url: None,
    }
}

fn row(kind: &str, filename: Option<&str>, payload: Option<&str>) -> ItemRow {
    ItemRow {
        id: "6f1c".into(),
        organization_id: "org-1".into(),
        created_by_user_id: None,
        created_by_key_id: None,
        kind: kind.into(),
        text_payload: payload.map(str::to_owned),
        blob_id: None,
        original_filename: filename.map(str::to_owned),
        virtual_path: "/".into(),
        source_url: None,
        tags: Some(vec![Some(" rust ".into()), None, Some("".into()), Some("web".into())]),
        content_hash: "00".into(),
        size_bytes: 12,
        pinned: false,
        created_at: "2026-03-12T10:00:00+00:00".into(),
        updated_at: "2026-03-12T10:00:00+00:00".into(),
        deleted_at: None,
    }
}

#[test]
fn defaults_are_auto_and_root() {
    assert_eq!(default_auto(), "auto");
    assert_eq!(default_path(), "/");
}

#[test]
fn pasted_text_is_trimmed_measured_and_hashed() {
    let prepared = prepare_text_item(text("hello\n\n"), 1000, 2000).unwrap();
    assert_eq!(prepared.payload, "hello");
    assert_eq!(prepared.size, 5);
    assert_eq!(prepared.kind, "text");
    assert_eq!(prepared.virtual_path, "/");
    assert_eq!(
        prepared.content_hash,
        "2cf24dba5fb0a30e26e83b2ac5b9e29e1b161e5c1fa7425e73043362938b9824"
    );
}

#[test]
fn blank_and_oversized_text_is_refused() {
    assert_eq!(validation(prepare_text_item(text("  \n\t"), 1000, 1000).err().unwrap()), "payload cannot be blank");
    match prepare_text_item(text("123456"), 5, 100) {
        Err(AppError::PayloadTooLarge { received: 6, limit: 5 }) => {}
        _ => panic!("expected the workspace limit to apply"),
    }
    match prepare_text_item(text("123456"), 100, 4) {
        Err(AppError::PayloadTooLarge { received: 6, limit: 4 }) => {}
        _ => panic!("expected the request limit to apply"),
    }
}

#[test]
fn text_checks_run_in_order() {
    let mut input = text("hi");
    input.kind = "video".into();
    input.virtual_path = "../x".into();
    assert_eq!(
        validation(prepare_text_item(input, 100, 100).err().unwrap()),
        "type must be auto, text, html, code, or url"
    );
    let mut input = text("hi");
    input.virtual_path = "../x".into();
    input.tags = vec!["bad tag".into()];
    assert_eq!(validation(prepare_text_item(input, 100, 100).err().unwrap()), "virtual_path cannot contain ..");
    let mut input = text("hi");
    input.source_url = Some("ftp://example.com".into());
    assert_eq!(validation(prepare_text_item(input, 100, 100).err().unwrap()), "source_url must use http or https");
}

#[test]
fn trailing_whitespace_is_removed() {
    assert_eq!(trim_end_string("  a b \u{3000}\n"), "  a b");
}

#[test]
fn patches_check_path_then_tags_then_source() {
    let patch = ItemPatch {
        virtual_path: Some("../up".into()),
        tags: Some(vec!["no spaces allowed".into()]),
        source_url: Some(Some("notaurl".into())),
        pinned: None,
    };
    assert_eq!(validation(validate_patch(patch).err().unwrap()), "virtual_path cannot contain ..");
    let patch = ItemPatch {
        virtual_path: None,
        tags: Some(vec!["no spaces allowed".into()]),
        source_url: Some(Some("notaurl".into())),
        pinned: None,
    };
    assert_eq!(validation(validate_patch(patch).err().unwrap()), "invalid tag: no spaces allowed");
    let patch = ItemPatch { virtual_path: None, tags: None, source_url: Some(Some("notaurl".into())), pinned: None };
    assert_eq!(validation(validate_patch(patch).err().unwrap()), "source_url is invalid");
    let patch = ItemPatch {
        virtual_path: Some("a//b".into()),
        tags: Some(vec!["X".into()]),
        source_url: Some(None),
        pinned: Some(true),
    };
    let valid = validate_patch(patch).unwrap();
    assert_eq!(valid.virtual_path.as_deref(), Some("/a/b"));
    assert_eq!(valid.tags, Some(vec!["x".to_string()]));
    assert!(valid.set_source_url);
    assert!(valid.source_url.is_none());
    assert_eq!(valid.pinned, Some(true));
}

#[test]
fn listings_are_paged() {
    assert_eq!(list_limit(None), 50);
    assert_eq!(list_limit(Some(0)), 1);
    assert_eq!(list_limit(Some(500)), 200);
    assert_eq!(list_limit(Some(20)), 20);
    assert_eq!(search_text(Some("  ".into())), None);
    assert_eq!(search_text(Some(" rust ".into())).as_deref(), Some(" rust "));
    let (page, more) = page_of(vec![1, 2, 3], 2);
    assert_eq!(page, vec![1, 2]);
    assert!(more);
    let (page, more) = page_of(vec![1, 2], 2);
    assert_eq!(page, vec![1, 2]);
    assert!(!more);
}

#[test]
fn stored_items_have_titles_tags_and_ages() {
    let file = row("file", Some("  report.pdf "), None);
    assert_eq!(file.display_name(), "report.pdf");
    assert_eq!(file.tag_list(), vec!["rust", "web"]);
    let note = row("text", None, Some("\n   \n  First line here \nsecond"));
    assert_eq!(note.display_name(), "First line here");
    let long = "x".repeat(80);
    let long_note = row("text", Some("  "), Some(&long));
    assert_eq!(long_note.display_name(), format!("{}\u{2026}", "x".repeat(72)));
    assert_eq!(row("url", None, None).display_name(), "Untitled url");
    assert_eq!(note.age(30, "12 Mar 2026"), "just now");
    assert_eq!(note.age(600, "12 Mar 2026"), "10m ago");
    assert_eq!(note.age(7_200, "12 Mar 2026"), "2h ago");
    assert_eq!(note.age(3 * 86_400, "12 Mar 2026"), "3d ago");
    assert_eq!(note.age(8 * 86_400, "12 Mar 2026"), "12 Mar 2026");
}

#[test]
fn exports_match_the_csv_writer() {
    let items = vec![row("file", Some("a,b.txt"), None), row("text", None, Some("say \"hi\"\nbye"))];
    let ours = export_csv(&items).unwrap();
    let mut writer = csv::Writer::from_writer(Vec::new());
    writer
        .write_record(["id", "type", "filename", "virtual_path", "size_bytes", "created_at", "payload"])
        .unwrap();
    for item in &items {
        writer
            .write_record([
                item.id.clone(),
                item.kind.clone(),
                item.original_filename.clone().unwrap_or_default(),
                item.virtual_path.clone(),
                item.size_bytes.to_string(),
                item.created_at.clone(),
                item.text_payload.clone().unwrap_or_default(),
            ])
            .unwrap();
    }
    assert_eq!(ours, writer.into_inner().unwrap());
    assert!(String::from_utf8(ours).unwrap().starts_with("id,type,filename,"));
}

#[test]
fn multipart_fields_are_recognised_by_name() {
    assert!(upload_field("file") == UploadField::File);
    assert!(upload_field("path") == UploadField::VirtualPath);
    assert!(upload_field("virtual_path") == UploadField::VirtualPath);
    assert!(upload_field("tags") == UploadField::Tags);
    assert!(upload_field("source_url") == UploadField::SourceUrl);
    assert!(upload_field("") == UploadField::Other);
}

#[test]
fn a_multipart_upload_takes_one_file_and_checks_its_fields() {
    let mut fields = FileItemFields::new();
    assert_eq!(
        validation(FileItemFields::new().finish().err().unwrap()),
        "multipart request must include file"
    );
    assert!(fields.accept_file().is_ok());
    assert_eq!(validation(fields.accept_file().err().unwrap()), "only one file is allowed");
    fields.accept_text(UploadField::VirtualPath, "reports\\2026".into());
    fields.accept_text(UploadField::Tags, "[\"Report\",\"monthly\"]".into());
    fields.accept_text(UploadField::Other, "ignored".into());
    fields.accept_text(UploadField::SourceUrl, " https://example.com/r ".into());
    let checked = fields.finish().unwrap();
    assert_eq!(checked.virtual_path, "/reports/2026");
    assert_eq!(checked.tags, vec!["report", "monthly"]);
    assert_eq!(checked.source_url.as_deref(), Some("https://example.com/r"));
}

#[test]
fn multipart_tags_may_be_comma_separated() {
    let mut fields = FileItemFields::new();
    fields.accept_file().unwrap();
    fields.accept_text(UploadField::Tags, "a, b,,c".into());
    assert_eq!(fields.finish().unwrap().tags, vec!["a", "b", "c"]);
}
