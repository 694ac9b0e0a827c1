use clipboard_vault::error::AppError;
use clipboard_vault::preview::{
    classify_preview, content_disposition, content_range, decode_text, download_disposition, download_filename,
    language_for_extension, parse_range, plan_file_range, preview_action, preview_headers, preview_sample_len,
    sanitize_filename, PreviewAction, IMAGE_PREVIEW_LIMIT, TEXT_PREVIEW_LIMIT,
};

#[test]
fn signatures_decide_first() {
    let pdf = classify_preview(b"%PDF-1.7 rest", "application/octet-stream", "x.bin");
    assert_eq!((pdf.kind, pdf.mime, pdf.language), ("pdf", "application/pdf", ""));
    let png = classify_preview(b"\x89PNG\r\n\x1a\n....", "text/plain", "notes.txt");
    assert_eq!((png.kind, png.mime), ("image", "image/png"));
    let webp = classify_preview(b"RIFF\0\0\0\0WEBPVP8 ", "", "");
    assert_eq!(webp.mime, "image/webp");
    let avif = classify_preview(b"\0\0\0\x1cftypavif", "", "");
    assert_eq!(avif.mime, "image/avif");
    let icon = classify_preview(&[0, 0, 1, 0, 5], "", "");
    assert_eq!(icon.mime, "image/x-icon");
}

#[test]
fn text_is_classified_by_extension() {
    let md = classify_preview(b"# Title", "text/markdown", "README.MD");
    assert_eq!((md.kind, md.mime, md.language), ("markdown", "text/plain; charset=utf-8", "markdown"));
    let rs = classify_preview(b"fn main() {}", "application/octet-stream", "main.rs");
    assert_eq!((rs.kind, rs.language), ("code", "rust"));
    let html = classify_preview(b"<p>hi</p>", "text/html", "page.htm");
    assert_eq!((html.kind, html.language), ("html", "html"));
    let plain = classify_preview(b"hello", "text/plain", "noext");
    assert_eq!((plain.kind, plain.language), ("code", "text"));
    let none = classify_preview(b"hello", "text/plain", "");
    assert_eq!((none.kind, none.language), ("text", "text"));
}

#[test]
fn binary_data_is_unsupported() {
    let zeros = vec![0u8; 64];
    let bin = classify_preview(&zeros, "text/plain", "a.txt");
    assert_eq!((bin.kind, bin.mime), ("unsupported", "application/octet-stream"));
    let exe = classify_preview(b"\x7fELF\x02\x01\x01\x00", "application/octet-stream", "tool");
    assert_eq!(exe.kind, "unsupported");
    let utf16 = classify_preview(&[0xff, 0xfe, b'h', 0, b'i', 0], "application/octet-stream", "a.log");
    assert_eq!((utf16.kind, utf16.language), ("text", "text"));
}

#[test]
fn languages_follow_extensions() {
    for (ext, language) in [
        ("js", "javascript"),
        ("tsx", "typescript"),
        ("rs", "rust"),
        ("py", "python"),
        ("bash", "bash"),
        ("ps1", "powershell"),
        ("h", "c"),
        ("hpp", "cpp"),
        ("cs", "csharp"),
        ("json", "json"),
        ("go", "go"),
        ("unknown", "text"),
    ] {
        assert_eq!(language_for_extension(ext), language);
    }
}

#[test]
fn text_decoding_honours_byte_order_marks() {
    assert_eq!(decode_text(&[0xef, 0xbb, 0xbf, b'h', b'i']).unwrap(), "hi");
    assert_eq!(decode_text(&[0xff, 0xfe, b'h', 0, b'i', 0]).unwrap(), "hi");
    assert_eq!(decode_text(&[0xfe, 0xff, 0, b'h', 0, b'i']).unwrap(), "hi");
    assert!(matches!(decode_text(&[0xff, 0xfe, 0x00, 0xd8]), Err(AppError::PreviewUnavailable)));
    assert_eq!(decode_text(&[b'c', b'a', b'f', 0xe9]).unwrap(), "caf\u{e9}");
    assert_eq!(decode_text(&[0x80]).unwrap(), "\u{20ac}");
}

#[test]
fn ranges_are_parsed_like_http() {
    assert_eq!(parse_range("bytes=0-99", 1000).unwrap(), (0, 99));
    assert_eq!(parse_range("bytes=500-", 1000).unwrap(), (500, 999));
    assert_eq!(parse_range("bytes=-100", 1000).unwrap(), (900, 999));
    assert_eq!(parse_range("bytes=-5000", 1000).unwrap(), (0, 999));
    assert_eq!(parse_range("bytes=10-5000", 1000).unwrap(), (10, 999));
    for bad in ["items=0-1", "bytes=0-1,5-6", "bytes=1000-", "bytes=5-4", "bytes=-0", "bytes=a-b", "bytes=5"] {
        assert!(matches!(parse_range(bad, 1000), Err(AppError::RangeNotSatisfiable { size: 1000 })), "{bad}");
    }
    assert!(matches!(parse_range("bytes=0-0", 0), Err(AppError::RangeNotSatisfiable { size: 0 })));
}

#[test]
fn file_responses_plan_their_bytes() {
    let whole = plan_file_range(None, 10).unwrap();
    assert_eq!((whole.start, whole.end, whole.partial, whole.length), (0, 9, false, 10));
    let empty = plan_file_range(None, 0).unwrap();
    assert_eq!((empty.start, empty.end, empty.length), (0, 0, 0));
    let part = plan_file_range(Some("bytes=2-4"), 10).unwrap();
    assert_eq!((part.start, part.end, part.partial, part.length), (2, 4, true, 3));
    assert_eq!(content_range(2, 4, 10), "bytes 2-4/10");
}

#[test]
fn dispositions_and_filenames_are_header_safe() {
    assert_eq!(sanitize_filename("a\"b\r\nc.txt"), "a_b__c.txt");
    assert_eq!(content_disposition("inline", "x\".png"), "inline; filename=\"x_.png\"");
    assert_eq!(download_disposition(None, "image/png"), "inline");
    assert_eq!(download_disposition(Some("1"), "image/png"), "attachment");
    assert_eq!(download_disposition(Some("0"), "image/png"), "inline");
    assert_eq!(download_disposition(None, "image/svg+xml"), "attachment");
    assert_eq!(download_disposition(None, "application/pdf"), "attachment");
    assert_eq!(download_filename(None), "download.bin");
    assert_eq!(download_filename(Some("r\"1\".pdf")), "r_1_.pdf");
}

#[test]
fn previews_are_bounded() {
    assert!(matches!(preview_action("pdf", 5), Ok(PreviewAction::Pdf)));
    assert!(matches!(preview_action("image", IMAGE_PREVIEW_LIMIT as i64), Ok(PreviewAction::Image)));
    assert!(matches!(preview_action("image", IMAGE_PREVIEW_LIMIT as i64 + 1), Err(AppError::PreviewUnavailable)));
    assert!(matches!(preview_action("code", 100), Ok(PreviewAction::Text { take: 100, truncated: false })));
    match preview_action("text", TEXT_PREVIEW_LIMIT as i64 + 7) {
        Ok(PreviewAction::Text { take, truncated }) => {
            assert_eq!(take, TEXT_PREVIEW_LIMIT);
            assert!(truncated);
        }
        _ => panic!("expected a truncated text preview"),
    }
    assert!(matches!(preview_action("text", -3), Ok(PreviewAction::Text { take: 0, truncated: false })));
    assert!(matches!(preview_action("unsupported", 1), Err(AppError::PreviewUnavailable)));
    assert_eq!(preview_sample_len(-1), 0);
    assert_eq!(preview_sample_len(100), 100);
    assert_eq!(preview_sample_len(1 << 40), 8192);
}

#[test]
fn preview_headers_describe_the_preview() {
    let code = classify_preview(b"let x = 1;", "text/plain", "a.ts");
    assert_eq!(
        preview_headers(&code, true),
        vec![("x-preview-kind", "code"), ("x-preview-truncated", "true"), ("x-preview-language", "typescript")]
    );
    let image = classify_preview(b"GIF89a", "", "");
    assert_eq!(preview_headers(&image, false), vec![("x-preview-kind", "image"), ("x-preview-truncated", "false")]);
}
