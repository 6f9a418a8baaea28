use project_host::media::MediaType;
use project_host::overlay::{rewrite, OVERLAY};
use project_host::serve::{begin, finish, ReadOutcome, Step};
use project_host::wire::{parse_request_target, wire_response};

fn count(hay: &[u8], needle: &[u8]) -> usize {
    hay.windows(needle.len()).filter(|w| *w == needle).count()
}

fn read_path(step: Step) -> String {
    match step {
        Step::Read(p) => p,
        Step::Reply(r) => panic!("unexpected reply with status {}", r.status),
    }
}

#[test]
fn rewrite_leaves_other_media_types_alone() {
    let css = b"</head>body{}".to_vec();
    assert_eq!(rewrite(css.clone(), MediaType::Css), css);
    assert_eq!(rewrite(css.clone(), MediaType::Binary), css);
}

#[test]
fn rewrite_leaves_markup_without_head_alone() {
    let html = b"<html><body>hi</body></html>".to_vec();
    assert_eq!(rewrite(html.clone(), MediaType::Html), html);
    let upper = b"<html><HEAD></HEAD></html>".to_vec();
    assert_eq!(rewrite(upper.clone(), MediaType::Html), upper);
}

#[test]
fn rewrite_leaves_invalid_text_alone() {
    let bad = vec![b'<', 0xff, b'>', b'<', b'/', b'h', b'e', b'a', b'd', b'>'];
    assert_eq!(rewrite(bad.clone(), MediaType::Html), bad);
}

#[test]
fn rewrite_inserts_the_overlay_once_before_the_first_head_end() {
    let html = b"<html><head><title>t</title></head><body></head></body></html>".to_vec();
    let out = rewrite(html, MediaType::Html);
    let mut expected = b"<html><head><title>t</title>".to_vec();
    expected.extend_from_slice(OVERLAY.as_bytes());
    expected.push(b'\n');
    expected.extend_from_slice(b"</head><body></head></body></html>");
    assert_eq!(out, expected);
    assert_eq!(count(&out, OVERLAY.as_bytes()), 1);
}

#[test]
fn index_with_head_is_served_with_the_overlay() {
    let path = read_path(begin("/"));
    assert_eq!(path, "index.html");
    let page = "<html><head><meta charset=\"utf-8\"></head><body>首页</body></html>";
    let r = finish(&path, ReadOutcome::Contents(page.as_bytes().to_vec()));
    assert_eq!(r.status, 200);
    assert_eq!(r.media, Some(MediaType::Html));
    assert_eq!(r.media.unwrap().mime(), "text/html");
    let body = String::from_utf8(r.body).unwrap();
    assert_eq!(body.matches(OVERLAY).count(), 1);
    assert!(body.contains(&format!("{}\n</head>", OVERLAY)));
    assert_eq!(body.replacen(&format!("{}\n", OVERLAY), "", 1), page);
}

#[test]
fn missing_file_is_a_404_naming_the_path() {
    let path = read_path(begin("/missing.png"));
    assert_eq!(path, "missing.png");
    let r = finish(&path, ReadOutcome::Missing);
    assert_eq!(r.status, 404);
    assert_eq!(r.media, None);
    let body = String::from_utf8(r.body).unwrap();
    assert!(body.contains("missing.png"));
    assert_eq!(body, "文件不存在: missing.png");
}

#[test]
fn read_failure_is_a_500_with_the_detail() {
    let r = finish("demo/a.css", ReadOutcome::Failed("permission denied".to_string()));
    assert_eq!(r.status, 500);
    assert_eq!(String::from_utf8(r.body).unwrap(), "读取文件失败: permission denied");
}

#[test]
fn served_css_is_classified_and_unchanged() {
    let r = finish("demo/site.css", ReadOutcome::Contents(b"</head>".to_vec()));
    assert_eq!(r.status, 200);
    assert_eq!(r.media, Some(MediaType::Css));
    assert_eq!(r.body, b"</head>".to_vec());
}

#[test]
fn backend_call_gets_the_json_404_without_a_read() {
    for locator in ["myapp://demo/api/x", "myapp://demo/session/1", "myapp://demo/v/ai/q"] {
        match begin(locator) {
            Step::Reply(r) => {
                assert_eq!(r.status, 404);
                assert_eq!(r.media, Some(MediaType::Json));
                assert_eq!(
                    String::from_utf8(r.body).unwrap(),
                    "{\"error\":\"API endpoint not available in desktop app\"}"
                );
            }
            Step::Read(p) => panic!("unexpected read of {}", p),
        }
    }
}

#[test]
fn traversal_gets_a_404_that_hides_the_path() {
    match begin("myapp://demo/../../etc/passwd") {
        Step::Reply(r) => {
            assert_eq!(r.status, 404);
            let body = String::from_utf8(r.body).unwrap();
            assert!(!body.contains("passwd"));
        }
        Step::Read(p) => panic!("unexpected read of {}", p),
    }
}

#[test]
fn request_line_target_is_read_for_get_only() {
    assert_eq!(
        parse_request_target("GET /index.html HTTP/1.1\r\nHost: x\r\n\r\n"),
        Some("/index.html".to_string())
    );
    assert_eq!(parse_request_target("POST /index.html HTTP/1.1\r\n"), None);
    assert_eq!(parse_request_target("GET /index.html"), None);
    assert_eq!(parse_request_target(""), None);
    assert_eq!(parse_request_target("GET\n /a b"), None);
}

#[test]
fn served_document_goes_out_with_headers() {
    let r = finish("a.css", ReadOutcome::Contents(b"p{}".to_vec()));
    let bytes = wire_response(&r);
    assert_eq!(
        String::from_utf8(bytes).unwrap(),
        "HTTP/1.1 200 OK\r\nContent-Type: text/css\r\nContent-Length: 3\r\nAccess-Control-Allow-Origin: *\r\n\r\np{}"
    );
}

#[test]
fn failures_go_out_as_a_bare_status_line() {
    let r = finish("x.png", ReadOutcome::Missing);
    let bytes = wire_response(&r);
    assert_eq!(String::from_utf8(bytes).unwrap(), "HTTP/1.1 404 Not Found\r\n\r\n文件不存在: x.png");
    let r = finish("x.png", ReadOutcome::Failed("eio".to_string()));
    let text = String::from_utf8(wire_response(&r)).unwrap();
    assert!(text.starts_with("HTTP/1.1 500 Internal Server Error\r\n\r\n"));
}

#[test]
fn content_length_counts_bytes() {
    let body = vec![7u8; 1234];
    let r = finish("blob.bin", ReadOutcome::Contents(body));
    let bytes = wire_response(&r);
    let text = String::from_utf8_lossy(&bytes);
    assert!(text.contains("Content-Type: application/octet-stream\r\n"));
    assert!(text.contains("Content-Length: 1234\r\n"));
}
