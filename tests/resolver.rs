use project_host::locator::{raw_path_of, resolve, resolve_decoded, Resolution};
use project_host::media::{classify, MediaType};

fn document(r: Resolution) -> String {
    match r {
        Resolution::Document(p) => p,
        Resolution::Unavailable => panic!("unexpected: unavailable"),
        Resolution::OutsideRoot => panic!("unexpected: outside root"),
    }
}

#[test]
fn empty_and_root_locators_name_the_default_document() {
    assert_eq!(document(resolve("")), "index.html");
    assert_eq!(document(resolve("/")), "index.html");
    assert_eq!(document(resolve("myapp://")), "index.html");
}

#[test]
fn project_root_names_its_default_document() {
    assert_eq!(document(resolve("myapp://demo/")), "demo/index.html");
    assert_eq!(document(resolve("myapp://demo/docs/")), "demo/docs/index.html");
}

#[test]
fn percent_escapes_are_decoded() {
    assert_eq!(document(resolve("a%20b.html")), "a b.html");
    assert_eq!(document(resolve("myapp://demo/%E4%B8%AD.png")), "demo/中.png");
}

#[test]
fn undecodable_paths_are_kept_as_written() {
    assert_eq!(document(resolve("%ff.png")), "%ff.png");
    assert_eq!(document(resolve("100%.txt")), "100%.txt");
}

#[test]
fn query_and_fragment_are_dropped() {
    assert_eq!(document(resolve("myapp://demo/app.js?v=3#top")), "demo/app.js");
    assert_eq!(document(resolve("myapp://demo/page.html#a?b")), "demo/page.html");
}

#[test]
fn leading_dot_slash_and_slashes_are_stripped() {
    assert_eq!(raw_path_of("./a/b.css"), "a/b.css");
    assert_eq!(raw_path_of("/././/x.js"), "x.js");
    assert_eq!(document(resolve("//./style.css")), "style.css");
}

#[test]
fn parent_segments_inside_the_root_are_folded() {
    assert_eq!(document(resolve("myapp://demo/a/../b.html")), "demo/b.html");
    assert_eq!(document(resolve("myapp://demo/./a//b.html")), "demo/a/b.html");
    assert_eq!(document(resolve("myapp://demo/a/..")), "demo/index.html");
}

#[test]
fn climbing_above_the_root_is_rejected() {
    assert!(matches!(resolve("../secret.txt"), Resolution::OutsideRoot));
    assert!(matches!(resolve("myapp://demo/../../etc/passwd"), Resolution::OutsideRoot));
    assert!(matches!(resolve("myapp://demo/%2e%2e/%2e%2e/etc/passwd"), Resolution::OutsideRoot));
    assert!(matches!(resolve_decoded("a/../../b"), Resolution::OutsideRoot));
}

#[test]
fn resolved_documents_never_hold_parent_segments() {
    let fragments = ["..", ".", "a", "b.html", "", "%2e%2e", "x%2F..", "c"];
    for a in fragments.iter() {
        for b in fragments.iter() {
            for c in fragments.iter() {
                let locator = format!("myapp://{}/{}/{}", a, b, c);
                if let Resolution::Document(p) = resolve(&locator) {
                    assert!(!p.starts_with('/'), "{}", p);
                    assert!(p.split('/').all(|s| !s.is_empty() && s != "." && s != ".."), "{}", p);
                }
            }
        }
    }
}

#[test]
fn backend_calls_are_unavailable() {
    assert!(matches!(resolve("myapp://demo/api/users"), Resolution::Unavailable));
    assert!(matches!(resolve("myapp://demo/session/42"), Resolution::Unavailable));
    assert!(matches!(resolve("myapp://demo/x/ai/chat"), Resolution::Unavailable));
    assert!(matches!(resolve("myapp://demo%2Fapi%2Fv1"), Resolution::Unavailable));
    assert!(matches!(resolve_decoded("a/api/../../.."), Resolution::Unavailable));
    assert_eq!(document(resolve("myapp://demo/apis/x.json")), "demo/apis/x.json");
}

#[test]
fn listed_extensions_have_their_media_types() {
    let table = [
        ("index.html", MediaType::Html, "text/html"),
        ("site.css", MediaType::Css, "text/css"),
        ("app.js", MediaType::Javascript, "application/javascript"),
        ("data.json", MediaType::Json, "application/json"),
        ("a.png", MediaType::Png, "image/png"),
        ("a.jpg", MediaType::Jpeg, "image/jpeg"),
        ("a.jpeg", MediaType::Jpeg, "image/jpeg"),
        ("a.svg", MediaType::Svg, "image/svg+xml"),
        ("a.gif", MediaType::Gif, "image/gif"),
        ("favicon.ico", MediaType::Icon, "image/x-icon"),
        ("f.woff", MediaType::Woff, "font/woff2"),
        ("f.woff2", MediaType::Woff, "font/woff2"),
        ("f.ttf", MediaType::Ttf, "font/ttf"),
    ];
    for (path, media, mime) in table.iter() {
        assert_eq!(classify(path), *media, "{}", path);
        assert_eq!(media.mime(), *mime);
    }
}

#[test]
fn other_extensions_are_binary() {
    assert_eq!(classify("archive.tar.gz"), MediaType::Binary);
    assert_eq!(classify("README"), MediaType::Binary);
    assert_eq!(classify(".html"), MediaType::Binary);
    assert_eq!(classify("dir.html/file"), MediaType::Binary);
    assert_eq!(classify("a."), MediaType::Binary);
    assert_eq!(MediaType::Binary.mime(), "application/octet-stream");
}

#[test]
fn extensions_are_matched_in_lower_case() {
    assert_eq!(classify("PHOTO.JPG"), MediaType::Jpeg);
    assert_eq!(classify("demo/Index.HtMl"), MediaType::Html);
}

#[test]
fn only_markup_is_rewritable() {
    assert!(MediaType::Html.is_rewritable());
    assert!(!MediaType::Css.is_rewritable());
    assert!(!MediaType::Json.is_rewritable());
    assert!(!MediaType::Binary.is_rewritable());
}
