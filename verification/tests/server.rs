use mariadb_kb_crawler::kb_urls::{kb_slug_urls, missing_kb_urls, KbItem};
use mariadb_kb_crawler::server::{content_type_from_extension, list_entries, plan_kb_request, KbResponse, ReqQuery, NOT_FOUND};

#[test]
fn content_types() {
    assert_eq!(content_type_from_extension("html"), Some("text/html; charset=utf-8"));
    assert_eq!(content_type_from_extension("css"), Some("text/css; charset=utf-8"));
    assert_eq!(content_type_from_extension("png"), Some("image/png; charset=utf-8"));
    assert_eq!(content_type_from_extension("js"), None);
}

#[test]
fn request_plans() {
    let none = ReqQuery { list: None };
    match plan_kb_request("../archive", "en/select/", &none) {
        Ok(KbResponse::File { path, content_type }) => {
            assert_eq!(path, "../archive/en/select/index.html");
            assert_eq!(content_type, "text/html; charset=utf-8");
        }
        other => panic!("{other:?}"),
    }
    match plan_kb_request("src", "en/style.css?v=2", &none) {
        Ok(KbResponse::File { path, content_type }) => {
            assert_eq!(path, "src/en/style.css");
            assert_eq!(content_type, "text/css; charset=utf-8");
        }
        other => panic!("{other:?}"),
    }
    assert!(matches!(plan_kb_request("src", "en/app.js", &none), Err(NOT_FOUND)));
    let list = ReqQuery { list: Some(String::new()) };
    match plan_kb_request("src", "/kb/en/", &list) {
        Ok(KbResponse::List { dir }) => assert_eq!(dir, "src/en/"),
        other => panic!("{other:?}"),
    }
}

#[test]
fn list_is_comma_joined() {
    assert_eq!(list_entries(&vec!["a".to_string(), "b".to_string()]), "a,b");
    assert_eq!(list_entries(&vec![]), "");
}

#[test]
fn slug_urls_and_diff() {
    let rows = vec![
        KbItem { url: "https://mariadb.com/kb/en/a/".to_string(), slugs: "b;c".to_string() },
        KbItem { url: "https://mariadb.com/kb/en/d/".to_string(), slugs: String::new() },
    ];
    let known = kb_slug_urls(&rows);
    assert!(known.contains("https://mariadb.com/kb/en/a/"));
    assert!(known.contains("https://mariadb.com/kb/en/b/"));
    assert!(known.contains("https://mariadb.com/kb/en/c/"));
    assert!(known.contains("https://mariadb.com/kb/en/d/"));
    assert!(known.contains("https://mariadb.com/kb/en//"));
    assert_eq!(known.len(), 5);
    assert_eq!(
        missing_kb_urls(&known, " a, e ,c+d,f\n"),
        "https://mariadb.com/kb/en/e/\nhttps://mariadb.com/kb/en/f/"
    );
    assert_eq!(missing_kb_urls(&known, "b,c"), "");
}
