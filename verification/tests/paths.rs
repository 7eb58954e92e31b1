use mariadb_kb_crawler::fs_path::{extension_of, has_extension, path_join};
use mariadb_kb_crawler::paths::{get_url_suffix, page_path, path_to_url, url_to_path};
use mariadb_kb_crawler::url_to_path as server;

#[test]
fn crawler_suffix_cuts_at_fragment_first() {
    assert_eq!(get_url_suffix("https://mariadb.com/kb/en/select/#x?y"), "en/select");
    assert_eq!(get_url_suffix("https://mariadb.com/kb/en/select/?y#x"), "en/select/?y");
    assert_eq!(get_url_suffix("/kb/en/a?b"), "en/a");
}

#[test]
fn crawler_url_to_path_adds_index_html() {
    assert_eq!(url_to_path("/archive", "https://mariadb.com/kb/en/select/#x"), "/archive/en/select/index.html");
    assert_eq!(url_to_path("root/", "https://mariadb.com/kb/en/a.png"), "root/en/a.png");
    assert_eq!(url_to_path("root", "https://mariadb.com/kb/"), "root/index.html");
    assert_eq!(page_path("en/.hidden"), "en/.hidden/index.html");
}

#[test]
fn crawler_path_to_url_strips_root_and_index() {
    assert_eq!(path_to_url("../archive/en/select/index.html", "../archive"), "https://mariadb.com/kb/en/select/");
    assert_eq!(path_to_url("C:\\arch\\en\\x\\index.html", "C:\\arch"), "https://mariadb.com/kb/en/x/");
    assert_eq!(path_to_url("a/b", ""), "https://mariadb.com/kba/b");
}

#[test]
fn server_suffix_cuts_at_query_first() {
    assert_eq!(server::get_url_suffix("/kb/en/select/?list=1"), "en/select/");
    assert_eq!(server::get_url_suffix("https://mariadb.com/kb/en/a#b?c"), "en/a#b");
    assert_eq!(server::get_url_suffix("kb/kb/x"), "x");
    assert_eq!(server::url_to_path("/kb/en/"), "en/");
}

#[test]
fn server_index_path() {
    assert_eq!(server::url_to_index_path("/kb/en/select/?list=1"), "en/select/index.html");
    assert_eq!(server::url_to_index_path("en/style.css"), "en/style.css");
    assert_eq!(server::url_to_index_path(""), "index.html");
}

#[test]
fn path_rules_follow_std() {
    assert!(!has_extension(".bashrc"));
    assert!(has_extension("a/b.c/"));
    assert!(has_extension("a/b.c/."));
    assert!(!has_extension("a/.."));
    assert!(!has_extension("."));
    assert!(has_extension("x."));
    assert_eq!(extension_of("a/b.tar.gz"), Some("gz"));
    assert_eq!(extension_of("a/x."), Some(""));
    assert_eq!(extension_of("a/.cfg"), None);
    assert_eq!(path_join("a", "/b"), "/b");
    assert_eq!(path_join("", "b"), "b");
    assert_eq!(path_join("a/", "b"), "a/b");
    assert_eq!(path_join("a", "b"), "a/b");
    for p in ["a/b.c/", ".bashrc", "x.", "a/..", "dir/file.txt", "a//b.x//"] {
        assert_eq!(has_extension(p), std::path::Path::new(p).extension().is_some(), "{p}");
        assert_eq!(
            extension_of(p).map(str::to_owned),
            std::path::Path::new(p).extension().map(|e| e.to_string_lossy().to_string()),
            "{p}"
        );
    }
    for (b, p) in [("a", "b"), ("a/", "b"), ("", "b"), ("a", "/b")] {
        assert_eq!(path_join(b, p), std::path::PathBuf::from(b).join(p).to_string_lossy(), "{b} {p}");
    }
}

#[test]
fn server_finds_the_crawled_page() {
    for raw in ["en/select/#x", "/kb/en/a.png?v=1", "https://mariadb.com/kb/en/b/", ""] {
        let url = mariadb_kb_crawler::scrape::format_url(raw);
        assert_eq!(
            url_to_path("../archive", &url),
            path_join("../archive", &server::url_to_index_path(&url)),
            "{raw}"
        );
    }
}

#[test]
fn server_finds_the_crawled_file_as_a_path() {
    for tail in ["en/select//", "en/a.png///", "en/b", "", "en/c/"] {
        let url = format!("https://mariadb.com/kb/{tail}");
        let crawled = url_to_path("../archive", &url);
        let served = path_join("../archive", &server::url_to_index_path(&url));
        assert_eq!(std::path::Path::new(&crawled), std::path::Path::new(&served), "{tail}");
    }
    assert_ne!(
        url_to_path("../archive", "https://mariadb.com/kb/en/select//"),
        path_join("../archive", &server::url_to_index_path("https://mariadb.com/kb/en/select//"))
    );
}

#[test]
fn stored_page_names_its_url() {
    for url in ["https://mariadb.com/kb/en/select/", "/kb/en/a#x", "en/b/c?q"] {
        let path = url_to_path("../archive", url);
        let back = path_to_url(&path, "../archive");
        assert_eq!(back, format!("https://mariadb.com/kb/{}/", get_url_suffix(url)));
        assert_eq!(
            mariadb_kb_crawler::scrape::format_url(&back),
            format!("https://mariadb.com/kb/{}", get_url_suffix(url))
        );
    }
}
