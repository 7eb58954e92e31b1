use mariadb_kb_crawler::redirect::{create, redirect_target, redirected_index_path, redirected_path};

#[test]
fn create_names_the_target() {
    assert_eq!(create("https://mariadb.com/kb/en/b"), "Redirect https://mariadb.com/kb/en/b");
}

#[test]
fn redirect_reads_back() {
    let url = "https://mariadb.com/kb/en/b";
    let file = create(url);
    assert_eq!(redirect_target(file.as_bytes()), Some(url));
    assert_eq!(redirect_target(b"Redirect Redirect x"), Some("x"));
    assert_eq!(redirect_target(b"Redirectx"), Some("Redirectx"));
    assert_eq!(redirect_target(b"<html>"), None);
    assert_eq!(redirect_target(&[0x52, 0xff, 0x00]), None);
}

#[test]
fn redirect_paths() {
    assert_eq!(
        redirected_path("root", b"Redirect https://mariadb.com/kb/en/b").as_deref(),
        Some("root/en/b/index.html")
    );
    assert_eq!(
        redirected_index_path("../archive", b"Redirect https://mariadb.com/kb/en/b").as_deref(),
        Some("../archive/en/b/index.html")
    );
    assert_eq!(redirected_path("root", b"plain page"), None);
}
