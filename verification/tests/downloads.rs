use hotline_protocol::downloads::{path_key_text, ActiveDownloads, DownloadGuard};

#[test]
fn a_path_is_claimed_by_one_download_at_a_time() {
    let mut active = ActiveDownloads::new();
    let path = "/tmp/file.part".to_string();
    let guard = DownloadGuard::acquire(&mut active, path.clone()).unwrap();
    assert_eq!(guard.path_str(), "/tmp/file.part");
    assert!(active.contains(&path));
    assert_eq!(
        DownloadGuard::acquire(&mut active, path.clone()).err().unwrap(),
        "This file is already downloading"
    );
    let other = DownloadGuard::acquire(&mut active, "/tmp/other.part".to_string()).unwrap();
    guard.release(&mut active);
    assert!(!active.contains(&path));
    assert!(active.contains(&"/tmp/other.part".to_string()));
    let again = DownloadGuard::acquire(&mut active, path.clone()).unwrap();
    again.release(&mut active);
    other.release(&mut active);
    assert!(!active.contains(&path));
}

#[test]
fn active_set_operations() {
    let mut active = ActiveDownloads::new();
    assert!(active.try_insert("a".to_string()));
    assert!(!active.try_insert("a".to_string()));
    assert!(active.try_insert("b".to_string()));
    active.remove(&"a".to_string());
    assert!(!active.contains(&"a".to_string()));
    assert!(active.contains(&"b".to_string()));
    active.remove(&"zzz".to_string());
    assert!(active.contains(&"b".to_string()));
}

#[test]
fn paths_compare_by_their_components() {
    assert_eq!(path_key_text("a/b"), "a/b");
    assert_eq!(path_key_text("a//b"), "a/b");
    assert_eq!(path_key_text("a/./b"), "a/b");
    assert_eq!(path_key_text("a/b/"), "a/b");
    assert_eq!(path_key_text("a/b/."), "a/b");
    assert_eq!(path_key_text("./a/b"), "./a/b");
    assert_eq!(path_key_text("//a"), "/a");
    assert_eq!(path_key_text("/./a"), "/a");
    assert_eq!(path_key_text("/"), "/");
    assert_eq!(path_key_text("."), ".");
    assert_eq!(path_key_text("./"), ".");
    assert_eq!(path_key_text(""), "");
    assert_eq!(path_key_text("a/../b"), "a/../b");
    for (a, b) in [("a/b", "a//b"), ("a/./b", "a/b/"), ("/x/y", "//x/./y/"), (".", "./")] {
        assert_eq!(std::path::Path::new(a) == std::path::Path::new(b), path_key_text(a) == path_key_text(b));
    }
    for (a, b) in [("./a", "a"), ("/a", "a"), ("a/..", "a")] {
        assert_eq!(std::path::Path::new(a) == std::path::Path::new(b), path_key_text(a) == path_key_text(b));
    }
}

#[test]
fn the_same_path_written_differently_is_one_claim() {
    let mut active = ActiveDownloads::new();
    let guard = DownloadGuard::acquire(&mut active, "/tmp/dir/file.part".to_string()).unwrap();
    assert_eq!(
        DownloadGuard::acquire(&mut active, "/tmp//dir/./file.part".to_string()).err().unwrap(),
        "This file is already downloading"
    );
    guard.release(&mut active);
    assert!(!active.contains(&"/tmp//dir/file.part".to_string()));
}
