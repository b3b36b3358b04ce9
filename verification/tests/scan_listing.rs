use glry::scan::{
    is_animated_path, is_image_ext, is_pdf_path, listing, timestamp_at, Entry, FileMeta,
    ImageEntry, RawEntry, Timestamp,
};

fn ts(secs: i64) -> Timestamp {
    Timestamp { secs, nanos: 0 }
}

fn dir(path: &str, name: &str) -> RawEntry {
    RawEntry {
        path: path.to_string(),
        name: Some(name.to_string()),
        is_dir: Some(true),
        file: None,
    }
}

fn file(path: &str, name: &str, size: u64) -> RawEntry {
    RawEntry {
        path: path.to_string(),
        name: Some(name.to_string()),
        is_dir: Some(false),
        file: Some(FileMeta { is_file: true, size, modified: ts(100) }),
    }
}

fn names(es: &[Entry]) -> Vec<String> {
    es.iter().map(|e| e.display_name().to_string()).collect()
}

#[test]
fn display_names() {
    assert_eq!(Entry::Parent("/a".to_string()).display_name(), "..");
    let d = Entry::SubDir { path: "/a/b".to_string(), name: "b".to_string() };
    assert_eq!(d.display_name(), "b");
    let i = Entry::Image(ImageEntry {
        path: "/a/c.png".to_string(),
        name: "c.png".to_string(),
        size: 1,
        modified: ts(0),
    });
    assert_eq!(i.display_name(), "c.png");
    assert!(i.is_image());
    assert!(!d.is_image());
}

#[test]
fn image_extensions() {
    assert!(is_image_ext("/x/photo.JPG"));
    assert!(is_image_ext("a.jpeg"));
    assert!(is_image_ext("scan.PdF"));
    assert!(is_image_ext("pic.ff"));
    assert!(!is_image_ext("notes.txt"));
    assert!(!is_image_ext("README"));
    assert!(!is_image_ext(".png"));
    assert!(!is_image_ext("archive.png.zip"));
}

#[test]
fn pdf_and_animated_paths() {
    assert!(is_pdf_path("/docs/Paper.PDF"));
    assert!(!is_pdf_path("/docs/paper.png"));
    assert!(is_animated_path("/a/cat.GIF"));
    assert!(!is_animated_path("/a/cat.png"));
    assert!(!is_animated_path("/a/gif"));
}

#[test]
fn parents_and_extensions() {
    assert!(matches!(&listing("/a/b", vec![])[..], [Entry::Parent(p)] if p == "/a"));
    assert!(matches!(&listing("/a", vec![])[..], [Entry::Parent(p)] if p == "/"));
    assert!(listing("/", vec![]).is_empty());
    assert!(is_image_ext("/a/b.tar.PNG"));
    assert!(!is_image_ext("/a/b.png.gz"));
    assert!(!is_image_ext("/a/.png"));
    assert!(!is_image_ext("/a/png"));
}

#[test]
fn listing_orders_parent_dirs_images() {
    let raws = vec![
        file("/p/b.png", "b.png", 2),
        dir("/p/Zeta", "Zeta"),
        file("/p/A.jpg", "A.jpg", 3),
        dir("/p/alpha", "alpha"),
        file("/p/notes.txt", "notes.txt", 4),
    ];
    let out = listing("/p", raws);
    assert_eq!(names(&out), vec!["..", "alpha", "Zeta", "A.jpg", "b.png"]);
    match &out[0] {
        Entry::Parent(p) => assert_eq!(p, "/"),
        other => panic!("{other:?}"),
    }
    match &out[3] {
        Entry::Image(img) => {
            assert_eq!(img.path, "/p/A.jpg");
            assert_eq!(img.size, 3);
            assert_eq!(img.modified, ts(100));
        }
        other => panic!("{other:?}"),
    }
}

#[test]
fn listing_of_root_has_no_parent() {
    let out = listing("/", vec![dir("/etc", "etc")]);
    assert_eq!(names(&out), vec!["etc"]);
}

#[test]
fn listing_skips_hidden_unreadable_and_odd_entries() {
    let mut not_file = file("/p/dev.png", "dev.png", 0);
    not_file.file = Some(FileMeta { is_file: false, size: 0, modified: ts(0) });
    let mut no_meta = file("/p/gone.png", "gone.png", 0);
    no_meta.file = None;
    let mut no_lmeta = file("/p/x.png", "x.png", 0);
    no_lmeta.is_dir = None;
    let mut bad_name = file("/p/\u{fffd}.png", "", 0);
    bad_name.name = None;
    let raws = vec![
        dir("/p/.git", ".git"),
        file("/p/.hidden.png", ".hidden.png", 1),
        not_file,
        no_meta,
        no_lmeta,
        bad_name,
        file("/p/ok.png", "ok.png", 1),
    ];
    let out = listing("/p", raws);
    assert_eq!(names(&out), vec!["..", "ok.png"]);
}

#[test]
fn listing_sort_is_case_insensitive_and_stable() {
    let raws = vec![
        file("/p/b.png", "b.png", 1),
        file("/p/B.png", "B.png", 2),
        file("/p/a.png", "a.png", 3),
        file("/p/Ä.png", "Ä.png", 4),
        file("/p/ä.png", "ä.png", 5),
    ];
    let out = listing("/p", raws);
    // Equal lower-cased names keep their read order.
    assert_eq!(names(&out), vec!["..", "a.png", "b.png", "B.png", "Ä.png", "ä.png"]);
}

#[test]
fn timestamps_around_the_epoch() {
    assert_eq!(timestamp_at(false, 5, 250), Timestamp { secs: 5, nanos: 250 });
    assert_eq!(timestamp_at(true, 5, 0), Timestamp { secs: -5, nanos: 0 });
    assert_eq!(timestamp_at(true, 5, 250), Timestamp { secs: -6, nanos: 999_999_750 });
    assert_eq!(timestamp_at(false, u64::MAX, 1), Timestamp { secs: i64::MAX, nanos: 999_999_999 });
    assert_eq!(timestamp_at(true, u64::MAX, 1), Timestamp { secs: i64::MIN, nanos: 0 });
}
