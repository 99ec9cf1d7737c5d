use roost::error::AppError;
use roost::server::archive::{
    archive_kind, check_supported, extraction_target, is_tar, is_walked, size_method, stripped_name,
    total_size, ArchiveKind, Compression, SizeMethod,
};
use roost::server::files::{
    check_rename, containment, copy_name, encode, file_name, glob_match, mime_for, open_failure,
    parent, removal, resolve_below, sort_listing, stat_from_meta, Containment, DiskUsage, EntryFacts,
    Filesystem, Removal,
};
use roost::server::gitignore::compile;

fn fs() -> Filesystem {
    Filesystem::new("/data/one".into(), vec!["*.lock".into(), "/secret".into()])
}

#[test]
fn paths_stay_below_the_root() {
    let fs = fs();
    assert_eq!(fs.resolve("/a/b").unwrap(), "/data/one/a/b");
    assert_eq!(fs.resolve("a/b").unwrap(), "/data/one/a/b");
    assert_eq!(fs.resolve("").unwrap(), "/data/one/");
    assert!(fs.resolve("../other").is_err());
    assert!(fs.resolve("a/../../..").is_err());
    assert_eq!(fs.resolve_under("/data/one/sub", "x").unwrap(), "/data/one/sub/x");
    assert_eq!(resolve_below("/base", "x/y").unwrap(), "/base/x/y");
    assert!(resolve_below("/base", "..").is_err());
    assert_eq!(fs.rel("/data/one/a/b"), "a/b");
    assert_eq!(fs.root(), "/data/one");
}

#[test]
fn denied_files() {
    let fs = fs();
    assert!(fs.is_denied("/world.lock"));
    assert!(!fs.is_denied("/world.dat"));
    assert!(matches!(fs.check_denied("/world.lock"), Err(_)));
    assert!(fs.guarded("/world.lock").is_err());
    assert_eq!(fs.guarded("/world.dat").unwrap(), "/data/one/world.dat");
    assert!(fs.guarded_under("/", "a.lock").is_err());
    assert!(fs.is_denied("/sub/world.lock"));
    assert!(fs.is_denied("/secret"));
    assert!(!fs.is_denied("/sub/secret"));
}

#[test]
fn globs() {
    assert!(glob_match("*.lock", "a.lock"));
    assert!(!glob_match("*.lock", "a.locks"));
    assert!(glob_match("a?c", "abc"));
    assert!(!glob_match("a?c", "ac"));
    assert!(glob_match("*", "anything"));
    assert!(!glob_match("*", "a/b"));
    assert!(!glob_match("a/*.txt", "a/b/c.txt"));
    assert!(glob_match("a/*.txt", "a/c.txt"));
    assert!(glob_match("a/*/c", "a/b/c"));
    assert!(!glob_match("a/*/c", "a/b/b/c"));
    assert!(glob_match("a/**/c", "a/b/b/c"));
    assert!(glob_match("a**", "a/b"));
    assert!(!glob_match("a?b", "a/b"));
    assert!(!glob_match("", "a"));
}

#[test]
fn space_on_a_limited_disk() {
    let mut fs = fs();
    fs.set_disk_limit(100);
    assert_eq!(fs.max_disk(), 100);
    assert!(fs.has_space_for(10, 90));
    assert!(!fs.has_space_for(11, 90));
    assert!(fs.check_write(20, 10, 90).is_ok());
    assert!(fs.check_write(21, 10, 90).is_err());
    fs.set_disk_limit(0);
    assert!(fs.has_space_for(1 << 40, 90));
}

#[test]
fn owners() {
    let mut fs = fs();
    assert_eq!(fs.chown_ids(), None);
    fs.set_chown_ids(988, 987);
    assert_eq!(fs.chown_ids(), Some((988, 987)));
}

#[test]
fn names_of_files() {
    assert_eq!(file_name("/a/b.txt").as_deref(), Some("b.txt"));
    assert_eq!(file_name("/"), None);
    assert_eq!(parent("/a/b").as_deref(), Some("/a"));
    assert_eq!(parent("/"), None);
    assert_eq!(copy_name("a.txt", 0), "copy of a.txt");
    assert_eq!(copy_name("a.txt", 1), "copy of a.txt (1)");
    assert_eq!(mime_for("a.json"), "application/json");
}

fn entry(name: &str, directory: bool) -> roost::server::files::FileStat {
    stat_from_meta(
        name,
        EntryFacts {
            mode: 0o100644,
            is_dir: directory,
            is_symlink: false,
            changed: 1_700_000_000,
            modified: 1_700_000_000,
            size: 5,
        },
    )
}

#[test]
fn facts_about_files() {
    let s = entry("/data/one/a.txt", false);
    assert_eq!(s.name, "a.txt");
    assert_eq!(s.size, 5);
    assert!(s.file);
    assert!(!s.directory);
    assert_eq!(s.mode_bits, "644");
    assert_eq!(s.modified, "2023-11-14T22:13:20+00:00");
}

#[test]
fn directories_are_listed_first() {
    let list = sort_listing(vec![
        entry("/x/b", false),
        entry("/x/d", true),
        entry("/x/a", false),
        entry("/x/c", true),
    ]);
    let names: Vec<&str> = list.iter().map(|s| s.name.as_str()).collect();
    assert_eq!(names, vec!["c", "d", "a", "b"]);
}

#[test]
fn links_out_of_the_root() {
    assert!(matches!(containment(Some("/data/one/a"), "/data/one"), Containment::Contained));
    assert!(matches!(containment(Some("/etc"), "/data/one"), Containment::Escapes));
    assert!(matches!(containment(None, "/data/one"), Containment::TryParent));
}

#[test]
fn renames() {
    assert!(check_rename("/a", "/b", "b", false, false).is_ok());
    assert!(check_rename("/a", "/a/b", "a/b", false, true).is_err());
}

#[test]
fn failures_to_open() {
    assert_eq!(open_failure(true, true, false, "/a", "gone"), AppError::ServerNotFound);
    assert_eq!(
        open_failure(true, false, false, "/a", "gone"),
        AppError::BadRequest("cannot open /a: gone".into())
    );
}

#[test]
fn removals() {
    assert!(matches!(removal(false, false), Removal::Nothing));
    assert!(matches!(removal(true, true), Removal::Tree));
    assert!(matches!(removal(true, false), Removal::File));
}

#[test]
fn linked_files_are_counted_once() {
    let mut d = DiskUsage::new();
    d.add(1, 1, 1, 10);
    d.add(2, 1, 2, 100);
    d.add(2, 1, 2, 100);
    d.add(2, 2, 2, 5);
    assert_eq!(d.total(), 115);
}

#[test]
fn bytes_as_text() {
    assert_eq!(encode(b"\x00\xff"), "00ff");
}

#[test]
fn kinds_of_archives() {
    assert!(matches!(archive_kind("a.zip"), ArchiveKind::Zip));
    assert!(matches!(archive_kind("a.7z"), ArchiveKind::SevenZip));
    assert!(matches!(archive_kind("a.tar"), ArchiveKind::Tar));
    assert!(matches!(archive_kind("a.tar.gz"), ArchiveKind::CompressedTar(Compression::Gzip)));
    assert!(matches!(archive_kind("a.tgz"), ArchiveKind::CompressedTar(Compression::Gzip)));
    assert!(matches!(archive_kind("A.TAR.XZ"), ArchiveKind::CompressedTar(Compression::Xz)));
    assert!(matches!(archive_kind("a.txt.zst"), ArchiveKind::Single(Compression::Zstd)));
    assert!(matches!(archive_kind("a.rar"), ArchiveKind::Rar));
    assert!(matches!(archive_kind("a.txt"), ArchiveKind::Unknown));
    assert!(check_supported("a.rar").is_err());
    assert!(check_supported("a.txt").is_err());
    assert!(check_supported("a.zip").is_ok());
    assert_eq!(stripped_name("a.txt.gz", Compression::Gzip), "a.txt");
}

#[test]
fn sizes_of_archives() {
    assert!(matches!(size_method("a.zip"), SizeMethod::Zip));
    assert!(matches!(size_method("a.tar"), SizeMethod::Tar));
    assert_eq!(total_size(&[1, 2, 3]), 6);
    assert_eq!(total_size(&[u64::MAX, 2]), u64::MAX);
    let mut block = vec![0u8; 512];
    assert!(!is_tar(&block));
    block[257..262].copy_from_slice(b"ustar");
    assert!(is_tar(&block));
}

#[test]
fn entries_stay_below_the_target() {
    assert_eq!(extraction_target("/data/one", "a/b").as_deref(), Some("/data/one/a/b"));
    assert_eq!(extraction_target("/data/one", "../x"), None);
}

#[test]
fn ignored_files_are_not_walked() {
    let patterns = compile("*.log\n");
    assert!(is_walked(&patterns, "a.txt"));
    assert!(!is_walked(&patterns, "a.log"));
}

#[test]
fn paths_relative_to_the_root() {
    let fs = fs();
    assert_eq!(fs.rel("/data/one/a//b/./"), "a//b");
    assert_eq!(fs.rel("/data/one"), "");
    assert_eq!(fs.rel("/data/other"), "/data/other");
    let inner = Filesystem::new("./data".into(), vec![]);
    assert_eq!(inner.rel("./data/x"), "x");
    assert_eq!(inner.rel("data/x"), "data/x");
    let none = Filesystem::new("".into(), vec![]);
    assert_eq!(none.rel("a/b/"), "a/b");
    assert_eq!(none.rel("/"), "/");
    assert_eq!(none.rel("./"), ".");
    for (root, path) in [
        ("/data/one", "/data/one/a//b/./"),
        ("./data", "./data/x"),
        ("", "a/b/"),
        ("", "//"),
        ("", "./."),
        ("", "./a/."),
        ("/", "/a/b"),
        ("a", "a/./b"),
    ] {
        let fs = Filesystem::new(root.into(), vec![]);
        let expected = std::path::Path::new(path).strip_prefix(root).unwrap();
        assert_eq!(fs.rel(path), expected.to_str().unwrap(), "{root} {path}");
    }
}

#[test]
fn joined_paths_are_taken_apart_again() {
    for root in ["/data/one", "/data/one/", "/", "data", "./data", ""] {
        let fs = Filesystem::new(root.into(), vec![]);
        let joined = roost::paths::join_path(root, "a/b.txt");
        assert_eq!(fs.rel(&joined), "a/b.txt", "{root}");
    }
}

#[test]
fn only_the_new_denylist_decides() {
    let mut fs = fs();
    assert_eq!(fs.denylist().len(), 2);
    fs.set_denylist(vec!["*.dat".into()]);
    assert!(fs.check_denied("/world.lock").is_ok());
    assert!(fs.check_denied("/secret").is_ok());
    assert!(fs.check_denied("/world.dat").is_err());
    let fresh = Filesystem::new("/data/one".into(), vec!["*.dat".into()]);
    for path in ["/world.lock", "/secret", "/world.dat", "/sub/a.dat", ""] {
        assert_eq!(fs.check_denied(path), fresh.check_denied(path), "{path}");
    }
    fs.set_denylist(vec![]);
    assert!(fs.check_denied("/world.dat").is_ok());
}

#[test]
fn archives_need_room() {
    let mut fs = fs();
    assert!(fs.check_unpack(u64::MAX, 0).is_ok());
    fs.set_disk_limit(100);
    assert!(fs.check_unpack(40, 60).is_ok());
    assert_eq!(
        fs.check_unpack(41, 60),
        Err(AppError::BadRequest("filesystem: not enough disk space".into()))
    );
    assert!(fs.check_unpack(u64::MAX, 0).is_err());
}
