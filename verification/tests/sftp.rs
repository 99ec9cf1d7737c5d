use roost::config::Config;
use roost::sftp::listing::{attrs_of, epoch_parts, longname_of, Date, Directory, FileFacts, SftpEntry};
use roost::sftp::server::{
    auth_request, bind_address, check_op, data_dir, host_key_path, log_activity, open_event,
    open_plan, real_path, resolve, valid_username, validate, AuthAnswer, Authed, Handles, OpenRequest,
    SftpCode, SftpOp, PERM_CREATE, PERM_DELETE, PERM_READ, PERM_READ_CONTENT, PERM_UPDATE,
};

fn authed(permissions: &[&str]) -> Authed {
    Authed {
        server: "936da01f-9abd-4d9d-80c7-02af85c822a8".into(),
        user: "user-1".into(),
        permissions: permissions.iter().map(|p| p.to_string()).collect(),
    }
}

#[test]
fn usernames_name_a_server() {
    assert!(valid_username("admin.1a2b3c4d"));
    assert!(!valid_username("admin"));
    assert!(!valid_username("admin.xyz"));
    assert!(auth_request("password", "admin", "p", "203.0.113.9").is_none());
    let q = auth_request("password", "admin.1a2b3c4d", "p", "203.0.113.9").unwrap();
    assert_eq!(q.kind, "password");
    assert_eq!(q.username, "admin.1a2b3c4d");
    assert_eq!(q.password, "p");
    assert_eq!(q.ip, "203.0.113.9");
}

#[test]
fn answers_without_a_server_are_refused() {
    let answer = AuthAnswer { server: None, user: "u".into(), permissions: vec![] };
    assert!(validate(Some(answer)).is_none());
    assert!(validate(None).is_none());
    let answer = AuthAnswer {
        server: Some("936da01f-9abd-4d9d-80c7-02af85c822a8".into()),
        user: "u".into(),
        permissions: vec!["file.read".into()],
    };
    let a = validate(Some(answer)).unwrap();
    assert!(a.can(PERM_READ));
    assert!(!a.can(PERM_UPDATE));
}

#[test]
fn permissions_decide() {
    let all = [PERM_READ, PERM_READ_CONTENT, PERM_CREATE, PERM_UPDATE, PERM_DELETE];
    let cases = [
        (SftpOp::Read, PERM_READ_CONTENT),
        (SftpOp::Remove, PERM_DELETE),
        (SftpOp::RemoveDir, PERM_DELETE),
        (SftpOp::MakeDir, PERM_CREATE),
        (SftpOp::Rename, PERM_UPDATE),
        (SftpOp::OpenDir, PERM_READ),
    ];
    for (op, perm) in cases {
        assert!(check_op(&authed(&all), false, op).is_ok(), "{op:?}");
        let rest: Vec<&str> = all.iter().copied().filter(|p| *p != perm).collect();
        let r = check_op(&authed(&rest), false, op);
        assert!(matches!(r, Err(f) if matches!(f.code, SftpCode::PermissionDenied)), "{op:?}");
    }
    assert!(check_op(&authed(&["*"]), false, SftpOp::Remove).is_ok());
    assert!(check_op(&authed(&all), true, SftpOp::Remove).is_err());
    assert!(check_op(&authed(&all), true, SftpOp::OpenDir).is_ok());
}

#[test]
fn paths_of_clients() {
    assert_eq!(resolve("/data/one", "/a/b").unwrap(), "/data/one/a/b");
    assert!(resolve("/data/one", "../x").is_err());
    assert_eq!(real_path("/data/one", "a/./b").unwrap(), "/a/b");
    assert_eq!(host_key_path("/data"), "/data/.sftp/id_ed25519");
    assert_eq!(bind_address("0.0.0.0", 2022), "0.0.0.0:2022");
    let mut daemon = Config::default();
    daemon.system.data = "/volumes".into();
    assert_eq!(
        data_dir(&authed(&[]), &daemon, "/fallback"),
        "/volumes/936da01f-9abd-4d9d-80c7-02af85c822a8"
    );
}

#[test]
fn opening_files() {
    let q = OpenRequest { read: false, write: true, append: false, create: true, truncate: true, exclude: false };
    let p = open_plan(q);
    assert!(p.write && p.create && p.truncate && !p.read && !p.append && !p.create_new);
    let q = OpenRequest { read: false, write: true, append: true, create: true, truncate: false, exclude: true };
    let p = open_plan(q);
    assert!(p.append && p.create_new);
    assert_eq!(open_event(true), "server:sftp.create");
    assert_eq!(open_event(false), "server:sftp.write");
}

#[test]
fn activity_of_clients() {
    let a = log_activity(&authed(&[]), "server:sftp.write", "/a.txt", "now".into());
    assert_eq!(a.metadata.compact_text(), r#"{"files":["/a.txt"]}"#);
    assert_eq!(a.user.as_deref(), Some("user-1"));
    assert_eq!(a.event, "server:sftp.write");
}

#[test]
fn handles_are_given_once() {
    let mut h: Handles<&str> = Handles::new();
    let a = h.insert_handle("a").unwrap();
    let b = h.insert_handle("b").unwrap();
    assert_ne!(a, b);
    assert!(matches!(h.get(&a), Ok(x) if *x == "a"));
    assert!(matches!(h.take_handle(&a), Ok("a")));
    assert!(h.get(&a).is_err());
    assert!(h.take_handle("no").is_err());
    assert!(matches!(h.get(&b), Ok(x) if *x == "b"));
}

fn parts(d: Date) -> (i64, i64, i64, i64, i64) {
    (d.year, d.month, d.day, d.hour, d.minute)
}

#[test]
fn dates() {
    assert_eq!(parts(epoch_parts(0)), (1970, 1, 1, 0, 0));
    assert_eq!(parts(epoch_parts(951_782_400)), (2000, 2, 29, 0, 0));
    assert_eq!(parts(epoch_parts(1_700_000_000)), (2023, 11, 14, 22, 13));
}

fn facts() -> FileFacts {
    FileFacts { mode: 0o100644, nlink: 1, uid: 988, gid: 987, size: 1234, atime: 1_700_000_000, mtime: 1_700_000_000 }
}

#[test]
fn long_names() {
    let l = longname_of(&facts(), "a.txt", 1_700_000_100);
    assert!(l.starts_with("-rw-r--r--"), "{l}");
    assert!(l.ends_with(" a.txt"), "{l}");
    assert!(l.contains("1234"), "{l}");
    assert!(l.contains("Nov 14 22:13"), "{l}");
    let l = longname_of(&FileFacts { mode: 0o040755, ..facts() }, "dir", 1_900_000_000);
    assert!(l.starts_with("drwxr-xr-x"), "{l}");
    assert!(l.contains("2023"), "{l}");
    let a = attrs_of(&facts());
    assert_eq!((a.size, a.uid, a.gid, a.permissions), (1234, 988, 987, 0o100644));
    assert_eq!(a.mtime, 1_700_000_000);
}

#[test]
fn directories_end() {
    let entries: Vec<SftpEntry> = (0..3)
        .map(|i| SftpEntry { filename: format!("f{i}"), longname: format!("l{i}"), attrs: attrs_of(&facts()) })
        .collect();
    let mut d = Directory::new(entries);
    let mut seen = vec![];
    loop {
        match d.readdir() {
            Ok(some) => {
                assert!(!some.is_empty());
                seen.extend(some.into_iter().map(|e| e.filename));
            }
            Err(f) => {
                assert!(matches!(f.code, SftpCode::Eof));
                break;
            }
        }
    }
    assert_eq!(seen, vec!["f0", "f1", "f2"]);
}
