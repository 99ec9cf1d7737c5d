use roost::json::Json;
use roost::models::activity::Activity;
use roost::server::activity::{
    delete_ids, delete_statement, flush_plain, merge_sftp, merged_ids, read_metadata, told_ids, FETCH_PLAIN,
    FETCH_SFTP, INSERT, SCHEMA, SQLITE_PARAM_CHUNK,
};
use rusqlite::Connection;

const NOW: &str = "2024-05-01T10:00:05+00:00";

fn store() -> Connection {
    let conn = Connection::open_in_memory().unwrap();
    conn.execute_batch(SCHEMA).unwrap();
    conn
}

fn activity(event: &str, files: &[&str]) -> Activity {
    let files = files.iter().map(|f| Json::Str(f.to_string())).collect();
    Activity::new("srv", event, NOW.to_string())
        .with_user(Some("user-1".into()))
        .with_ip("203.0.113.9".into())
        .with_metadata(Json::Object(vec![("files".to_string(), Json::Array(files))]))
}

fn push(conn: &Connection, a: Activity) {
    conn.execute(
        INSERT,
        (&a.user, &a.server, &a.event, a.metadata.compact_text(), &a.ip, &a.timestamp),
    )
    .unwrap();
}

fn fetch(conn: &Connection, query: &str, limit: i64) -> Vec<(i64, Activity)> {
    let mut stmt = conn.prepare(query).unwrap();
    let rows = stmt
        .query_map([limit], |row| {
            let metadata: String = row.get(4)?;
            Ok((
                row.get::<_, i64>(0)?,
                Activity {
                    user: row.get(1)?,
                    server: row.get(2)?,
                    event: row.get(3)?,
                    metadata: read_metadata(&metadata),
                    ip: row.get(5)?,
                    timestamp: row.get(6)?,
                },
            ))
        })
        .unwrap();
    rows.map(|r| r.unwrap()).collect()
}

fn delete(conn: &Connection, ids: &Vec<i64>) {
    for chunk in delete_ids(ids) {
        conn.execute(&delete_statement(chunk.len()), rusqlite::params_from_iter(chunk.iter()))
            .unwrap();
    }
}

#[test]
fn persists_and_drains_plain_events() {
    let s = store();
    push(&s, activity("server:console.command", &[]));
    push(&s, activity("server:file.uploaded", &[]));
    let rows = fetch(&s, FETCH_PLAIN, 10);
    assert_eq!(rows.len(), 2);
    delete(&s, &vec![rows[0].0]);
    assert_eq!(fetch(&s, FETCH_PLAIN, 10).len(), 1);
}

#[test]
fn sftp_events_merged_per_minute() {
    let s = store();
    push(&s, activity("server:sftp.write", &["a.txt"]));
    push(&s, activity("server:sftp.write", &["b.txt"]));
    push(&s, activity("server:sftp.delete", &["c.txt"]));

    let rows = fetch(&s, FETCH_SFTP, 100);
    assert_eq!(rows.len(), 3);

    let groups = merge_sftp(&rows, 100);
    assert_eq!(groups.len(), 2);
    let files: usize = groups.iter().map(|g| g.files.len()).sum();
    assert_eq!(files, 3);
    assert_eq!(groups[0].key, "user-1|srv|203.0.113.9|server:sftp.write|2024-05-01_10:00");

    delete(&s, &merged_ids(&groups));
    assert!(fetch(&s, FETCH_SFTP, 100).is_empty());
}

#[test]
fn invalid_ip_rows_are_dropped_by_plain_flush() {
    let s = store();
    let mut bad = activity("server:console.command", &[]);
    bad.ip = "not-an-ip".into();
    push(&s, bad);
    assert_eq!(fetch(&s, FETCH_PLAIN, 10).len(), 1);
    let batch = fetch(&s, FETCH_PLAIN, 10);
    let valid: Vec<bool> = batch.iter().map(|(_, a)| format!("{}/32", a.ip).parse::<ipnet::Ipv4Net>().is_ok()).collect();
    let (invalid, kept) = flush_plain(batch, &valid);
    assert!(kept.is_empty());
    delete(&s, &invalid);
    assert!(fetch(&s, FETCH_PLAIN, 10).is_empty());
}

#[test]
fn other_minutes_are_other_groups() {
    let a = activity("server:sftp.write", &["a.txt"]);
    let mut b = activity("server:sftp.write", &["b.txt"]);
    b.timestamp = "2024-05-01T10:01:00+00:00".into();
    let groups = merge_sftp(&vec![(1, a), (2, b)], 100);
    assert_eq!(groups.len(), 2);
    assert_eq!(groups[0].ids, vec![1]);
    assert_eq!(groups[1].ids, vec![2]);
}

#[test]
fn merged_groups_tell_all_files() {
    let groups = merge_sftp(
        &vec![
            (1, activity("server:sftp.write", &["a.txt"])),
            (2, activity("server:sftp.write", &["b.txt"])),
        ],
        100,
    );
    let told = groups.into_iter().next().unwrap().activity();
    assert_eq!(told.metadata.compact_text(), r#"{"files":["a.txt","b.txt"]}"#);
    assert_eq!(told.event, "server:sftp.write");
    assert_eq!(told.timestamp, NOW);
}

#[test]
fn good_rows_are_told() {
    let rows = vec![
        (1, activity("server:console.command", &[])),
        (2, activity("server:power.start", &[])),
    ];
    let (dropped, kept) = flush_plain(rows, &vec![false, true]);
    assert_eq!(dropped, vec![1]);
    assert_eq!(told_ids(&kept), vec![2]);
}

#[test]
fn deletes_come_in_chunks() {
    let ids: Vec<i64> = (0..SQLITE_PARAM_CHUNK as i64 + 1).collect();
    let chunks = delete_ids(&ids);
    assert_eq!(chunks.len(), 2);
    assert_eq!(chunks[0].len(), SQLITE_PARAM_CHUNK);
    assert_eq!(chunks[1], vec![SQLITE_PARAM_CHUNK as i64]);
    assert_eq!(delete_statement(2), "DELETE FROM activities WHERE id IN (?,?)");
}

#[test]
fn unreadable_metadata_is_nothing() {
    assert_eq!(read_metadata("{"), Json::Null);
    assert_eq!(read_metadata(r#"{"a":1}"#).compact_text(), r#"{"a":1}"#);
}
