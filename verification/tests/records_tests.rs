use pai::records::{
    chrono_now_string, default_sync_mode, delete_sync_record, normalize_sync_mode,
    save_sync_record, uuid_like_id, SyncRecord,
};
use pai::sync::SyncMode;

fn record(id: &str, name: &str) -> SyncRecord {
    SyncRecord {
        id: id.to_string(),
        name: name.to_string(),
        from_path: format!("from-{}", name),
        to_path: format!("to-{}", name),
        ref_name: None,
        sync_mode: "full".to_string(),
        created_at: "100".to_string(),
    }
}

fn ids(rs: &[SyncRecord]) -> Vec<String> {
    rs.iter().map(|r| r.id.clone()).collect()
}

#[test]
fn default_mode_is_full() {
    assert_eq!(default_sync_mode(), "full");
}

#[test]
fn normalize_accepts_known_modes() {
    assert_eq!(normalize_sync_mode(None).unwrap(), "full");
    for m in ["full", "incremental", "clean", "replace", "merge"] {
        assert_eq!(normalize_sync_mode(Some(m.to_string())).unwrap(), m);
    }
}

#[test]
fn normalize_refuses_unknown_mode() {
    assert_eq!(normalize_sync_mode(Some("fast".to_string())).unwrap_err(), "未知同步模式: fast");
}

#[test]
fn saved_modes_are_runnable() {
    for m in ["full", "incremental", "clean", "replace", "merge", "fast", ""] {
        let saved = normalize_sync_mode(Some(m.to_string())).is_ok();
        let runnable = SyncMode::from_option(Some(m.to_string())).is_ok();
        assert_eq!(saved, runnable, "mode {:?}", m);
    }
}

#[test]
fn id_from_time() {
    assert_eq!(uuid_like_id(0), "deadbeef");
    assert_eq!(uuid_like_id(0x1_0000_0001), "deadbeee");
    assert_eq!(uuid_like_id(0xDEADBEEF), "0");
    let ms: u128 = 1_700_000_000_123;
    assert_eq!(uuid_like_id(ms), format!("{:x}", (ms & 0xFFFF_FFFF) as u32 ^ 0xDEADBEEF));
}

#[test]
fn time_stamp_in_decimal() {
    assert_eq!(chrono_now_string(1_700_000_000), "1700000000");
    assert_eq!(chrono_now_string(0), "0");
}

#[test]
fn save_creates_a_record() {
    let mut rs = vec![record("a", "one")];
    let r = save_sync_record(
        &mut rs,
        None,
        "two".to_string(),
        "https://h/r.git".to_string(),
        "D:\\t".to_string(),
        Some("dev".to_string()),
        None,
        0,
        1_700_000_000,
    )
    .unwrap();
    assert_eq!(r.id, "deadbeef");
    assert_eq!(r.name, "two");
    assert_eq!(r.from_path, "https://h/r.git");
    assert_eq!(r.to_path, "D:\\t");
    assert_eq!(r.ref_name.as_deref(), Some("dev"));
    assert_eq!(r.sync_mode, "full");
    assert_eq!(r.created_at, "1700000000");
    assert_eq!(ids(&rs), vec!["a", "deadbeef"]);
    assert_eq!(rs[1].name, "two");
}

#[test]
fn save_edits_the_first_record_with_the_id() {
    let mut rs = vec![record("a", "one"), record("b", "two"), record("b", "three")];
    let r = save_sync_record(
        &mut rs,
        Some("b".to_string()),
        "renamed".to_string(),
        "f".to_string(),
        "t".to_string(),
        None,
        Some("merge".to_string()),
        5,
        6,
    )
    .unwrap();
    assert_eq!(r.id, "b");
    assert_eq!(r.name, "renamed");
    assert_eq!(r.sync_mode, "merge");
    assert_eq!(r.created_at, "100");
    assert_eq!(ids(&rs), vec!["a", "b", "b"]);
    assert_eq!(rs[1].name, "renamed");
    assert_eq!(rs[1].from_path, "f");
    assert_eq!(rs[2].name, "three");
    assert_eq!(rs[0].name, "one");
}

#[test]
fn save_with_unknown_id_is_refused() {
    let mut rs = vec![record("a", "one")];
    let err = save_sync_record(
        &mut rs,
        Some("zz".to_string()),
        "n".to_string(),
        "f".to_string(),
        "t".to_string(),
        None,
        None,
        0,
        0,
    )
    .unwrap_err();
    assert_eq!(err, "记录不存在");
    assert_eq!(ids(&rs), vec!["a"]);
    assert_eq!(rs[0].name, "one");
}

#[test]
fn save_with_unknown_mode_is_refused() {
    let mut rs = vec![record("a", "one")];
    let err = save_sync_record(
        &mut rs,
        None,
        "n".to_string(),
        "f".to_string(),
        "t".to_string(),
        None,
        Some("x".to_string()),
        0,
        0,
    )
    .unwrap_err();
    assert_eq!(err, "未知同步模式: x");
    assert_eq!(rs.len(), 1);
}

#[test]
fn delete_removes_every_record_with_the_id() {
    let mut rs = vec![record("a", "1"), record("b", "2"), record("a", "3"), record("c", "4")];
    delete_sync_record(&mut rs, "a").unwrap();
    assert_eq!(ids(&rs), vec!["b", "c"]);
    assert_eq!(rs[0].name, "2");
    assert_eq!(rs[1].name, "4");
}

#[test]
fn delete_of_unknown_id_is_refused() {
    let mut rs = vec![record("a", "1")];
    assert_eq!(delete_sync_record(&mut rs, "b").unwrap_err(), "记录不存在");
    assert_eq!(ids(&rs), vec!["a"]);
    let mut empty: Vec<SyncRecord> = Vec::new();
    assert!(delete_sync_record(&mut empty, "a").is_err());
}

#[test]
fn delete_undoes_create() {
    let mut rs = vec![record("a", "1"), record("b", "2")];
    let created = save_sync_record(
        &mut rs,
        None,
        "new".to_string(),
        "f".to_string(),
        "t".to_string(),
        None,
        Some("clean".to_string()),
        77,
        88,
    )
    .unwrap();
    assert_eq!(rs.len(), 3);
    delete_sync_record(&mut rs, &created.id).unwrap();
    assert_eq!(ids(&rs), vec!["a", "b"]);
    assert_eq!(rs[0].name, "1");
    assert_eq!(rs[1].name, "2");
}

#[test]
fn duplicate_copies_every_field() {
    let mut r = record("a", "x");
    r.ref_name = Some("main".to_string());
    let d = r.duplicate();
    assert_eq!(d.id, r.id);
    assert_eq!(d.name, r.name);
    assert_eq!(d.from_path, r.from_path);
    assert_eq!(d.to_path, r.to_path);
    assert_eq!(d.ref_name, r.ref_name);
    assert_eq!(d.sync_mode, r.sync_mode);
    assert_eq!(d.created_at, r.created_at);
}
