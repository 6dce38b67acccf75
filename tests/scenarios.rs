use std::collections::BTreeMap;

use reactive_log::naming::segment_file_name;
use reactive_log::options::{LogError, Options, SyncPolicy};
use reactive_log::read_store::{ReadStep, ReadStore, Whence};
use reactive_log::roster::Roster;
use reactive_log::write_store::{check_sealed_segment, plan_retention, WriteStore};

/// A log directory held in memory: file name to contents.
type Dir = BTreeMap<String, Vec<u8>>;

fn options(roll: u64, sync: SyncPolicy) -> Options {
    Options {
        sync_policy: sync,
        file_roll_size: roll,
        blocking_minimum_retention: None,
        max_total_bytes: u64::MAX,
        max_file_age: None,
    }
}

fn discover(dir: &Dir) -> Roster {
    let names: Vec<String> = dir.keys().cloned().collect();
    Roster::discover(&names).unwrap()
}

fn active_bytes(dir: &Dir, roster: &Roster) -> Vec<u8> {
    match roster.active() {
        Some(start) => dir.get(&segment_file_name(start)).cloned().unwrap_or_default(),
        None => Vec::new(),
    }
}

fn open_producer(dir: &mut Dir, opts: Options) -> WriteStore {
    let mut roster = discover(dir);
    if roster.bootstrap() {
        dir.insert(segment_file_name(0), Vec::new());
    }
    let name = segment_file_name(roster.active().unwrap());
    let data = dir[&name].clone();
    let (store, cut) = WriteStore::new(roster, &data, opts, 0).unwrap();
    dir.get_mut(&name).unwrap().truncate(cut);
    store
}

fn append(dir: &mut Dir, store: &mut WriteStore, msg: &[u8]) -> u64 {
    let pending = store.append(msg).unwrap();
    if pending.plan.roll {
        dir.insert(segment_file_name(pending.plan.offset), Vec::new());
    }
    let active = dir.keys().last().unwrap().clone();
    dir.get_mut(&active).unwrap().extend_from_slice(&pending.frame);
    if store.commit_append(pending.plan, msg.len(), 0) {
        store.note_synced(0);
    }
    pending.plan.offset
}

fn open_consumer(dir: &Dir, whence: Whence) -> ReadStore {
    let roster = discover(dir);
    let active = active_bytes(dir, &roster);
    ReadStore::new(roster, whence, &active)
}

fn read(dir: &Dir, store: &mut ReadStore) -> Option<(u64, Vec<u8>)> {
    loop {
        let start = store.current_segment()?;
        let data = dir.get(&segment_file_name(start)).cloned().unwrap_or_default();
        match store.read(&data) {
            ReadStep::Message(m) => return Some((m.offset, m.message)),
            ReadStep::NextSegment => continue,
            ReadStep::End => return None,
        }
    }
}

fn read_all(dir: &Dir, store: &mut ReadStore) -> Vec<(u64, Vec<u8>)> {
    let mut out = Vec::new();
    while let Some(m) = read(dir, store) {
        out.push(m);
    }
    out
}

#[test]
fn empty_dir_bootstrap() {
    let mut dir = Dir::new();
    let store = open_producer(&mut dir, Options::default());
    assert_eq!(dir.len(), 1);
    assert_eq!(dir["0000000000000000.log"].len(), 0);
    assert_eq!(store.max_offset, 0);
    let mut c = open_consumer(&dir, Whence::Oldest);
    assert_eq!(read(&dir, &mut c), None);
}

#[test]
fn consumer_on_missing_segments_reads_nothing() {
    let dir = Dir::new();
    let mut c = open_consumer(&dir, Whence::Oldest);
    assert_eq!(read(&dir, &mut c), None);
}

#[test]
fn three_small_writes() {
    let mut dir = Dir::new();
    let mut store = open_producer(&mut dir, Options::default());
    assert_eq!(append(&mut dir, &mut store, b"a"), 1);
    assert_eq!(append(&mut dir, &mut store, b"bb"), 2);
    assert_eq!(append(&mut dir, &mut store, b"ccc"), 3);
    let mut c = open_consumer(&dir, Whence::Oldest);
    assert_eq!(read(&dir, &mut c), Some((1, b"a".to_vec())));
    assert_eq!(read(&dir, &mut c), Some((2, b"bb".to_vec())));
    assert_eq!(read(&dir, &mut c), Some((3, b"ccc".to_vec())));
    assert_eq!(read(&dir, &mut c), None);
}

#[test]
fn rollover_small_roll_size() {
    let mut dir = Dir::new();
    let mut store = open_producer(&mut dir, options(20, SyncPolicy::Never));
    append(&mut dir, &mut store, &[1u8; 10]);
    append(&mut dir, &mut store, &[2u8; 10]);
    assert!(dir.contains_key("0000000000000000.log"));
    assert!(dir.contains_key("0000000000000002.log"));
    append(&mut dir, &mut store, &[3u8; 10]);
    assert_eq!(dir.len(), 3);
    assert!(dir.contains_key("0000000000000003.log"));
    assert_eq!(dir["0000000000000000.log"].len(), 22);
    let mut c = open_consumer(&dir, Whence::Oldest);
    let offsets: Vec<u64> = read_all(&dir, &mut c).iter().map(|m| m.0).collect();
    assert_eq!(offsets, vec![1, 2, 3]);
}

#[test]
fn rollover_checked_before_each_write() {
    let mut dir = Dir::new();
    let mut store = open_producer(&mut dir, options(100, SyncPolicy::Never));
    for i in 0..3u8 {
        append(&mut dir, &mut store, &[i; 50]);
    }
    // Each 62-byte frame would push a non-empty segment past 100 bytes.
    assert_eq!(dir.len(), 3);
    assert_eq!(dir["0000000000000000.log"].len(), 62);
    assert_eq!(dir["0000000000000002.log"].len(), 62);
    assert_eq!(dir["0000000000000003.log"].len(), 62);
    let mut c = open_consumer(&dir, Whence::Oldest);
    let offsets: Vec<u64> = read_all(&dir, &mut c).iter().map(|m| m.0).collect();
    assert_eq!(offsets, vec![1, 2, 3]);
}

#[test]
fn crash_replay() {
    let mut dir = Dir::new();
    let mut store = open_producer(&mut dir, options(1 << 20, SyncPolicy::Always));
    for i in 0..5u8 {
        append(&mut dir, &mut store, &[i; 4]);
    }
    let good_len = dir["0000000000000000.log"].len();
    assert_eq!(good_len, 5 * 16);
    dir.get_mut("0000000000000000.log").unwrap().extend_from_slice(&[9, 9, 9, 9, 9, 9, 9]);
    let store = open_producer(&mut dir, options(1 << 20, SyncPolicy::Always));
    assert_eq!(store.max_offset, 5);
    assert_eq!(dir["0000000000000000.log"].len(), good_len);
    let mut c = open_consumer(&dir, Whence::Oldest);
    assert_eq!(read_all(&dir, &mut c).len(), 5);
}

#[test]
fn truncated_last_frame_recovered() {
    let mut dir = Dir::new();
    let mut store = open_producer(&mut dir, Options::default());
    append(&mut dir, &mut store, b"first");
    append(&mut dir, &mut store, b"second");
    let f = dir.get_mut("0000000000000000.log").unwrap();
    let keep = f.len() - 3;
    f.truncate(keep);
    let mut store = open_producer(&mut dir, Options::default());
    assert_eq!(store.max_offset, 1);
    assert_eq!(dir["0000000000000000.log"].len(), 17);
    assert_eq!(append(&mut dir, &mut store, b"again"), 2);
}

fn hundred_frames() -> Dir {
    let mut dir = Dir::new();
    // Frames of 20 bytes; 25 of them fill a segment.
    let mut store = open_producer(&mut dir, options(500, SyncPolicy::Never));
    for i in 1..=100u64 {
        let payload = format!("m{:07}", i);
        assert_eq!(append(&mut dir, &mut store, payload.as_bytes()), i);
    }
    dir
}

#[test]
fn seek_middle() {
    let dir = hundred_frames();
    assert_eq!(dir.len(), 4);
    assert!(dir.contains_key(&segment_file_name(51)));
    let mut c = open_consumer(&dir, Whence::Position(60));
    assert_eq!(read(&dir, &mut c), Some((60, b"m0000060".to_vec())));
    assert_eq!(read(&dir, &mut c), Some((61, b"m0000061".to_vec())));
}

#[test]
fn seek_across_all_segments() {
    let dir = hundred_frames();
    let mut c = open_consumer(&dir, Whence::Oldest);
    let offsets: Vec<u64> = read_all(&dir, &mut c).iter().map(|m| m.0).collect();
    assert_eq!(offsets, (1..=100).collect::<Vec<u64>>());
}

#[test]
fn seek_semantics() {
    let mut dir = Dir::new();
    let mut store = open_producer(&mut dir, Options::default());
    for i in 0..10u8 {
        append(&mut dir, &mut store, &[i]);
    }
    let mut c = open_consumer(&dir, Whence::Position(7));
    assert_eq!(read(&dir, &mut c), Some((7, vec![6])));
    let mut c = open_consumer(&dir, Whence::Position(0));
    assert_eq!(read(&dir, &mut c), Some((1, vec![0])));
    let mut c = open_consumer(&dir, Whence::Position(9999));
    assert_eq!(read(&dir, &mut c), None);
}

#[test]
fn latest_consumer() {
    let mut dir = Dir::new();
    let mut store = open_producer(&mut dir, Options::default());
    append(&mut dir, &mut store, b"old");
    let mut c = open_consumer(&dir, Whence::Latest);
    assert_eq!(read(&dir, &mut c), None);
    let off = append(&mut dir, &mut store, b"new");
    assert_eq!(read(&dir, &mut c), Some((off, b"new".to_vec())));
    let roster = discover(&dir);
    let active = active_bytes(&dir, &roster);
    c.seek(Whence::Position(off), &active);
    assert_eq!(read(&dir, &mut c), Some((off, b"new".to_vec())));
    assert_eq!(read(&dir, &mut c), None);
}

#[test]
fn oversized_payload() {
    let mut dir = Dir::new();
    let mut store = open_producer(&mut dir, options(100, SyncPolicy::Never));
    assert_eq!(append(&mut dir, &mut store, b"small"), 1);
    let big = vec![7u8; 101];
    assert_eq!(append(&mut dir, &mut store, &big), 2);
    assert_eq!(dir[&segment_file_name(2)].len(), 113);
    assert_eq!(append(&mut dir, &mut store, b"after"), 3);
    assert!(dir.contains_key(&segment_file_name(3)));
    let mut c = open_consumer(&dir, Whence::Position(2));
    assert_eq!(read(&dir, &mut c), Some((2, big)));
}

#[test]
fn oversized_first_payload_stays_in_empty_segment() {
    let mut dir = Dir::new();
    let mut store = open_producer(&mut dir, options(10, SyncPolicy::Never));
    let p = store.append(&[0u8; 11]).unwrap();
    assert!(!p.plan.roll);
    assert_eq!(p.plan.offset, 1);
    assert_eq!(p.plan.frame_len, 23);
}

#[test]
fn offsets_contiguous_across_reopen() {
    let mut dir = Dir::new();
    let mut store = open_producer(&mut dir, options(40, SyncPolicy::Never));
    let mut seen = Vec::new();
    for _ in 0..4 {
        seen.push(append(&mut dir, &mut store, b"abcd"));
    }
    let mut store = open_producer(&mut dir, options(40, SyncPolicy::Never));
    for _ in 0..3 {
        seen.push(append(&mut dir, &mut store, b"abcd"));
    }
    assert_eq!(seen, (1..=7).collect::<Vec<u64>>());
}

#[test]
fn reopen_on_empty_rolled_segment() {
    let mut dir = Dir::new();
    dir.insert(segment_file_name(0), Vec::new());
    dir.insert(segment_file_name(8), Vec::new());
    let store = open_producer(&mut dir, Options::default());
    assert_eq!(store.max_offset, 7);
}

#[test]
fn active_segment_offset_below_its_name_is_corruption() {
    let mut dir = Dir::new();
    dir.insert(segment_file_name(8), reactive_log::frame::encode_frame(3, b"x"));
    let roster = discover(&dir);
    let data = active_bytes(&dir, &roster);
    let r = WriteStore::new(roster, &data, Options::default(), 0);
    assert!(matches!(r, Err(LogError::Corruption)));
}

#[test]
fn duplicate_segment_key_is_corruption() {
    let names = vec![segment_file_name(4), "junk.txt".to_string(), segment_file_name(4)];
    assert!(matches!(Roster::discover(&names), Err(LogError::Corruption)));
}

#[test]
fn discover_sorts_and_ignores_others() {
    let names = vec![
        segment_file_name(30),
        "README".to_string(),
        segment_file_name(2),
        segment_file_name(11),
    ];
    let r = Roster::discover(&names).unwrap();
    assert_eq!(r.len(), 3);
    assert_eq!((r.start(0), r.start(1), r.start(2)), (2, 11, 30));
    assert_eq!(r.floor(1), None);
    assert_eq!(r.floor(2), Some(0));
    assert_eq!(r.floor(29), Some(1));
    assert_eq!(r.floor(u64::MAX), Some(2));
}

#[test]
fn exhausted_offsets_refused() {
    let mut dir = Dir::new();
    dir.insert(segment_file_name(0), reactive_log::frame::encode_frame(u64::MAX, b"x"));
    let store = open_producer(&mut dir, Options::default());
    assert_eq!(store.max_offset, u64::MAX);
    assert!(matches!(store.append(b"y"), Err(LogError::Invariant)));
}

#[test]
fn sync_policies() {
    let mut dir = Dir::new();
    let mut store = open_producer(&mut dir, options(1 << 20, SyncPolicy::TotalBufferBytes(30)));
    let p = store.append(b"abcd").unwrap();
    assert!(!store.commit_append(p.plan, 4, 0));
    let p = store.append(b"abcd").unwrap();
    assert!(store.commit_append(p.plan, 4, 0));
    store.note_synced(5);
    assert_eq!(store.unsynced_bytes, 0);

    let mut dir = Dir::new();
    let mut store = open_producer(&mut dir, options(1 << 20, SyncPolicy::Periodic(1000)));
    let p = store.append(b"a").unwrap();
    assert!(!store.commit_append(p.plan, 1, 999));
    let p = store.append(b"a").unwrap();
    assert!(store.commit_append(p.plan, 1, 1000));
    assert!(store.sync_on_close());

    let mut dir = Dir::new();
    let mut store = open_producer(&mut dir, options(1 << 20, SyncPolicy::Never));
    let p = store.append(b"a").unwrap();
    assert!(!store.commit_append(p.plan, 1, u64::MAX));
    assert!(!store.sync_on_close());

    let mut dir = Dir::new();
    let mut store = open_producer(&mut dir, options(1 << 20, SyncPolicy::Always));
    let p = store.append(b"a").unwrap();
    assert!(store.commit_append(p.plan, 1, 0));
}

#[test]
fn default_options() {
    let o = Options::default();
    assert_eq!(o.sync_policy, SyncPolicy::Periodic(1000));
    assert_eq!(o.file_roll_size, 67_108_864);
    assert_eq!(o.max_total_bytes, 536_870_912);
    assert_eq!(o.blocking_minimum_retention, None);
    assert_eq!(o.max_file_age, None);
}

fn retention_options(max_total: u64, floor: Option<u64>, age: Option<u64>) -> Options {
    Options {
        sync_policy: SyncPolicy::Never,
        file_roll_size: 100,
        blocking_minimum_retention: floor,
        max_total_bytes: max_total,
        max_file_age: age,
    }
}

#[test]
fn retention_evicts_oldest_until_fit() {
    let sizes = vec![100, 100, 100, 50];
    let ages = vec![40, 30, 20, 0];
    let r = plan_retention(&sizes, &ages, retention_options(160, None, None));
    assert_eq!(r.evict, 2);
    assert!(!r.blocked);
    let r = plan_retention(&sizes, &ages, retention_options(1000, None, None));
    assert_eq!(r.evict, 0);
}

#[test]
fn retention_never_removes_active() {
    let sizes = vec![100, 500];
    let ages = vec![10, 10];
    let r = plan_retention(&sizes, &ages, retention_options(10, None, None));
    assert_eq!(r.evict, 1);
    assert!(!r.blocked);
}

#[test]
fn retention_floor_blocks() {
    let hour = 3_600_000;
    let sizes = vec![100, 100, 100];
    let ages = vec![10, 5, 0];
    let r = plan_retention(&sizes, &ages, retention_options(150, Some(hour), None));
    assert_eq!(r.evict, 0);
    assert!(r.blocked);
    let ages = vec![hour + 1, 5, 0];
    let r = plan_retention(&sizes, &ages, retention_options(150, Some(hour), None));
    assert_eq!(r.evict, 1);
    assert!(r.blocked);
}

#[test]
fn retention_by_age() {
    let sizes = vec![10, 10, 10];
    let ages = vec![500, 200, 100];
    let r = plan_retention(&sizes, &ages, retention_options(1000, None, Some(300)));
    assert_eq!(r.evict, 1);
    assert!(!r.blocked);
}

#[test]
fn store_retention_and_eviction() {
    let mut dir = Dir::new();
    let mut store = open_producer(&mut dir, retention_options(30, None, None));
    for _ in 0..3 {
        append(&mut dir, &mut store, &[0u8; 90]);
    }
    assert_eq!(store.roster.len(), 3);
    let sizes: Vec<u64> = dir.values().map(|f| f.len() as u64).collect();
    let ages = vec![0, 0, 0];
    let r = store.plan_retention(&sizes, &ages);
    assert_eq!(r.evict, 2);
    store.evict_oldest(r.evict);
    assert_eq!(store.roster.len(), 1);
    assert_eq!(store.roster.start(0), 3);
}

#[test]
fn refresh_sees_new_segments() {
    let mut dir = Dir::new();
    let mut store = open_producer(&mut dir, options(20, SyncPolicy::Never));
    append(&mut dir, &mut store, &[1u8; 10]);
    let mut c = open_consumer(&dir, Whence::Latest);
    assert_eq!(read(&dir, &mut c), None);
    append(&mut dir, &mut store, &[2u8; 10]);
    assert_eq!(read(&dir, &mut c), None);
    c.refresh(discover(&dir));
    assert_eq!(c.current, 0);
    assert_eq!(read(&dir, &mut c), Some((2, vec![2u8; 10])));
    assert_eq!(c.current, 1);
}

#[test]
fn refresh_after_eviction_restarts_at_lowest() {
    let mut dir = Dir::new();
    let mut store = open_producer(&mut dir, options(20, SyncPolicy::Never));
    for i in 0..3u8 {
        append(&mut dir, &mut store, &[i; 10]);
    }
    let mut c = open_consumer(&dir, Whence::Oldest);
    assert_eq!(read(&dir, &mut c).map(|m| m.0), Some(1));
    dir.remove(&segment_file_name(0));
    c.refresh(discover(&dir));
    assert_eq!((c.current, c.pos), (0, 0));
    assert_eq!(read(&dir, &mut c).map(|m| m.0), Some(2));
}

#[test]
fn partial_frame_leaves_cursor_in_place() {
    let mut dir = Dir::new();
    let mut store = open_producer(&mut dir, Options::default());
    append(&mut dir, &mut store, b"one");
    let mut c = open_consumer(&dir, Whence::Oldest);
    assert_eq!(read(&dir, &mut c).map(|m| m.0), Some(1));
    let at = c.pos;
    let frame = reactive_log::frame::encode_frame(2, b"two");
    dir.get_mut("0000000000000000.log").unwrap().extend_from_slice(&frame[..7]);
    assert_eq!(read(&dir, &mut c), None);
    assert_eq!(c.pos, at);
    dir.get_mut("0000000000000000.log").unwrap().extend_from_slice(&frame[7..]);
    assert_eq!(read(&dir, &mut c), Some((2, b"two".to_vec())));
}

#[test]
fn sealed_segment_checked_against_its_name() {
    let f = reactive_log::frame::encode_frame(5, b"abc");
    assert!(check_sealed_segment(5, &f[..12]).is_ok());
    assert!(check_sealed_segment(3, &f).is_ok());
    assert!(matches!(check_sealed_segment(6, &f[..12]), Err(LogError::Corruption)));
    assert!(check_sealed_segment(6, &f[..11]).is_ok());
    assert!(check_sealed_segment(6, &[]).is_ok());
}
