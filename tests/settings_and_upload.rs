use yande_popular::config::args;
use yande_popular::forward::{chunk_is_last, prepare_upload, CHUNK_SIZE};
use yande_popular::store::{timestamp_bytes, timestamp_of};

#[test]
fn defaults_fill_in() {
    let a = args("c".to_string(), "k".to_string(), "https://chat".to_string(), None, None);
    assert_eq!(a.data_dir, "data");
    assert_eq!(a.thread, 1);
    assert_eq!(a.db_dir(), "data/db");
    assert_eq!(a.tmp_dir(), "data/tmp");
}

#[test]
fn given_settings_kept() {
    let a = args("c".to_string(), "k".to_string(), "s".to_string(), Some("/var/bot".to_string()), Some(4));
    assert_eq!((a.channel_id.as_str(), a.api_key.as_str(), a.server_domain.as_str()), ("c", "k", "s"));
    assert_eq!(a.thread, 4);
    assert_eq!(a.db_dir(), "/var/bot/db");
    let z = args("c".to_string(), "k".to_string(), "s".to_string(), None, Some(0));
    assert_eq!(z.thread, 1);
}

#[test]
fn upload_announcement() {
    let p = prepare_upload("101.jpg");
    assert_eq!(p.content_type, "image/jpeg");
    assert_eq!(p.filename, "101.jpg");
    assert_eq!(prepare_upload("7.png").content_type, "image/png");
    assert_eq!(prepare_upload("noext").content_type, "application/octet-stream");
}

#[test]
fn last_chunk() {
    assert_eq!(CHUNK_SIZE, 200 * 1024);
    assert!(!chunk_is_last(0, CHUNK_SIZE, CHUNK_SIZE + 1));
    assert!(chunk_is_last(CHUNK_SIZE, 1, CHUNK_SIZE + 1));
    assert!(chunk_is_last(0, 10, 10));
    assert!(chunk_is_last(0, 0, 0));
}

#[test]
fn timestamps_are_big_endian() {
    assert_eq!(timestamp_bytes(0x0102030405060708), vec![1, 2, 3, 4, 5, 6, 7, 8]);
    for t in [0u64, 1, 1_700_000_000, u64::MAX] {
        assert_eq!(timestamp_bytes(t), t.to_be_bytes().to_vec());
        assert_eq!(timestamp_of(&timestamp_bytes(t)), Some(t));
    }
    assert_eq!(timestamp_of(&vec![1, 2, 3]), None);
    assert_eq!(timestamp_of(&vec![0; 9]), None);
}
