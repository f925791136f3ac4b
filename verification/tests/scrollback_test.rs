use hive_server::models::{Connection, Session, Store, User};
use hive_server::scrollback::ScrollbackChunk;
use hive_server::scrollback::{ChunkLog, CHUNK_MAX};

fn store_with_session() -> (Store, u128) {
    let mut store = Store::new();
    let user = User::create(&mut store, "scrollback_user").expect("Failed to create user");
    let conn = Connection::create(&mut store, user.id, "s", "localhost", 2222, "testuser", None,
        None)
        .expect("Failed to create connection");
    let session = Session::create(&mut store, user.id, conn.id).expect("Failed to create session");
    (store, session.id)
}

#[test]
fn test_scrollback_chunks_model() {
    let (mut store, session_id) = store_with_session();

    // Test appending data
    let data1 = b"Hello, World!\n";
    ScrollbackChunk::append(&mut store, session_id, data1).unwrap();

    let data2 = b"This is more data.\n";
    ScrollbackChunk::append(&mut store, session_id, data2).unwrap();

    // Get all data
    let all_data = ScrollbackChunk::get_all(&store, session_id).unwrap();
    let expected = [data1.as_slice(), data2.as_slice()].concat();
    assert_eq!(all_data, expected);

    // Test get from offset
    let from_offset = ScrollbackChunk::get_from_offset(&store, session_id, data1.len()).unwrap();
    assert_eq!(from_offset, data2);

    // Test total size
    let size = ScrollbackChunk::total_size(&store, session_id).unwrap();
    assert_eq!(size, data1.len() + data2.len());

    // Clean up
    ScrollbackChunk::delete_for_session(&mut store, session_id).unwrap();
    Session::close(&mut store, session_id).unwrap();
}

#[test]
fn test_scrollback_large_data() {
    let (mut store, session_id) = store_with_session();

    // Generate data larger than one chunk (> 64KB)
    let large_data: Vec<u8> = (0..100000).map(|i| (i % 256) as u8).collect();

    ScrollbackChunk::append(&mut store, session_id, &large_data).unwrap();

    // Retrieve and verify
    let retrieved = ScrollbackChunk::get_all(&store, session_id).unwrap();
    assert_eq!(retrieved, large_data);

    // Test offset retrieval
    let offset = 50000;
    let from_offset = ScrollbackChunk::get_from_offset(&store, session_id, offset).unwrap();
    assert_eq!(from_offset, &large_data[offset..]);

    // Clean up
    ScrollbackChunk::delete_for_session(&mut store, session_id).unwrap();
    Session::close(&mut store, session_id).unwrap();
}

#[test]
fn test_append_empty_is_noop() {
    let mut log = ChunkLog::new(1);
    log.append(b"");
    assert_eq!(log.total_size(), 0);
    assert_eq!(log.num_chunks(), 0);

    log.append(b"abc");
    log.append(b"");
    assert_eq!(log.get_all(), b"abc");
    assert_eq!(log.num_chunks(), 1);
}

#[test]
fn test_offset_at_or_past_end_returns_empty() {
    let mut log = ChunkLog::new(1);
    log.append(b"0123456789");
    assert_eq!(log.get_from_offset(10), b"");
    assert_eq!(log.get_from_offset(11), b"");
    assert_eq!(log.get_from_offset(1000), b"");
    assert_eq!(log.get_from_offset(0), b"0123456789");
}

#[test]
fn test_chunk_boundary() {
    // Exactly CHUNK_MAX bytes fill exactly one chunk; one more byte opens a
    // second, one-byte chunk.
    let mut log = ChunkLog::new(1);
    log.append(&vec![7u8; CHUNK_MAX]);
    assert_eq!(log.num_chunks(), 1);
    assert_eq!(log.chunks[0].data.len(), CHUNK_MAX);

    log.append(&[8u8]);
    assert_eq!(log.num_chunks(), 2);
    assert_eq!(log.chunks[0].data.len(), CHUNK_MAX);
    assert_eq!(log.chunks[1].data.len(), 1);
    assert_eq!(log.total_size(), CHUNK_MAX + 1);
}

#[test]
fn test_chunk_shape_invariant() {
    // Every chunk but the last is exactly CHUNK_MAX bytes; the last is
    // non-empty and at most CHUNK_MAX.
    let mut log = ChunkLog::new(9);
    for _ in 0..7 {
        log.append(&vec![3u8; 40000]);
    }
    let n = log.num_chunks();
    assert!(n >= 2);
    for i in 0..n - 1 {
        assert_eq!(log.chunks[i].data.len(), CHUNK_MAX);
        assert_eq!(log.chunks[i].chunk_index, i);
    }
    assert!(log.chunks[n - 1].data.len() > 0);
    assert!(log.chunks[n - 1].data.len() <= CHUNK_MAX);
}

#[test]
fn test_read_from_offset_is_suffix_of_read_all() {
    let mut log = ChunkLog::new(2);
    let data: Vec<u8> = (0..150000).map(|i| (i % 251) as u8).collect();
    log.append(&data);
    let all = log.get_all();
    let total = all.len();
    for k in [0usize, 1, 100, CHUNK_MAX - 1, CHUNK_MAX, CHUNK_MAX + 1, 140000, total] {
        assert_eq!(log.get_from_offset(k), &all[k..]);
    }
}

#[test]
fn test_two_appends_concatenate() {
    let mut log = ChunkLog::new(3);
    let a = b"first stretch of output";
    let b = b"and the second one";
    log.append(a);
    log.append(b);
    assert_eq!(log.get_all(), [a.as_slice(), b.as_slice()].concat());
}

#[test]
fn test_scrollback_append_interleaved_sessions() {
    // Appends to one session never disturb another's log.
    let mut store = Store::new();
    let user = User::create(&mut store, "two_session_user").expect("Failed to create user");
    let conn = Connection::create(&mut store, user.id, "s", "h", 22, "u", None, None)
        .expect("Failed to create connection");
    let s1 = Session::create(&mut store, user.id, conn.id).unwrap();
    let s2 = Session::create(&mut store, user.id, conn.id).unwrap();

    ScrollbackChunk::append(&mut store, s1.id, b"one").unwrap();
    ScrollbackChunk::append(&mut store, s2.id, b"two").unwrap();
    ScrollbackChunk::append(&mut store, s1.id, b" more").unwrap();

    assert_eq!(ScrollbackChunk::get_all(&store, s1.id).unwrap(), b"one more");
    assert_eq!(ScrollbackChunk::get_all(&store, s2.id).unwrap(), b"two");

    assert!(ScrollbackChunk::delete_for_session(&mut store, s1.id).unwrap());
    assert_eq!(ScrollbackChunk::get_all(&store, s1.id).unwrap(), b"");
    assert_eq!(ScrollbackChunk::get_all(&store, s2.id).unwrap(), b"two");
    assert!(!ScrollbackChunk::delete_for_session(&mut store, s1.id).unwrap());
}

#[test]
fn test_append_to_missing_session_fails() {
    let mut store = Store::new();
    let refused = ScrollbackChunk::append(&mut store, 7, b"data");
    assert!(matches!(refused, Err(hive_server::HiveError::Database(_))));
    // an empty append is a no-op even without a session
    assert!(ScrollbackChunk::append(&mut store, 7, b"").is_ok());
}
