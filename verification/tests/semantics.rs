use bedrock_leveldb::bytes::lex_lt_bytes;
use bedrock_leveldb::error::{open_failure, read_failure, write_failure};
use bedrock_leveldb::util::path_encodable;
use bedrock_leveldb::{
    bytes_eq, AsSnapshot, Compression, Error, Options, ReadOptions, WriteBatch, WriteOptions, DB,
};

fn fresh_db(name: &[u8]) -> DB {
    let mut options = Options::new();
    options.create_if_missing(true);
    DB::open(name, &options).expect("open failed")
}

#[test]
fn test_round_trip_various_sizes() {
    let mut db = fresh_db(b"round_trip");
    let wo = WriteOptions::new();
    let ro = ReadOptions::new();

    let cases: Vec<(Vec<u8>, Vec<u8>)> = vec![
        (b"k".to_vec(), b"v".to_vec()),
        (Vec::new(), b"value under empty key".to_vec()),
        (b"empty value".to_vec(), Vec::new()),
        (vec![0u8, 255, 7], vec![42u8; 64 * 1024]),
    ];
    for (k, v) in &cases {
        db.put(k, v, &wo).expect("put failed");
        let got = db.get(k, &ro).expect("get failed");
        assert_eq!(got, Some(v.clone()));
    }
}

#[test]
fn test_delete_absent_leaves_none() {
    let mut db = fresh_db(b"delete_absent");
    let wo = WriteOptions::new();
    let ro = ReadOptions::new();

    assert!(db.delete(b"never_written", &wo).is_ok());
    assert_eq!(db.get(b"never_written", &ro).unwrap(), None);

    // And deleting twice is as good as deleting once.
    db.put(b"once", b"here", &wo).unwrap();
    db.delete(b"once", &wo).unwrap();
    db.delete(b"once", &wo).unwrap();
    assert_eq!(db.get(b"once", &ro).unwrap(), None);
}

#[test]
fn test_iteration_order_scrambled_inserts() {
    let mut db = fresh_db(b"scrambled");
    let wo = WriteOptions::new();
    let ro = ReadOptions::new();

    // Insert out of order; iteration must come back byte-lexicographic.
    db.put(b"c", b"3", &wo).unwrap();
    db.put(b"a", b"1", &wo).unwrap();
    db.put(b"b", b"2", &wo).unwrap();

    let mut iter = db.iter(&ro);
    iter.seek_to_first();
    let mut forward = Vec::new();
    while let Some((k, _)) = iter.next() {
        forward.push(k);
    }
    assert_eq!(forward, vec![b"a".to_vec(), b"b".to_vec(), b"c".to_vec()]);

    let mut iter = db.iter(&ro);
    iter.seek_to_last();
    let mut backward = Vec::new();
    while let Some((k, _)) = iter.prev() {
        backward.push(k);
    }
    assert_eq!(backward, vec![b"c".to_vec(), b"b".to_vec(), b"a".to_vec()]);
}

#[test]
fn test_seek_before_first_lands_on_first() {
    let mut db = fresh_db(b"seek_before");
    let wo = WriteOptions::new();
    let ro = ReadOptions::new();
    db.put(b"mango", b"1", &wo).unwrap();
    db.put(b"peach", b"2", &wo).unwrap();

    let mut iter = db.iter(&ro);
    iter.seek(b"aardvark");
    assert!(iter.valid());
    assert_eq!(iter.key().unwrap(), b"mango");
}

#[test]
fn test_snapshot_read_isolation() {
    let mut db = fresh_db(b"snap_read");
    let wo = WriteOptions::new();
    db.put(b"k", b"before", &wo).unwrap();

    let mut pinned = ReadOptions::new();
    pinned.snapshot(&db);

    db.put(b"k", b"after", &wo).unwrap();
    db.put(b"k2", b"new", &wo).unwrap();

    // The pinned read sees the state at snapshot time.
    assert_eq!(db.get(b"k", &pinned).unwrap(), Some(b"before".to_vec()));
    assert_eq!(db.get(b"k2", &pinned).unwrap(), None);

    // An unpinned read sees the current state.
    let ro = ReadOptions::new();
    assert_eq!(db.get(b"k", &ro).unwrap(), Some(b"after".to_vec()));
    assert_eq!(db.get(b"k2", &ro).unwrap(), Some(b"new".to_vec()));
}

#[test]
fn test_snapshot_from_snapshot() {
    let mut db = fresh_db(b"snap_snap");
    let wo = WriteOptions::new();
    db.put(b"k", b"v1", &wo).unwrap();

    // A snapshot already in hand can itself be the snapshot source.
    let snap = db.as_snapshot();
    db.put(b"k", b"v2", &wo).unwrap();

    let mut pinned = ReadOptions::new();
    pinned.snapshot(&snap);
    assert_eq!(db.get(b"k", &pinned).unwrap(), Some(b"v1".to_vec()));
}

#[test]
fn test_batch_write_applies_all() {
    let mut db = fresh_db(b"batch_all");
    let wo = WriteOptions::new();
    let ro = ReadOptions::new();
    db.put(b"doomed", b"x", &wo).unwrap();

    let mut batch = WriteBatch::new();
    batch.put(b"n1", b"v1");
    batch.put(b"n2", b"v2");
    batch.put(b"n3", b"v3");
    batch.delete(b"doomed");

    // Nothing is visible before the commit.
    assert_eq!(db.get(b"n1", &ro).unwrap(), None);
    assert_eq!(db.get(b"doomed", &ro).unwrap(), Some(b"x".to_vec()));

    batch.write(&mut db, &wo).expect("batch write failed");

    // Everything is visible after the commit.
    assert_eq!(db.get(b"n1", &ro).unwrap(), Some(b"v1".to_vec()));
    assert_eq!(db.get(b"n2", &ro).unwrap(), Some(b"v2".to_vec()));
    assert_eq!(db.get(b"n3", &ro).unwrap(), Some(b"v3".to_vec()));
    assert_eq!(db.get(b"doomed", &ro).unwrap(), None);

    // The batch keeps its operations: writing again is idempotent here.
    batch.write(&mut db, &wo).expect("batch rewrite failed");
    assert_eq!(db.get(b"n2", &ro).unwrap(), Some(b"v2".to_vec()));
}

#[test]
fn test_batch_unwritten_invisible() {
    let db = fresh_db(b"batch_dropped");
    let ro = ReadOptions::new();
    {
        let mut batch = WriteBatch::new();
        batch.put(b"ghost", b"value");
        batch.delete(b"ghost");
        // Dropped without write: no engine state was ever touched.
    }
    assert_eq!(db.get(b"ghost", &ro).unwrap(), None);
}

#[test]
fn test_batch_clear_and_reuse() {
    let mut db = fresh_db(b"batch_clear");
    let wo = WriteOptions::new();
    let ro = ReadOptions::new();

    let mut batch = WriteBatch::new();
    batch.put(b"a", b"1");
    batch.clear();
    batch.put(b"b", b"2");
    batch.write(&mut db, &wo).unwrap();

    assert_eq!(db.get(b"a", &ro).unwrap(), None);
    assert_eq!(db.get(b"b", &ro).unwrap(), Some(b"2".to_vec()));
}

#[test]
fn test_batch_order_within_batch() {
    let mut db = fresh_db(b"batch_order");
    let wo = WriteOptions::new();
    let ro = ReadOptions::new();

    // Put then delete of one key: the later operation wins.
    let mut batch = WriteBatch::new();
    batch.put(b"k", b"v");
    batch.delete(b"k");
    batch.write(&mut db, &wo).unwrap();
    assert_eq!(db.get(b"k", &ro).unwrap(), None);

    // Delete then put of one key: the later operation wins.
    let mut batch = WriteBatch::new();
    batch.delete(b"k");
    batch.put(b"k", b"v2");
    batch.write(&mut db, &wo).unwrap();
    assert_eq!(db.get(b"k", &ro).unwrap(), Some(b"v2".to_vec()));
}

#[test]
fn test_step_native_noop_when_invalid() {
    let mut db = fresh_db(b"step_native");
    let wo = WriteOptions::new();
    let ro = ReadOptions::new();
    db.put(b"only", b"entry", &wo).unwrap();

    let mut iter = db.iter(&ro);
    // Freshly created: invalid; stepping is a defined no-op.
    assert!(!iter.valid());
    iter.next_native();
    assert!(!iter.valid());
    iter.prev_native();
    assert!(!iter.valid());

    // Off the far end, and again off it.
    iter.seek_to_first();
    iter.next_native();
    assert!(!iter.valid());
    iter.next_native();
    assert!(!iter.valid());

    // Off the near end.
    iter.seek_to_first();
    iter.prev_native();
    assert!(!iter.valid());
}

#[test]
fn test_iterator_pinned_without_snapshot() {
    let mut db = fresh_db(b"iter_pinned");
    let wo = WriteOptions::new();
    let ro = ReadOptions::new();
    db.put(b"a", b"1", &wo).unwrap();

    // An iterator materializes the state as of its creation even without an
    // explicit snapshot in the read options.
    let mut iter = db.iter(&ro);
    db.put(b"b", b"2", &wo).unwrap();

    iter.seek_to_first();
    let mut count = 0;
    while iter.valid() {
        count += 1;
        iter.next_native();
    }
    assert_eq!(count, 1);
}

#[test]
fn test_open_invalid_path() {
    let mut options = Options::new();
    options.create_if_missing(true);

    let r = DB::open(b"bad\0path", &options);
    assert!(matches!(r, Err(Error::InvalidPath)));
    assert_eq!(
        r.err().unwrap().message(),
        "invalid path: contains an interior nul byte"
    );
}

#[test]
fn test_open_error_message_exact() {
    let options = Options::new();
    let r = DB::open(b"no_create", &options);
    assert_eq!(
        r.err().unwrap().message(),
        "database does not exist (create_if_missing is false)"
    );
}

#[test]
fn test_error_translation() {
    let e = open_failure(Some("corrupt manifest".to_string()));
    assert!(matches!(&e, Error::Open(m) if m == "corrupt manifest"));
    assert_eq!(e.message(), "corrupt manifest");

    let e = open_failure(None);
    assert_eq!(e.message(), "failed to open database");

    let e = read_failure(Some("checksum mismatch".to_string()));
    assert!(matches!(&e, Error::Read(m) if m == "checksum mismatch"));

    let e = read_failure(None);
    assert!(matches!(e, Error::UnknownError));
    assert_eq!(e.message(), "unknown error");

    let e = write_failure(Some("disk full".to_string()));
    assert!(matches!(&e, Error::Write(m) if m == "disk full"));
    assert_eq!(e.message(), "disk full");

    let e = write_failure(None);
    assert!(matches!(e, Error::UnknownError));
}

#[test]
fn test_path_encodable() {
    assert!(path_encodable(b"plain/path"));
    assert!(path_encodable(b""));
    assert!(!path_encodable(b"with\0nul"));
    assert!(!path_encodable(b"\0"));
}

#[test]
fn test_byte_order_comparisons() {
    assert!(lex_lt_bytes(b"", b"a"));
    assert!(!lex_lt_bytes(b"a", b""));
    assert!(lex_lt_bytes(b"abc", b"abd"));
    assert!(lex_lt_bytes(b"ab", b"abc"));
    assert!(!lex_lt_bytes(b"abc", b"abc"));
    assert!(lex_lt_bytes(&[1u8, 255], &[2u8]));

    assert!(bytes_eq(b"same", b"same"));
    assert!(!bytes_eq(b"same", b"sane"));
    assert!(!bytes_eq(b"same", b"sam"));
}

#[test]
fn test_options_defaults_and_setters() {
    let options = Options::new();
    assert!(!options.create_if_missing);
    assert!(!options.error_if_exists);
    assert!(!options.paranoid_checks);
    assert_eq!(options.compression, Compression::No);

    let mut options = Options::default();
    options.error_if_exists(true);
    options.paranoid_checks(true);
    options.compression(Compression::ZlibRaw);
    assert!(options.error_if_exists);
    assert!(options.paranoid_checks);
    assert_eq!(options.compression, Compression::ZlibRaw);

    let ro = ReadOptions::new();
    assert!(!ro.verify_checksums);
    assert!(ro.fill_cache);
    assert!(ro.snapshot.is_none());

    let mut ro = ReadOptions::default();
    ro.verify_checksums(true);
    ro.fill_cache(false);
    assert!(ro.verify_checksums);
    assert!(!ro.fill_cache);

    let wo = WriteOptions::new();
    assert!(!wo.sync);
    let mut wo = WriteOptions::default();
    wo.sync(true);
    assert!(wo.sync);

    let _ = WriteBatch::default();
}
