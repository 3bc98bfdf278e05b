use json_marshal::logitnpz::{
    array_key, array_member_name, load_logitnpz_bytes, resolve_compression_level,
    save_logitnpz_bytes, ArchiveBuilder, ArchiveReader, LogitNpzError, DEFAULT_COMPRESSION_LEVEL,
    KEY_BYTES_LIMIT, NAME_LIMIT, ZSTD_MAX_LEVEL, ZSTD_MIN_LEVEL,
};
use std::io::{Cursor, Read, Write};

fn sample() -> Vec<(String, Vec<u8>)> {
    vec![
        ("weights".to_string(), (0..=255u8).cycle().take(4000).collect()),
        ("bias".to_string(), vec![1, 2, 3]),
        ("empty".to_string(), vec![]),
        ("żółw".to_string(), b"\x93NUMPY".to_vec()),
    ]
}

#[test]
fn member_names_carry_the_extension() {
    assert_eq!(array_member_name("a"), "a.npy");
    assert_eq!(array_member_name(""), ".npy");
    assert_eq!(array_member_name("x.npy"), "x.npy.npy");
    assert_eq!(array_member_name("żółw"), "żółw.npy");
}

#[test]
fn keys_are_names_without_the_extension() {
    assert_eq!(array_key("a.npy"), Some("a".to_string()));
    assert_eq!(array_key(".npy"), Some(String::new()));
    assert_eq!(array_key("x.npy.npy"), Some("x.npy".to_string()));
    assert_eq!(array_key("żółw.npy"), Some("żółw".to_string()));
    assert_eq!(array_key("dir/a.npy"), Some("dir/a".to_string()));
    for other in ["", "a", "npy", "a.np", "a.npz", "a.NPY", "a.npy ", "a.txt", "anpy"] {
        assert_eq!(array_key(other), None, "{other:?}");
    }
}

#[test]
fn key_undoes_member_name() {
    for key in ["", "a", "layer.0.weight", "x.npy", "é"] {
        assert_eq!(array_key(&array_member_name(key)), Some(key.to_string()));
    }
}

#[test]
fn save_then_load_gives_the_arrays_back() {
    let arrays = sample();
    let bytes = save_logitnpz_bytes(&arrays, DEFAULT_COMPRESSION_LEVEL).unwrap();
    assert_eq!(load_logitnpz_bytes(&bytes).unwrap(), arrays);
}

#[test]
fn archive_is_a_zip_with_zstd_members() {
    let arrays = sample();
    let bytes = save_logitnpz_bytes(&arrays, 3).unwrap();
    assert_eq!(&bytes[..4], b"PK\x03\x04");
    let mut archive = zip::ZipArchive::new(Cursor::new(bytes)).unwrap();
    assert_eq!(archive.len(), 4);
    let names: Vec<String> = (0..4).map(|i| archive.by_index(i).unwrap().name().to_string()).collect();
    assert_eq!(names, vec!["weights.npy", "bias.npy", "empty.npy", "żółw.npy"]);
    let mut first = archive.by_index(0).unwrap();
    assert_eq!(first.compression(), zip::CompressionMethod::Zstd);
    let mut data = Vec::new();
    first.read_to_end(&mut data).unwrap();
    assert_eq!(data, arrays[0].1);
    assert!(first.compressed_size() < 4000);
}

#[test]
fn same_arrays_give_the_same_bytes() {
    let a = save_logitnpz_bytes(&sample(), 5).unwrap();
    let b = save_logitnpz_bytes(&sample(), 5).unwrap();
    assert_eq!(a, b);
}

#[test]
fn empty_archive_round_trips() {
    let bytes = save_logitnpz_bytes(&vec![], 3).unwrap();
    assert_eq!(load_logitnpz_bytes(&bytes).unwrap(), vec![]);
}

#[test]
fn levels_of_zstd_are_accepted_and_others_refused() {
    for level in [-5, 0, 1, 3, 19, 22] {
        let bytes = save_logitnpz_bytes(&sample(), level).unwrap();
        assert_eq!(load_logitnpz_bytes(&bytes).unwrap(), sample(), "level {level}");
    }
    for level in [23, 1000, i64::MAX, i64::MIN] {
        match save_logitnpz_bytes(&sample(), level) {
            Err(LogitNpzError::ZipError(_)) => {}
            other => panic!("level {level}: {other:?}"),
        }
    }
}

#[test]
fn two_arrays_of_one_key_are_refused() {
    let arrays = vec![("a".to_string(), vec![1]), ("a".to_string(), vec![2])];
    let err = save_logitnpz_bytes(&arrays, 3).unwrap_err();
    assert!(matches!(err, LogitNpzError::ZipError(_)));
    let message = err.message().unwrap();
    assert!(message.starts_with("Zip error: "), "{message}");
    assert!(message.contains("a.npy"), "{message}");
}

#[test]
fn what_is_no_archive_is_refused() {
    for data in [&b""[..], b"not a zip", b"PK\x03\x04"] {
        match load_logitnpz_bytes(data) {
            Err(LogitNpzError::ZipError(_)) => {}
            other => panic!("{other:?}"),
        }
    }
}

#[test]
fn members_without_the_extension_are_passed_over() {
    let mut writer = zip::ZipWriter::new(Cursor::new(Vec::new()));
    let options = zip::write::SimpleFileOptions::default()
        .compression_method(zip::CompressionMethod::Stored);
    writer.start_file("readme.txt", options).unwrap();
    writer.write_all(b"hello").unwrap();
    writer.start_file("a.npy", options).unwrap();
    writer.write_all(b"array a").unwrap();
    writer.start_file("b.NPY", options).unwrap();
    writer.write_all(b"not this").unwrap();
    writer.start_file("c.npy", options).unwrap();
    writer.write_all(b"array c").unwrap();
    let bytes = writer.finish().unwrap().into_inner();
    assert_eq!(
        load_logitnpz_bytes(&bytes).unwrap(),
        vec![("a".to_string(), b"array a".to_vec()), ("c".to_string(), b"array c".to_vec())]
    );
}

#[test]
fn damaged_member_is_an_error() {
    let mut writer = zip::ZipWriter::new(Cursor::new(Vec::new()));
    let options = zip::write::SimpleFileOptions::default()
        .compression_method(zip::CompressionMethod::Stored);
    writer.start_file("a.npy", options).unwrap();
    writer.write_all(b"0123456789").unwrap();
    let mut bytes = writer.finish().unwrap().into_inner();
    let at = bytes.windows(10).position(|w| w == b"0123456789").unwrap();
    bytes[at] = b'X';
    match load_logitnpz_bytes(&bytes) {
        Err(e @ LogitNpzError::IoError(_)) => {
            assert!(e.message().unwrap().starts_with("IO error: "));
        }
        other => panic!("{other:?}"),
    }
}

#[test]
fn messages() {
    assert_eq!(
        LogitNpzError::InvalidFormat("path must be a string".to_string()).message(),
        Some("Invalid format: path must be a string".to_string())
    );
    assert_eq!(
        LogitNpzError::NumpyNotAvailable.message(),
        Some("numpy is not available".to_string())
    );
    assert_eq!(LogitNpzError::PythonError.message(), None);
    let io = std::io::Error::new(std::io::ErrorKind::Other, "boom");
    assert_eq!(LogitNpzError::from(io).message(), Some("IO error: boom".to_string()));
    let zip = zip::result::ZipError::FileNotFound;
    assert_eq!(
        LogitNpzError::from(zip).message(),
        Some("Zip error: specified file not found in archive".to_string())
    );
}

#[test]
fn conversions_keep_the_error() {
    let io = std::io::Error::new(std::io::ErrorKind::NotFound, "gone");
    match LogitNpzError::from(io) {
        LogitNpzError::IoError(e) => assert_eq!(e.kind(), std::io::ErrorKind::NotFound),
        other => panic!("{other:?}"),
    }
    match LogitNpzError::from(zip::result::ZipError::InvalidPassword) {
        LogitNpzError::ZipError(zip::result::ZipError::InvalidPassword) => {}
        other => panic!("{other:?}"),
    }
}

#[test]
fn compression_level_defaults_to_three() {
    assert_eq!(DEFAULT_COMPRESSION_LEVEL, 3);
    assert_eq!(resolve_compression_level(None, &[]), 3);
}

#[test]
fn compression_level_keyword_wins_over_position() {
    let kw = |name: &str, v: Option<i64>| (name.to_string(), v);
    assert_eq!(resolve_compression_level(Some(7), &[]), 7);
    assert_eq!(resolve_compression_level(Some(7), &[kw("compression_level", Some(9))]), 9);
    assert_eq!(resolve_compression_level(None, &[kw("compression_level", Some(9))]), 9);
    // a keyword that holds no integer is passed over
    assert_eq!(resolve_compression_level(Some(7), &[kw("compression_level", None)]), 7);
    assert_eq!(resolve_compression_level(None, &[kw("compression_level", None)]), 3);
    // other keywords do not count
    assert_eq!(resolve_compression_level(Some(7), &[kw("level", Some(1))]), 7);
    assert_eq!(
        resolve_compression_level(
            None,
            &[kw("a", Some(1)), kw("compression_level", Some(2)), kw("b", Some(4))]
        ),
        2
    );
    assert_eq!(
        resolve_compression_level(
            None,
            &[kw("compression_level", Some(2)), kw("compression_level", Some(4))]
        ),
        4
    );
}

#[test]
fn builder_adds_members_one_by_one() {
    let builder = ArchiveBuilder::new(3);
    let builder = builder.add("a", b"first").unwrap();
    let builder = builder.add("b", b"").unwrap();
    let bytes = builder.finish().unwrap();
    assert_eq!(
        load_logitnpz_bytes(&bytes).unwrap(),
        vec![("a".to_string(), b"first".to_vec()), ("b".to_string(), vec![])]
    );
    // the same members through the one call
    let arrays = vec![("a".to_string(), b"first".to_vec()), ("b".to_string(), vec![])];
    assert_eq!(save_logitnpz_bytes(&arrays, 3).unwrap(), bytes);
}

#[test]
fn builder_refuses_a_key_twice_and_a_level_out_of_range() {
    let builder = ArchiveBuilder::new(3).add("a", b"1").unwrap();
    assert!(matches!(builder.add("a", b"2"), Err(LogitNpzError::ZipError(_))));
    assert!(matches!(ArchiveBuilder::new(99).add("a", b"1"), Err(LogitNpzError::ZipError(_))));
    // without members the level is never looked at
    assert!(ArchiveBuilder::new(99).finish().is_ok());
}

#[test]
fn reader_hands_out_arrays_by_index() {
    let mut writer = zip::ZipWriter::new(Cursor::new(Vec::new()));
    let options = zip::write::SimpleFileOptions::default()
        .compression_method(zip::CompressionMethod::Stored);
    writer.start_file("notes.txt", options).unwrap();
    writer.write_all(b"hello").unwrap();
    writer.start_file("a.npy", options).unwrap();
    writer.write_all(b"array a").unwrap();
    let bytes = writer.finish().unwrap().into_inner();
    let mut reader = ArchiveReader::open(&bytes).unwrap();
    assert_eq!(reader.len(), 2);
    assert_eq!(reader.array(0).unwrap(), None);
    assert_eq!(reader.array(1).unwrap(), Some(("a".to_string(), b"array a".to_vec())));
    // reading again gives the same
    assert_eq!(reader.array(1).unwrap(), Some(("a".to_string(), b"array a".to_vec())));
    assert!(matches!(reader.array(2), Err(LogitNpzError::ZipError(_))));
    assert_eq!(reader.len(), 2);
    assert!(matches!(ArchiveReader::open(b"junk"), Err(LogitNpzError::ZipError(_))));
}

#[test]
fn key_at_the_limit_is_archived() {
    assert_eq!(NAME_LIMIT, 65535);
    assert_eq!(KEY_BYTES_LIMIT, 65531);
    let key = "k".repeat(KEY_BYTES_LIMIT);
    assert_eq!(array_member_name(&key).len(), NAME_LIMIT);
    let arrays = vec![(key, vec![1, 2, 3])];
    let bytes = save_logitnpz_bytes(&arrays, 3).unwrap();
    assert_eq!(load_logitnpz_bytes(&bytes).unwrap(), arrays);
}

#[test]
fn key_over_the_limit_is_refused() {
    for len in [KEY_BYTES_LIMIT + 1, KEY_BYTES_LIMIT + 4, 70000, 200000] {
        let key = "k".repeat(len);
        match ArchiveBuilder::new(3).add(&key, b"data") {
            Err(e @ LogitNpzError::InvalidFormat(_)) => {
                assert_eq!(e.message(), Some("Invalid format: array key is too long".to_string()));
            }
            Err(other) => panic!("{len}: {other:?}"),
            Ok(_) => panic!("{len}: the key was taken"),
        }
        let arrays = vec![("a".to_string(), vec![1]), (key, vec![2])];
        assert!(matches!(save_logitnpz_bytes(&arrays, 3), Err(LogitNpzError::InvalidFormat(_))));
    }
}

#[test]
fn key_limit_counts_bytes() {
    // 32766 characters of two bytes each: 65532 bytes
    let key: String = "é".repeat(32766);
    assert_eq!(key.len(), KEY_BYTES_LIMIT + 1);
    assert!(matches!(
        ArchiveBuilder::new(3).add(&key, b""),
        Err(LogitNpzError::InvalidFormat(_))
    ));
    // one byte less fits
    let key = format!("{}x", "é".repeat(32765));
    assert_eq!(key.len(), KEY_BYTES_LIMIT);
    let bytes = ArchiveBuilder::new(3).add(&key, b"d").unwrap().finish().unwrap();
    assert_eq!(load_logitnpz_bytes(&bytes).unwrap(), vec![(key, b"d".to_vec())]);
}

#[test]
fn a_long_key_is_refused_before_anything_else() {
    // the level is out of range and a key is there twice, yet the long key decides
    let arrays = vec![
        ("a".to_string(), vec![1]),
        ("a".to_string(), vec![2]),
        ("k".repeat(KEY_BYTES_LIMIT + 1), vec![3]),
    ];
    assert!(matches!(save_logitnpz_bytes(&arrays, 99), Err(LogitNpzError::InvalidFormat(_))));
}

#[test]
fn zstd_levels_end_where_the_constants_say() {
    assert_eq!(ZSTD_MIN_LEVEL, -131072);
    assert_eq!(ZSTD_MAX_LEVEL, 22);
    let arrays = vec![("a".to_string(), b"some data to compress".to_vec())];
    for level in [ZSTD_MIN_LEVEL, ZSTD_MIN_LEVEL + 1, -1, 0, ZSTD_MAX_LEVEL - 1, ZSTD_MAX_LEVEL] {
        let bytes = save_logitnpz_bytes(&arrays, level).unwrap();
        assert_eq!(load_logitnpz_bytes(&bytes).unwrap(), arrays, "level {level}");
    }
    for level in [ZSTD_MIN_LEVEL - 1, ZSTD_MAX_LEVEL + 1, i32::MAX as i64 + 1, i64::MIN] {
        assert!(
            matches!(save_logitnpz_bytes(&arrays, level), Err(LogitNpzError::ZipError(_))),
            "level {level}"
        );
    }
}

#[test]
fn member_that_cannot_be_opened_is_a_zip_error() {
    // a member that is marked as encrypted
    let mut writer = zip::ZipWriter::new(Cursor::new(Vec::new()));
    let options = zip::write::SimpleFileOptions::default()
        .compression_method(zip::CompressionMethod::Stored);
    writer.start_file("a.npy", options).unwrap();
    writer.write_all(b"0123456789").unwrap();
    let mut bytes = writer.finish().unwrap().into_inner();
    // the flags of the directory entry: 8 bytes behind its signature
    let at = bytes.windows(4).position(|w| w == b"PK\x01\x02").unwrap();
    bytes[at + 8] |= 1;
    let mut reader = ArchiveReader::open(&bytes).unwrap();
    assert_eq!(reader.len(), 1);
    assert!(matches!(reader.array(0), Err(LogitNpzError::ZipError(_))));
    assert!(matches!(load_logitnpz_bytes(&bytes), Err(LogitNpzError::ZipError(_))));
}
