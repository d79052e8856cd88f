use sonar_core::ann::Flat;
use sonar_core::codec::{
    read_blob, read_u32, write_blob, write_bytes, write_u32, write_u64, Reader,
};
use sonar_core::error::SonarError;
use sonar_core::groups::{count_languages, group_by_file, group_by_language};
use sonar_core::index::related_chunks;
use sonar_core::keyed::StringMap;
use sonar_core::listing::{list_files, sort_by_path, FileStamp, MetFile};
use sonar_core::persist::{
    compute_content_hash, default_cache_path, encode_index, read_body, read_header, read_vectors,
    write_listing,
};
use sonar_core::scores::score_hits;
use sonar_core::text::{is_blank, same_text, to_decimal};
use sonar_core::types::{Chunk, Hit};

fn stamp(path: &str, modified: u64) -> FileStamp {
    FileStamp {
        path: path.to_string(),
        modified,
    }
}

fn chunk(path: &str, line: usize, language: Option<&str>) -> Chunk {
    Chunk {
        content: format!("text of {path} {line}"),
        file_path: path.to_string(),
        start_line: line,
        end_line: line,
        language: language.map(|l| l.to_string()),
    }
}

fn vectors(rows: &[&[f32]]) -> Flat {
    Flat::new(
        rows.iter()
            .map(|row| row.iter().map(|f| f.to_bits()).collect())
            .collect(),
    )
}

#[test]
fn integers_are_little_endian() {
    let mut buf: Vec<u8> = Vec::new();
    write_u32(&mut buf, 0x1234_5678);
    assert_eq!(buf, vec![0x78, 0x56, 0x34, 0x12]);
    let mut wide: Vec<u8> = Vec::new();
    write_u64(&mut wide, 0x0102_0304_0506_0708);
    assert_eq!(wide, 0x0102_0304_0506_0708u64.to_le_bytes().to_vec());
    let mut reader = Reader::new(&buf);
    assert_eq!(read_u32(&mut reader).unwrap(), 0x1234_5678);
    assert_eq!(reader.remaining(), 0);
    assert!(matches!(read_u32(&mut reader), Err(SonarError::Truncated)));
}

#[test]
fn blobs_read_back() {
    let mut buf: Vec<u8> = Vec::new();
    write_blob(&mut buf, b"abc");
    write_blob(&mut buf, b"");
    write_bytes(&mut buf, &[9]);
    assert_eq!(buf, vec![3, 0, 0, 0, b'a', b'b', b'c', 0, 0, 0, 0, 9]);
    let mut reader = Reader::new(&buf);
    assert_eq!(read_blob(&mut reader).unwrap(), b"abc".to_vec());
    assert_eq!(read_blob(&mut reader).unwrap(), Vec::<u8>::new());
    assert_eq!(reader.remaining(), 1);
    let cut = [3u8, 0, 0, 0, b'a', b'b'];
    assert!(matches!(
        read_blob(&mut Reader::new(&cut)),
        Err(SonarError::Truncated)
    ));
}

#[test]
fn texts() {
    assert!(is_blank("") && is_blank(" \n\u{85}\u{1680}") && !is_blank(" a "));
    assert!(same_text("é", "é") && !same_text("a", "b") && !same_text("a", "ab"));
    assert_eq!(to_decimal(0), "0");
    assert_eq!(
        to_decimal(u128::MAX),
        "340282366920938463463374607431768211455"
    );
}

#[test]
fn listings_sort_by_the_bytes_of_their_paths() {
    let entries = vec![
        stamp("b", 1),
        stamp("é", 2),
        stamp("a/b", 3),
        stamp("a", 4),
        stamp("Z", 5),
        stamp("b", 6),
        stamp("", 7),
        stamp("a.b", 8),
    ];
    let mut expected: Vec<(String, u64)> =
        entries.iter().map(|e| (e.path.clone(), e.modified)).collect();
    expected.sort_by(|a, b| a.0.cmp(&b.0));
    let sorted: Vec<(String, u64)> = sort_by_path(&entries)
        .iter()
        .map(|e| (e.path.clone(), e.modified))
        .collect();
    assert_eq!(sorted, expected);
    assert_eq!(sorted[0].0, "");
    assert_eq!(sorted[5..7], [("b".to_string(), 1), ("b".to_string(), 6)]);
}

#[test]
fn content_hash_of_no_files() {
    assert_eq!(
        compute_content_hash(&Vec::new()).unwrap(),
        "af1349b9f5f9a1a6a0404dea36dcc9499bcb25c9adc112b7cc9a93cae41f3262"
    );
}

#[test]
fn content_hash_covers_paths_and_times() {
    let listing = vec![stamp("b.rs", 7), stamp("a.rs", 1)];
    let hash = compute_content_hash(&listing).unwrap();
    let mut bytes: Vec<u8> = Vec::new();
    bytes.extend_from_slice(b"a.rs");
    bytes.extend_from_slice(&1u64.to_le_bytes());
    bytes.extend_from_slice(b"b.rs");
    bytes.extend_from_slice(&7u64.to_le_bytes());
    assert_eq!(write_listing(&listing), bytes);
    assert_eq!(hash, blake3::hash(&bytes).to_hex().to_string());
    assert_eq!(hash.len(), 64);
    let other = compute_content_hash(&vec![stamp("b.rs", 8), stamp("a.rs", 1)]).unwrap();
    assert_ne!(hash, other);
}

#[test]
fn content_hash_ignores_the_order_of_the_walk() {
    let a = compute_content_hash(&vec![stamp("x", 1), stamp("y", 2), stamp("z", 3)]).unwrap();
    let b = compute_content_hash(&vec![stamp("z", 3), stamp("x", 1), stamp("y", 2)]).unwrap();
    assert_eq!(a, b);
}

#[test]
fn every_change_of_a_listing_changes_what_is_hashed() {
    let before = vec![stamp("x", 1), stamp("y", 2)];
    let added = vec![stamp("y", 2), stamp("extra", 2), stamp("x", 1)];
    let retimed = vec![stamp("x", 1), stamp("y", 3)];
    assert!(write_listing(&added).len() > write_listing(&before).len());
    assert_eq!(write_listing(&retimed).len(), write_listing(&before).len());
    assert_ne!(write_listing(&retimed), write_listing(&before));
    let hash = |listing: &Vec<FileStamp>| compute_content_hash(listing).unwrap();
    assert_ne!(hash(&added), hash(&before));
    assert_ne!(hash(&retimed), hash(&before));
}

#[test]
fn files_in_directories_that_are_not_entered_do_not_count() {
    let met = |directories: &[&str], path: &str, modified: u64| MetFile {
        directories: directories.iter().map(|d| d.to_string()).collect(),
        stamp: stamp(path, modified),
    };
    let plain = || {
        vec![
            met(&["p"], "a.rs", 1),
            met(&["p", "src"], "src/b.rs", 2),
        ]
    };
    let mut more = plain();
    more.insert(1, met(&["p", ".sonar"], ".sonar/index.bin", 9));
    more.push(met(&["p", "src", "target", "debug"], "src/target/debug/c.rs", 3));
    more.push(met(&["p", "node_modules"], "node_modules/d.js", 4));
    let listing = list_files(more);
    let paths: Vec<&str> = listing.iter().map(|e| e.path.as_str()).collect();
    assert_eq!(paths, vec!["a.rs", "src/b.rs"]);
    assert_eq!(
        compute_content_hash(&listing).unwrap(),
        compute_content_hash(&list_files(plain())).unwrap()
    );
    assert!(list_files(vec![met(&[".hidden"], "a.rs", 1)]).is_empty());
    assert_eq!(list_files(vec![met(&["."], "a.rs", 1)]).len(), 1);
}

#[test]
fn cache_paths() {
    assert_eq!(default_cache_path("/p"), "/p/.sonar/index.bin");
    assert_eq!(default_cache_path("/p/"), "/p/.sonar/index.bin");
    assert_eq!(default_cache_path("."), "./.sonar/index.bin");
    assert_eq!(default_cache_path(""), ".sonar/index.bin");
}

#[test]
fn cache_file_layout() {
    let flat = vectors(&[&[1.0, -2.0], &[0.5, 0.0]]);
    let bytes = encode_index("h", b"[]", b"[[]]", Some(&flat));
    let mut expected: Vec<u8> = b"SONR".to_vec();
    expected.extend_from_slice(&2u32.to_le_bytes());
    expected.extend_from_slice(&1u32.to_le_bytes());
    expected.extend_from_slice(b"h");
    expected.extend_from_slice(&2u32.to_le_bytes());
    expected.extend_from_slice(b"[]");
    expected.extend_from_slice(&4u32.to_le_bytes());
    expected.extend_from_slice(b"[[]]");
    expected.push(1);
    expected.extend_from_slice(&2u32.to_le_bytes());
    expected.extend_from_slice(&16u32.to_le_bytes());
    for f in [1.0f32, -2.0, 0.5, 0.0] {
        expected.extend_from_slice(&f.to_le_bytes());
    }
    assert_eq!(bytes, expected);

    let plain = encode_index("h", b"[]", b"[[]]", None);
    assert_eq!(plain[..plain.len() - 1], expected[..plain.len() - 1]);
    assert_eq!(plain[plain.len() - 1], 0);
    let empty = encode_index("h", b"[]", b"[[]]", Some(&vectors(&[])));
    assert_eq!(empty, plain);
}

#[test]
fn headers_read_back() {
    let bytes = encode_index("häsh", b"chunks", b"docs", None);
    let mut header = match read_header(&bytes) {
        Ok(header) => header,
        Err(e) => panic!("{}", e.message()),
    };
    assert_eq!(header.content_hash, "häsh");
    assert_eq!(header.chunks_json, b"chunks".to_vec());
    assert_eq!(read_blob(&mut header.rest).unwrap(), b"docs".to_vec());
    assert_eq!(header.rest.remaining(), 1);
}

#[test]
fn broken_headers_are_refused() {
    let refused = |data: &[u8]| match read_header(data) {
        Ok(_) => panic!("accepted"),
        Err(e) => e,
    };
    assert!(matches!(refused(b"SON"), SonarError::MagicTruncated));
    assert_eq!(
        refused(b"").message(),
        "read magic: failed to fill whole buffer"
    );
    assert_eq!(
        refused(b"SONr").message(),
        "invalid magic bytes: expected SONR, got [83, 79, 78, 114]"
    );
    assert!(matches!(refused(b"SONR\x02\0\0"), SonarError::Truncated));
    assert_eq!(
        refused(b"SONR\x01\0\0\0").message(),
        "unsupported index version: expected 2, got 1"
    );
    assert_eq!(
        refused(b"SONR\x02\0\0\0\x05\0\0\0ab").message(),
        "read error: failed to fill whole buffer"
    );
    assert_eq!(
        refused(b"SONR\x02\0\0\0\x02\0\0\0\xc3\x28\0\0\0\0").message(),
        "invalid hash string: invalid utf-8 sequence of 1 bytes from index 0"
    );
    assert!(matches!(
        refused(b"SONR\x02\0\0\0\x01\0\0\0a\x01\0\0\0"),
        SonarError::Truncated
    ));
}

#[test]
fn vector_sections_read_back() {
    let flat = vectors(&[&[1.5, 2.5, -0.0], &[f32::MAX, f32::MIN_POSITIVE, 3.0]]);
    let bytes = encode_index("", b"", b"[]", Some(&flat));
    let mut header = match read_header(&bytes) {
        Ok(header) => header,
        Err(e) => panic!("{}", e.message()),
    };
    let body = match read_body(&mut header.rest, 2) {
        Ok(body) => body,
        Err(e) => panic!("{}", e.message()),
    };
    assert_eq!(body.documents, Vec::<Vec<String>>::new());
    assert_eq!(body.vectors.as_ref(), Some(flat.vecs()));
}

#[test]
fn vector_sections_of_other_shapes() {
    let read = |data: &[u8], count: usize| read_vectors(&mut Reader::new(data), count);
    assert!(matches!(read(b"", 3), Ok(None)));
    assert!(matches!(read(&[0], 3), Ok(None)));
    assert!(matches!(read(&[2, 9, 9], 3), Ok(None)));
    assert!(matches!(read(&[1], 3), Err(SonarError::Truncated)));
    assert!(matches!(read(&[1, 1, 0, 0, 0], 3), Err(SonarError::Truncated)));
    let one = [1u8, 1, 0, 0, 0, 4, 0, 0, 0, 0, 0, 0x80, 0x3f, 7];
    assert_eq!(read(&one, 1).unwrap(), Some(vec![vec![1.0f32.to_bits()]]));
    match read(&one, 3) {
        Err(e) => assert_eq!(
            e.message(),
            "embedding size mismatch: expected 12 bytes, got 4"
        ),
        Ok(_) => panic!("accepted"),
    }
    let none = [1u8, 5, 0, 0, 0, 0, 0, 0, 0];
    assert_eq!(read(&none, 0).unwrap(), Some(Vec::new()));
    let flat_rows = [1u8, 0, 0, 0, 0, 0, 0, 0, 0];
    assert_eq!(read(&flat_rows, 2).unwrap(), Some(vec![Vec::new(), Vec::new()]));
}

#[test]
fn documents_come_through_json() {
    let mut data: Vec<u8> = Vec::new();
    write_blob(&mut data, b"[[\"fn\", \"m\\u00e4in\"], []]");
    let body = match read_body(&mut Reader::new(&data), 2) {
        Ok(body) => body,
        Err(e) => panic!("{}", e.message()),
    };
    assert_eq!(
        body.documents,
        vec![vec!["fn".to_string(), "mäin".to_string()], Vec::new()]
    );
    assert!(body.vectors.is_none());

    let mut broken: Vec<u8> = Vec::new();
    write_blob(&mut broken, b"[[1]]");
    let reason = serde_json::from_slice::<Vec<Vec<String>>>(b"[[1]]")
        .err()
        .map(|e| e.to_string())
        .unwrap();
    match read_body(&mut Reader::new(&broken), 2) {
        Err(e) => assert_eq!(e.message(), format!("deserialize documents: {reason}")),
        Ok(_) => panic!("accepted"),
    }
    assert!(matches!(
        read_body(&mut Reader::new(&[1]), 2),
        Err(SonarError::Truncated)
    ));
}

#[test]
fn messages_of_the_other_errors() {
    let text = || "x".to_string();
    assert_eq!(
        SonarError::PathMissing { path: text() }.message(),
        "Path does not exist: x"
    );
    assert_eq!(
        SonarError::NotADirectory { path: text() }.message(),
        "Path is not a directory: x"
    );
    assert_eq!(
        SonarError::NoSupportedFiles { path: text() }.message(),
        "No supported files found under x"
    );
    assert_eq!(SonarError::NoChunks.message(), "No chunks produced from files");
    assert_eq!(
        SonarError::ChunksNotParsed { reason: text() }.message(),
        "deserialize chunks: x"
    );
    assert_eq!(
        SonarError::ChunksNotSerialized { reason: text() }.message(),
        "serialize chunks: x"
    );
    assert_eq!(
        SonarError::DocumentsNotSerialized { reason: text() }.message(),
        "serialize documents: x"
    );
}

#[test]
fn string_maps() {
    let map = StringMap::<Vec<usize>>::new();
    assert_eq!(map.len(), 0);
    let map = map.push_to("b", 1).push_to("a", 2).push_to("b", 3);
    assert_eq!(map.len(), 2);
    assert_eq!(map.get("b"), Some(&vec![1, 3]));
    assert_eq!(map.get("c"), None);
    assert!(map.contains_key("a") && !map.contains_key(""));
    let map = map.put("b", vec![]);
    assert_eq!(map.get("b"), Some(&vec![]));
    let keys: Vec<String> = map.entries().iter().map(|e| e.0.clone()).collect();
    assert_eq!(keys, vec!["b".to_string(), "a".to_string()]);
}

#[test]
fn chunks_are_grouped_by_file_and_language() {
    let chunks = vec![
        chunk("a.rs", 1, Some("rust")),
        chunk("b.txt", 1, None),
        chunk("a.rs", 2, Some("rust")),
        chunk("c.py", 1, Some("python")),
    ];
    let files = group_by_file(&chunks);
    assert_eq!(files.len(), 3);
    assert_eq!(files.get("a.rs"), Some(&vec![0, 2]));
    assert_eq!(files.get("b.txt"), Some(&vec![1]));
    let languages = group_by_language(&chunks);
    assert_eq!(languages.len(), 2);
    assert_eq!(languages.get("rust"), Some(&vec![0, 2]));
    let counts = count_languages(&chunks);
    for (language, group) in languages.entries() {
        assert_eq!(counts.get(language), Some(&group.len()));
    }
    assert_eq!(counts.len(), 2);
}

#[test]
fn the_last_hit_on_a_chunk_counts() {
    let chunks = vec![
        chunk("a.rs", 1, None),
        chunk("b.rs", 1, None),
        chunk("a.rs", 1, None),
    ];
    let hit = |index: usize, score: f64| Hit {
        index,
        score_bits: score.to_bits(),
    };
    let scores = score_hits(
        &chunks,
        &vec![hit(0, 1.0), hit(1, 2.0), hit(2, 3.0), hit(9, 4.0)],
    );
    assert_eq!(scores.entries().len(), 2);
    for (c, bits) in scores.entries() {
        let expected: f64 = if c.file_path == "a.rs" { 3.0 } else { 2.0 };
        assert_eq!(f64::from_bits(*bits), expected);
    }
}

#[test]
fn a_chunk_is_not_related_to_itself() {
    let chunks: Vec<Chunk> = (0..4).map(|i| chunk("a.rs", i, None)).collect();
    let hits: Vec<Hit> = [2usize, 0, 3, 1]
        .iter()
        .map(|i| Hit {
            index: *i,
            score_bits: *i as u64,
        })
        .collect();
    let lines = |of: &Chunk, top_k: usize| -> Vec<usize> {
        related_chunks(&chunks, &hits, of, top_k)
            .iter()
            .map(|r| r.chunk.start_line)
            .collect()
    };
    assert_eq!(lines(&chunks[0], 3), vec![2, 3, 1]);
    assert_eq!(lines(&chunks[0], 1), vec![2]);
    assert_eq!(lines(&chunks[0], 0), Vec::<usize>::new());
    assert_eq!(lines(&chunk("z.rs", 1, None), 9), vec![2, 0, 3, 1]);
}
