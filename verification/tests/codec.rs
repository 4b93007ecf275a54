use fastgmad::conf::{CreateGmaConfig, ExtractGmaConfig};
use fastgmad::create::{create_gma, discover_entries, AddonMetadata, FileMeta};
use fastgmad::error::GmaError;
use fastgmad::create::{write_gma_head, GmaFileEntry};
use fastgmad::extract::{extract_gma, parse_gma, GmaEntry};

fn conf(warn_invalid: bool) -> CreateGmaConfig {
    let mut c = CreateGmaConfig::default();
    c.warn_invalid = warn_invalid;
    c
}

fn meta(title: &str, json: &str, ignore: &[&str]) -> AddonMetadata {
    AddonMetadata {
        title: title.to_string(),
        ignore: ignore.iter().map(|s| s.to_string()).collect(),
        json: json.to_string(),
    }
}

fn files_of(list: &[(&str, &[u8])]) -> (Vec<FileMeta>, Vec<Vec<u8>>) {
    let files = list
        .iter()
        .map(|(p, b)| FileMeta { relative_path: p.to_string(), size: b.len() as u64 })
        .collect();
    let payloads = list.iter().map(|(_, b)| b.to_vec()).collect();
    (files, payloads)
}

fn push_nul_str(out: &mut Vec<u8>, s: &[u8]) {
    out.extend_from_slice(s);
    out.push(0);
}

/// The container of S1, written out by hand from the format description.
fn minimal_expected(timestamp: u64) -> Vec<u8> {
    let mut v = Vec::new();
    v.extend_from_slice(b"GMAD");
    v.push(3);
    v.extend_from_slice(&[0u8; 8]);
    v.extend_from_slice(&timestamp.to_le_bytes());
    v.push(0);
    push_nul_str(&mut v, b"t");
    push_nul_str(&mut v, b"{\"title\":\"t\"}");
    v.push(0);
    v.extend_from_slice(&[1, 0, 0, 0]);
    // index: one entry, then the zero terminator
    v.extend_from_slice(&1u32.to_le_bytes());
    push_nul_str(&mut v, b"lua/a.lua");
    v.extend_from_slice(&1i64.to_le_bytes());
    v.extend_from_slice(&[0u8; 4]);
    v.extend_from_slice(&0u32.to_le_bytes());
    // payload
    v.push(b'x');
    v
}

#[test]
fn test_minimal_create_bytes() {
    let json = "{\"title\":\"t\"}";
    let (files, payloads) = files_of(&[("addon.json", json.as_bytes()), ("lua/a.lua", b"x")]);
    let out = create_gma(&conf(false), &meta("t", json, &[]), &files, &payloads, 1234567890)
        .unwrap();
    assert_eq!(out, minimal_expected(1234567890));
}

#[test]
fn test_ignore_rule_excludes_files() {
    let json = "{\"title\":\"t\",\"ignore\":[\"lua/b.*\"]}";
    let (files, payloads) = files_of(&[
        ("addon.json", json.as_bytes()),
        ("lua/a.lua", b"A"),
        ("lua/b.lua", b"B"),
    ]);
    let out =
        create_gma(&conf(false), &meta("t", json, &["lua/b.*"]), &files, &payloads, 0).unwrap();
    let parsed = parse_gma(&out).unwrap();
    assert_eq!(parsed.entries.len(), 1);
    assert_eq!(parsed.entries[0].path, b"lua/a.lua".to_vec());
    assert!(!out.windows(1).any(|w| w == b"B"));
}

#[test]
fn test_whitelist_rejection() {
    let json = "{\"title\":\"t\"}";
    let (files, payloads) = files_of(&[("addon.json", json.as_bytes()), ("lua/a.exe", b"E")]);
    let err = create_gma(&conf(false), &meta("t", json, &[]), &files, &payloads, 0).unwrap_err();
    match err {
        GmaError::EntryNotWhitelisted { relative_path } => {
            assert_eq!(relative_path, "lua/a.exe");
        }
        other => panic!("unexpected error: {:?}", other),
    }

    // with warnings enabled the file is dropped and creation succeeds
    let out = create_gma(&conf(true), &meta("t", json, &[]), &files, &payloads, 0).unwrap();
    let parsed = parse_gma(&out).unwrap();
    assert_eq!(parsed.entries.len(), 0);
}

#[test]
fn test_round_trip() {
    let json = "{\"title\":\"round\"}";
    let contents: Vec<(String, Vec<u8>)> = (0..25)
        .map(|i| {
            (
                format!("lua/file{:02}.lua", i),
                (0..((i * 37) % 256 + 3)).map(|j| ((i * 13 + j * 7) % 256) as u8).collect(),
            )
        })
        .collect();
    let mut list: Vec<(&str, &[u8])> = vec![("addon.json", json.as_bytes())];
    for (p, b) in &contents {
        list.push((p.as_str(), b.as_slice()));
    }
    let (files, payloads) = files_of(&list);
    let out = create_gma(&conf(false), &meta("round", json, &[]), &files, &payloads, 42).unwrap();

    let x = extract_gma(&ExtractGmaConfig::default(), &out).unwrap();
    assert_eq!(x.version, 3);
    assert_eq!(x.title, b"round".to_vec());
    assert_eq!(x.description, json.as_bytes().to_vec());
    assert_eq!(x.entries.len(), contents.len());
    for (i, (p, b)) in contents.iter().enumerate() {
        assert_eq!(x.entries[i].path.as_ref().unwrap(), &p.as_bytes().to_vec());
        assert_eq!(&x.entries[i].bytes, b);
    }

    // file numbers are 1..=N in encounter order
    let parsed = parse_gma(&out).unwrap();
    for (i, e) in parsed.entries.iter().enumerate() {
        assert_eq!(e.num, (i + 1) as u32);
    }

    // sum of declared sizes equals the bytes after the index
    let total: u64 = parsed.entries.iter().map(|e| e.size as u64).sum();
    assert_eq!(total, (out.len() - parsed.payload_start) as u64);
}

#[test]
fn test_magic_and_version() {
    let json = "{\"title\":\"t\"}";
    let (files, payloads) = files_of(&[("addon.json", json.as_bytes())]);
    let out = create_gma(&conf(false), &meta("t", json, &[]), &files, &payloads, 7).unwrap();
    assert_eq!(&out[0..4], b"GMAD");
    assert_eq!(out[4], 3);
}

#[test]
fn test_invalid_magic() {
    assert!(matches!(parse_gma(b"GMBD****************"), Err(GmaError::InvalidMagic)));
    assert!(matches!(parse_gma(b"GM"), Err(GmaError::InvalidMagic)));
    assert!(matches!(parse_gma(b""), Err(GmaError::InvalidMagic)));
}

#[test]
fn test_truncated_header() {
    // good magic, then nothing: every further read hits the end
    let r = parse_gma(b"GMAD");
    assert!(matches!(r, Err(GmaError::UnexpectedEof { .. })));
    let r2 = parse_gma(b"GMAD\x03\0\0\0\0\0\0\0\0");
    assert!(matches!(r2, Err(GmaError::UnexpectedEof { .. })));
}

fn crafted(path: &[u8], size: i64, payload: &[u8]) -> Vec<u8> {
    let mut v = Vec::new();
    v.extend_from_slice(b"GMAD");
    v.push(3);
    v.extend_from_slice(&[0u8; 16]);
    v.push(0); // end of required content
    push_nul_str(&mut v, b"title");
    push_nul_str(&mut v, b"desc");
    v.push(0); // author
    v.extend_from_slice(&[1, 0, 0, 0]);
    v.extend_from_slice(&1u32.to_le_bytes());
    push_nul_str(&mut v, path);
    v.extend_from_slice(&size.to_le_bytes());
    v.extend_from_slice(&[0u8; 4]);
    v.extend_from_slice(&0u32.to_le_bytes());
    v.extend_from_slice(payload);
    v
}

#[test]
fn test_traversal_guard() {
    // a crafted entry trying to climb out of the output directory is
    // skipped: no target path, though its bytes are still consumed
    let data = crafted(b"../escape.lua", 4, b"evil");
    let x = extract_gma(&ExtractGmaConfig::default(), &data).unwrap();
    assert_eq!(x.entries.len(), 1);
    assert!(x.entries[0].path.is_none());
    assert_eq!(x.entries[0].bytes, b"evil".to_vec());

    let abs = crafted(b"/etc/escape.lua", 1, b"e");
    let xa = extract_gma(&ExtractGmaConfig::default(), &abs).unwrap();
    assert!(xa.entries[0].path.is_none());

    let inner = crafted(b"lua/a/../../../up.lua", 1, b"e");
    let xi = extract_gma(&ExtractGmaConfig::default(), &inner).unwrap();
    assert!(xi.entries[0].path.is_none());

    let dotted_name = crafted(b"lua/..hidden.lua", 1, b"e");
    let xd = extract_gma(&ExtractGmaConfig::default(), &dotted_name).unwrap();
    assert!(xd.entries[0].path.is_some());
}

#[test]
fn test_negative_entry_size() {
    let data = crafted(b"lua/a.lua", -5, b"");
    let r = extract_gma(&ExtractGmaConfig::default(), &data);
    assert!(matches!(r, Err(GmaError::NegativeEntrySize { size: -5 })));
}

#[test]
fn test_gma_entry_new() {
    assert!(matches!(
        GmaEntry::new(b"lua/a.lua".to_vec(), -1),
        Err(GmaError::NegativeEntrySize { size: -1 })
    ));
    let ok = GmaEntry::new(b"lua/a.lua".to_vec(), 9).unwrap();
    assert_eq!(ok.size, 9);
    assert_eq!(ok.path.unwrap(), b"lua/a.lua".to_vec());
    let dotdot = GmaEntry::new(b"../x".to_vec(), 1).unwrap();
    assert!(dotdot.path.is_none());
    assert_eq!(dotdot.size, 1);
}

#[test]
fn test_short_payload_is_clamped() {
    // the payload region ends before the declared size: the entry gets
    // what is there, as a sequential reader would
    let data = crafted(b"lua/a.lua", 10, b"abc");
    let x = extract_gma(&ExtractGmaConfig::default(), &data).unwrap();
    assert_eq!(x.entries[0].size, 10);
    assert_eq!(x.entries[0].bytes, b"abc".to_vec());
}

#[test]
fn test_old_version_accepted() {
    // version 1 has no required-content block
    let mut v = Vec::new();
    v.extend_from_slice(b"GMAD");
    v.push(1);
    v.extend_from_slice(&[0u8; 16]);
    push_nul_str(&mut v, b"old title");
    push_nul_str(&mut v, b"old desc");
    v.push(0);
    v.extend_from_slice(&[1, 0, 0, 0]);
    v.extend_from_slice(&0u32.to_le_bytes());
    let p = parse_gma(&v).unwrap();
    assert_eq!(p.version, 1);
    assert_eq!(p.title, b"old title".to_vec());
    assert_eq!(p.entries.len(), 0);
}

#[test]
fn test_discover_offsets() {
    let (files, _payloads) = files_of(&[
        ("lua/a.lua", b"aaaa"),
        ("lua/b.lua", b"bb"),
        ("lua/c.lua", b"c"),
    ]);
    let entries = discover_entries(&files, &[], false).unwrap();
    assert_eq!(entries.len(), 3);
    assert_eq!(entries[0].offset, 0);
    assert_eq!(entries[1].offset, 4);
    assert_eq!(entries[2].offset, 6);
    assert_eq!(entries[0].file_index, 0);
    assert_eq!(entries[2].relative_path, "lua/c.lua");
}

#[test]
fn test_entry_too_large_for_size_field() {
    let entries = vec![GmaFileEntry {
        file_index: 0,
        relative_path: "lua/a.lua".to_string(),
        size: u64::MAX,
        offset: 0,
    }];
    let r = write_gma_head("t", "{}", 0, &entries);
    match r {
        Err(GmaError::EntryTooLarge { relative_path }) => {
            assert_eq!(relative_path, "lua/a.lua");
        }
        _ => panic!("expected EntryTooLarge"),
    }
}

#[test]
fn test_discover_offset_overflow() {
    let files = vec![
        FileMeta { relative_path: "lua/a.lua".to_string(), size: u64::MAX - 1 },
        FileMeta { relative_path: "lua/b.lua".to_string(), size: 2 },
    ];
    let r = discover_entries(&files, &[], false);
    match r {
        Err(GmaError::EntryTooLarge { relative_path }) => {
            assert_eq!(relative_path, "lua/b.lua");
        }
        other => panic!("unexpected result: {:?}", other.map(|v| v.len())),
    }
}
