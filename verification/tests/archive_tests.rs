use chunked_backup::entry::{Entry, EntryKind};
use chunked_backup::archive::{archive_all, build_segment, ArchiveFailure, SealedSegment};

fn must_archive(r: Result<Vec<SealedSegment>, ArchiveFailure>) -> Vec<SealedSegment> {
    match r {
        Ok(segs) => segs,
        Err(f) => panic!("archiving must succeed, failed with {:?}", f.error),
    }
}

fn must_fail(r: Result<Vec<SealedSegment>, ArchiveFailure>) -> ArchiveFailure {
    match r {
        Ok(_) => panic!("archiving was expected to fail"),
        Err(f) => f,
    }
}

fn file_entry(name: &str, data: &[u8]) -> Entry {
    Entry { rel_path: name.to_string(), kind: EntryKind::File { data: data.to_vec() } }
}

fn dir_entry(name: &str) -> Entry {
    Entry { rel_path: name.to_string(), kind: EntryKind::Directory }
}

fn member_names(container: &[u8]) -> Vec<String> {
    let cursor = std::io::Cursor::new(container.to_vec());
    let mut archive = zip::ZipArchive::new(cursor).expect("container must parse");
    let mut names = Vec::new();
    for i in 0..archive.len() {
        let member = archive.by_index(i).expect("member must open");
        names.push(member.name().to_string());
    }
    names
}

fn member_data(container: &[u8], name: &str) -> Vec<u8> {
    let cursor = std::io::Cursor::new(container.to_vec());
    let mut archive = zip::ZipArchive::new(cursor).expect("container must parse");
    let mut member = archive.by_name(name).expect("member must exist");
    let mut buf = Vec::new();
    std::io::Read::read_to_end(&mut member, &mut buf).expect("member must read");
    buf
}

#[test]
fn sealed_segment_holds_every_entry_as_a_member_in_order() {
    let entries = vec![
        dir_entry("sub"),
        file_entry("sub/a.txt", b"alpha"),
        file_entry("b.txt", b"beta"),
    ];
    let seg = build_segment(0, &entries).expect("in-memory container must build");
    assert_eq!(seg.index, 0);
    assert_eq!(seg.entry_count, 3);
    let names = member_names(&seg.data);
    assert_eq!(names, vec!["sub/", "sub/a.txt", "b.txt"]);
}

#[test]
fn file_member_contents_round_trip() {
    let entries = vec![file_entry("notes/today.md", b"chunked backup")];
    let seg = build_segment(0, &entries).expect("in-memory container must build");
    assert_eq!(member_data(&seg.data, "notes/today.md"), b"chunked backup".to_vec());
}

#[test]
fn empty_segment_is_a_valid_empty_container() {
    let seg = build_segment(0, &Vec::new()).expect("empty container must build");
    assert_eq!(seg.entry_count, 0);
    assert_eq!(member_names(&seg.data), Vec::<String>::new());
}

#[test]
fn unstorable_member_names_abort_with_the_archive_error() {
    // The container appends the directory slash itself; a name already
    // ending in a separator (or an empty one) cannot be stored faithfully.
    let bad_dir = vec![dir_entry("d/")];
    assert!(build_segment(0, &bad_dir).is_err());
    let empty_name = vec![file_entry("", b"x")];
    assert!(build_segment(0, &empty_name).is_err());
    let failure = must_fail(archive_all(vec![file_entry("ok", b"x"), dir_entry("d\\")], 50));
    assert_eq!(failure.sealed.len(), 0);
}

#[test]
fn sealed_bytes_depend_on_the_file_contents() {
    let a = build_segment(0, &vec![file_entry("f", b"first contents")]).unwrap();
    let b = build_segment(0, &vec![file_entry("f", b"other contents")]).unwrap();
    assert_ne!(a.data, b.data);
    let c = build_segment(0, &vec![file_entry("f", b"first contents")]).unwrap();
    assert_eq!(a.data, c.data);
}

#[test]
fn archive_all_indices_are_contiguous_from_zero() {
    let mut entries = Vec::new();
    for i in 0..120 {
        entries.push(file_entry(&format!("f{}", i), b"x"));
    }
    let segs = must_archive(archive_all(entries, 50));
    assert_eq!(segs.len(), 3);
    for (i, seg) in segs.iter().enumerate() {
        assert_eq!(seg.index, i);
    }
    assert_eq!(segs[0].entry_count, 50);
    assert_eq!(segs[1].entry_count, 50);
    assert_eq!(segs[2].entry_count, 20);
}

#[test]
fn archive_all_of_empty_tree_yields_one_empty_segment() {
    let segs = must_archive(archive_all(Vec::new(), 50));
    assert_eq!(segs.len(), 1);
    assert_eq!(segs[0].index, 0);
    assert_eq!(segs[0].entry_count, 0);
}

#[test]
fn extracting_all_segments_reconstructs_the_relative_path_set() {
    let mut entries = Vec::new();
    let mut expected = Vec::new();
    for i in 0..9 {
        let name = format!("dir{}", i);
        expected.push(format!("{}/", name));
        entries.push(dir_entry(&name));
        let file = format!("dir{}/file{}", i, i);
        expected.push(file.clone());
        entries.push(file_entry(&file, b"data"));
    }
    let segs = must_archive(archive_all(entries, 4));
    assert!(segs.len() > 1);
    let mut recovered = Vec::new();
    for seg in &segs {
        recovered.extend(member_names(&seg.data));
    }
    recovered.sort();
    expected.sort();
    assert_eq!(recovered, expected);
}
