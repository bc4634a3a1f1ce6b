use chunked_backup::entry::{Entry, EntryKind};
use chunked_backup::chunker::chunk_entries;

fn file_entry(name: &str) -> Entry {
    Entry { rel_path: name.to_string(), kind: EntryKind::File { data: Vec::new() } }
}

fn dir_entry(name: &str) -> Entry {
    Entry { rel_path: name.to_string(), kind: EntryKind::Directory }
}

fn file_count(seg: &Vec<Entry>) -> usize {
    seg.iter().filter(|e| e.is_file()).count()
}

#[test]
fn hundred_twenty_files_chunk_fifty_gives_three_segments() {
    let mut entries = Vec::new();
    for i in 0..120 {
        entries.push(file_entry(&format!("f{}.dat", i)));
    }
    let chunks = chunk_entries(entries, 50);
    assert_eq!(chunks.len(), 3);
    assert_eq!(file_count(&chunks[0]), 50);
    assert_eq!(file_count(&chunks[1]), 50);
    assert_eq!(file_count(&chunks[2]), 20);
}

#[test]
fn empty_tree_gives_one_empty_segment() {
    let chunks = chunk_entries(Vec::new(), 50);
    assert_eq!(chunks.len(), 1);
    assert_eq!(chunks[0].len(), 0);
}

#[test]
fn total_entry_count_is_preserved_and_order_kept() {
    let mut entries = Vec::new();
    for i in 0..7 {
        entries.push(dir_entry(&format!("d{}", i)));
        entries.push(file_entry(&format!("d{}/f", i)));
    }
    let names: Vec<String> = entries.iter().map(|e| e.rel_path.clone()).collect();
    let chunks = chunk_entries(entries, 3);
    let total: usize = chunks.iter().map(|c| c.len()).sum();
    assert_eq!(total, 14);
    let flat: Vec<String> = chunks.iter().flatten().map(|e| e.rel_path.clone()).collect();
    assert_eq!(flat, names);
}

#[test]
fn directory_entries_do_not_open_a_new_segment() {
    // Two files fill the segment; trailing directory markers stay in it, and
    // only the next file starts the next segment.
    let entries = vec![
        file_entry("a"),
        file_entry("b"),
        dir_entry("d1"),
        dir_entry("d2"),
        file_entry("c"),
    ];
    let chunks = chunk_entries(entries, 2);
    assert_eq!(chunks.len(), 2);
    let first: Vec<&str> = chunks[0].iter().map(|e| e.rel_path.as_str()).collect();
    assert_eq!(first, vec!["a", "b", "d1", "d2"]);
    let second: Vec<&str> = chunks[1].iter().map(|e| e.rel_path.as_str()).collect();
    assert_eq!(second, vec!["c"]);
}

#[test]
fn rerun_on_same_entries_gives_identical_member_lists() {
    let build = || {
        let mut entries = Vec::new();
        for i in 0..11 {
            entries.push(file_entry(&format!("f{}", i)));
        }
        entries
    };
    let a: Vec<Vec<String>> = chunk_entries(build(), 4)
        .iter()
        .map(|c| c.iter().map(|e| e.rel_path.clone()).collect())
        .collect();
    let b: Vec<Vec<String>> = chunk_entries(build(), 4)
        .iter()
        .map(|c| c.iter().map(|e| e.rel_path.clone()).collect())
        .collect();
    assert_eq!(a, b);
    assert_eq!(a.len(), 3);
}
