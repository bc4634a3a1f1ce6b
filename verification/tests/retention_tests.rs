use chunked_backup::retention::{has_archive_extension, plan_sweep, StagedFile, SECONDS_PER_DAY};

fn staged(name: &str, age_days: u64) -> StagedFile {
    StagedFile { name: name.to_string(), age_seconds: age_days * SECONDS_PER_DAY }
}

fn apply_plan(files: Vec<StagedFile>, plan: &[usize]) -> Vec<StagedFile> {
    files
        .into_iter()
        .enumerate()
        .filter(|(i, _)| !plan.contains(i))
        .map(|(_, f)| f)
        .collect()
}

#[test]
fn sweep_removes_only_the_file_older_than_the_window() {
    let files = vec![staged("0.zip", 3), staged("1.zip", 10)];
    let plan = plan_sweep(&files, 7 * SECONDS_PER_DAY);
    assert_eq!(plan, vec![1]);
}

#[test]
fn sweep_ignores_files_without_the_archive_extension() {
    let files = vec![staged("notes.txt", 30), staged("old.zip", 30), staged("zip", 30)];
    let plan = plan_sweep(&files, 7 * SECONDS_PER_DAY);
    assert_eq!(plan, vec![1]);
}

#[test]
fn sweep_leaves_a_file_exactly_at_the_window() {
    let files = vec![staged("0.zip", 7)];
    let plan = plan_sweep(&files, 7 * SECONDS_PER_DAY);
    assert!(plan.is_empty());
}

#[test]
fn sweeping_twice_removes_nothing_the_second_time() {
    let files = vec![
        staged("0.zip", 1),
        staged("1.zip", 9),
        staged("2.zip", 30),
        staged("keep.log", 30),
    ];
    let plan = plan_sweep(&files, 7 * SECONDS_PER_DAY);
    assert_eq!(plan, vec![1, 2]);
    let rest = apply_plan(files, &plan);
    let second = plan_sweep(&rest, 7 * SECONDS_PER_DAY);
    assert!(second.is_empty());
    assert_eq!(rest.len(), 2);
}

#[test]
fn archive_extension_is_recognized_exactly() {
    assert!(has_archive_extension("0.zip"));
    assert!(has_archive_extension("a.b.zip"));
    assert!(!has_archive_extension("zip"));
    assert!(!has_archive_extension("0.zip.part"));
    assert!(!has_archive_extension(""));
    assert!(has_archive_extension(".zip"));
}
