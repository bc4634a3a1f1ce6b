use chunked_backup::keys::{
    current_date, decimal_string, derive_key, format_date, pad_digits, plan_uploads,
    remote_location, segment_file_name, BackupJob, Date,
};

fn job(prefix: Option<&str>) -> BackupJob {
    BackupJob {
        source_base: "photos".to_string(),
        bucket: "my-bucket".to_string(),
        destination_prefix: prefix.map(|p| p.to_string()),
        staging_dir: "tmp".to_string(),
        date: Date { year: 2024, month: 3, day: 5 },
    }
}

#[test]
fn decimal_strings_have_no_leading_zero() {
    assert_eq!(decimal_string(0), "0");
    assert_eq!(decimal_string(7), "7");
    assert_eq!(decimal_string(120), "120");
}

#[test]
fn padded_digits_keep_the_width() {
    assert_eq!(pad_digits(7, 2), "07");
    assert_eq!(pad_digits(2024, 4), "2024");
    assert_eq!(pad_digits(0, 2), "00");
}

#[test]
fn date_code_is_yyyymmdd() {
    let d = Date { year: 2024, month: 3, day: 5 };
    assert_eq!(format_date(&d), "20240305");
    let d2 = Date { year: 987, month: 12, day: 31 };
    assert_eq!(format_date(&d2), "09871231");
}

#[test]
fn segment_file_names_are_index_dot_zip() {
    assert_eq!(segment_file_name(0), "0.zip");
    assert_eq!(segment_file_name(12), "12.zip");
}

#[test]
fn key_with_destination_prefix() {
    let j = job(Some("backups"));
    assert_eq!(derive_key(&j, 0), "backups/photos-20240305/0.zip");
    assert_eq!(derive_key(&j, 2), "backups/photos-20240305/2.zip");
}

#[test]
fn key_without_destination_prefix() {
    let j = job(None);
    assert_eq!(derive_key(&j, 1), "photos-20240305/1.zip");
}

#[test]
fn keys_of_one_run_never_collide() {
    let j = job(Some("backups"));
    let keys = plan_uploads(&j, 12);
    assert_eq!(keys.len(), 12);
    for a in 0..keys.len() {
        for b in 0..keys.len() {
            if a != b {
                assert_ne!(keys[a], keys[b]);
            }
        }
    }
    assert_eq!(keys[10], "backups/photos-20240305/10.zip");
}

#[test]
fn the_clock_reports_a_calendar_date() {
    let d = current_date();
    assert!((1..=12).contains(&d.month));
    assert!((1..=31).contains(&d.day));
    // The date code is always eight digits, whatever the clock said.
    assert_eq!(format_date(&d).len(), 8);
}

#[test]
fn remote_location_is_the_gs_url() {
    assert_eq!(remote_location("my-bucket", "photos-20240305/0.zip"), "gs://my-bucket/photos-20240305/0.zip");
}
