use emergency_backup::backup::{
    backup_dir_name, effective_filter, file_counts, find_usb, has_extension, plan_copy,
    prepare_backup, required_bytes, select_volume, timestamped_dir_name, validate_source,
    BackupError, FileEntry, RetryPolicy, RetryStep, VolumeInfo, RETRY_INTERVAL_SECS,
};
use emergency_backup::config::{AppConfig, MyApp};

fn file(rel: &str, size: u64) -> FileEntry {
    let name = rel.rsplit('/').next().unwrap().to_string();
    FileEntry { name, rel_path: rel.to_string(), is_dir: false, size }
}

fn dir(rel: &str) -> FileEntry {
    let name = rel.rsplit('/').next().unwrap().to_string();
    FileEntry { name, rel_path: rel.to_string(), is_dir: true, size: 4096 }
}

fn vol(mount: &str, free: u64, removable: bool, read_only: bool) -> VolumeInfo {
    VolumeInfo { mount_point: mount.to_string(), available_bytes: free, removable, read_only }
}

fn sample_tree() -> Vec<FileEntry> {
    vec![file("a.txt", 100), file("b.bin", 50), dir("sub"), file("sub/c.txt", 20)]
}

#[test]
fn extension_rules() {
    assert!(has_extension("a.txt", "txt"));
    assert!(has_extension("archive.tar.gz", "gz"));
    assert!(!has_extension("archive.tar.gz", "tar.gz"));
    assert!(!has_extension("a.TXT", "txt"));
    assert!(!has_extension(".bashrc", "bashrc"));
    assert!(has_extension("..hidden", "hidden"));
    assert!(has_extension("a.", ""));
    assert!(!has_extension("noext", "noext"));
    assert!(!has_extension("..", ""));
}

#[test]
fn filter_all_takes_everything() {
    assert!(file_counts("noext", "all"));
    assert!(file_counts("b.bin", "all"));
    assert!(file_counts("a.txt", "txt"));
    assert!(!file_counts("b.bin", "txt"));
}

#[test]
fn empty_extension_means_all() {
    assert_eq!(effective_filter(""), "all");
    assert_eq!(effective_filter("txt"), "txt");
    let c = AppConfig { source_dir: "/src".to_string(), file_extension: String::new() };
    assert_eq!(c.filter(), "all");
}

#[test]
fn required_bytes_all_and_txt() {
    let flat = vec![file("x", 100), file("y.bin", 50), file("z.txt", 20)];
    assert_eq!(required_bytes(&flat, "all"), 170);
    assert_eq!(required_bytes(&sample_tree(), "txt"), 120);
    assert_eq!(required_bytes(&sample_tree(), "all"), 170);
    assert_eq!(required_bytes(&Vec::new(), "all"), 0);
}

#[test]
fn required_bytes_saturates() {
    let big = vec![file("a", u64::MAX - 1), file("b", 5)];
    assert_eq!(required_bytes(&big, "all"), u64::MAX);
}

#[test]
fn copy_plan_keeps_directories_and_wanted_files() {
    assert_eq!(plan_copy(&sample_tree(), "txt"), vec![0, 2, 3]);
    assert_eq!(plan_copy(&sample_tree(), "all"), vec![0, 1, 2, 3]);
    assert_eq!(plan_copy(&sample_tree(), "md"), vec![2]);
}

#[test]
fn volume_selection_rules() {
    assert_eq!(select_volume(&vec![vol("/m", 100, true, false)], 100), None);
    assert_eq!(select_volume(&vec![vol("/m", 101, true, false)], 100), Some(0));
    assert_eq!(select_volume(&vec![vol("/m", 1000, false, false)], 100), None);
    assert_eq!(select_volume(&vec![vol("/m", 1000, true, true)], 100), None);
    assert_eq!(select_volume(&Vec::new(), 0), None);
    let vs = vec![vol("/a", 10, true, false), vol("/b", 500, true, false), vol("/c", 900, true, false)];
    assert_eq!(select_volume(&vs, 100), Some(1));
}

#[test]
fn found_volume_is_suitable() {
    if let Some(v) = find_usb(0) {
        assert!(v.removable && !v.read_only && v.available_bytes > 0);
    }
}

#[test]
fn retry_policy_steps() {
    let p = RetryPolicy::standard();
    assert_eq!(p.interval_secs, RETRY_INTERVAL_SECS);
    assert_eq!(RETRY_INTERVAL_SECS, 10);
    assert_eq!(p.after_miss(1_000_000), RetryStep::Wait(10));
    let bounded = RetryPolicy { interval_secs: 1, max_attempts: Some(3) };
    assert_eq!(bounded.after_miss(2), RetryStep::Wait(1));
    assert_eq!(bounded.after_miss(3), RetryStep::GiveUp);
}

#[test]
fn destination_names() {
    assert_eq!(backup_dir_name("photos", "2024-01-02-03-04-05"), "photos_2024-01-02-03-04-05");
    let n = timestamped_dir_name("photos");
    let stamp = n.strip_prefix("photos_").unwrap();
    assert_eq!(stamp.len(), 19);
    let parts: Vec<&str> = stamp.split('-').collect();
    assert_eq!(parts.len(), 6);
    assert!(parts.iter().all(|p| p.chars().all(|c| c.is_ascii_digit())));
}

#[test]
fn invalid_sources_are_rejected() {
    assert_eq!(validate_source("", true), Err(BackupError::InvalidSource));
    assert_eq!(validate_source("/nowhere", false), Err(BackupError::InvalidSource));
    assert_eq!(validate_source("/home/u/docs", true), Ok(()));
    let c = AppConfig { source_dir: String::new(), file_extension: "txt".to_string() };
    assert!(matches!(prepare_backup(&c, true, &sample_tree()), Err(BackupError::InvalidSource)));
}

#[test]
fn end_to_end_plan_for_txt_backup() {
    let c = AppConfig { source_dir: "/home/u/docs".to_string(), file_extension: "txt".to_string() };
    let tree = sample_tree();
    let job = prepare_backup(&c, true, &tree).unwrap();
    assert_eq!(job.filter, "txt");
    assert_eq!(job.required_bytes, 120);
    let vols = vec![vol("/media/usb", 200, true, false)];
    assert_eq!(select_volume(&vols, job.required_bytes), Some(0));
    let copied: Vec<&str> =
        plan_copy(&tree, &job.filter).iter().map(|&i| tree[i].rel_path.as_str()).collect();
    assert_eq!(copied, vec!["a.txt", "sub", "sub/c.txt"]);
    assert_eq!(backup_dir_name("docs", "2024-05-06-07-08-09"), "docs_2024-05-06-07-08-09");
}

#[test]
fn settings_form_confirm() {
    let cfg = AppConfig::default();
    assert_eq!(cfg.source_dir, "");
    let mut app = MyApp::new(AppConfig { source_dir: "/a".to_string(), file_extension: "md".to_string() });
    assert_eq!(app.selected_source, "/a");
    assert_eq!(app.selected_extension, "md");
    app.selected_source = "/b".to_string();
    app.selected_extension = String::new();
    app.confirm();
    assert_eq!(app.config.source_dir, "/b");
    assert_eq!(app.config.file_extension, "");
}
