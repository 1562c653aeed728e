use nymx_mail::fetch::{
    check_ssh_settings, delete_command, dir_check_command, dir_exists, in_use_command,
    is_in_use, list_files_command, parse_file_list, parse_in_use_files, remote_file_path,
    remote_received_dir, FetchSummary, FileOutcome,
};

#[test]
fn ssh_settings_required() {
    assert_eq!(check_ssh_settings("", "bob"), Err("Username and host are required in nymx.json"));
    assert_eq!(check_ssh_settings("host", ""), Err("Username and host are required in nymx.json"));
    assert_eq!(check_ssh_settings("host", "bob"), Ok(()));
}

#[test]
fn commands() {
    let dir = remote_received_dir("bob");
    assert_eq!(dir, "/home/bob/received");
    assert_eq!(
        dir_check_command(&dir),
        "test -d /home/bob/received && echo 'exists' || echo 'not'"
    );
    assert_eq!(
        in_use_command(&dir),
        "lsof +D /home/bob/received | awk 'NR >1 {print $9}' | sort -u"
    );
    assert_eq!(
        list_files_command(&dir),
        "find /home/bob/received -maxdepth 1 -type f -printf '%f\n'"
    );
    assert_eq!(delete_command("/home/bob/received/a.txt"), "rm -f /home/bob/received/a.txt");
    assert_eq!(remote_file_path(&dir, "a.txt"), "/home/bob/received/a.txt");
}

#[test]
fn directory_check_output() {
    assert!(dir_exists("exists\n"));
    assert!(dir_exists("  exists  "));
    assert!(!dir_exists("not\n"));
    assert!(!dir_exists(""));
    assert!(!dir_exists("exists now"));
}

#[test]
fn file_list_skips_empty_lines() {
    assert_eq!(parse_file_list("a.txt\n\nb.txt\n"), vec!["a.txt", "b.txt"]);
    assert!(parse_file_list("").is_empty());
}

#[test]
fn in_use_paths_distinct() {
    let out = "/home/bob/received/a.txt\nCOMMAND\n\n/home/bob/received/a.txt\n/x/b.txt\n";
    let mut paths = parse_in_use_files(out);
    paths.sort();
    assert_eq!(paths, vec!["/home/bob/received/a.txt", "/x/b.txt"]);
}

#[test]
fn in_use_by_suffix() {
    let in_use = vec!["/home/bob/received/a.txt".to_string()];
    assert!(is_in_use(&in_use, "a.txt"));
    assert!(!is_in_use(&in_use, "b.txt"));
    assert!(!is_in_use(&vec![], "a.txt"));
}

#[test]
fn summary_tally() {
    let mut s = FetchSummary::new();
    s.record(FileOutcome::Skipped);
    s.record(FileOutcome::DownloadFailed);
    s.record(FileOutcome::Downloaded { deleted: true });
    s.record(FileOutcome::Downloaded { deleted: false });
    assert_eq!((s.downloaded, s.deleted, s.failed, s.skipped), (2, 1, 2, 1));
}
