use thundertray::watcher::{saturating_total, MailWatcher};

#[test]
fn test_empty_watcher() {
    let w = MailWatcher::new(vec![], 5, |path: &String| path.clone());
    assert_eq!(w.get_unread_count(|_: &String| 1), 0);
}

#[test]
fn test_nonexistent_files() {
    let w = MailWatcher::new(
        vec!["/nonexistent/INBOX.msf".to_string()],
        5,
        |path: &String| path.clone(),
    );
    // A summary file that does not exist has neither a folder cache nor an mbox.
    assert_eq!(
        w.get_unread_count(|path: &String| thundertray::mork::parse_unread_count(
            None,
            path,
            None,
            || None
        )),
        0
    );
}

#[test]
fn totals_saturate_instead_of_wrapping() {
    assert_eq!(saturating_total(&vec![u32::MAX, 1]), u32::MAX);
}

#[test]
fn duplicate_identities_are_counted_once() {
    let files = vec![
        "/p/ImapMail/a/INBOX.msf".to_string(),
        "/link/ImapMail/a/INBOX.msf".to_string(),
        "/p/Mail/b/INBOX.msf".to_string(),
        "/p/ImapMail/a/INBOX.msf".to_string(),
    ];
    let watcher = MailWatcher::new(files, 5, |path: &String| {
        path.replace("/link/", "/p/")
    });
    assert_eq!(
        watcher.msf_files(),
        &["/p/ImapMail/a/INBOX.msf", "/p/Mail/b/INBOX.msf"]
    );
    assert_eq!(watcher.get_unread_count(|_: &String| 2), 4);
}

#[test]
fn equal_paths_are_one_mailbox_even_when_spelled_differently() {
    let files = vec!["/p/Mail/a/INBOX.msf".to_string(), "/p//Mail/a/./INBOX.msf".to_string()];
    let watcher = MailWatcher::new(files, 5, |path: &String| path.clone());
    assert_eq!(watcher.msf_files().len(), 1);
}

#[test]
fn totals_add_counts_per_file() {
    let files = vec!["/a/INBOX.msf".to_string(), "/b/INBOX.msf".to_string()];
    let watcher = MailWatcher::new(files, 5, |path: &String| path.clone());
    let total = watcher.get_unread_count(|path: &String| if path.starts_with("/a") { 7 } else { 5 });
    assert_eq!(total, 12);
}

#[test]
fn duplicate_paths_are_counted_once() {
    let msf = "/profile/ImapMail/example.invalid/INBOX.msf".to_string();
    let cache = format!("{{\"{msf}\":{{\"totalUnreadMsgs\":1,\"pendingUnreadMsgs\":0}}}}").into_bytes();
    let watcher = MailWatcher::new(vec![msf.clone(), msf], 5, |path: &String| path.clone());
    assert_eq!(
        watcher.get_unread_count(|path: &String| thundertray::mork::parse_unread_count(
            Some(&cache),
            path,
            None,
            || None
        )),
        1
    );
}
