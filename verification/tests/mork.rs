use thundertray::mork::{
    find_folder_cache, folder_cache_unread, parse_mbox_unread, parse_unread_count,
    unread_from_cache_fields, unread_from_status,
};

const SUMMARY: &str = "/profile/ImapMail/example.invalid/INBOX.msf";

fn lines_of(text: &str) -> Vec<String> {
    text.lines().map(|line| line.to_string()).collect()
}

fn cache_with_entry(key: &str, entry: &str) -> Vec<u8> {
    format!("{{\"{key}\":{entry}}}").into_bytes()
}

#[test]
fn exact_folder_cache_entry_is_authoritative_and_includes_pending() {
    let cache = cache_with_entry(
        SUMMARY,
        "{\"totalUnreadMsgs\":540,\"pendingUnreadMsgs\":13,\"totalMsgs\":999,\"serverUnseen\":553}",
    );
    assert_eq!(parse_unread_count(Some(&cache), SUMMARY, None, || None), 553);
}

#[test]
fn cache_lookup_uses_the_full_summary_path_not_just_inbox_name() {
    let cache = cache_with_entry(
        "/profile/ImapMail/other.invalid/INBOX.msf",
        "{\"totalUnreadMsgs\":99,\"pendingUnreadMsgs\":0}",
    );
    let mbox = lines_of(
        "From sender@example.com Mon Jan  1 00:00:00 2024\nX-Mozilla-Status: 0000\n\nBody\n",
    );
    assert_eq!(parse_unread_count(Some(&cache), SUMMARY, None, || Some(mbox)), 1);
}

#[test]
fn unknown_cache_total_falls_back_to_mbox_status() {
    let cache = cache_with_entry(SUMMARY, "{\"totalUnreadMsgs\":-1,\"pendingUnreadMsgs\":0}");
    let mbox = lines_of(
        "From sender@example.com Mon Jan  1 00:00:00 2024\nX-Mozilla-Status: 0000\n\nBody\n",
    );
    assert_eq!(parse_unread_count(Some(&cache), SUMMARY, None, || Some(mbox)), 1);
}

#[test]
fn mbox_unread_count_excludes_read_and_expunged_messages() {
    let mbox_content = "From sender@example.com Mon Jan  1 00:00:00 2024\nX-Mozilla-Status: 0000\n\nUnread\nFrom sender@example.com Mon Jan  1 00:00:01 2024\nx-mozilla-status: 0001\n\nRead\nFrom sender@example.com Mon Jan  1 00:00:02 2024\nX-Mozilla-Status: 0008\n\nExpunged\n";
    assert_eq!(parse_mbox_unread(&lines_of(mbox_content)), 1);
}

#[test]
fn empty_or_missing_sources_report_zero() {
    // An empty summary file with an empty mbox next to it.
    assert_eq!(parse_unread_count(None, "/tmp/.tmpXYZ", None, || Some(Vec::new())), 0);
    // A summary path where nothing exists.
    assert_eq!(parse_unread_count(None, "/nonexistent/INBOX.msf", None, || None), 0);
}

#[test]
fn canonical_path_is_tried_after_the_given_path() {
    let cache = cache_with_entry(
        "/real/ImapMail/example.invalid/INBOX.msf",
        "{\"totalUnreadMsgs\":7,\"pendingUnreadMsgs\":-4}",
    );
    assert_eq!(
        parse_unread_count(
            Some(&cache),
            "/link/ImapMail/example.invalid/INBOX.msf",
            Some("/real/ImapMail/example.invalid/INBOX.msf"),
            || None
        ),
        7
    );
}

#[test]
fn malformed_cache_falls_back_to_mbox() {
    let mbox = lines_of("From a\nX-Mozilla-Status: 0000\n\nFrom b\nX-Mozilla-Status: 0001\n");
    assert_eq!(
        parse_unread_count(Some(b"not json"), SUMMARY, None, || Some(mbox)),
        1
    );
}

#[test]
fn cache_total_saturates_at_u32_max() {
    let cache = cache_with_entry(
        SUMMARY,
        "{\"totalUnreadMsgs\":4294967295,\"pendingUnreadMsgs\":10}",
    );
    assert_eq!(folder_cache_unread(&cache, &vec![SUMMARY.to_string()]), Some(u32::MAX));
}

#[test]
fn cache_fields_decide_the_count() {
    assert_eq!(unread_from_cache_fields(Some(540), Some(13)), Some(553));
    assert_eq!(unread_from_cache_fields(Some(5), None), Some(5));
    assert_eq!(unread_from_cache_fields(Some(5), Some(-3)), Some(5));
    assert_eq!(unread_from_cache_fields(Some(-1), Some(3)), None);
    assert_eq!(unread_from_cache_fields(None, Some(3)), None);
}

#[test]
fn status_flags_decide_unread() {
    assert_eq!(unread_from_status(None), 0);
    assert_eq!(unread_from_status(Some(0x0000)), 1);
    assert_eq!(unread_from_status(Some(0x0001)), 0);
    assert_eq!(unread_from_status(Some(0x0008)), 0);
    assert_eq!(unread_from_status(Some(0x0010)), 1);
}

#[test]
fn folder_cache_is_looked_for_in_every_ancestor() {
    assert_eq!(
        find_folder_cache("/p/ImapMail/INBOX.msf"),
        vec![
            "/p/ImapMail/folderCache.json".to_string(),
            "/p/folderCache.json".to_string(),
            "/folderCache.json".to_string(),
        ]
    );
    assert_eq!(find_folder_cache("/"), Vec::<String>::new());
}

#[test]
fn mbox_is_not_read_when_the_cache_answers() {
    let cache = cache_with_entry(SUMMARY, "{\"totalUnreadMsgs\":2}");
    let count = parse_unread_count(Some(&cache), SUMMARY, None, || -> Option<Vec<String>> {
        panic!("the mbox must not be read when the cache has a total")
    });
    assert_eq!(count, 2);
}
