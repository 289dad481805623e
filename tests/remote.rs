use rental_core::remote::{find_remote, is_remote_newer, remote_newer_than, DriveFile, GoogleTokens};

fn tokens(received_at: u64, expires_in: u64) -> GoogleTokens {
    GoogleTokens {
        access_token: "acc".to_string(),
        refresh_token: "ref".to_string(),
        expires_in,
        token_type: "Bearer".to_string(),
        received_at,
    }
}

fn file(id: &str, name: &str) -> DriveFile {
    DriveFile { id: id.to_string(), name: name.to_string(), modified_time: "2024-06-01T10:00:00Z".to_string() }
}

#[test]
fn token_is_fresh_until_last_minute() {
    let t = tokens(1000, 3600);
    assert!(t.is_fresh(1000));
    assert!(t.is_fresh(4539));
    assert!(!t.is_fresh(4540));
    assert!(!t.is_fresh(10_000));
}

#[test]
fn short_lived_token_is_never_fresh() {
    let t = tokens(0, 30);
    assert!(!t.is_fresh(0));
    let huge = tokens(u64::MAX, u64::MAX);
    assert!(huge.is_fresh(u64::MAX));
}

#[test]
fn remote_file_found_by_name() {
    let files = vec![file("a", "database.db"), file("b", "settings.sdcdata"), file("c", "database.db")];
    assert_eq!(find_remote(&files, &"database.db".to_string()), Some(0));
    assert_eq!(find_remote(&files, &"settings.sdcdata".to_string()), Some(1));
    assert_eq!(find_remote(&files, &"other".to_string()), None);
}

#[test]
fn remote_newer_compares_instants() {
    let t = 1717236000i64; // 2024-06-01T10:00:00Z
    assert!(is_remote_newer(Some((t - 1, 0)), "2024-06-01T10:00:00Z", (0, 0)));
    assert!(!is_remote_newer(Some((t, 0)), "2024-06-01T10:00:00Z", (0, 0)));
    assert!(!is_remote_newer(Some((t, 0)), "2024-06-01T12:00:00+02:00", (0, 0)));
    assert!(is_remote_newer(Some((t, 0)), "2024-06-01T10:00:00.5Z", (0, 0)));
    assert!(!is_remote_newer(Some((t + 3600, 0)), "2024-06-01T10:00:00Z", (0, 0)));
}

#[test]
fn unreadable_remote_time_counts_as_now() {
    let t = 1717236000i64;
    assert!(is_remote_newer(Some((t, 0)), "yesterday", (t + 5, 0)));
    assert!(!is_remote_newer(Some((t, 0)), "yesterday", (t - 5, 0)));
}

#[test]
fn missing_local_copy_takes_remote() {
    assert!(is_remote_newer(None, "2024-06-01T10:00:00Z", (0, 0)));
    assert!(remote_newer_than((0, 0), None));
    assert!(remote_newer_than((5, 2), Some((5, 1))));
    assert!(!remote_newer_than((5, 1), Some((5, 1))));
}
