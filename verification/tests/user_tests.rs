use axuser_perm::api::login_uid;
use axuser_perm::error::UserError;
use axuser_perm::fs_user;
use axuser_perm::shadow::{check_shadow, password_hash, set_password, shadow_with_hash, verify};
use axuser_perm::user::{is_sudoer, user_id, user_list, user_name};

const PASSWD: &str = "root:x:0:0:root:/root:/bin/bash\nalice:x:1000:1000:Alice:/home/alice:/bin/sh\n";
const ROOT_HASH: &str = "hmekinajmkdhgckpgbofjfcajednmcgejepijebl";

#[test]
fn user_list_reads_records() {
    let v = user_list(PASSWD).unwrap();
    assert_eq!(v.len(), 2);
    assert_eq!(v[&0].username, "root");
    assert_eq!(v[&0].uid, 0);
    assert_eq!(v[&0].shell, "/bin/bash");
    assert_eq!(v[&1000].username, "alice");
    assert_eq!(v[&1000].uid, 1000);
    assert_eq!(v[&1000].gid, 1000);
    assert_eq!(v[&1000].comment, "Alice");
    assert_eq!(v[&1000].home, "/home/alice");
    assert_eq!(v[&1000].password, "x");
    assert_eq!(v.keys().copied().collect::<Vec<u32>>(), vec![0, 1000]);
}

#[test]
fn user_list_keeps_last_record_of_an_id() {
    let v = user_list("zed:x:5:5:z:/z:/bin/sh
root:x:0:0:r:/:/bin/sh
ann:y:5:6:a:/a:/bin/ash
").unwrap();
    assert_eq!(v.len(), 2);
    assert_eq!(v[&5].username, "ann");
    assert_eq!(v[&5].gid, 6);
    assert_eq!(v[&0].username, "root");
    assert_eq!(v.keys().copied().collect::<Vec<u32>>(), vec![0, 5]);
}

#[test]
fn user_list_skips_blank_lines() {
    let v = user_list("\n   \nroot:x:0:0:r:/:/bin/sh\n\t\n").unwrap();
    assert_eq!(v.len(), 1);
    assert_eq!(v[&0].username, "root");
}

#[test]
fn user_list_rejects_short_lines() {
    assert_eq!(user_list("root:x:0:0:root:/root").unwrap_err(), UserError::InvalidData);
}

#[test]
fn user_list_rejects_bad_ids() {
    assert_eq!(user_list("a:x:zero:0:c:h:s").unwrap_err(), UserError::InvalidData);
    assert_eq!(user_list("a:x:0:-1:c:h:s").unwrap_err(), UserError::InvalidData);
    assert_eq!(user_list("a:x:4294967295:0:c:h:s").unwrap_err(), UserError::InvalidData);
    assert_eq!(user_list("a:x:0:4294967296:c:h:s").unwrap_err(), UserError::InvalidData);
    assert_eq!(user_list("a:x: 1:0:c:h:s").unwrap_err(), UserError::InvalidData);
    assert_eq!(user_list("a:x:+:0:c:h:s").unwrap_err(), UserError::InvalidData);
}

#[test]
fn user_list_accepts_plus_sign_and_extra_fields() {
    let v = user_list("a:x:+7:4294967294:c:h:s:extra").unwrap();
    assert_eq!(v[&7].uid, 7);
    assert_eq!(v[&7].gid, 4294967294);
}

#[test]
fn axuser_user_name_looks_up_uid() {
    assert_eq!(user_name(Some(PASSWD), 0), "root");
    assert_eq!(user_name(Some(PASSWD), 1000), "alice");
    assert_eq!(user_name(Some(PASSWD), 5), "");
    assert_eq!(user_name(None, 0), "");
    assert_eq!(user_name(Some("broken"), 0), "");
}

#[test]
fn axuser_user_name_last_record_wins() {
    let t = "a:x:5:5:c:h:s\nb:x:3:3:c:h:s\na:x:2:2:c:h:s\nb:x:5:5:c:h:s\n";
    assert_eq!(user_name(Some(t), 5), "b");
    assert_eq!(user_name(Some(t), 2), "a");
}

#[test]
fn axuser_user_id_finds_least_uid() {
    let t = "a:x:5:5:c:h:s\nb:x:3:3:c:h:s\na:x:2:2:c:h:s\nb:x:5:5:c:h:s\n";
    assert_eq!(user_id(Some(t), "a".to_string()), 2);
    assert_eq!(user_id(Some(t), "b".to_string()), 3);
    assert_eq!(user_id(Some(t), "zed".to_string()), 0);
    assert_eq!(user_id(Some(PASSWD), "alice".to_string()), 1000);
    assert_eq!(user_id(None, "alice".to_string()), 0);
    assert_eq!(user_id(Some("bad line"), "alice".to_string()), 0);
}

#[test]
fn user_name_of_user_id_gives_name() {
    let t = "a:x:5:5:c:h:s\nb:x:3:3:c:h:s\na:x:2:2:c:h:s\n";
    let id = user_id(Some(t), "a".to_string());
    assert_eq!(user_name(Some(t), id), "a");
}

#[test]
fn is_sudoer_reads_first_words() {
    let s = "root ALL=(ALL:ALL) ALL\n\n   bob ALL\n";
    assert!(is_sudoer(Some(s), "root".to_string()));
    assert!(is_sudoer(Some(s), "bob".to_string()));
    assert!(!is_sudoer(Some(s), "ALL".to_string()));
    assert!(!is_sudoer(Some(s), "alice".to_string()));
    assert!(!is_sudoer(Some(s), "".to_string()));
    assert!(!is_sudoer(None, "root".to_string()));
}

#[test]
fn password_hash_is_letter_encoded_sha1() {
    assert_eq!(password_hash("123456"), ROOT_HASH);
    assert_eq!(password_hash("").len(), 40);
    assert_ne!(password_hash("admin"), ROOT_HASH);
}

#[test]
fn verify_checks_shadow_entry() {
    let shadow = format!("0:{}\n", ROOT_HASH);
    assert!(verify(Some(&shadow), 0, "123456".to_string()));
    assert!(!verify(Some(&shadow), 0, "12345".to_string()));
    assert!(verify(Some(&shadow), 5, "anything".to_string()));
    assert!(!verify(None, 0, "123456".to_string()));
    assert!(verify(Some("1\n"), 1, "x".to_string()));
    assert!(!verify(Some(&format!("00:x\n0:{}\n", ROOT_HASH)), 0, "x".to_string()));
    assert!(verify(Some(&format!("00:x\n0:{}\n", ROOT_HASH)), 0, "123456".to_string()));
}

#[test]
fn check_shadow_takes_first_matching_line() {
    assert!(check_shadow("  \n3:abc\n3:def\n", 3, "abc"));
    assert!(!check_shadow("3:abc\n3:def\n", 3, "def"));
    assert!(check_shadow("30:abc\n", 3, "zzz"));
    assert!(!check_shadow("3:abc:more\n", 3, "abc:more"));
}

#[test]
fn set_password_puts_new_entry_first() {
    let out = set_password("0:aaa\n\n1:bbb\n", 1, "123456".to_string());
    assert_eq!(out, format!("1:{}\n0:aaa\n", ROOT_HASH));
    assert!(verify(Some(&out), 1, "123456".to_string()));
    assert!(check_shadow(&out, 0, "aaa"));
}

#[test]
fn shadow_with_hash_keeps_other_lines() {
    assert_eq!(shadow_with_hash("", 7, "k"), "7:k\n");
    assert_eq!(shadow_with_hash("7:old\n  \n8:x\n 7:y\n", 7, "k"), "7:k\n8:x\n 7:y\n");
}

#[test]
fn set_then_verify_round_trip() {
    let out = set_password("0:aaa\n2:bbb\n", 2, "guest".to_string());
    assert!(verify(Some(&out), 2, "guest".to_string()));
    assert!(!verify(Some(&out), 2, "admin".to_string()));
    assert_eq!(verify(Some(&out), 0, "p".to_string()), verify(Some("0:aaa\n2:bbb\n"), 0, "p".to_string()));
}

#[test]
fn file_system_copies_find_nothing() {
    assert_eq!(fs_user::user_list(PASSWD).unwrap_err(), UserError::InvalidData);
    assert_eq!(fs_user::user_list("").unwrap_err(), UserError::InvalidData);
    assert!(!fs_user::verify(Some(PASSWD), 0, "123456".to_string()));
    assert!(!fs_user::verify(None, 0, "123456".to_string()));
}

#[test]
fn change_password_needs_old_password() {
    let shadow = format!("0:{}\n", ROOT_HASH);
    assert_eq!(
        axuser_perm::shadow::change_password(&shadow, 0, "wrong", "new".to_string()).unwrap_err(),
        UserError::AuthenticationFailure
    );
    let t = axuser_perm::shadow::change_password(&shadow, 0, "123456", "new".to_string()).unwrap();
    assert!(verify(Some(&t), 0, "new".to_string()));
    assert!(!verify(Some(&t), 0, "123456".to_string()));
}

#[test]
fn login_needs_a_known_name_and_its_password() {
    let passwd = "root:x:0:0:root:/root:/bin/bash\nbob:x:1:1:,,,:/home/bob:/bin/sh\n";
    let shadow = format!("0:{}\n1:{}\n", ROOT_HASH, password_hash("pw"));
    assert_eq!(login_uid(Some(passwd), Some(&shadow), "root".to_string(), "123456"), Some(0));
    assert_eq!(login_uid(Some(passwd), Some(&shadow), "bob".to_string(), "pw"), Some(1));
    assert_eq!(login_uid(Some(passwd), Some(&shadow), "bob".to_string(), "123456"), None);
    assert_eq!(login_uid(Some(passwd), Some(&shadow), "root".to_string(), "nope"), None);
    assert_eq!(login_uid(Some(passwd), Some(&shadow), "zed".to_string(), "123456"), None);
    assert_eq!(login_uid(Some(passwd), Some(&shadow), "".to_string(), "123456"), None);
    assert_eq!(login_uid(Some(passwd), None, "root".to_string(), "123456"), None);
    assert_eq!(login_uid(None, Some(&shadow), "root".to_string(), "123456"), None);
    assert_eq!(login_uid(Some("broken"), Some(&shadow), "root".to_string(), "123456"), None);
}
