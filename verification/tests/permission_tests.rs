use axuser_perm::api::{
    ax_getuid, ax_setuid, password_key, setuid_needs_password, setuid_with_hash, sudo, sudo_needs_password, sudo_with_hash,
};
use axuser_perm::shadow::{password_hash, set_password};
use axuser_perm::env::{current_uid as env_current_uid, set_current_uid as env_set_current_uid};
use axuser_perm::error::UserError;
use axuser_perm::permission::{
    ax_file_change_attr, check_execute, current_gid, current_uid, fops_cap, set_current_uid, Cap, Credentials, FileAttr, FileType,
};

#[test]
fn uid_read_after_write() {
    let mut c = Credentials::new(0);
    assert_eq!(current_uid(&c), Ok(0));
    assert_eq!(set_current_uid(&mut c, 42), Ok(()));
    assert_eq!(current_uid(&c), Ok(42));
    assert_eq!(current_gid(&c), Ok(42));
    assert_eq!(ax_getuid(&c), Ok(42));
    assert_eq!(env_current_uid(&c), Ok(42));
}

#[test]
fn fops_cap_root_has_everything() {
    let c = Credentials::new(0);
    assert_eq!(fops_cap(&c, 0, 5, 5), Cap { read: true, write: true, execute: true });
}

#[test]
fn fops_cap_owner_group_other() {
    let c = Credentials::new(1000);
    assert_eq!(fops_cap(&c, 0o640, 1000, 1000), Cap { read: true, write: true, execute: false });
    assert_eq!(fops_cap(&c, 0o750, 0, 1000), Cap { read: true, write: false, execute: true });
    assert_eq!(fops_cap(&c, 0o641, 0, 0), Cap { read: false, write: false, execute: true });
    // owner whose group differs from the file's group falls to the bits for others
    assert_eq!(fops_cap(&c, 0o700, 1000, 7), Cap { read: false, write: false, execute: false });
}

#[test]
fn cap_bits() {
    assert_eq!(Cap { read: true, write: false, execute: true }.bits(), 5);
    assert_eq!(Cap { read: false, write: true, execute: false }.bits(), 2);
}

#[test]
fn change_attr_owner_or_root_only() {
    let a = FileAttr { perm: 0o644, uid: 5, gid: 5, file_type: FileType::File, size: 10, blocks: 1 };
    let root = Credentials::new(0);
    let owner = Credentials::new(5);
    let other = Credentials::new(6);
    let r = ax_file_change_attr(&root, &a, 0o1755, 9, 8).unwrap();
    assert_eq!(r, FileAttr { perm: 0o755, uid: 9, gid: 8, file_type: FileType::File, size: 10, blocks: 1 });
    assert!(ax_file_change_attr(&owner, &a, 0o600, 5, 5).is_ok());
    assert_eq!(ax_file_change_attr(&other, &a, 0o600, 5, 5), Err(UserError::PermissionDenied));
}

const PASSWD: &str = "root:x:0:0:root:/root:/bin/bash\nadmin:x:1:1::/home/admin:/bin/sh\nguest:x:2:2::/home/guest:/bin/sh\n";
const SUDOERS: &str = "root ALL=(ALL:ALL) ALL\nadmin ALL=(ALL:ALL) ALL\n";

fn shadow_text() -> String {
    format!(
        "0:{}\n1:{}\n2:{}\n",
        password_hash("123456"),
        password_hash("admin"),
        password_hash("guest")
    )
}

#[test]
fn setuid_from_root_needs_no_password() {
    let mut c = Credentials::new(0);
    assert!(!setuid_needs_password(&c));
    assert_eq!(ax_setuid(&mut c, 5, "", None), Ok(()));
    assert_eq!(current_uid(&c), Ok(5));
}

#[test]
fn setuid_checks_stored_passwords() {
    let shadow = shadow_text();
    let mut c = Credentials::new(5);
    assert!(setuid_needs_password(&c));
    assert_eq!(ax_setuid(&mut c, 1, "wrong", Some(&shadow)), Err(UserError::AuthenticationFailure));
    assert_eq!(current_uid(&c), Ok(5));
    assert_eq!(ax_setuid(&mut c, 0, "admin", Some(&shadow)), Err(UserError::AuthenticationFailure));
    assert_eq!(ax_setuid(&mut c, 2, "guest", Some(&shadow)), Ok(()));
    assert_eq!(current_uid(&c), Ok(2));
    assert_eq!(ax_setuid(&mut c, 1, "admin", Some(&shadow)), Ok(()));
    assert_eq!(ax_setuid(&mut c, 0, "123456", Some(&shadow)), Ok(()));
    assert_eq!(current_uid(&c), Ok(0));
}

#[test]
fn setuid_without_shadow_refuses() {
    let mut c = Credentials::new(5);
    assert_eq!(ax_setuid(&mut c, 1, "admin", None), Err(UserError::AuthenticationFailure));
    assert_eq!(current_uid(&c), Ok(5));
}

#[test]
fn setuid_to_user_without_entry_accepts_any_password() {
    let shadow = shadow_text();
    let mut c = Credentials::new(5);
    assert_eq!(env_set_current_uid(&mut c, 77, "anything", Some(&shadow)), Ok(()));
    assert_eq!(current_uid(&c), Ok(77));
}

#[test]
fn setuid_with_hash_uses_given_hash() {
    let mut c = Credentials::new(5);
    assert_eq!(setuid_with_hash(&mut c, 3, "abc", Some("3:abc\n")), Ok(()));
    assert_eq!(setuid_with_hash(&mut c, 4, "abc", Some("4:abd\n")), Err(UserError::AuthenticationFailure));
    assert_eq!(current_uid(&c), Ok(3));
}

#[test]
fn su_after_passwd() {
    let shadow = set_password(&shadow_text(), 2, "newpass".to_string());
    let mut c = Credentials::new(1);
    assert_eq!(ax_setuid(&mut c, 2, "guest", Some(&shadow)), Err(UserError::AuthenticationFailure));
    assert_eq!(ax_setuid(&mut c, 2, "newpass", Some(&shadow)), Ok(()));
}

#[test]
fn sudo_rules() {
    let shadow = shadow_text();
    let mut c = Credentials::new(1);
    assert!(sudo_needs_password(&c));
    assert_eq!(sudo(&mut c, "x", Some(PASSWD), Some(SUDOERS), Some(&shadow)), Err(UserError::AuthenticationFailure));
    assert_eq!(current_uid(&c), Ok(1));
    assert_eq!(sudo(&mut c, "admin", Some(PASSWD), Some(SUDOERS), Some(&shadow)), Ok(()));
    assert_eq!(current_uid(&c), Ok(0));
    assert_eq!(sudo(&mut c, "x", None, None, None), Ok(()));
    let mut d = Credentials::new(2);
    assert_eq!(sudo(&mut d, "guest", Some(PASSWD), Some(SUDOERS), Some(&shadow)), Err(UserError::PermissionDenied));
    assert_eq!(current_uid(&d), Ok(2));
    let mut e = Credentials::new(1);
    assert_eq!(sudo(&mut e, "admin", Some(PASSWD), None, Some(&shadow)), Err(UserError::PermissionDenied));
    assert_eq!(sudo(&mut e, "admin", None, Some(SUDOERS), Some(&shadow)), Err(UserError::PermissionDenied));
    assert_eq!(sudo(&mut e, "admin", Some(PASSWD), Some(SUDOERS), None), Err(UserError::AuthenticationFailure));
}

#[test]
fn sudo_with_hash_uses_given_hash() {
    let mut c = Credentials::new(1);
    assert_eq!(sudo_with_hash(&mut c, "h", Some(PASSWD), Some(SUDOERS), Some("1:h\n")), Ok(()));
    assert_eq!(current_uid(&c), Ok(0));
}

#[test]
fn sudo_then_return_to_user() {
    let shadow = shadow_text();
    let mut c = Credentials::new(1);
    assert_eq!(sudo(&mut c, "admin", Some(PASSWD), Some(SUDOERS), Some(&shadow)), Ok(()));
    assert_eq!(ax_setuid(&mut c, 1, "", None), Ok(()));
    assert_eq!(current_uid(&c), Ok(1));
}

#[test]
fn password_keys_edit_line() {
    let mut line: Vec<char> = Vec::new();
    assert!(!password_key(&mut line, b'a'));
    assert!(!password_key(&mut line, b'b'));
    assert!(!password_key(&mut line, 0x7f));
    assert!(!password_key(&mut line, b'c'));
    assert!(!password_key(&mut line, 0xe9));
    assert!(!password_key(&mut line, 8));
    assert!(password_key(&mut line, b'\r'));
    assert_eq!(line, vec!['a', 'c']);
    let mut empty: Vec<char> = Vec::new();
    assert!(!password_key(&mut empty, 8));
    assert!(empty.is_empty());
    assert!(password_key(&mut empty, b'\n'));
}

#[test]
fn only_root_may_halt() {
    assert!(axuser_perm::env::may_halt(&Credentials::new(0)));
    assert!(!axuser_perm::env::may_halt(&Credentials::new(1)));
}

#[test]
fn execute_needs_the_execute_bit() {
    let script = FileAttr { perm: 0o754, uid: 5, gid: 5, file_type: FileType::File, size: 10, blocks: 1 };
    assert_eq!(check_execute(&Credentials::new(0), &script), Ok(()));
    assert_eq!(check_execute(&Credentials::new(5), &script), Ok(()));
    assert_eq!(check_execute(&Credentials::new(7), &script), Err(UserError::PermissionDenied));
    let dir = FileAttr { perm: 0o750, uid: 5, gid: 7, file_type: FileType::Dir, size: 0, blocks: 0 };
    assert_eq!(check_execute(&Credentials::new(7), &dir), Ok(()));
    assert_eq!(check_execute(&Credentials::new(5), &dir), Err(UserError::PermissionDenied));
    assert_eq!(check_execute(&Credentials::new(9), &dir), Err(UserError::PermissionDenied));
}
