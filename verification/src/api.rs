use vstd::prelude::*;
use crate::error::UserError;
use crate::permission::{current_uid, set_current_uid, Credentials};
use crate::shadow::{
    check_shadow, law_verify_after_set_password, new_shadow, password_hash, password_hash_spec,
    shadow_check,
};
use crate::text::opt_view;
use crate::user::{
    has_user_named, is_sudoer, passwd_users, sudoers_list, user_id, user_id_ok, user_list, user_name,
    user_name_spec,
};

verus! {

/// The current user id.
pub fn ax_getuid(c: &Credentials) -> (r: Result<u32, UserError>)
    ensures
        r == Ok::<u32, UserError>(c@),
{
    current_uid(c)
}

/// Whether `ax_setuid` asks for a password: it does unless the current user is root.
pub fn setuid_needs_password(c: &Credentials) -> (r: bool)
    ensures
        r == (c@ != 0),
{
    !is_root(c)
}

/// Whether the current user is root.
fn is_root(c: &Credentials) -> (r: bool)
    ensures
        r == (c@ == 0),
{
    match current_uid(c) {
        Ok(u) => u == 0,
        Err(_) => false,
    }
}

/// Whether `/etc/shadow`, if it could be opened (`shadow` is `Some`), accepts
/// the stored hash text `hash` for user `uid`; a file that could not be
/// opened accepts nothing.
pub open spec fn shadow_accepts(shadow: Option<Seq<char>>, uid: u32, hash: Seq<char>) -> bool {
    match shadow {
        Some(c) => shadow_check(c, uid, hash),
        None => false,
    }
}

/// What `ax_setuid` answers when user `cur` asks to become another user
/// whose password check gave `accepted`.
pub open spec fn setuid_result(cur: u32, accepted: bool) -> Result<(), UserError> {
    if cur == 0 || accepted {
        Ok(())
    } else {
        Err(UserError::AuthenticationFailure)
    }
}

/// The current user after user `cur` asks to become `uid`, whose password
/// check gave `accepted`.
pub open spec fn setuid_next(cur: u32, uid: u32, accepted: bool) -> u32 {
    if cur == 0 || accepted {
        uid
    } else {
        cur
    }
}

/// Switches the current user to `uid` given the stored hash text of the
/// password typed in. Root switches freely; anyone else must give the
/// password of `uid` as `/etc/shadow` holds it, or the switch is refused with
/// `AuthenticationFailure` and the current user stays.
pub fn setuid_with_hash(c: &mut Credentials, uid: u32, hash: &str, shadow: Option<&str>) -> (r:
    Result<(), UserError>)
    ensures
        r == setuid_result(old(c)@, shadow_accepts(opt_view(shadow), uid, hash@)),
        final(c)@ == setuid_next(old(c)@, uid, shadow_accepts(opt_view(shadow), uid, hash@)),
{
    if is_root(c) {
        return set_current_uid(c, uid);
    }
    let accepted = match shadow {
        Some(s) => check_shadow(s, uid, hash),
        None => false,
    };
    if !accepted {
        return Err(UserError::AuthenticationFailure);
    }
    set_current_uid(c, uid)
}

/// Switches the current user to `uid`, checking `password` against the
/// text of `/etc/shadow` (`None` if it could not be opened) unless the
/// current user is root.
pub fn ax_setuid(c: &mut Credentials, uid: u32, password: &str, shadow: Option<&str>) -> (r: Result<
    (),
    UserError,
>)
    ensures
        r == setuid_result(
            old(c)@,
            shadow_accepts(opt_view(shadow), uid, password_hash_spec(password@)),
        ),
        final(c)@ == setuid_next(
            old(c)@,
            uid,
            shadow_accepts(opt_view(shadow), uid, password_hash_spec(password@)),
        ),
{
    let h = password_hash(password);
    setuid_with_hash(c, uid, h.as_str(), shadow)
}

/// Whether `sudo` asks for a password: it does unless the current user is root.
pub fn sudo_needs_password(c: &Credentials) -> (r: bool)
    ensures
        r == (c@ != 0),
{
    !is_root(c)
}

/// Whether user `cur` may use `sudo`: `/etc/sudoers` (if it could be opened)
/// names the user's name in `/etc/passwd` (if it could be read).
pub open spec fn sudoer_spec(passwd: Option<Seq<char>>, sudoers: Option<Seq<char>>, cur: u32) -> bool {
    match sudoers {
        Some(s) => sudoers_list(s, user_name_spec(passwd, cur)),
        None => false,
    }
}

/// What `sudo` answers to user `cur`, who is a sudoer or not, and whose own
/// password check gave `accepted`.
pub open spec fn sudo_result(cur: u32, sudoer: bool, accepted: bool) -> Result<(), UserError> {
    if cur == 0 {
        Ok(())
    } else if !sudoer {
        Err(UserError::PermissionDenied)
    } else if !accepted {
        Err(UserError::AuthenticationFailure)
    } else {
        Ok(())
    }
}

/// The current user after user `cur` runs `sudo`.
pub open spec fn sudo_next(cur: u32, sudoer: bool, accepted: bool) -> u32 {
    if sudo_result(cur, sudoer, accepted) is Ok {
        0
    } else {
        cur
    }
}

/// Raises the current user to root, given the stored hash text of the
/// password typed in. Root stays root; a user whom `/etc/sudoers` does not
/// name is refused with `PermissionDenied`; a sudoer whose own password, as
/// `/etc/shadow` holds it, does not match is refused with
/// `AuthenticationFailure`. A refusal leaves the current user as it was.
pub fn sudo_with_hash(
    c: &mut Credentials,
    hash: &str,
    passwd: Option<&str>,
    sudoers: Option<&str>,
    shadow: Option<&str>,
) -> (r: Result<(), UserError>)
    ensures
        r == sudo_result(
            old(c)@,
            sudoer_spec(opt_view(passwd), opt_view(sudoers), old(c)@),
            shadow_accepts(opt_view(shadow), old(c)@, hash@),
        ),
        final(c)@ == sudo_next(
            old(c)@,
            sudoer_spec(opt_view(passwd), opt_view(sudoers), old(c)@),
            shadow_accepts(opt_view(shadow), old(c)@, hash@),
        ),
{
    let uid = match current_uid(c) {
        Ok(u) => u,
        Err(e) => {
            return Err(e);
        },
    };
    if uid == 0 {
        return Ok(());
    }
    let name = user_name(passwd, uid);
    if !is_sudoer(sudoers, name) {
        return Err(UserError::PermissionDenied);
    }
    let accepted = match shadow {
        Some(s) => check_shadow(s, uid, hash),
        None => false,
    };
    if !accepted {
        return Err(UserError::AuthenticationFailure);
    }
    set_current_uid(c, 0)
}

/// Raises the current user to root if `/etc/sudoers` names the user and
/// `password` is the user's own; the files are given as their texts, `None`
/// for one that could not be read.
pub fn sudo(
    c: &mut Credentials,
    password: &str,
    passwd: Option<&str>,
    sudoers: Option<&str>,
    shadow: Option<&str>,
) -> (r: Result<(), UserError>)
    ensures
        r == sudo_result(
            old(c)@,
            sudoer_spec(opt_view(passwd), opt_view(sudoers), old(c)@),
            shadow_accepts(opt_view(shadow), old(c)@, password_hash_spec(password@)),
        ),
        final(c)@ == sudo_next(
            old(c)@,
            sudoer_spec(opt_view(passwd), opt_view(sudoers), old(c)@),
            shadow_accepts(opt_view(shadow), old(c)@, password_hash_spec(password@)),
        ),
{
    let h = password_hash(password);
    sudo_with_hash(c, h.as_str(), passwd, sudoers, shadow)
}

/// Law: a `sudo` that succeeds leaves the user root, and from there
/// `ax_setuid` returns to any user, whatever password is given (the `sudo`
/// command goes back to the user who ran it this way).
pub proof fn law_sudo_then_return(
    cur: u32,
    sudoer: bool,
    accepted: bool,
    back: u32,
    accepted_back: bool,
)
    requires
        sudo_result(cur, sudoer, accepted) is Ok,
    ensures
        sudo_next(cur, sudoer, accepted) == 0,
        setuid_result(sudo_next(cur, sudoer, accepted), accepted_back) is Ok,
        setuid_next(sudo_next(cur, sudoer, accepted), back, accepted_back) == back,
{
}

/// Law: root becomes any user without a password check, and a refused
/// switch leaves the current user unchanged.
pub proof fn law_setuid(cur: u32, uid: u32, accepted: bool)
    ensures
        cur == 0 ==> setuid_result(cur, accepted) is Ok && setuid_next(cur, uid, accepted) == uid,
        setuid_result(cur, accepted) is Err ==> setuid_next(cur, uid, accepted) == cur,
        setuid_result(cur, accepted) is Ok ==> setuid_next(cur, uid, accepted) == uid,
{
}

/// Law: once user `uid` has set `password` (the password change writes the
/// new `/etc/shadow`), switching to `uid` with that password succeeds.
pub proof fn law_su_after_passwd(cur: u32, shadow: Seq<char>, uid: u32, password: Seq<char>)
    ensures
        setuid_result(
            cur,
            shadow_accepts(
                Some(new_shadow(shadow, uid, password_hash_spec(password))),
                uid,
                password_hash_spec(password),
            ),
        ) is Ok,
{
    law_verify_after_set_password(shadow, uid, password, password);
}

/// The byte that ends a password line when typed: carriage return or newline.
pub open spec fn ends_line(key: u8) -> bool {
    key == 13 || key == 10
}

/// One key of a password being typed in: a carriage return or newline ends
/// the password (the answer is `true`); delete (0x7f) or backspace (0x08)
/// removes the last character, if any; any other byte is added as the
/// character of the same number.
pub fn password_key(line: &mut Vec<char>, key: u8) -> (done: bool)
    ensures
        done == ends_line(key),
        ends_line(key) ==> final(line)@ == old(line)@,
        !ends_line(key) && (key == 0x7f || key == 8) ==> final(line)@ == (if old(line)@.len() > 0 {
            old(line)@.drop_last()
        } else {
            old(line)@
        }),
        !ends_line(key) && key != 0x7f && key != 8 ==> final(line)@ == old(line)@.push(
            key as char,
        ),
{
    let c = if key == 13 {
        10u8
    } else {
        key
    };
    if c == 10 {
        return true;
    }
    if c == 0x7f || c == 8 {
        line.pop();
        return false;
    }
    line.push(c as char);
    false
}

} // verus!

verus! {

/// Some user of `/etc/passwd` (when it could be read, `passwd` is `Some`) is named `name`.
pub open spec fn user_exists(passwd: Option<Seq<char>>, name: Seq<char>) -> bool {
    passwd matches Some(c) && passwd_users(c) matches Some(m) && has_user_named(m, name)
}

/// The user who logs in as `name` with `password`: the id that `user_id`
/// finds for the name, when some user has that name and `/etc/shadow`
/// accepts the password for that id; `None` when the name is unknown or the
/// password is refused.
pub fn login_uid(passwd: Option<&str>, shadow: Option<&str>, name: String, password: &str) -> (r:
    Option<u32>)
    ensures
        match r {
            Some(u) => user_exists(opt_view(passwd), name@) && user_id_ok(opt_view(passwd), name@, u)
                && shadow_accepts(opt_view(shadow), u, password_hash_spec(password@)),
            None => !user_exists(opt_view(passwd), name@) || forall|u: u32|
                user_id_ok(opt_view(passwd), name@, u) ==> !shadow_accepts(
                    opt_view(shadow),
                    u,
                    password_hash_spec(password@),
                ),
        },
{
    let uid = user_id(passwd, name.clone());
    let text = match passwd {
        Some(t) => t,
        None => {
            return None;
        },
    };
    let table = match user_list(text) {
        Ok(m) => m,
        Err(_) => {
            return None;
        },
    };
    let named = match table.get(&uid) {
        Some(u) => u.username == name,
        None => false,
    };
    if !named {
        assert(!user_exists(opt_view(passwd), name@)) by {
            if user_exists(opt_view(passwd), name@) {
                let m = passwd_users(text@)->0;
                assert(m.contains_key(uid) && m[uid].username == name@);
            }
        }
        return None;
    }
    assert(has_user_named(passwd_users(text@)->0, name@)) by {
        let m = passwd_users(text@)->0;
        assert(table@.contains_key(uid));
        assert(m.contains_key(uid) && m[uid].username == name@);
    }
    let h = password_hash(password);
    let accepted = match shadow {
        Some(text) => check_shadow(text, uid, h.as_str()),
        None => false,
    };
    if accepted {
        Some(uid)
    } else {
        None
    }
}

} // verus!
