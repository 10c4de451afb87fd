use vstd::prelude::*;
use crate::api::{ax_getuid, ax_setuid, setuid_next, setuid_result, shadow_accepts};
use crate::shadow::password_hash_spec;
use crate::text::opt_view;
use crate::error::UserError;
use crate::permission::Credentials;

verus! {

/// The current user id.
pub fn current_uid(c: &Credentials) -> (r: Result<u32, UserError>)
    ensures
        r == Ok::<u32, UserError>(c@),
{
    ax_getuid(c)
}

/// Changes the current user to `uid`, as `ax_setuid` does with `password`
/// and the text of `/etc/shadow`.
pub fn set_current_uid(c: &mut Credentials, uid: u32, password: &str, shadow: Option<&str>) -> (r:
    Result<(), UserError>)
    ensures
        r == setuid_result(
            old(c)@,
            shadow_accepts(opt_view(shadow), uid, password_hash_spec(password@)),
        ),
        final(c)@ == setuid_next(
            old(c)@,
            uid,
            shadow_accepts(opt_view(shadow), uid, password_hash_spec(password@)),
        ),
{
    ax_setuid(c, uid, password, shadow)
}

} // verus!

verus! {

/// Whether the current user may shut the system down: only root may.
pub fn may_halt(c: &Credentials) -> (r: bool)
    ensures
        r == (c@ == 0),
{
    match ax_getuid(c) {
        Ok(u) => u == 0,
        Err(_) => false,
    }
}

} // verus!
