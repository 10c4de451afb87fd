use vstd::prelude::*;
use crate::error::UserError;

verus! {

/// The identity that the running program acts under: the current user id.
/// The current group id is the current user id.
pub struct Credentials {
    uid: u32,
}

impl View for Credentials {
    type V = u32;

    closed spec fn view(&self) -> u32 {
        self.uid
    }
}

impl Credentials {
    /// Credentials of user `uid`.
    pub fn new(uid: u32) -> (c: Self)
        ensures
            c@ == uid,
    {
        Credentials { uid }
    }
}

/// The current user id.
pub fn current_uid(c: &Credentials) -> (r: Result<u32, UserError>)
    ensures
        r == Ok::<u32, UserError>(c@),
{
    Ok(c.uid)
}

/// The current group id, which is the current user id.
pub fn current_gid(c: &Credentials) -> (r: Result<u32, UserError>)
    ensures
        r == Ok::<u32, UserError>(c@),
{
    current_uid(c)
}

/// Makes `uid` the current user id.
pub fn set_current_uid(c: &mut Credentials, uid: u32) -> (r: Result<(), UserError>)
    ensures
        r == Ok::<(), UserError>(()),
        final(c)@ == uid,
{
    c.uid = uid;
    Ok(())
}

/// What may be done with a file: read it, write it, execute it.
#[derive(Debug, Clone, Copy, PartialEq, Eq, Structural)]
pub struct Cap {
    pub read: bool,
    pub write: bool,
    pub execute: bool,
}

impl Cap {
    /// The capability flags as bits: read is bit 0, write bit 1, execute bit 2.
    pub fn bits(&self) -> (b: u32)
        ensures
            b == (if self.read {
                1u32
            } else {
                0u32
            }) + (if self.write {
                2u32
            } else {
                0u32
            }) + (if self.execute {
                4u32
            } else {
                0u32
            }),
    {
        let mut b: u32 = 0;
        if self.read {
            b = b + 1;
        }
        if self.write {
            b = b + 2;
        }
        if self.execute {
            b = b + 4;
        }
        b
    }
}

/// Owner read permission bit of a mode.
pub const OWNER_READ: u16 = 0o400;
/// Owner write permission bit of a mode.
pub const OWNER_WRITE: u16 = 0o200;
/// Owner execute permission bit of a mode.
pub const OWNER_EXEC: u16 = 0o100;
/// Group read permission bit of a mode.
pub const GROUP_READ: u16 = 0o40;
/// Group write permission bit of a mode.
pub const GROUP_WRITE: u16 = 0o20;
/// Group execute permission bit of a mode.
pub const GROUP_EXEC: u16 = 0o10;
/// Others' read permission bit of a mode.
pub const OTHER_READ: u16 = 0o4;
/// Others' write permission bit of a mode.
pub const OTHER_WRITE: u16 = 0o2;
/// Others' execute permission bit of a mode.
pub const OTHER_EXEC: u16 = 0o1;

/// The class of permission bits that applies to a user: 0 for root (no
/// bits needed), 1 for the owner, 2 for the group, 3 for others.
pub open spec fn access_class(cur: u32, uid: u32, gid: u32) -> int {
    if cur == 0 {
        0
    } else if cur == uid && cur == gid {
        1
    } else if cur == gid {
        2
    } else {
        3
    }
}

/// The capabilities that the current user `cur` (whose group id is `cur`
/// too) has on a file with mode `perm`, owner `uid` and group `gid`.
pub open spec fn cap_spec(cur: u32, perm: u16, uid: u32, gid: u32) -> Cap {
    let class = access_class(cur, uid, gid);
    if class == 0 {
        Cap { read: true, write: true, execute: true }
    } else if class == 1 {
        Cap {
            read: perm & OWNER_READ != 0,
            write: perm & OWNER_WRITE != 0,
            execute: perm & OWNER_EXEC != 0,
        }
    } else if class == 2 {
        Cap {
            read: perm & GROUP_READ != 0,
            write: perm & GROUP_WRITE != 0,
            execute: perm & GROUP_EXEC != 0,
        }
    } else {
        Cap {
            read: perm & OTHER_READ != 0,
            write: perm & OTHER_WRITE != 0,
            execute: perm & OTHER_EXEC != 0,
        }
    }
}

/// The capabilities of the current user on a file with mode `perm`, owner
/// `uid` and group `gid`: root may do anything; the owner (when the current
/// group is the file's group too) gets the owner bits; a member of the file's
/// group gets the group bits; anybody else the bits for others.
pub fn fops_cap(c: &Credentials, perm: u16, uid: u32, gid: u32) -> (r: Cap)
    ensures
        r == cap_spec(c@, perm, uid, gid),
{
    let current_uid = c.uid;
    let current_gid = c.uid;
    let fp = if current_uid == 0 {
        (true, true, true)
    } else if current_uid == uid && current_gid == gid {
        (perm & OWNER_READ != 0, perm & OWNER_WRITE != 0, perm & OWNER_EXEC != 0)
    } else if current_gid == gid {
        (perm & GROUP_READ != 0, perm & GROUP_WRITE != 0, perm & GROUP_EXEC != 0)
    } else {
        (perm & OTHER_READ != 0, perm & OTHER_WRITE != 0, perm & OTHER_EXEC != 0)
    };
    let mut cap = Cap { read: false, write: false, execute: false };
    if fp.0 {
        cap.read = true;
    }
    if fp.1 {
        cap.write = true;
    }
    if fp.2 {
        cap.execute = true;
    }
    cap
}

/// The kinds of file system node.
#[derive(Debug, Clone, Copy, PartialEq, Eq, Structural)]
pub enum FileType {
    Fifo,
    CharDevice,
    Dir,
    BlockDevice,
    File,
    SymLink,
    Socket,
    Unknown,
}

/// The attributes of a file: mode, owner, group, type, size and allocated blocks.
#[derive(Debug, Clone, Copy, PartialEq, Eq, Structural)]
pub struct FileAttr {
    pub perm: u16,
    pub uid: u32,
    pub gid: u32,
    pub file_type: FileType,
    pub size: u64,
    pub blocks: u64,
}

/// The permission bits that a mode keeps: the nine of owner, group and others.
pub open spec fn perm_bits(perm: u16) -> u16 {
    perm & 0o777
}

/// The attributes of a file after the current user asks to give it mode
/// `perm`, owner `uid` and group `gid`: only root and the file's owner may,
/// anyone else is refused with `PermissionDenied`. Type, size and blocks stay.
pub fn ax_file_change_attr(c: &Credentials, a: &FileAttr, perm: u16, uid: u32, gid: u32) -> (r:
    Result<FileAttr, UserError>)
    ensures
        c@ != 0 && c@ != a.uid ==> r == Err::<FileAttr, UserError>(UserError::PermissionDenied),
        c@ == 0 || c@ == a.uid ==> r == Ok::<FileAttr, UserError>(
            FileAttr {
                perm: perm_bits(perm),
                uid,
                gid,
                file_type: a.file_type,
                size: a.size,
                blocks: a.blocks,
            },
        ),
{
    let cur = c.uid;
    if cur != 0 && cur != a.uid {
        return Err(UserError::PermissionDenied);
    }
    Ok(FileAttr { perm: perm & 0o777, uid, gid, file_type: a.file_type, size: a.size, blocks: a.blocks })
}


/// Whether the current user may execute a file with attributes `a`: run it
/// as a script, or, for a directory, enter it. Without the execute permission
/// the request is refused with `PermissionDenied`.
pub fn check_execute(c: &Credentials, a: &FileAttr) -> (r: Result<(), UserError>)
    ensures
        r is Ok <==> cap_spec(c@, a.perm, a.uid, a.gid).execute,
        r matches Err(e) ==> e == UserError::PermissionDenied,
{
    let cap = fops_cap(c, a.perm, a.uid, a.gid);
    if cap.execute {
        Ok(())
    } else {
        Err(UserError::PermissionDenied)
    }
}
} // verus!

verus! {

/// Law: root may read, write and execute any file, whatever its mode and owner.
pub proof fn law_root_has_all_caps(perm: u16, uid: u32, gid: u32)
    ensures
        cap_spec(0, perm, uid, gid) == (Cap { read: true, write: true, execute: true }),
{
}

/// Law: the owner of a file (who is not root, and whose group, the same id,
/// is the file's group) gets exactly the owner's bits: read `0o400`, write
/// `0o200`, execute `0o100`.
pub proof fn law_owner_gets_owner_bits(cur: u32, perm: u16, uid: u32, gid: u32)
    requires
        cur != 0,
        cur == uid,
        cur == gid,
    ensures
        cap_spec(cur, perm, uid, gid) == (Cap {
            read: perm & 0o400u16 != 0,
            write: perm & 0o200u16 != 0,
            execute: perm & 0o100u16 != 0,
        }),
{
}

/// Law: a member of the file's group (not root, and not its owner as well)
/// gets exactly the group's bits: read `0o040`, write `0o020`, execute `0o010`.
pub proof fn law_group_gets_group_bits(cur: u32, perm: u16, uid: u32, gid: u32)
    requires
        cur != 0,
        cur == gid,
        cur != uid,
    ensures
        cap_spec(cur, perm, uid, gid) == (Cap {
            read: perm & 0o040u16 != 0,
            write: perm & 0o020u16 != 0,
            execute: perm & 0o010u16 != 0,
        }),
{
}

/// Law: a user who is neither root nor in the file's group gets exactly the
/// bits for others: read `0o004`, write `0o002`, execute `0o001`.
pub proof fn law_others_get_other_bits(cur: u32, perm: u16, uid: u32, gid: u32)
    requires
        cur != 0,
        cur != gid,
    ensures
        cap_spec(cur, perm, uid, gid) == (Cap {
            read: perm & 0o004u16 != 0,
            write: perm & 0o002u16 != 0,
            execute: perm & 0o001u16 != 0,
        }),
{
}

/// Law: the execute check admits a user exactly when the execute bit of the
/// user's class is set (root always).
pub proof fn law_execute_bit(cur: u32, perm: u16, uid: u32, gid: u32)
    ensures
        cap_spec(cur, perm, uid, gid).execute == (cur == 0 || (cur == uid && cur == gid && perm
            & 0o100u16 != 0) || (cur == gid && cur != uid && perm & 0o010u16 != 0) || (cur != gid
            && perm & 0o001u16 != 0)),
{
}

} // verus!
