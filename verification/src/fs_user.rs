use vstd::prelude::*;
use std::collections::BTreeMap;
use crate::error::UserError;
use crate::text::{chars_of, lemma_split_nonempty, pieces, split, split_ranges};
use crate::user::UserInfo;

verus! {

/// The file system's own reading of `/etc/passwd`: each line is cut at
/// newlines again rather than at `:`, so every line has one field and the
/// text is always found invalid.
pub fn user_list(content: &str) -> (r: Result<BTreeMap<u32, UserInfo>, UserError>)
    ensures
        r matches Err(e) && e == UserError::InvalidData,
{
    let chars = chars_of(content);
    let lines = split_ranges(&chars, 0, chars.len(), '\n');
    assert(chars@.subrange(0, chars@.len() as int) =~= chars@);
    proof {
        lemma_split_nonempty(chars@, '\n');
    }
    let (a, b) = lines[0];
    let v = split_ranges(&chars, a, b, '\n');
    proof {
        assert(pieces(chars@, lines@)[0] == chars@.subrange(a as int, b as int));
        crate::text::lemma_split_pieces_lack_sep(chars@, '\n');
        assert(split(chars@, '\n')[0] == chars@.subrange(a as int, b as int));
        assert(crate::text::lacks(split(chars@, '\n')[0], '\n'));
        crate::text::lemma_split_lacking(chars@.subrange(a as int, b as int), '\n');
    }
    assert(pieces(chars@, v@).len() == 1);
    Err(UserError::InvalidData)
}

/// The file system's own password check, which reads `/etc/passwd` (when it
/// can be opened, `passwd` is `Some`) and accepts no password either way.
pub fn verify(passwd: Option<&str>, uid: u32, password: String) -> (r: bool)
    ensures
        !r,
{
    match passwd {
        None => false,
        Some(_) => false,
    }
}

} // verus!
