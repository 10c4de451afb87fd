use vstd::prelude::*;
use vstd::string::*;
use crate::permission::FileType;
use crate::shadow::{join_lines, lemma_split_join};
use crate::user::{
    has_user_named, is_final, lemma_records_map, lemma_records_named_by_lines, parse_passwd_line,
    passwd_records, passwd_users, records_map, user_id_ok, UserRecord,
};
use crate::shell::{group_id, id_map, id_of, map_line, map_text_ok, name_of, user_id, user_name};
use crate::text::{
    lemma_split_nonempty, lemma_split_concat, lemma_split_lacking, lemma_decimal_digits,
    lemma_not_blank_at, law_parse_decimal, lemma_split_pieces_lack_sep, lacks, is_digit, is_blank, is_ws, trim_start, trim_end,
    parse_u32, parse_u32_range, pieces, range_eq, ranges_within,
    split_ranges, u32_to_string, u64_to_string, decimal, chars_of, find_char, first_ws, first_ws_in, has_ws, index_of, last_index_of,
    lemma_first_ws, lemma_last_index_of, rfind_char, split, split_words, str_eq, str_has_ws,
    strings_view, substring, trim, trim_bounds, words,
};

verus! {

/// Why a shell command refuses its arguments.
#[derive(Debug, Clone, Copy, PartialEq, Eq, Structural)]
pub enum CmdError {
    /// No operand was given.
    MissingOperand,
    /// More than one operand was given where one is expected.
    TooManyArguments,
    /// Not exactly the two operands that are expected.
    WrongOperand,
    /// An output redirection names no file.
    NoFileSpecified,
    /// The user name is unknown.
    InvalidUser,
    /// The group name is unknown.
    InvalidGroup,
    /// A user of that name exists already.
    ExistingUser,
    /// A user or group file is malformed.
    InvalidData,
}

/// The command word of a line and the rest, as the shell splits them: the
/// trimmed line up to its first white space, and the trimmed remainder after
/// that white-space character.
pub open spec fn split_ws_spec(s: Seq<char>) -> (Seq<char>, Seq<char>) {
    let t = trim(s);
    let n = first_ws(t);
    if n >= t.len() {
        (t, Seq::<char>::empty())
    } else {
        (t.subrange(0, n), trim(t.subrange(n + 1, t.len() as int)))
    }
}

/// The white space that splits a trimmed line, if any, is a one-byte
/// character (the split cuts one byte past it).
pub open spec fn split_ws_ok(s: Seq<char>) -> bool {
    let t = trim(s);
    let n = first_ws(t);
    n < t.len() ==> (t[n] as u32) < 0x80
}

/// Splits a command line into its first word and the rest.
pub fn split_whitespace(s: &str) -> (r: (String, String))
    requires
        split_ws_ok(s@),
    ensures
        (r.0@, r.1@) == split_ws_spec(s@),
{
    let v = chars_of(s);
    let (ta, tb) = trim_bounds(&v, 0, v.len());
    assert(v@.subrange(0, v@.len() as int) =~= v@);
    let ghost t = v@.subrange(ta as int, tb as int);
    let n = first_ws_in(&v, ta, tb);
    proof {
        lemma_first_ws(t);
    }
    if n == tb {
        return (substring(s, ta, tb), String::new());
    }
    assert(t.subrange(0, (n - ta) as int) =~= v@.subrange(ta as int, n as int));
    let (ra, rb) = trim_bounds(&v, n + 1, tb);
    assert(t.subrange((n - ta + 1) as int, t.len() as int) =~= v@.subrange(
        (n + 1) as int,
        tb as int,
    ));
    (substring(s, ta, n), substring(s, ra, rb))
}

/// The nine permission bits of a mode, from the owner's read bit down to
/// the others' execute bit.
pub open spec fn mode_bit(i: int) -> u32 {
    if i == 0 {
        0o400
    } else if i == 1 {
        0o200
    } else if i == 2 {
        0o100
    } else if i == 3 {
        0o40
    } else if i == 4 {
        0o20
    } else if i == 5 {
        0o10
    } else if i == 6 {
        0o4
    } else if i == 7 {
        0o2
    } else {
        0o1
    }
}

/// The letter that shows a set permission bit at position `i`: `r`, `w`, `x` in turn.
pub open spec fn mode_letter(i: int) -> u8 {
    if i % 3 == 0 {
        114u8
    } else if i % 3 == 1 {
        119u8
    } else {
        120u8
    }
}

/// The `rwxrwxrwx` text of a mode: position `i` holds its letter when the
/// bit is set and `-` otherwise.
pub open spec fn rwx_spec(mode: u32) -> Seq<u8> {
    Seq::new(9, |i: int| if mode & mode_bit(i) != 0 { mode_letter(i) } else { 45u8 })
}

/// The `rwxrwxrwx` text of the permission bits of a mode.
pub fn file_perm_to_rwx(mode: u32) -> (r: [u8; 9])
    ensures
        r@ == rwx_spec(mode),
{
    let r = [
        if mode & 0o400 != 0 { 114u8 } else { 45u8 },
        if mode & 0o200 != 0 { 119u8 } else { 45u8 },
        if mode & 0o100 != 0 { 120u8 } else { 45u8 },
        if mode & 0o40 != 0 { 114u8 } else { 45u8 },
        if mode & 0o20 != 0 { 119u8 } else { 45u8 },
        if mode & 0o10 != 0 { 120u8 } else { 45u8 },
        if mode & 0o4 != 0 { 114u8 } else { 45u8 },
        if mode & 0o2 != 0 { 119u8 } else { 45u8 },
        if mode & 0o1 != 0 { 120u8 } else { 45u8 },
    ];
    assert(r@ =~= rwx_spec(mode));
    r
}

/// The letter that `ll` shows for a kind of file.
pub open spec fn file_type_char(ty: FileType) -> char {
    match ty {
        FileType::CharDevice => 'c',
        FileType::BlockDevice => 'b',
        FileType::Socket => 's',
        FileType::Fifo => 'p',
        FileType::SymLink => 'l',
        FileType::Dir => 'd',
        FileType::File => '-',
        FileType::Unknown => '?',
    }
}

/// The letter that `ll` shows for a kind of file.
pub fn file_type_to_char(ty: FileType) -> (c: char)
    ensures
        c == file_type_char(ty),
{
    match ty {
        FileType::CharDevice => 'c',
        FileType::BlockDevice => 'b',
        FileType::Socket => 's',
        FileType::Fifo => 'p',
        FileType::SymLink => 'l',
        FileType::Dir => 'd',
        FileType::File => '-',
        FileType::Unknown => '?',
    }
}

/// The directory that `cd` goes to: `/` for no argument; more than one
/// word is refused.
pub fn cd_target(args: &str) -> (r: Result<String, CmdError>)
    ensures
        args@.len() == 0 ==> (r matches Ok(d) && d@ == "/"@),
        args@.len() > 0 && has_ws(args@) ==> r == Err::<String, CmdError>(
            CmdError::TooManyArguments,
        ),
        args@.len() > 0 && !has_ws(args@) ==> (r matches Ok(d) && d@ == args@),
{
    if args.is_empty() {
        return Ok("/".to_owned());
    }
    if str_has_ws(args) {
        Err(CmdError::TooManyArguments)
    } else {
        Ok(args.to_owned())
    }
}

/// The exit code that `exit` gives: 0 without argument, else the first
/// byte less the byte of `0`.
pub fn exit_code(args: &[u8]) -> (r: i32)
    requires
        args@.len() > 0 ==> args@[0] >= 48,
    ensures
        r == (if args@.len() == 0 {
            0
        } else {
            args@[0] - 48
        }),
{
    if args.len() == 0 {
        0
    } else {
        (args[0] - 48u8) as i32
    }
}

/// The mode that `chmod` reads from its first operand: three octal digits
/// given as bytes (any byte is read as its distance from `0`).
pub open spec fn chmod_perm_spec(m: Seq<u8>) -> int {
    (m[0] - 48) * 64 + (m[1] - 48) * 8 + (m[2] - 48)
}

/// The mode that `chmod` reads from the bytes of its first operand.
pub fn chmod_perm(m: &[u8]) -> (r: u16)
    requires
        m@.len() >= 3,
        m@[0] >= 48,
        m@[1] >= 48,
        m@[2] >= 48,
    ensures
        r == chmod_perm_spec(m@),
{
    (m[0] - 48u8) as u16 * 64 + (m[1] - 48u8) as u16 * 8 + (m[2] - 48u8) as u16
}

/// The words other than `flag`, in order.
pub open spec fn without(ws: Seq<Seq<char>>, flag: Seq<char>) -> Seq<Seq<char>>
    decreases ws.len(),
{
    if ws.len() == 0 {
        Seq::<Seq<char>>::empty()
    } else if ws.last() == flag {
        without(ws.drop_last(), flag)
    } else {
        without(ws.drop_last(), flag).push(ws.last())
    }
}

/// Splits words into those other than `flag`, and whether `flag` was among them.
fn take_flag(ws: &Vec<String>, flag: &str) -> (r: (Vec<String>, bool))
    ensures
        strings_view(r.0@) == without(strings_view(ws@), flag@),
        r.1 == strings_view(ws@).contains(flag@),
{
    let ghost sv = strings_view(ws@);
    let mut out: Vec<String> = Vec::new();
    let mut seen = false;
    let mut i: usize = 0;
    assert(sv.take(0) =~= Seq::<Seq<char>>::empty());
    assert(strings_view(out@) =~= Seq::<Seq<char>>::empty());
    while i < ws.len()
        invariant
            sv == strings_view(ws@),
            i <= ws.len(),
            strings_view(out@) == without(sv.take(i as int), flag@),
            seen == sv.take(i as int).contains(flag@),
        decreases ws.len() - i,
    {
        assert(sv.take(i + 1).drop_last() =~= sv.take(i as int));
        assert(sv.take(i + 1).last() == ws@[i as int]@);
        if str_eq(ws[i].as_str(), flag) {
            seen = true;
            assert(sv.take(i + 1)[i as int] == flag@);
        } else {
            let ghost before = out@;
            out.push(ws[i].clone());
            assert(strings_view(out@) =~= strings_view(before).push(ws@[i as int]@));
            assert(sv.take(i + 1).contains(flag@) == sv.take(i as int).contains(flag@)) by {
                if sv.take(i + 1).contains(flag@) {
                    let j = choose|j: int| 0 <= j < i + 1 && #[trigger] sv.take(i + 1)[j] == flag@;
                    assert(j < i);
                    assert(sv.take(i as int)[j] == flag@);
                }
                if sv.take(i as int).contains(flag@) {
                    let j = choose|j: int| 0 <= j < i && #[trigger] sv.take(i as int)[j] == flag@;
                    assert(sv.take(i + 1)[j] == flag@);
                }
            }
        }
        i = i + 1;
    }
    assert(sv.take(ws.len() as int) =~= sv);
    (out, seen)
}

/// The operands of `chmod` or `chown`: the words other than `-R`, which
/// must be exactly two; and whether `-R` was given.
pub fn parse_two_operands(args: &str) -> (r: Result<(String, String, bool), CmdError>)
    ensures
        without(words(args@), "-R"@).len() != 2 ==> r == Err::<(String, String, bool), CmdError>(
            CmdError::WrongOperand,
        ),
        without(words(args@), "-R"@).len() == 2 ==> (r matches Ok((a, b, rec)) && a@ == without(
            words(args@),
            "-R"@,
        )[0] && b@ == without(words(args@), "-R"@)[1] && rec == words(args@).contains("-R"@)),
{
    let ws = split_words(args);
    let (mf, recursive) = take_flag(&ws, "-R");
    if mf.len() != 2 {
        return Err(CmdError::WrongOperand);
    }
    assert(strings_view(mf@)[0] == mf@[0]@);
    assert(strings_view(mf@)[1] == mf@[1]@);
    Ok((mf[0].clone(), mf[1].clone(), recursive))
}

/// The operands of `rm`: the words other than `-d`, and whether `-d` was
/// given; no argument at all is refused.
pub fn parse_rm_args(args: &str) -> (r: Result<(Vec<String>, bool), CmdError>)
    ensures
        args@.len() == 0 ==> (r matches Err(e) && e == CmdError::MissingOperand),
        args@.len() > 0 ==> (r matches Ok((paths, rm_dir)) && strings_view(paths@) == without(
            words(args@),
            "-d"@,
        ) && rm_dir == words(args@).contains("-d"@)),
{
    if args.is_empty() {
        return Err(CmdError::MissingOperand);
    }
    let ws = split_words(args);
    Ok(take_flag(&ws, "-d"))
}

/// The directories that `mkdir` creates: the words of its argument; no
/// argument at all is refused.
pub fn parse_mkdir_args(args: &str) -> (r: Result<Vec<String>, CmdError>)
    ensures
        args@.len() == 0 ==> (r matches Err(e) && e == CmdError::MissingOperand),
        args@.len() > 0 ==> (r matches Ok(paths) && strings_view(paths@) == words(args@)),
{
    if args.is_empty() {
        return Err(CmdError::MissingOperand);
    }
    Ok(split_words(args))
}

} // verus!

verus! {

/// The user and group that `chown` reads from its first operand
/// `user:group`: the text before the first `:`, and the trimmed text after
/// it; no `:` gives an empty group.
pub open spec fn owner_parts(ug: Seq<char>) -> (Seq<char>, Seq<char>) {
    let n = index_of(ug, ':');
    if n < ug.len() {
        (ug.subrange(0, n), trim(ug.subrange(n + 1, ug.len() as int)))
    } else {
        (ug, Seq::<char>::empty())
    }
}

/// Splits the first operand of `chown` into user and group.
pub fn split_owner(ug: &str) -> (r: (String, String))
    ensures
        (r.0@, r.1@) == owner_parts(ug@),
{
    let v = chars_of(ug);
    let n = find_char(&v, 0, v.len(), ':');
    assert(v@.subrange(0, v@.len() as int) =~= v@);
    if n == v.len() {
        return (ug.to_owned(), String::new());
    }
    let (a, b) = trim_bounds(&v, n + 1, v.len());
    (substring(ug, 0, n), substring(ug, a, b))
}

/// The ids that `chown` gives a file: those of the user and the group named
/// (0 for an unknown name); a name that is unknown and not `root` is refused.
pub fn chown_ids(passwd: &str, group: &str, user_name: &str, group_name: &str) -> (r: Result<
    (u32, u32),
    CmdError,
>)
    requires
        map_text_ok(passwd@),
        map_text_ok(group@),
    ensures
        ({
            let uid = id_of(id_map(split(passwd@, '\n'), true), user_name@);
            let gid = id_of(id_map(split(group@, '\n'), false), group_name@);
            if uid == 0 && user_name@ != "root"@ {
                r == Err::<(u32, u32), CmdError>(CmdError::InvalidUser)
            } else if gid == 0 && group_name@ != "root"@ {
                r == Err::<(u32, u32), CmdError>(CmdError::InvalidGroup)
            } else {
                r == Ok::<(u32, u32), CmdError>((uid, gid))
            }
        }),
{
    let uid = user_id(passwd, user_name.to_owned());
    let gid = group_id(group, group_name.to_owned());
    if uid == 0 && !str_eq(user_name, "root") {
        return Err(CmdError::InvalidUser);
    }
    if gid == 0 && !str_eq(group_name, "root") {
        return Err(CmdError::InvalidGroup);
    }
    Ok((uid, gid))
}

/// The user that `su` switches to: the id of the user named by the single
/// argument; an unknown name other than `root` is refused, as is more than one word.
pub fn su_uid(passwd: &str, args: &str) -> (r: Result<u32, CmdError>)
    requires
        map_text_ok(passwd@),
    ensures
        has_ws(args@) ==> r == Err::<u32, CmdError>(CmdError::TooManyArguments),
        !has_ws(args@) ==> ({
            let uid = id_of(id_map(split(passwd@, '\n'), true), args@);
            if uid == 0 && args@ != "root"@ {
                r == Err::<u32, CmdError>(CmdError::InvalidUser)
            } else {
                r == Ok::<u32, CmdError>(uid)
            }
        }),
{
    if str_has_ws(args) {
        return Err(CmdError::TooManyArguments);
    }
    let uid = user_id(passwd, args.to_owned());
    if uid == 0 && !str_eq(args, "root") {
        return Err(CmdError::InvalidUser);
    }
    Ok(uid)
}

/// What `echo` does.
#[derive(Debug)]
pub enum EchoAction {
    /// Print the arguments.
    Print(String),
    /// Write `text` to the file `fname`, after its old contents when `append` holds.
    Write { fname: String, text: String, append: bool },
}

/// The part of the arguments of `echo` after its last `>`.
pub open spec fn echo_rest(args: Seq<char>) -> Seq<char> {
    args.subrange(last_index_of(args, '>') + 1, args.len() as int)
}

/// The arguments of `echo` can be split as the shell splits them.
pub open spec fn echo_ok(args: Seq<char>) -> bool {
    last_index_of(args, '>') >= 0 ==> split_ws_ok(echo_rest(args))
}

/// What `echo` does with its arguments: without `>` it prints them; with
/// one, the text before the last `>` (or before a `>>` that ends there,
/// which appends) is trimmed, and the rest gives the file name and more
/// text; the written text is the text before, a space and the text after
/// when there is some, and a newline.
pub open spec fn echo_spec(args: Seq<char>) -> Result<(Seq<char>, Seq<char>, bool), CmdError> {
    let pos = last_index_of(args, '>');
    let append = pos > 0 && args[pos - 1] == '>';
    let p = if append {
        pos - 1
    } else {
        pos
    };
    let before = trim(args.subrange(0, p));
    let (fname, after) = split_ws_spec(echo_rest(args));
    if fname.len() == 0 {
        Err(CmdError::NoFileSpecified)
    } else {
        Ok(
            (
                fname,
                before + (if after.len() > 0 {
                    seq![' ']
                } else {
                    Seq::<char>::empty()
                }) + after + seq!['\n'],
                append,
            ),
        )
    }
}

/// Works out what `echo` does with its arguments.
pub fn parse_echo(args: &str) -> (r: Result<EchoAction, CmdError>)
    requires
        echo_ok(args@),
    ensures
        last_index_of(args@, '>') < 0 ==> (r matches Ok(EchoAction::Print(t)) && t@ == args@),
        last_index_of(args@, '>') >= 0 ==> match echo_spec(args@) {
            Err(e) => r == Err::<EchoAction, CmdError>(e),
            Ok((f, t, a)) => r matches Ok(EchoAction::Write { fname, text, append }) && fname@
                == f && text@ == t && append == a,
        },
{
    let v = chars_of(args);
    let pos = match rfind_char(&v, '>') {
        Some(p) => p,
        None => {
            return Ok(EchoAction::Print(args.to_owned()));
        },
    };
    proof {
        lemma_last_index_of(v@, '>');
    }
    let append = pos != 0 && v[pos - 1] == '>';
    let p = if append {
        pos - 1
    } else {
        pos
    };
    let (ba, bb) = trim_bounds(&v, 0, p);
    let rest = args.substring_char(pos + 1, v.len());
    let (fname, after) = split_whitespace(rest);
    if fname.as_str().is_empty() {
        return Err(CmdError::NoFileSpecified);
    }
    let mut text = substring(args, ba, bb);
    proof {
        reveal_strlit(" ");
        reveal_strlit("\n");
    }
    if !after.as_str().is_empty() {
        text.append(" ");
    }
    text.append(after.as_str());
    text.append("\n");
    Ok(EchoAction::Write { fname, text, append })
}

} // verus!

verus! {

/// A numeric field as `adduser` reads it: its value, or 0 if it does not parse.
pub open spec fn parse_or_zero(s: Seq<char>) -> u32 {
    match parse_u32(s) {
        Some(u) => u,
        None => 0,
    }
}

/// The fields of the last line of the trimmed text `content`.
pub open spec fn last_record(content: Seq<char>) -> Seq<Seq<char>> {
    split(split(trim(content), '\n').last(), ':')
}

/// The ids after those of the last user record can be written without overflow.
pub open spec fn adduser_passwd_ok(passwd: Seq<char>) -> bool {
    last_record(passwd).len() == 7 ==> parse_or_zero(last_record(passwd)[2]) < u32::MAX
        && parse_or_zero(last_record(passwd)[3]) < u32::MAX
}

/// The id after that of the last group can be written without overflow.
pub open spec fn adduser_group_ok(group: Seq<char>) -> bool {
    last_record(group).len() > 2 ==> parse_or_zero(last_record(group)[2]) < u32::MAX
}

/// The text of `/etc/passwd` after `adduser name`: the trimmed old text,
/// then a line for `name` whose ids follow those of the last record (which
/// must have seven fields, or the file is invalid).
pub open spec fn adduser_passwd_spec(passwd: Seq<char>, name: Seq<char>) -> Result<
    Seq<char>,
    CmdError,
> {
    let f = last_record(passwd);
    if f.len() != 7 {
        Err(CmdError::InvalidData)
    } else {
        Ok(
            trim(passwd) + "\n"@ + name + ":x:"@ + decimal((parse_or_zero(f[2]) + 1) as nat)
                + ":"@ + decimal((parse_or_zero(f[3]) + 1) as nat) + ":,,,:/home/"@ + name
                + ":/bin/sh\n"@,
        )
    }
}

/// The text of `/etc/group` after `adduser name`: the trimmed old text,
/// then a group for `name` whose id follows that of the last group (which
/// must have more than two fields, or the file is invalid).
pub open spec fn adduser_group_spec(group: Seq<char>, name: Seq<char>) -> Result<
    Seq<char>,
    CmdError,
> {
    let f = last_record(group);
    if f.len() <= 2 {
        Err(CmdError::InvalidData)
    } else {
        Ok(
            trim(group) + "\n"@ + name + ":x:"@ + decimal((parse_or_zero(f[2]) + 1) as nat)
                + ":\n"@,
        )
    }
}

/// The fields of the last line of the trimmed text `content`.
fn last_record_fields(content: &str) -> (r: (Vec<char>, Vec<(usize, usize)>, usize, usize))
    ensures
        r.0@ == content@,
        r.2 <= r.3 <= r.0@.len(),
        r.0@.subrange(r.2 as int, r.3 as int) == trim(content@),
        ranges_within(r.1@, 0, r.0@.len() as int),
        pieces(r.0@, r.1@) == last_record(content@),
{
    let v = chars_of(content);
    let (ta, tb) = trim_bounds(&v, 0, v.len());
    assert(v@.subrange(0, v@.len() as int) =~= v@);
    let lines = split_ranges(&v, ta, tb, '\n');
    proof {
        lemma_split_nonempty(v@.subrange(ta as int, tb as int), '\n');
    }
    let (la, lb) = lines[lines.len() - 1];
    assert(pieces(v@, lines@).last() == v@.subrange(la as int, lb as int));
    let f = split_ranges(&v, la, lb, ':');
    (v, f, ta, tb)
}

/// The number in a field as `adduser` reads it.
fn field_number(v: &Vec<char>, a: usize, b: usize) -> (r: u32)
    requires
        a <= b <= v.len(),
    ensures
        r == parse_or_zero(v@.subrange(a as int, b as int)),
{
    match parse_u32_range(v, a, b) {
        Some(u) => u,
        None => 0,
    }
}

/// The text of `/etc/passwd` after `adduser name`.
pub fn adduser_passwd(passwd: &str, name: &str) -> (r: Result<String, CmdError>)
    requires
        adduser_passwd_ok(passwd@),
    ensures
        match adduser_passwd_spec(passwd@, name@) {
            Ok(t) => r matches Ok(s) && s@ == t,
            Err(e) => r == Err::<String, CmdError>(e),
        },
{
    let (v, f, ta, tb) = last_record_fields(passwd);
    if f.len() != 7 {
        return Err(CmdError::InvalidData);
    }
    let ghost fs = pieces(v@, f@);
    assert(fs[2] == v@.subrange(f@[2].0 as int, f@[2].1 as int));
    assert(fs[3] == v@.subrange(f@[3].0 as int, f@[3].1 as int));
    let uid = field_number(&v, f[2].0, f[2].1);
    let gid = field_number(&v, f[3].0, f[3].1);
    let mut out = substring(passwd, ta, tb);
    out.append("\n");
    out.append(name);
    out.append(":x:");
    out.append(u32_to_string(uid + 1).as_str());
    out.append(":");
    out.append(u32_to_string(gid + 1).as_str());
    out.append(":,,,:/home/");
    out.append(name);
    out.append(":/bin/sh\n");
    Ok(out)
}

/// The text of `/etc/group` after `adduser name`.
pub fn adduser_group(group: &str, name: &str) -> (r: Result<String, CmdError>)
    requires
        adduser_group_ok(group@),
    ensures
        match adduser_group_spec(group@, name@) {
            Ok(t) => r matches Ok(s) && s@ == t,
            Err(e) => r == Err::<String, CmdError>(e),
        },
{
    let (v, f, ta, tb) = last_record_fields(group);
    if f.len() <= 2 {
        return Err(CmdError::InvalidData);
    }
    let ghost fs = pieces(v@, f@);
    assert(fs[2] == v@.subrange(f@[2].0 as int, f@[2].1 as int));
    let gid = field_number(&v, f[2].0, f[2].1);
    let mut out = substring(group, ta, tb);
    out.append("\n");
    out.append(name);
    out.append(":x:");
    out.append(u32_to_string(gid + 1).as_str());
    out.append(":\n");
    Ok(out)
}

/// `adduser` takes `name` for an existing user when one of the users 0, 1
/// and 2 has that name by the shell's reading of `/etc/passwd` (which names
/// an unknown user `root`).
pub open spec fn adduser_exists_spec(passwd: Seq<char>, name: Seq<char>) -> bool {
    let m = id_map(split(passwd, '\n'), true);
    name == name_of(m, 0) || name == name_of(m, 1) || name == name_of(m, 2)
}

/// Whether `adduser` refuses `name` as an existing user.
pub fn adduser_exists(passwd: &str, name: &str) -> (r: bool)
    requires
        map_text_ok(passwd@),
    ensures
        r == adduser_exists_spec(passwd@, name@),
{
    let mut i: u32 = 0;
    let mut found = false;
    while i < 3
        invariant
            map_text_ok(passwd@),
            i <= 3,
            found == (exists|j: u32| j < i && name@ == #[trigger] name_of(
                id_map(split(passwd@, '\n'), true),
                j,
            )),
        decreases 3 - i,
    {
        let n = user_name(passwd, i);
        if str_eq(name, n.as_str()) {
            found = true;
        }
        i = i + 1;
    }
    assert(found == adduser_exists_spec(passwd@, name@)) by {
        let m = id_map(split(passwd@, '\n'), true);
        if found {
            let j = choose|j: u32| j < 3 && name@ == #[trigger] name_of(m, j);
            assert(j == 0 || j == 1 || j == 2);
        } else {
            assert(!(name@ == name_of(m, 0u32)));
            assert(!(name@ == name_of(m, 1u32)));
            assert(!(name@ == name_of(m, 2u32)));
        }
    }
    found
}

/// The lines of the trimmed `/etc/passwd` that `deluser name` keeps: those
/// that are not empty and whose first field is not `name`.
pub open spec fn deluser_kept(lines: Seq<Seq<char>>, name: Seq<char>) -> Seq<Seq<char>>
    decreases lines.len(),
{
    if lines.len() == 0 {
        Seq::<Seq<char>>::empty()
    } else {
        let rest = deluser_kept(lines.drop_first(), name);
        if lines[0].len() > 0 && split(lines[0], ':')[0] != name {
            seq![lines[0]] + rest
        } else {
            rest
        }
    }
}

/// Some line that is not empty has `name` as its first field.
pub open spec fn deluser_found(lines: Seq<Seq<char>>, name: Seq<char>) -> bool {
    exists|i: int|
        0 <= i < lines.len() && lines[i].len() > 0 && #[trigger] split(lines[i], ':')[0] == name
}

/// The text of `/etc/passwd` after `deluser name`, and whether a line of
/// `name` was there to remove.
pub fn deluser_passwd(passwd: &str, name: &str) -> (r: (String, bool))
    ensures
        r.0@ == join_lines(deluser_kept(split(trim(passwd@), '\n'), name@)),
        r.1 == deluser_found(split(trim(passwd@), '\n'), name@),
{
    let v = chars_of(passwd);
    let want = chars_of(name);
    let (ta, tb) = trim_bounds(&v, 0, v.len());
    assert(v@.subrange(0, v@.len() as int) =~= v@);
    assert(want@.subrange(0, want@.len() as int) =~= want@);
    let lines = split_ranges(&v, ta, tb, '\n');
    let ghost ls = pieces(v@, lines@);
    let mut out = String::new();
    let mut del = false;
    let mut i: usize = 0;
    assert(ls.skip(0) =~= ls);
    while i < lines.len()
        invariant
            v@ == passwd@,
            want@ == name@,
            want@.subrange(0, want@.len() as int) == want@,
            ls == pieces(v@, lines@),
            ls == split(trim(passwd@), '\n'),
            ranges_within(lines@, ta as int, tb as int),
            tb <= v@.len(),
            i <= lines.len(),
            join_lines(deluser_kept(ls, name@)) == out@ + join_lines(
                deluser_kept(ls.skip(i as int), name@),
            ),
            del == (exists|t: int|
                0 <= t < i && ls[t].len() > 0 && #[trigger] split(ls[t], ':')[0] == name@),
        decreases lines.len() - i,
    {
        let (a, b) = lines[i];
        assert(ls[i as int] == v@.subrange(a as int, b as int));
        assert(ls.skip(i as int)[0] == ls[i as int]);
        assert(ls.skip(i as int).drop_first() =~= ls.skip(i + 1));
        let ghost rest = deluser_kept(ls.skip(i + 1), name@);
        if a < b {
            let f = split_ranges(&v, a, b, ':');
            proof {
                lemma_split_nonempty(v@.subrange(a as int, b as int), ':');
            }
            let ghost fs = pieces(v@, f@);
            assert(fs[0] == v@.subrange(f@[0].0 as int, f@[0].1 as int));
            if range_eq(&v, f[0].0, f[0].1, &want, 0, want.len()) {
                del = true;
            } else {
                let ghost l = ls[i as int];
                assert((seq![l] + rest)[0] == l);
                assert((seq![l] + rest).drop_first() =~= rest);
                assert(join_lines(seq![l] + rest) == l.push('\n') + join_lines(rest));
                let ghost before = out@;
                out.append(passwd.substring_char(a, b));
                proof {
                    reveal_strlit("\n");
                }
                out.append("\n");
                assert(out@ =~= before + l.push('\n'));
                assert(before + join_lines(seq![l] + rest) =~= out@ + join_lines(rest));
            }
        } else {
            assert(ls[i as int].len() == 0);
        }
        i = i + 1;
    }
    assert(ls.skip(i as int) =~= Seq::<Seq<char>>::empty());
    assert(out@ + join_lines(deluser_kept(ls.skip(i as int), name@)) =~= out@);
    (out, del)
}

} // verus!

verus! {

/// The path of `entry` in the directory `name`: joined with a `/` unless
/// `name` ends with one.
pub open spec fn join_path_spec(name: Seq<char>, entry: Seq<char>) -> Seq<char> {
    if name.len() > 0 && name.last() == '/' {
        name + entry
    } else {
        name + seq!['/'] + entry
    }
}

/// The path of `entry` in the directory `name`.
pub fn join_path(name: &str, entry: &str) -> (r: String)
    ensures
        r@ == join_path_spec(name@, entry@),
{
    let v = chars_of(name);
    let mut r = name.to_owned();
    if !(v.len() > 0 && v[v.len() - 1] == '/') {
        proof {
            reveal_strlit("/");
        }
        r.append("/");
    }
    r.append(entry);
    r
}

/// `s` right-aligned in a field of eight characters: spaces before it when
/// it is shorter.
pub open spec fn pad8(s: Seq<char>) -> Seq<char> {
    if s.len() < 8 {
        Seq::new((8 - s.len()) as nat, |i: int| ' ') + s
    } else {
        s
    }
}

/// `s` right-aligned in a field of eight characters.
fn pad8_str(s: &str) -> (r: String)
    ensures
        r@ == pad8(s@),
{
    let n = s.unicode_len();
    let mut r = String::new();
    let mut k: usize = n;
    proof {
        reveal_strlit(" ");
    }
    while k < 8
        invariant
            n == s@.len(),
            n <= k <= 8 || (n > 8 && k == n),
            r@ == Seq::new((k - n) as nat, |i: int| ' '),
        decreases 8 - k,
    {
        let ghost before = r@;
        proof {
            reveal_strlit(" ");
        }
        r.append(" ");
        assert(r@ =~= Seq::new((k + 1 - n) as nat, |i: int| ' '));
        k = k + 1;
    }
    let ghost pre = r@;
    r.append(s);
    if n < 8 {
        assert(k == 8);
    } else {
        assert(pre =~= Seq::<char>::empty());
        assert(r@ =~= s@);
    }
    r
}

/// The letter that shows mode bit `i` of `mode`, as a character.
pub open spec fn rwx_char(mode: u32, i: int) -> char {
    if mode & mode_bit(i) != 0 {
        if i % 3 == 0 {
            'r'
        } else if i % 3 == 1 {
            'w'
        } else {
            'x'
        }
    } else {
        '-'
    }
}

/// The `rwxrwxrwx` text of a mode, as characters.
pub open spec fn rwx_text(mode: u32) -> Seq<char> {
    Seq::new(9, |i: int| rwx_char(mode, i))
}

/// The line that `ll` prints for a file: its type letter and permissions,
/// then owner, group and size right-aligned in fields of eight, then its
/// name, separated by spaces.
pub open spec fn ll_line_spec(
    ty: FileType,
    mode: u32,
    user: Seq<char>,
    group: Seq<char>,
    size: u64,
    entry: Seq<char>,
) -> Seq<char> {
    seq![file_type_char(ty)] + rwx_text(mode) + seq![' '] + pad8(user) + seq![' '] + pad8(group)
        + seq![' '] + pad8(decimal(size as nat)) + seq![' '] + entry
}

/// The one-character string of `c`, for the characters that `ll` writes.
fn char_str(c: char) -> (s: &'static str)
    requires
        c == 'c' || c == 'b' || c == 's' || c == 'p' || c == 'l' || c == 'd' || c == '-' || c == '?'
            || c == 'r' || c == 'w' || c == 'x',
    ensures
        s@ == seq![c],
{
    proof {
        reveal_strlit("c");
        reveal_strlit("b");
        reveal_strlit("s");
        reveal_strlit("p");
        reveal_strlit("l");
        reveal_strlit("d");
        reveal_strlit("-");
        reveal_strlit("?");
        reveal_strlit("r");
        reveal_strlit("w");
        reveal_strlit("x");
    }
    if c == 'c' {
        "c"
    } else if c == 'b' {
        "b"
    } else if c == 's' {
        "s"
    } else if c == 'p' {
        "p"
    } else if c == 'l' {
        "l"
    } else if c == 'd' {
        "d"
    } else if c == '-' {
        "-"
    } else if c == '?' {
        "?"
    } else if c == 'r' {
        "r"
    } else if c == 'w' {
        "w"
    } else {
        "x"
    }
}

/// The line that `ll` prints for a file.
pub fn ll_line(ty: FileType, mode: u32, user: &str, group: &str, size: u64, entry: &str) -> (r:
    String)
    ensures
        r@ == ll_line_spec(ty, mode, user@, group@, size, entry@),
{
    let mut r = char_str(file_type_to_char(ty)).to_owned();
    let bits: [u32; 9] = [0o400, 0o200, 0o100, 0o40, 0o20, 0o10, 0o4, 0o2, 0o1];
    let mut i: usize = 0;
    while i < 9
        invariant
            i <= 9,
            bits@ == Seq::new(9, |j: int| mode_bit(j)),
            r@ == seq![file_type_char(ty)] + rwx_text(mode).take(i as int),
        decreases 9 - i,
    {
        let c = if mode & bits[i] != 0 {
            if i % 3 == 0 {
                'r'
            } else if i % 3 == 1 {
                'w'
            } else {
                'x'
            }
        } else {
            '-'
        };
        assert(bits@[i as int] == mode_bit(i as int));
        assert(c == rwx_char(mode, i as int));
        let ghost before = r@;
        r.append(char_str(c));
        assert(rwx_text(mode).take(i + 1) =~= rwx_text(mode).take(i as int).push(c));
        assert(r@ =~= seq![file_type_char(ty)] + rwx_text(mode).take(i + 1));
        i = i + 1;
    }
    assert(rwx_text(mode).take(9) =~= rwx_text(mode));
    proof {
        reveal_strlit(" ");
    }
    r.append(" ");
    r.append(pad8_str(user).as_str());
    r.append(" ");
    r.append(pad8_str(group).as_str());
    r.append(" ");
    r.append(pad8_str(u64_to_string(size).as_str()).as_str());
    r.append(" ");
    r.append(entry);
    assert(r@ =~= ll_line_spec(ty, mode, user@, group@, size, entry@));
    r
}

} // verus!

verus! {

/// The line that `adduser name` appends to `/etc/passwd` for ids `uid` and `gid`.
pub open spec fn new_user_line(name: Seq<char>, uid: u32, gid: u32) -> Seq<char> {
    name + seq![':', 'x', ':'] + decimal(uid as nat) + seq![':'] + decimal(gid as nat) + seq![
        ':',
        ',',
        ',',
        ',',
        ':',
        '/',
        'h',
        'o',
        'm',
        'e',
        '/',
    ] + name + seq![':', '/', 'b', 'i', 'n', '/', 's', 'h']
}

/// The record that `adduser name` creates for ids `uid` and `gid`.
pub open spec fn new_user_record(name: Seq<char>, uid: u32, gid: u32) -> UserRecord {
    UserRecord {
        username: name,
        password: seq!['x'],
        uid,
        gid,
        comment: seq![',', ',', ','],
        home: seq!['/', 'h', 'o', 'm', 'e', '/'] + name,
        shell: seq!['/', 'b', 'i', 'n', '/', 's', 'h'],
    }
}

proof fn lemma_lacks_concat(a: Seq<char>, b: Seq<char>, c: char)
    requires
        lacks(a, c),
        lacks(b, c),
    ensures
        lacks(a + b, c),
{
    assert forall|i: int| 0 <= i < (a + b).len() implies #[trigger] (a + b)[i] != c by {
        if i < a.len() {
            assert((a + b)[i] == a[i]);
        } else {
            assert((a + b)[i] == b[i - a.len()]);
        }
    }
}

proof fn lemma_digits_lack(n: nat, c: char)
    requires
        !is_digit(c),
    ensures
        lacks(decimal(n), c),
{
    lemma_decimal_digits(n);
}

/// The fields of the line that `adduser` appends.
proof fn lemma_new_user_fields(name: Seq<char>, uid: u32, gid: u32)
    requires
        lacks(name, ':'),
    ensures
        split(new_user_line(name, uid, gid), ':') == seq![
            name,
            seq!['x'],
            decimal(uid as nat),
            decimal(gid as nat),
            seq![',', ',', ','],
            seq!['/', 'h', 'o', 'm', 'e', '/'] + name,
            seq!['/', 'b', 'i', 'n', '/', 's', 'h'],
        ],
{
    let d1 = decimal(uid as nat);
    let d2 = decimal(gid as nat);
    let x = seq!['x'];
    let commas = seq![',', ',', ','];
    let home = seq!['/', 'h', 'o', 'm', 'e', '/'] + name;
    let sh = seq!['/', 'b', 'i', 'n', '/', 's', 'h'];
    lemma_digits_lack(uid as nat, ':');
    lemma_digits_lack(gid as nat, ':');
    assert(lacks(x, ':'));
    assert(lacks(commas, ':'));
    assert(lacks(seq!['/', 'h', 'o', 'm', 'e', '/'], ':'));
    lemma_lacks_concat(seq!['/', 'h', 'o', 'm', 'e', '/'], name, ':');
    assert(lacks(sh, ':'));
    let t5 = home.push(':') + sh;
    let t4 = commas.push(':') + t5;
    let t3 = d2.push(':') + t4;
    let t2 = d1.push(':') + t3;
    let t1 = x.push(':') + t2;
    let t0 = name.push(':') + t1;
    assert(new_user_line(name, uid, gid) =~= t0);
    lemma_split_concat(home, sh, ':');
    lemma_split_concat(commas, t5, ':');
    lemma_split_concat(d2, t4, ':');
    lemma_split_concat(d1, t3, ':');
    lemma_split_concat(x, t2, ':');
    lemma_split_concat(name, t1, ':');
    lemma_split_lacking(home, ':');
    lemma_split_lacking(sh, ':');
    lemma_split_lacking(commas, ':');
    lemma_split_lacking(d2, ':');
    lemma_split_lacking(d1, ':');
    lemma_split_lacking(x, ':');
    lemma_split_lacking(name, ':');
    assert(split(t0, ':') =~= seq![name, x, d1, d2, commas, home, sh]);
}

/// Law: the user table of `/etc/passwd` after `adduser name` is the table of
/// the trimmed old text with one more user, `name`, whose ids follow those of
/// the last record. This holds when `name` has no `:` and no newline, the
/// new ids are below `u32::MAX` (which would make the record invalid), and
/// the old text is valid.
pub proof fn law_adduser_adds_user(passwd: Seq<char>, name: Seq<char>)
    requires
        last_record(passwd).len() == 7,
        parse_or_zero(last_record(passwd)[2]) + 1 < u32::MAX,
        parse_or_zero(last_record(passwd)[3]) + 1 < u32::MAX,
        lacks(name, ':'),
        lacks(name, '\n'),
        passwd_users(trim(passwd)) is Some,
    ensures
        ({
            let f = last_record(passwd);
            let uid = (parse_or_zero(f[2]) + 1) as u32;
            let gid = (parse_or_zero(f[3]) + 1) as u32;
            adduser_passwd_spec(passwd, name) matches Ok(new) && passwd_users(new) == Some(
                passwd_users(trim(passwd))->0.insert(uid, new_user_record(name, uid, gid)),
            )
        }),
{
    let f = last_record(passwd);
    let uid = (parse_or_zero(f[2]) + 1) as u32;
    let gid = (parse_or_zero(f[3]) + 1) as u32;
    let t = trim(passwd);
    let line = new_user_line(name, uid, gid);
    reveal_strlit("\n");
    reveal_strlit(":x:");
    reveal_strlit(":");
    reveal_strlit(":,,,:/home/");
    reveal_strlit(":/bin/sh\n");
    let new = adduser_passwd_spec(passwd, name)->Ok_0;
    assert(new =~= t.push('\n') + (line.push('\n') + Seq::<char>::empty()));
    lemma_split_concat(t, line.push('\n') + Seq::<char>::empty(), '\n');
    lemma_split_concat(line, Seq::<char>::empty(), '\n');
    // the appended line has no newline
    lemma_digits_lack(uid as nat, '\n');
    lemma_digits_lack(gid as nat, '\n');
    assert(lacks(line, '\n')) by {
        assert forall|i: int| 0 <= i < line.len() implies #[trigger] line[i] != '\n' by {
            let a = name + seq![':', 'x', ':'];
            lemma_lacks_concat(name, seq![':', 'x', ':'], '\n');
            let b = a + decimal(uid as nat);
            lemma_lacks_concat(a, decimal(uid as nat), '\n');
            let c = b + seq![':'];
            lemma_lacks_concat(b, seq![':'], '\n');
            let d = c + decimal(gid as nat);
            lemma_lacks_concat(c, decimal(gid as nat), '\n');
            let e = d + seq![':', ',', ',', ',', ':', '/', 'h', 'o', 'm', 'e', '/'];
            lemma_lacks_concat(d, seq![':', ',', ',', ',', ':', '/', 'h', 'o', 'm', 'e', '/'], '\n');
            let g = e + name;
            lemma_lacks_concat(e, name, '\n');
            lemma_lacks_concat(g, seq![':', '/', 'b', 'i', 'n', '/', 's', 'h'], '\n');
            assert(line =~= g + seq![':', '/', 'b', 'i', 'n', '/', 's', 'h']);
        }
    }
    lemma_split_lacking(line, '\n');
    let lt = split(t, '\n');
    let lines = split(new, '\n');
    assert(split(Seq::<char>::empty(), '\n') =~= seq![Seq::<char>::empty()]);
    assert(lines =~= lt.push(line).push(Seq::<char>::empty()));
    // the last, empty, line is blank
    let e = Seq::<char>::empty();
    assert(trim_start(e) == e);
    assert(trim_end(e) == e);
    assert(is_blank(e));
    assert(lines.drop_last() =~= lt.push(line));
    assert(lt.push(line).drop_last() =~= lt);
    // the appended line is not blank and holds the new record
    assert(line[name.len() + 1int] == 'x');
    lemma_not_blank_at(line, name.len() + 1int);
    lemma_new_user_fields(name, uid, gid);
    law_parse_decimal(uid);
    law_parse_decimal(gid);
    assert(parse_passwd_line(line) == Some(new_user_record(name, uid, gid)));
    assert(passwd_records(lt) is Some);
    let rs = passwd_records(lt)->0;
    assert(lines.last() == e);
    assert(passwd_records(lines) == passwd_records(lt.push(line)));
    assert(lt.push(line).last() == line);
    assert(!is_blank(line));
    assert(passwd_records(lt.push(line)) == Some(rs.push(new_user_record(name, uid, gid))));
    assert(passwd_records(lines) == Some(rs.push(new_user_record(name, uid, gid))));
    let rs2 = rs.push(new_user_record(name, uid, gid));
    assert(rs2.drop_last() =~= rs);
}

} // verus!

verus! {

/// The lines that `deluser name` keeps are lines of the old text, none with
/// `name` as its first field.
proof fn lemma_deluser_kept(lines: Seq<Seq<char>>, name: Seq<char>)
    ensures
        forall|i: int|
            0 <= i < deluser_kept(lines, name).len() ==> exists|j: int|
                0 <= j < lines.len() && #[trigger] deluser_kept(lines, name)[i] == lines[j],
        forall|i: int|
            0 <= i < deluser_kept(lines, name).len() ==> split(
                #[trigger] deluser_kept(lines, name)[i],
                ':',
            )[0] != name,
    decreases lines.len(),
{
    if lines.len() > 0 {
        let rest = lines.drop_first();
        lemma_deluser_kept(rest, name);
        let k = deluser_kept(lines, name);
        let kr = deluser_kept(rest, name);
        if lines[0].len() > 0 && split(lines[0], ':')[0] != name {
            assert forall|i: int| 0 <= i < k.len() implies exists|j: int|
                0 <= j < lines.len() && #[trigger] k[i] == lines[j] by {
                if i > 0 {
                    assert(k[i] == kr[i - 1]);
                    let j = choose|j: int| 0 <= j < rest.len() && #[trigger] kr[i - 1] == rest[j];
                    assert(rest[j] == lines[j + 1]);
                } else {
                    assert(k[0] == lines[0]);
                }
            }
            assert forall|i: int| 0 <= i < k.len() implies split(#[trigger] k[i], ':')[0]
                != name by {
                if i > 0 {
                    assert(k[i] == kr[i - 1]);
                }
            }
        } else {
            assert forall|i: int| 0 <= i < k.len() implies exists|j: int|
                0 <= j < lines.len() && #[trigger] k[i] == lines[j] by {
                let j = choose|j: int| 0 <= j < rest.len() && #[trigger] kr[i] == rest[j];
                assert(rest[j] == lines[j + 1]);
            }
        }
    }
}

/// Law: after `deluser name`, no user of `/etc/passwd` is named `name`: the
/// user id that `user_id` finds for it is 0.
pub proof fn law_deluser_removes_user(passwd: Seq<char>, name: Seq<char>)
    ensures
        user_id_ok(Some(join_lines(deluser_kept(split(trim(passwd), '\n'), name))), name, 0),
{
    let lines = split(trim(passwd), '\n');
    let k = deluser_kept(lines, name);
    let new = join_lines(k);
    lemma_deluser_kept(lines, name);
    lemma_split_pieces_lack_sep(trim(passwd), '\n');
    assert forall|i: int| 0 <= i < k.len() implies lacks(#[trigger] k[i], '\n') by {
        let j = choose|j: int| 0 <= j < lines.len() && #[trigger] k[i] == lines[j];
    }
    lemma_split_join(k);
    let nl = split(new, '\n');
    let e = Seq::<char>::empty();
    assert(trim_start(e) == e);
    assert(trim_end(e) == e);
    assert(nl.drop_last() =~= k);
    assert(nl.last() == e);
    assert(passwd_records(nl) == passwd_records(k));
    lemma_records_named_by_lines(k);
    if let Some(rs) = passwd_records(nl) {
        let m = records_map(rs);
        lemma_records_map(rs);
        assert(!has_user_named(m, name)) by {
            assert forall|u: u32| #[trigger] m.contains_key(u) implies m[u].username != name by {
                let i = choose|i: int|
                    0 <= i < rs.len() && rs[i].uid == u && is_final(rs, i) && m[u] == rs[i];
                let j = choose|j: int|
                    0 <= j < k.len() && #[trigger] rs[i].username == split(k[j], ':')[0];
                assert(split(k[j], ':')[0] != name);
            }
        }
    }
}


/// Joining one more line appends it and its newline.
proof fn lemma_join_lines_push(ls: Seq<Seq<char>>, l: Seq<char>)
    ensures
        join_lines(ls.push(l)) == join_lines(ls) + l.push('\n'),
    decreases ls.len(),
{
    if ls.len() == 0 {
        assert(ls.push(l).drop_first() =~= Seq::<Seq<char>>::empty());
        assert(join_lines(Seq::<Seq<char>>::empty()) == Seq::<char>::empty());
        assert(join_lines(ls) == Seq::<char>::empty());
        assert(join_lines(ls.push(l)) =~= l.push('\n'));
    } else {
        let rest = ls.drop_first();
        assert(ls.push(l).drop_first() =~= rest.push(l));
        assert(ls.push(l)[0] == ls[0]);
        lemma_join_lines_push(rest, l);
        assert(join_lines(ls.push(l)) =~= join_lines(ls) + l.push('\n'));
    }
}

/// `deluser name` keeps every line of `lines` and drops a last line whose
/// first field is `name`.
proof fn lemma_deluser_kept_all(lines: Seq<Seq<char>>, last: Seq<char>, name: Seq<char>)
    requires
        forall|i: int|
            0 <= i < lines.len() ==> #[trigger] lines[i].len() > 0 && split(lines[i], ':')[0]
                != name,
        split(last, ':')[0] == name,
    ensures
        deluser_kept(lines.push(last), name) == lines,
    decreases lines.len(),
{
    if lines.len() == 0 {
        assert(lines.push(last).drop_first() =~= Seq::<Seq<char>>::empty());
        assert(lines.push(last)[0] == last);
        assert(deluser_kept(Seq::<Seq<char>>::empty(), name) == Seq::<Seq<char>>::empty());
        assert(deluser_kept(lines.push(last), name) =~= lines);
    } else {
        let rest = lines.drop_first();
        assert(lines.push(last).drop_first() =~= rest.push(last));
        assert(lines.push(last)[0] == lines[0]);
        assert(lines[0].len() > 0);
        assert forall|i: int| 0 <= i < rest.len() implies #[trigger] rest[i].len() > 0 && split(
            rest[i],
            ':',
        )[0] != name by {
            assert(rest[i] == lines[i + 1]);
        }
        lemma_deluser_kept_all(rest, last, name);
        assert(seq![lines[0]] + rest =~= lines);
    }
}

/// Law: `deluser name` undoes `adduser name`. When `/etc/passwd` holds
/// the lines `lines`, each ended by a newline, none empty, none for a user
/// named `name`, and the text neither starts nor ends in white space before
/// its last newline, then after `adduser name` (which succeeds when the last
/// record has seven fields) and `deluser name`, the text is as it was, and
/// `deluser` found the added user.
pub proof fn law_deluser_undoes_adduser(lines: Seq<Seq<char>>, name: Seq<char>)
    requires
        lines.len() > 0,
        forall|i: int|
            0 <= i < lines.len() ==> #[trigger] lines[i].len() > 0 && lacks(lines[i], '\n')
                && split(lines[i], ':')[0] != name,
        !is_ws(lines[0][0]),
        !is_ws(lines.last().last()),
        last_record(join_lines(lines)).len() == 7,
        adduser_passwd_ok(join_lines(lines)),
        lacks(name, ':'),
        lacks(name, '\n'),
    ensures
        adduser_passwd_spec(join_lines(lines), name) matches Ok(new) && join_lines(
            deluser_kept(split(trim(new), '\n'), name),
        ) == join_lines(lines) && deluser_found(split(trim(new), '\n'), name),
{
    let s = join_lines(lines);
    let pre = lines.drop_last();
    let l = lines.last();
    assert(pre.push(l) =~= lines);
    lemma_join_lines_push(pre, l);
    assert(s == join_lines(pre) + l.push('\n'));
    let t = s.drop_last();
    assert(t =~= join_lines(pre) + l);
    // the old text, trimmed, is the text without its last newline
    assert(s[0] == lines[0][0]) by {
        assert(s == lines[0].push('\n') + join_lines(lines.drop_first()));
    }
    assert(trim_start(s) == s);
    assert(s.last() == '\n');
    assert(t.last() == l.last());
    assert(trim_end(t) == t);
    assert(trim_end(s) == trim_end(t));
    assert(trim(s) == t);
    // the old lines are the pieces of the trimmed text
    assert forall|i: int| 0 <= i < lines.len() implies lacks(#[trigger] lines[i], '\n') by {}
    lemma_split_join(lines);
    assert(s =~= t.push('\n') + Seq::<char>::empty());
    lemma_split_concat(t, Seq::<char>::empty(), '\n');
    assert(split(Seq::<char>::empty(), '\n') =~= seq![Seq::<char>::empty()]);
    assert(split(s, '\n') == split(t, '\n') + seq![Seq::<char>::empty()]);
    assert((split(t, '\n') + seq![Seq::<char>::empty()]).drop_last() =~= split(t, '\n'));
    assert(lines.push(Seq::<char>::empty()).drop_last() =~= lines);
    assert(split(t, '\n') =~= lines);
    // the text after adduser
    let f = last_record(s);
    let uid = (parse_or_zero(f[2]) + 1) as u32;
    let gid = (parse_or_zero(f[3]) + 1) as u32;
    let line = new_user_line(name, uid, gid);
    reveal_strlit("\n");
    reveal_strlit(":x:");
    reveal_strlit(":");
    reveal_strlit(":,,,:/home/");
    reveal_strlit(":/bin/sh\n");
    let new = adduser_passwd_spec(s, name)->Ok_0;
    assert(new =~= t.push('\n') + line.push('\n'));
    // trimmed, it is the old trimmed text and the new line
    let tn = t.push('\n') + line;
    assert(new.drop_last() =~= tn);
    assert(new[0] == t[0]);
    assert(t[0] == s[0]);
    assert(trim_start(new) == new);
    assert(line.last() == 'h');
    assert(tn.last() == 'h');
    assert(trim_end(tn) == tn);
    assert(trim_end(new) == trim_end(tn));
    assert(trim(new) == tn);
    // its lines are the old lines and the new one
    lemma_digits_lack(uid as nat, '\n');
    lemma_digits_lack(gid as nat, '\n');
    assert(lacks(line, '\n')) by {
        assert forall|i: int| 0 <= i < line.len() implies #[trigger] line[i] != '\n' by {
            let a = name + seq![':', 'x', ':'];
            lemma_lacks_concat(name, seq![':', 'x', ':'], '\n');
            let b = a + decimal(uid as nat);
            lemma_lacks_concat(a, decimal(uid as nat), '\n');
            let c = b + seq![':'];
            lemma_lacks_concat(b, seq![':'], '\n');
            let d = c + decimal(gid as nat);
            lemma_lacks_concat(c, decimal(gid as nat), '\n');
            let e = d + seq![':', ',', ',', ',', ':', '/', 'h', 'o', 'm', 'e', '/'];
            lemma_lacks_concat(d, seq![':', ',', ',', ',', ':', '/', 'h', 'o', 'm', 'e', '/'], '\n');
            let g = e + name;
            lemma_lacks_concat(e, name, '\n');
            lemma_lacks_concat(g, seq![':', '/', 'b', 'i', 'n', '/', 's', 'h'], '\n');
            assert(line =~= g + seq![':', '/', 'b', 'i', 'n', '/', 's', 'h']);
        }
    }
    lemma_split_concat(t, line, '\n');
    lemma_split_lacking(line, '\n');
    let nl = split(trim(new), '\n');
    assert(nl =~= lines.push(line));
    // deluser drops exactly the new line
    lemma_new_user_fields(name, uid, gid);
    assert(split(line, ':')[0] == name);
    lemma_deluser_kept_all(lines, line, name);
    assert(nl[lines.len() as int] == line);
    assert(line.len() > 0);
    assert(deluser_found(nl, name));
}

/// Law: for three octal digits, `chmod` reads the first as the owner's bits,
/// the second as the group's and the third as the others': the mode is below
/// `0o1000`, and its octal digits from the top are the three digits given.
pub proof fn law_chmod_octal_digits(m: Seq<u8>)
    requires
        m.len() >= 3,
        48 <= m[0] <= 55,
        48 <= m[1] <= 55,
        48 <= m[2] <= 55,
    ensures
        0 <= chmod_perm_spec(m) < 512,
        chmod_perm_spec(m) / 64 == m[0] - 48,
        (chmod_perm_spec(m) / 8) % 8 == m[1] - 48,
        chmod_perm_spec(m) % 8 == m[2] - 48,
{
    let a: int = m[0] - 48;
    let b: int = m[1] - 48;
    let c: int = m[2] - 48;
    let v: int = chmod_perm_spec(m);
    assert(v == a * 64 + b * 8 + c);
    assert(0 <= v < 512 && v / 64 == a && (v / 8) % 8 == b && v % 8 == c) by (nonlinear_arith)
        requires
            0 <= a < 8,
            0 <= b < 8,
            0 <= c < 8,
            v == a * 64 + b * 8 + c,
    ;
}

/// Law: letter `i` of the `rwxrwxrwx` text of a mode shows mode bit
/// `8 - i` (counting from the lowest): `r`, `w`, `x` in turn when that bit is
/// set, `-` when it is not; `ll` prints these nine letters after the type letter.
pub proof fn law_rwx_letters(mode: u32)
    ensures
        forall|i: int|
            0 <= i < 9 ==> #[trigger] rwx_text(mode)[i] == if (mode >> ((8 - i) as u32)) & 1u32
                == 1u32 {
                seq!['r', 'w', 'x'][i % 3]
            } else {
                '-'
            },
        forall|i: int|
            0 <= i < 9 ==> #[trigger] rwx_spec(mode)[i] == if (mode >> ((8 - i) as u32)) & 1u32
                == 1u32 {
                seq![114u8, 119u8, 120u8][i % 3]
            } else {
                45u8
            },
        forall|ty: FileType, user: Seq<char>, group: Seq<char>, size: u64, entry: Seq<char>, i: int|
            0 <= i < 9 ==> #[trigger] ll_line_spec(ty, mode, user, group, size, entry)[i + 1]
                == rwx_text(mode)[i],
{
    assert((mode & 0o400u32 != 0) == ((mode >> 8u32) & 1u32 == 1u32)) by (bit_vector);
    assert((mode & 0o200u32 != 0) == ((mode >> 7u32) & 1u32 == 1u32)) by (bit_vector);
    assert((mode & 0o100u32 != 0) == ((mode >> 6u32) & 1u32 == 1u32)) by (bit_vector);
    assert((mode & 0o040u32 != 0) == ((mode >> 5u32) & 1u32 == 1u32)) by (bit_vector);
    assert((mode & 0o020u32 != 0) == ((mode >> 4u32) & 1u32 == 1u32)) by (bit_vector);
    assert((mode & 0o010u32 != 0) == ((mode >> 3u32) & 1u32 == 1u32)) by (bit_vector);
    assert((mode & 0o004u32 != 0) == ((mode >> 2u32) & 1u32 == 1u32)) by (bit_vector);
    assert((mode & 0o002u32 != 0) == ((mode >> 1u32) & 1u32 == 1u32)) by (bit_vector);
    assert((mode & 0o001u32 != 0) == ((mode >> 0u32) & 1u32 == 1u32)) by (bit_vector);
    assert forall|i: int| 0 <= i < 9 implies #[trigger] rwx_text(mode)[i] == if (mode >> ((8
        - i) as u32)) & 1u32 == 1u32 {
        seq!['r', 'w', 'x'][i % 3]
    } else {
        '-'
    } by {
        assert(i == 0 || i == 1 || i == 2 || i == 3 || i == 4 || i == 5 || i == 6 || i == 7 || i
            == 8);
    }
    assert forall|i: int| 0 <= i < 9 implies #[trigger] rwx_spec(mode)[i] == if (mode >> ((8
        - i) as u32)) & 1u32 == 1u32 {
        seq![114u8, 119u8, 120u8][i % 3]
    } else {
        45u8
    } by {
        assert(i == 0 || i == 1 || i == 2 || i == 3 || i == 4 || i == 5 || i == 6 || i == 7 || i
            == 8);
    }
    assert forall|ty: FileType, user: Seq<char>, group: Seq<char>, size: u64, entry: Seq<char>, i: int|
        0 <= i < 9 implies #[trigger] ll_line_spec(ty, mode, user, group, size, entry)[i + 1]
        == rwx_text(mode)[i] by {
        let l = ll_line_spec(ty, mode, user, group, size, entry);
        let rest = seq![' '] + pad8(user) + seq![' '] + pad8(group) + seq![' '] + pad8(
            decimal(size as nat),
        ) + seq![' '] + entry;
        assert(l =~= seq![file_type_char(ty)] + rwx_text(mode) + rest);
    }
}

/// Law: `adduser name` appends one group to `/etc/group`: the (id, name)
/// table of the new text is that of the trimmed old text followed by `name`
/// with the id one more than the third field of the old text's last line.
pub proof fn law_adduser_adds_group(group: Seq<char>, name: Seq<char>)
    requires
        last_record(group).len() > 2,
        adduser_group_ok(group),
        lacks(name, ':'),
        lacks(name, '\n'),
    ensures
        adduser_group_spec(group, name) matches Ok(new) && id_map(split(new, '\n'), false) == id_map(
            split(trim(group), '\n'),
            false,
        ).push(((parse_or_zero(last_record(group)[2]) + 1) as u32, name)),
{
    let t = trim(group);
    let gid = (parse_or_zero(last_record(group)[2]) + 1) as u32;
    let d = decimal(gid as nat);
    let x = seq!['x'];
    let e = Seq::<char>::empty();
    reveal_strlit("\n");
    reveal_strlit(":x:");
    reveal_strlit(":\n");
    let new = adduser_group_spec(group, name)->Ok_0;
    let line = name.push(':') + (x.push(':') + (d.push(':') + e));
    assert(new =~= t.push('\n') + (line.push('\n') + e));
    // the new line has no newline, and its fields are name, x, the id and nothing
    lemma_digits_lack(gid as nat, ':');
    lemma_digits_lack(gid as nat, '\n');
    assert(lacks(x, ':') && lacks(x, '\n'));
    assert(lacks(e, ':'));
    lemma_split_concat(d, e, ':');
    lemma_split_concat(x, d.push(':') + e, ':');
    lemma_split_concat(name, x.push(':') + (d.push(':') + e), ':');
    lemma_split_lacking(name, ':');
    lemma_split_lacking(x, ':');
    lemma_split_lacking(d, ':');
    assert(split(e, ':') =~= seq![e]);
    let fs = split(line, ':');
    assert(fs =~= seq![name, x, d, e]);
    assert(lacks(line, '\n')) by {
        assert forall|i: int| 0 <= i < line.len() implies #[trigger] line[i] != '\n' by {
            if i < name.len() {
                assert(line[i] == name[i]);
            } else if i > name.len() + 2 && i < name.len() + 3 + d.len() {
                assert(line[i] == d[i - name.len() - 3]);
            }
        }
    }
    // the lines of the new text
    lemma_split_concat(t, line.push('\n') + e, '\n');
    lemma_split_concat(line, e, '\n');
    lemma_split_lacking(line, '\n');
    assert(split(e, '\n') =~= seq![e]);
    let lt = split(t, '\n');
    let lines = split(new, '\n');
    assert(lines =~= lt.push(line).push(e));
    assert(lines.drop_last() =~= lt.push(line));
    assert(lt.push(line).drop_last() =~= lt);
    assert(line.len() > 0) by {
        assert(line[name.len() as int] == ':');
    }
    law_parse_decimal(gid);
    assert(map_line(line, false) == (gid, name));
    assert(id_map(lines, false) == id_map(lt.push(line), false));
    assert(id_map(lt.push(line), false) == id_map(lt, false).push((gid, name)));
}
} // verus!

verus! {

/// Whether a command line can be split as the shell splits it.
pub fn split_ws_valid(s: &str) -> (r: bool)
    ensures
        r == split_ws_ok(s@),
{
    let v = chars_of(s);
    let (ta, tb) = trim_bounds(&v, 0, v.len());
    assert(v@.subrange(0, v@.len() as int) =~= v@);
    let ghost t = v@.subrange(ta as int, tb as int);
    let n = first_ws_in(&v, ta, tb);
    proof {
        lemma_first_ws(t);
    }
    if n == tb {
        return true;
    }
    assert(t[n - ta] == v@[n as int]);
    (v[n] as u32) < 0x80
}

/// Whether the arguments of `echo` can be split as the shell splits them.
pub fn echo_valid(args: &str) -> (r: bool)
    ensures
        r == echo_ok(args@),
{
    let v = chars_of(args);
    let found = rfind_char(&v, '>');
    proof {
        lemma_last_index_of(v@, '>');
    }
    match found {
        None => true,
        Some(pos) => {
            assert(pos < v.len());
            split_ws_valid(args.substring_char(pos + 1, v.len()))
        },
    }
}

/// Whether `adduser` can write the ids after the last user record without overflow.
pub fn adduser_passwd_valid(passwd: &str) -> (r: bool)
    ensures
        r == adduser_passwd_ok(passwd@),
{
    let (v, f, _ta, _tb) = last_record_fields(passwd);
    if f.len() != 7 {
        return true;
    }
    let ghost fs = pieces(v@, f@);
    assert(fs[2] == v@.subrange(f@[2].0 as int, f@[2].1 as int));
    assert(fs[3] == v@.subrange(f@[3].0 as int, f@[3].1 as int));
    let uid = field_number(&v, f[2].0, f[2].1);
    let gid = field_number(&v, f[3].0, f[3].1);
    uid < u32::MAX && gid < u32::MAX
}

/// Whether `adduser` can write the id after the last group without overflow.
pub fn adduser_group_valid(group: &str) -> (r: bool)
    ensures
        r == adduser_group_ok(group@),
{
    let (w, g, _ga, _gb) = last_record_fields(group);
    if g.len() <= 2 {
        return true;
    }
    let ghost gs = pieces(w@, g@);
    assert(gs[2] == w@.subrange(g@[2].0 as int, g@[2].1 as int));
    let gid = field_number(&w, g[2].0, g[2].1);
    gid < u32::MAX
}

} // verus!

verus! {

/// Whether `adduser` takes its argument: a single word that does not name
/// an existing user.
pub fn adduser_check(passwd: &str, args: &str) -> (r: Result<(), CmdError>)
    requires
        map_text_ok(passwd@),
    ensures
        has_ws(args@) ==> r == Err::<(), CmdError>(CmdError::TooManyArguments),
        !has_ws(args@) && adduser_exists_spec(passwd@, args@) ==> r == Err::<(), CmdError>(
            CmdError::ExistingUser,
        ),
        !has_ws(args@) && !adduser_exists_spec(passwd@, args@) ==> r == Ok::<(), CmdError>(()),
{
    if str_has_ws(args) {
        return Err(CmdError::TooManyArguments);
    }
    if adduser_exists(passwd, args) {
        return Err(CmdError::ExistingUser);
    }
    Ok(())
}

} // verus!
