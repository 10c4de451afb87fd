use vstd::prelude::*;
use vstd::string::*;
use crate::commands::{join_path, join_path_spec, split_whitespace, split_ws_ok, split_ws_spec};
use crate::text::{
    chars_of, decimal, index_of, find_char, lemma_index_of, pieces, range_eq, ranges_within,
    split, split_ranges, strings_view, substring, substrings, trim, trim_bounds, u32_to_string,
};

verus! {

/// The arguments of a script: the trimmed pieces of `args` between spaces
/// that are not empty.
pub open spec fn arg_list(pieces: Seq<Seq<char>>) -> Seq<Seq<char>>
    decreases pieces.len(),
{
    if pieces.len() == 0 {
        Seq::<Seq<char>>::empty()
    } else {
        let rest = arg_list(pieces.drop_last());
        if trim(pieces.last()).len() > 0 {
            rest.push(trim(pieces.last()))
        } else {
            rest
        }
    }
}

/// The arguments of a script called with the argument text `args`.
pub open spec fn script_args(args: Seq<char>) -> Seq<Seq<char>> {
    arg_list(split(args, ' '))
}

/// `s` with every occurrence of `pat`, from left to right and without
/// overlap, replaced by `rep`, as `str::replace` does.
pub open spec fn replace_all(s: Seq<char>, pat: Seq<char>, rep: Seq<char>) -> Seq<char>
    decreases s.len(),
{
    if s.len() == 0 {
        Seq::<char>::empty()
    } else if 0 < pat.len() <= s.len() && s.subrange(0, pat.len() as int) == pat {
        rep + replace_all(s.subrange(pat.len() as int, s.len() as int), pat, rep)
    } else {
        seq![s[0]] + replace_all(s.drop_first(), pat, rep)
    }
}

/// The placeholder of the argument at position `i`: `$` and the numeral of `i`.
pub open spec fn placeholder(i: nat) -> Seq<char> {
    seq!['$'] + decimal(i)
}

/// `line` with the placeholder of each argument replaced by it, argument by
/// argument in order.
pub open spec fn substitute(line: Seq<char>, argv: Seq<Seq<char>>) -> Seq<char>
    decreases argv.len(),
{
    if argv.len() == 0 {
        line
    } else {
        replace_all(
            substitute(line, argv.drop_last()),
            placeholder((argv.len() - 1) as nat),
            argv.last(),
        )
    }
}

/// The commands of a script line run with the argument text `args`: none
/// for a blank line or a comment (a trimmed line starting with `#`);
/// otherwise the pieces between `;` of the trimmed line with its placeholders
/// replaced by the arguments.
pub open spec fn command_segments(line: Seq<char>, args: Seq<char>) -> Seq<Seq<char>> {
    let t = trim(line);
    if t.len() == 0 || t[0] == '#' {
        Seq::<Seq<char>>::empty()
    } else {
        split(substitute(t, script_args(args)), ';')
    }
}

/// `s` with every occurrence of `pat` replaced by `rep`.
pub fn replace_str(s: &str, pat: &str, rep: &str) -> (r: String)
    requires
        pat@.len() > 0,
    ensures
        r@ == replace_all(s@, pat@, rep@),
{
    let v = chars_of(s);
    let p = chars_of(pat);
    let n = v.len();
    let plen = p.len();
    assert(p@.subrange(0, plen as int) =~= p@);
    let mut out = String::new();
    let mut i: usize = 0;
    assert(v@.subrange(0, n as int) =~= v@);
    while i < n
        invariant
            v@ == s@,
            p@ == pat@,
            n == v.len(),
            plen == p.len(),
            plen > 0,
            p@.subrange(0, plen as int) == p@,
            i <= n,
            replace_all(s@, pat@, rep@) == out@ + replace_all(
                v@.subrange(i as int, n as int),
                pat@,
                rep@,
            ),
        decreases n - i,
    {
        let ghost t = v@.subrange(i as int, n as int);
        if plen <= n - i && range_eq(&v, i, i + plen, &p, 0, plen) {
            assert(t.subrange(0, plen as int) =~= v@.subrange(i as int, (i + plen) as int));
            assert(t.subrange(plen as int, t.len() as int) =~= v@.subrange(
                (i + plen) as int,
                n as int,
            ));
            let ghost before = out@;
            out.append(rep);
            assert(before + (rep@ + replace_all(
                v@.subrange((i + plen) as int, n as int),
                pat@,
                rep@,
            )) =~= out@ + replace_all(v@.subrange((i + plen) as int, n as int), pat@, rep@));
            i = i + plen;
        } else {
            if plen <= n - i {
                assert(t.subrange(0, plen as int) =~= v@.subrange(i as int, (i + plen) as int));
            }
            assert(t.drop_first() =~= v@.subrange((i + 1) as int, n as int));
            let ghost before = out@;
            out.append(s.substring_char(i, i + 1));
            assert(v@.subrange(i as int, (i + 1) as int) =~= seq![t[0]]);
            assert(before + (seq![t[0]] + replace_all(
                v@.subrange((i + 1) as int, n as int),
                pat@,
                rep@,
            )) =~= out@ + replace_all(v@.subrange((i + 1) as int, n as int), pat@, rep@));
            i = i + 1;
        }
    }
    assert(v@.subrange(n as int, n as int) =~= Seq::<char>::empty());
    assert(out@ + replace_all(Seq::<char>::empty(), pat@, rep@) =~= out@);
    out
}

/// The arguments of a script called with the argument text `args`.
pub fn parse_script_args(args: &str) -> (r: Vec<String>)
    ensures
        strings_view(r@) == script_args(args@),
{
    let v = chars_of(args);
    let ps = split_ranges(&v, 0, v.len(), ' ');
    assert(v@.subrange(0, v@.len() as int) =~= v@);
    let ghost pv = pieces(v@, ps@);
    let mut out: Vec<String> = Vec::new();
    let mut i: usize = 0;
    assert(pv.take(0) =~= Seq::<Seq<char>>::empty());
    assert(strings_view(out@) =~= Seq::<Seq<char>>::empty());
    while i < ps.len()
        invariant
            v@ == args@,
            pv == pieces(v@, ps@),
            ranges_within(ps@, 0, v@.len() as int),
            i <= ps.len(),
            strings_view(out@) == arg_list(pv.take(i as int)),
        decreases ps.len() - i,
    {
        let (a, b) = ps[i];
        assert(pv.take(i + 1).drop_last() =~= pv.take(i as int));
        assert(pv.take(i + 1).last() == v@.subrange(a as int, b as int));
        let (ta, tb) = trim_bounds(&v, a, b);
        if ta < tb {
            let ghost before = out@;
            let w = substring(args, ta, tb);
            out.push(w);
            assert(strings_view(out@) =~= strings_view(before).push(w@));
        }
        i = i + 1;
    }
    assert(pv.take(ps.len() as int) =~= pv);
    out
}

/// The placeholder of the argument at position `i`.
fn placeholder_str(i: u32) -> (r: String)
    ensures
        r@ == placeholder(i as nat),
{
    let mut r = "$".to_owned();
    proof {
        reveal_strlit("$");
    }
    r.append(u32_to_string(i).as_str());
    r
}

/// The commands that a script line runs with the argument text `args`.
pub fn expand_line(line: &str, args: &str) -> (r: Vec<String>)
    requires
        script_args(args@).len() <= i32::MAX,
    ensures
        strings_view(r@) == command_segments(line@, args@),
{
    let v = chars_of(line);
    let (ta, tb) = trim_bounds(&v, 0, v.len());
    assert(v@.subrange(0, v@.len() as int) =~= v@);
    if ta == tb || v[ta] == '#' {
        let empty: Vec<String> = Vec::new();
        assert(strings_view(empty@) =~= Seq::<Seq<char>>::empty());
        return empty;
    }
    assert(trim(line@)[0] == v@[ta as int]);
    let argv = parse_script_args(args);
    let ghost av = strings_view(argv@);
    let mut cur = substring(line, ta, tb);
    let mut i: usize = 0;
    assert(av.take(0) =~= Seq::<Seq<char>>::empty());
    while i < argv.len()
        invariant
            av == strings_view(argv@),
            av == script_args(args@),
            av.len() <= i32::MAX,
            i <= argv.len(),
            cur@ == substitute(trim(line@), av.take(i as int)),
        decreases argv.len() - i,
    {
        assert(av.take(i + 1).drop_last() =~= av.take(i as int));
        assert(av.take(i + 1).last() == argv@[i as int]@);
        let ph = placeholder_str(i as u32);
        assert(ph@.len() > 0);
        cur = replace_str(cur.as_str(), ph.as_str(), argv[i].as_str());
        i = i + 1;
    }
    assert(av.take(argv.len() as int) =~= av);
    let cv = chars_of(cur.as_str());
    let segs = split_ranges(&cv, 0, cv.len(), ';');
    assert(cv@.subrange(0, cv@.len() as int) =~= cv@);
    substrings(cur.as_str(), &segs)
}

/// The lines of a script file.
pub fn script_lines(content: &str) -> (r: Vec<String>)
    ensures
        strings_view(r@) == split(content@, '\n'),
{
    let v = chars_of(content);
    let ls = split_ranges(&v, 0, v.len(), '\n');
    assert(v@.subrange(0, v@.len() as int) =~= v@);
    substrings(content, &ls)
}

} // verus!

verus! {

/// The commands built into the shell.
#[derive(Debug, Clone, Copy, PartialEq, Eq, Structural)]
pub enum Builtin {
    Cat,
    Cd,
    Echo,
    Halt,
    Exit,
    Help,
    Ll,
    Mkdir,
    Pwd,
    Rm,
    Uname,
    Chmod,
    Chown,
    Whoami,
    Su,
    Sudo,
    IfTestExist,
    Adduser,
    Deluser,
    Passwd,
}

/// The name under which a built-in command is called.
pub open spec fn builtin_name_spec(b: Builtin) -> Seq<char> {
    match b {
        Builtin::Cat => "cat"@,
        Builtin::Cd => "cd"@,
        Builtin::Echo => "echo"@,
        Builtin::Halt => "halt"@,
        Builtin::Exit => "exit"@,
        Builtin::Help => "help"@,
        Builtin::Ll => "ll"@,
        Builtin::Mkdir => "mkdir"@,
        Builtin::Pwd => "pwd"@,
        Builtin::Rm => "rm"@,
        Builtin::Uname => "uname"@,
        Builtin::Chmod => "chmod"@,
        Builtin::Chown => "chown"@,
        Builtin::Whoami => "whoami"@,
        Builtin::Su => "su"@,
        Builtin::Sudo => "sudo"@,
        Builtin::IfTestExist => "if_test_exist"@,
        Builtin::Adduser => "adduser"@,
        Builtin::Deluser => "deluser"@,
        Builtin::Passwd => "passwd"@,
    }
}

/// The name under which a built-in command is called.
pub fn builtin_name(b: Builtin) -> (s: &'static str)
    ensures
        s@ == builtin_name_spec(b),
{
    match b {
        Builtin::Cat => "cat",
        Builtin::Cd => "cd",
        Builtin::Echo => "echo",
        Builtin::Halt => "halt",
        Builtin::Exit => "exit",
        Builtin::Help => "help",
        Builtin::Ll => "ll",
        Builtin::Mkdir => "mkdir",
        Builtin::Pwd => "pwd",
        Builtin::Rm => "rm",
        Builtin::Uname => "uname",
        Builtin::Chmod => "chmod",
        Builtin::Chown => "chown",
        Builtin::Whoami => "whoami",
        Builtin::Su => "su",
        Builtin::Sudo => "sudo",
        Builtin::IfTestExist => "if_test_exist",
        Builtin::Adduser => "adduser",
        Builtin::Deluser => "deluser",
        Builtin::Passwd => "passwd",
    }
}

/// The built-in commands in the order of the shell's command table.
pub open spec fn builtin_table() -> Seq<Builtin> {
    seq![
        Builtin::Cat,
        Builtin::Cd,
        Builtin::Echo,
        Builtin::Halt,
        Builtin::Exit,
        Builtin::Help,
        Builtin::Ll,
        Builtin::Mkdir,
        Builtin::Pwd,
        Builtin::Rm,
        Builtin::Uname,
        Builtin::Chmod,
        Builtin::Chown,
        Builtin::Whoami,
        Builtin::Su,
        Builtin::Sudo,
        Builtin::IfTestExist,
        Builtin::Adduser,
        Builtin::Deluser,
        Builtin::Passwd,
    ]
}

/// The built-in commands in the order of the shell's command table (the
/// order in which `help` lists them).
pub fn builtins() -> (r: Vec<Builtin>)
    ensures
        r@ == builtin_table(),
{
    let r = vec![
        Builtin::Cat,
        Builtin::Cd,
        Builtin::Echo,
        Builtin::Halt,
        Builtin::Exit,
        Builtin::Help,
        Builtin::Ll,
        Builtin::Mkdir,
        Builtin::Pwd,
        Builtin::Rm,
        Builtin::Uname,
        Builtin::Chmod,
        Builtin::Chown,
        Builtin::Whoami,
        Builtin::Su,
        Builtin::Sudo,
        Builtin::IfTestExist,
        Builtin::Adduser,
        Builtin::Deluser,
        Builtin::Passwd,
    ];
    assert(r@ =~= builtin_table());
    r
}

/// The built-in command called `cmd`, looked up in the order of the table.
pub fn lookup_builtin(cmd: &str) -> (r: Option<Builtin>)
    ensures
        match r {
            Some(b) => exists|i: int|
                0 <= i < builtin_table().len() && builtin_table()[i] == b && #[trigger] builtin_name_spec(
                    builtin_table()[i],
                ) == cmd@ && forall|j: int|
                    0 <= j < i ==> builtin_name_spec(builtin_table()[j]) != cmd@,
            None => forall|i: int|
                0 <= i < builtin_table().len() ==> #[trigger] builtin_name_spec(builtin_table()[i])
                    != cmd@,
        },
{
    let table = builtins();
    let mut i: usize = 0;
    while i < table.len()
        invariant
            table@ == builtin_table(),
            i <= table.len(),
            forall|j: int| 0 <= j < i ==> #[trigger] builtin_name_spec(builtin_table()[j]) != cmd@,
        decreases table.len() - i,
    {
        if crate::text::str_eq(cmd, builtin_name(table[i])) {
            return Some(table[i]);
        }
        i = i + 1;
    }
    None
}

/// How the shell runs a command word.
#[derive(Debug, Clone, Copy, PartialEq, Eq, Structural)]
pub enum CmdKind {
    /// A word with a `/`: the path of a script to run.
    Script,
    /// A built-in command.
    Builtin(Builtin),
    /// Any other word: a script under `/bin`, if there is one.
    External,
}

/// How the shell runs the command word `cmd`; `None` for an empty word,
/// which runs nothing.
pub fn command_kind(cmd: &str) -> (r: Option<CmdKind>)
    ensures
        cmd@.len() == 0 ==> r is None,
        cmd@.len() > 0 && index_of(cmd@, '/') < cmd@.len() ==> r == Some(CmdKind::Script),
        cmd@.len() > 0 && index_of(cmd@, '/') == cmd@.len() ==> match lookup_result(cmd@) {
            Some(b) => r == Some(CmdKind::Builtin(b)),
            None => r == Some(CmdKind::External),
        },
{
    if cmd.is_empty() {
        return None;
    }
    let v = chars_of(cmd);
    assert(v@.subrange(0, v@.len() as int) =~= v@);
    proof {
        lemma_index_of(v@, '/');
    }
    if find_char(&v, 0, v.len(), '/') < v.len() {
        return Some(CmdKind::Script);
    }
    match lookup_builtin(cmd) {
        Some(b) => {
            proof {
                lemma_lookup_result(cmd@, b);
            }
            Some(CmdKind::Builtin(b))
        },
        None => {
            proof {
                lemma_lookup_none(cmd@);
            }
            Some(CmdKind::External)
        },
    }
}

/// The built-in command named `cmd`: no two built-in commands share a name,
/// so the first in the table is the only one.
pub open spec fn lookup_result(cmd: Seq<char>) -> Option<Builtin> {
    if cmd == "cat"@ {
        Some(Builtin::Cat)
    } else if cmd == "cd"@ {
        Some(Builtin::Cd)
    } else if cmd == "echo"@ {
        Some(Builtin::Echo)
    } else if cmd == "halt"@ {
        Some(Builtin::Halt)
    } else if cmd == "exit"@ {
        Some(Builtin::Exit)
    } else if cmd == "help"@ {
        Some(Builtin::Help)
    } else if cmd == "ll"@ {
        Some(Builtin::Ll)
    } else if cmd == "mkdir"@ {
        Some(Builtin::Mkdir)
    } else if cmd == "pwd"@ {
        Some(Builtin::Pwd)
    } else if cmd == "rm"@ {
        Some(Builtin::Rm)
    } else if cmd == "uname"@ {
        Some(Builtin::Uname)
    } else if cmd == "chmod"@ {
        Some(Builtin::Chmod)
    } else if cmd == "chown"@ {
        Some(Builtin::Chown)
    } else if cmd == "whoami"@ {
        Some(Builtin::Whoami)
    } else if cmd == "su"@ {
        Some(Builtin::Su)
    } else if cmd == "sudo"@ {
        Some(Builtin::Sudo)
    } else if cmd == "if_test_exist"@ {
        Some(Builtin::IfTestExist)
    } else if cmd == "adduser"@ {
        Some(Builtin::Adduser)
    } else if cmd == "deluser"@ {
        Some(Builtin::Deluser)
    } else if cmd == "passwd"@ {
        Some(Builtin::Passwd)
    } else {
        None
    }
}

/// The names of the entries of the table of built-in commands, in order.
proof fn lemma_table_names()
    ensures
        builtin_name_spec(builtin_table()[0]) == "cat"@,
        builtin_name_spec(builtin_table()[1]) == "cd"@,
        builtin_name_spec(builtin_table()[2]) == "echo"@,
        builtin_name_spec(builtin_table()[3]) == "halt"@,
        builtin_name_spec(builtin_table()[4]) == "exit"@,
        builtin_name_spec(builtin_table()[5]) == "help"@,
        builtin_name_spec(builtin_table()[6]) == "ll"@,
        builtin_name_spec(builtin_table()[7]) == "mkdir"@,
        builtin_name_spec(builtin_table()[8]) == "pwd"@,
        builtin_name_spec(builtin_table()[9]) == "rm"@,
        builtin_name_spec(builtin_table()[10]) == "uname"@,
        builtin_name_spec(builtin_table()[11]) == "chmod"@,
        builtin_name_spec(builtin_table()[12]) == "chown"@,
        builtin_name_spec(builtin_table()[13]) == "whoami"@,
        builtin_name_spec(builtin_table()[14]) == "su"@,
        builtin_name_spec(builtin_table()[15]) == "sudo"@,
        builtin_name_spec(builtin_table()[16]) == "if_test_exist"@,
        builtin_name_spec(builtin_table()[17]) == "adduser"@,
        builtin_name_spec(builtin_table()[18]) == "deluser"@,
        builtin_name_spec(builtin_table()[19]) == "passwd"@,
{
    let t = builtin_table();
    assert(builtin_name_spec(t[0]) == "cat"@);
    assert(builtin_name_spec(t[1]) == "cd"@);
    assert(builtin_name_spec(t[2]) == "echo"@);
    assert(builtin_name_spec(t[3]) == "halt"@);
    assert(builtin_name_spec(t[4]) == "exit"@);
    assert(builtin_name_spec(t[5]) == "help"@);
    assert(builtin_name_spec(t[6]) == "ll"@);
    assert(builtin_name_spec(t[7]) == "mkdir"@);
    assert(builtin_name_spec(t[8]) == "pwd"@);
    assert(builtin_name_spec(t[9]) == "rm"@);
    assert(builtin_name_spec(t[10]) == "uname"@);
    assert(builtin_name_spec(t[11]) == "chmod"@);
    assert(builtin_name_spec(t[12]) == "chown"@);
    assert(builtin_name_spec(t[13]) == "whoami"@);
    assert(builtin_name_spec(t[14]) == "su"@);
    assert(builtin_name_spec(t[15]) == "sudo"@);
    assert(builtin_name_spec(t[16]) == "if_test_exist"@);
    assert(builtin_name_spec(t[17]) == "adduser"@);
    assert(builtin_name_spec(t[18]) == "deluser"@);
    assert(builtin_name_spec(t[19]) == "passwd"@);
}

proof fn lemma_lookup_result(cmd: Seq<char>, b: Builtin)
    requires
        exists|i: int|
            0 <= i < builtin_table().len() && builtin_table()[i] == b && #[trigger] builtin_name_spec(
                builtin_table()[i],
            ) == cmd && forall|j: int|
                0 <= j < i ==> builtin_name_spec(builtin_table()[j]) != cmd,
    ensures
        lookup_result(cmd) == Some(b),
{
    let i = choose|i: int|
        0 <= i < builtin_table().len() && builtin_table()[i] == b && #[trigger] builtin_name_spec(
            builtin_table()[i],
        ) == cmd && forall|j: int| 0 <= j < i ==> builtin_name_spec(builtin_table()[j]) != cmd;
    lemma_table_names();
}

proof fn lemma_lookup_none(cmd: Seq<char>)
    requires
        forall|i: int|
            0 <= i < builtin_table().len() ==> #[trigger] builtin_name_spec(builtin_table()[i])
                != cmd,
    ensures
        lookup_result(cmd) is None,
{
    lemma_table_names();
}

} // verus!

verus! {

/// What the shell does with one `;`-separated segment of an expanded command line.
pub enum Step {
    /// The segment has no command word: nothing runs.
    Skip,
    /// A built-in command, with the argument text after the command word.
    Builtin(Builtin, String),
    /// The command word is a path: the script there runs, each of its lines
    /// with the whole segment as argument text.
    Script(String, String),
    /// Any other word `cmd`: the script at `path` under `/bin` runs, if there
    /// is one, with the argument text; otherwise `cmd` is not found.
    External(String, String, String),
}

/// A [`Step`], as plain values.
pub enum StepView {
    Skip,
    Builtin(Builtin, Seq<char>),
    Script(Seq<char>, Seq<char>),
    External(Seq<char>, Seq<char>, Seq<char>),
}

impl View for Step {
    type V = StepView;

    open spec fn view(&self) -> StepView {
        match self {
            Step::Skip => StepView::Skip,
            Step::Builtin(b, a) => StepView::Builtin(*b, a@),
            Step::Script(p, a) => StepView::Script(p@, a@),
            Step::External(c, p, a) => StepView::External(c@, p@, a@),
        }
    }
}

/// What the shell does with the segment `seg`: it splits off the command
/// word; a word with a `/` is a script path, a built-in name runs the
/// built-in, and any other word is looked for under `/bin`.
pub open spec fn segment_step_spec(seg: Seq<char>) -> StepView {
    let cmd = split_ws_spec(seg).0;
    let rest = split_ws_spec(seg).1;
    if cmd.len() == 0 {
        StepView::Skip
    } else if index_of(cmd, '/') < cmd.len() {
        StepView::Script(cmd, seg)
    } else {
        match lookup_result(cmd) {
            Some(b) => StepView::Builtin(b, rest),
            None => StepView::External(cmd, join_path_spec("/bin"@, cmd), rest),
        }
    }
}

/// Decides what the shell does with one segment of a command line.
pub fn segment_step(seg: &str) -> (r: Step)
    requires
        split_ws_ok(seg@),
    ensures
        r@ == segment_step_spec(seg@),
{
    let (cmd, rest) = split_whitespace(seg);
    proof {
        lemma_index_of(cmd@, '/');
    }
    match command_kind(cmd.as_str()) {
        None => Step::Skip,
        Some(CmdKind::Script) => Step::Script(cmd, seg.to_owned()),
        Some(CmdKind::Builtin(b)) => Step::Builtin(b, rest),
        Some(CmdKind::External) => {
            let path = join_path("/bin", cmd.as_str());
            Step::External(cmd, path, rest)
        },
    }
}

/// The command lines that running a script with text `content` and
/// argument text `args` runs: each line of the text, in order, with `args`.
pub open spec fn script_plan(content: Seq<char>, args: Seq<char>) -> Seq<(Seq<char>, Seq<char>)> {
    split(content, '\n').map_values(|l: Seq<char>| (l, args))
}

/// The views of a list of pairs of texts.
pub open spec fn runs_view(v: Seq<(String, String)>) -> Seq<(Seq<char>, Seq<char>)> {
    v.map_values(|p: (String, String)| (p.0@, p.1@))
}

/// The command lines that a script with text `content` runs with argument text `args`.
pub fn script_commands(content: &str, args: &str) -> (r: Vec<(String, String)>)
    ensures
        runs_view(r@) == script_plan(content@, args@),
{
    let lines = script_lines(content);
    let mut out: Vec<(String, String)> = Vec::new();
    let mut i: usize = 0;
    while i < lines.len()
        invariant
            strings_view(lines@) == split(content@, '\n'),
            i <= lines.len(),
            runs_view(out@) == script_plan(content@, args@).take(i as int),
        decreases lines.len() - i,
    {
        let ghost before = out@;
        let l = lines[i].clone();
        assert(l@ == strings_view(lines@)[i as int]);
        out.push((l, args.to_owned()));
        assert(runs_view(out@) =~= script_plan(content@, args@).take(i + 1)) by {
            assert(runs_view(out@) =~= runs_view(before).push((l@, args@)));
        }
        i = i + 1;
    }
    assert(script_plan(content@, args@).take(lines.len() as int) =~= script_plan(content@, args@));
    out
}

/// Law: a segment whose command word is a path runs the script at that
/// path, and running it runs the lines of its text, in order, each with the
/// whole segment as argument text. (Whether the current user may run it at
/// all is decided by `check_execute`: a refused script runs no line.)
pub proof fn law_script_segment(seg: Seq<char>, content: Seq<char>)
    requires
        split_ws_spec(seg).0.len() > 0,
        index_of(split_ws_spec(seg).0, '/') < split_ws_spec(seg).0.len(),
    ensures
        segment_step_spec(seg) == StepView::Script(split_ws_spec(seg).0, seg),
        script_plan(content, seg).len() == split(content, '\n').len(),
        forall|i: int|
            0 <= i < split(content, '\n').len() ==> #[trigger] script_plan(content, seg)[i] == (
                split(content, '\n')[i],
                seg,
            ),
{
}

/// Law: each built-in is called by its own name, and only by it: the word
/// `su` runs `Builtin::Su` and `sudo` runs `Builtin::Sudo`, and so on for
/// every built-in; the name of any built-in looks up that built-in again.
pub proof fn law_builtin_names()
    ensures
        forall|b: Builtin| #[trigger] lookup_result(builtin_name_spec(b)) == Some(b),
        lookup_result("cat"@) == Some(Builtin::Cat),
        lookup_result("cd"@) == Some(Builtin::Cd),
        lookup_result("echo"@) == Some(Builtin::Echo),
        lookup_result("halt"@) == Some(Builtin::Halt),
        lookup_result("exit"@) == Some(Builtin::Exit),
        lookup_result("help"@) == Some(Builtin::Help),
        lookup_result("ll"@) == Some(Builtin::Ll),
        lookup_result("mkdir"@) == Some(Builtin::Mkdir),
        lookup_result("pwd"@) == Some(Builtin::Pwd),
        lookup_result("rm"@) == Some(Builtin::Rm),
        lookup_result("uname"@) == Some(Builtin::Uname),
        lookup_result("chmod"@) == Some(Builtin::Chmod),
        lookup_result("chown"@) == Some(Builtin::Chown),
        lookup_result("whoami"@) == Some(Builtin::Whoami),
        lookup_result("su"@) == Some(Builtin::Su),
        lookup_result("sudo"@) == Some(Builtin::Sudo),
        lookup_result("if_test_exist"@) == Some(Builtin::IfTestExist),
        lookup_result("adduser"@) == Some(Builtin::Adduser),
        lookup_result("deluser"@) == Some(Builtin::Deluser),
        lookup_result("passwd"@) == Some(Builtin::Passwd),
{
    reveal_strlit("cat");
    reveal_strlit("cd");
    reveal_strlit("echo");
    reveal_strlit("halt");
    reveal_strlit("exit");
    reveal_strlit("help");
    reveal_strlit("ll");
    reveal_strlit("mkdir");
    reveal_strlit("pwd");
    reveal_strlit("rm");
    reveal_strlit("uname");
    reveal_strlit("chmod");
    reveal_strlit("chown");
    reveal_strlit("whoami");
    reveal_strlit("su");
    reveal_strlit("sudo");
    reveal_strlit("if_test_exist");
    reveal_strlit("adduser");
    reveal_strlit("deluser");
    reveal_strlit("passwd");
    assert forall|b: Builtin| #[trigger] lookup_result(builtin_name_spec(b)) == Some(b) by {
        match b {
            Builtin::Cat => {
            },
            Builtin::Cd => {
                assert("cd"@.len() != "cat"@.len());
            },
            Builtin::Echo => {
                assert("echo"@.len() != "cat"@.len());
                assert("echo"@.len() != "cd"@.len());
            },
            Builtin::Halt => {
                assert("halt"@.len() != "cat"@.len());
                assert("halt"@.len() != "cd"@.len());
                assert("halt"@[0] != "echo"@[0]);
            },
            Builtin::Exit => {
                assert("exit"@.len() != "cat"@.len());
                assert("exit"@.len() != "cd"@.len());
                assert("exit"@[1] != "echo"@[1]);
                assert("exit"@[0] != "halt"@[0]);
            },
            Builtin::Help => {
                assert("help"@.len() != "cat"@.len());
                assert("help"@.len() != "cd"@.len());
                assert("help"@[0] != "echo"@[0]);
                assert("help"@[1] != "halt"@[1]);
                assert("help"@[0] != "exit"@[0]);
            },
            Builtin::Ll => {
                assert("ll"@.len() != "cat"@.len());
                assert("ll"@[0] != "cd"@[0]);
                assert("ll"@.len() != "echo"@.len());
                assert("ll"@.len() != "halt"@.len());
                assert("ll"@.len() != "exit"@.len());
                assert("ll"@.len() != "help"@.len());
            },
            Builtin::Mkdir => {
                assert("mkdir"@.len() != "cat"@.len());
                assert("mkdir"@.len() != "cd"@.len());
                assert("mkdir"@.len() != "echo"@.len());
                assert("mkdir"@.len() != "halt"@.len());
                assert("mkdir"@.len() != "exit"@.len());
                assert("mkdir"@.len() != "help"@.len());
                assert("mkdir"@.len() != "ll"@.len());
            },
            Builtin::Pwd => {
                assert("pwd"@[0] != "cat"@[0]);
                assert("pwd"@.len() != "cd"@.len());
                assert("pwd"@.len() != "echo"@.len());
                assert("pwd"@.len() != "halt"@.len());
                assert("pwd"@.len() != "exit"@.len());
                assert("pwd"@.len() != "help"@.len());
                assert("pwd"@.len() != "ll"@.len());
                assert("pwd"@.len() != "mkdir"@.len());
            },
            Builtin::Rm => {
                assert("rm"@.len() != "cat"@.len());
                assert("rm"@[0] != "cd"@[0]);
                assert("rm"@.len() != "echo"@.len());
                assert("rm"@.len() != "halt"@.len());
                assert("rm"@.len() != "exit"@.len());
                assert("rm"@.len() != "help"@.len());
                assert("rm"@[0] != "ll"@[0]);
                assert("rm"@.len() != "mkdir"@.len());
                assert("rm"@.len() != "pwd"@.len());
            },
            Builtin::Uname => {
                assert("uname"@.len() != "cat"@.len());
                assert("uname"@.len() != "cd"@.len());
                assert("uname"@.len() != "echo"@.len());
                assert("uname"@.len() != "halt"@.len());
                assert("uname"@.len() != "exit"@.len());
                assert("uname"@.len() != "help"@.len());
                assert("uname"@.len() != "ll"@.len());
                assert("uname"@[0] != "mkdir"@[0]);
                assert("uname"@.len() != "pwd"@.len());
                assert("uname"@.len() != "rm"@.len());
            },
            Builtin::Chmod => {
                assert("chmod"@.len() != "cat"@.len());
                assert("chmod"@.len() != "cd"@.len());
                assert("chmod"@.len() != "echo"@.len());
                assert("chmod"@.len() != "halt"@.len());
                assert("chmod"@.len() != "exit"@.len());
                assert("chmod"@.len() != "help"@.len());
                assert("chmod"@.len() != "ll"@.len());
                assert("chmod"@[0] != "mkdir"@[0]);
                assert("chmod"@.len() != "pwd"@.len());
                assert("chmod"@.len() != "rm"@.len());
                assert("chmod"@[0] != "uname"@[0]);
            },
            Builtin::Chown => {
                assert("chown"@.len() != "cat"@.len());
                assert("chown"@.len() != "cd"@.len());
                assert("chown"@.len() != "echo"@.len());
                assert("chown"@.len() != "halt"@.len());
                assert("chown"@.len() != "exit"@.len());
                assert("chown"@.len() != "help"@.len());
                assert("chown"@.len() != "ll"@.len());
                assert("chown"@[0] != "mkdir"@[0]);
                assert("chown"@.len() != "pwd"@.len());
                assert("chown"@.len() != "rm"@.len());
                assert("chown"@[0] != "uname"@[0]);
                assert("chown"@[2] != "chmod"@[2]);
            },
            Builtin::Whoami => {
                assert("whoami"@.len() != "cat"@.len());
                assert("whoami"@.len() != "cd"@.len());
                assert("whoami"@.len() != "echo"@.len());
                assert("whoami"@.len() != "halt"@.len());
                assert("whoami"@.len() != "exit"@.len());
                assert("whoami"@.len() != "help"@.len());
                assert("whoami"@.len() != "ll"@.len());
                assert("whoami"@.len() != "mkdir"@.len());
                assert("whoami"@.len() != "pwd"@.len());
                assert("whoami"@.len() != "rm"@.len());
                assert("whoami"@.len() != "uname"@.len());
                assert("whoami"@.len() != "chmod"@.len());
                assert("whoami"@.len() != "chown"@.len());
            },
            Builtin::Su => {
                assert("su"@.len() != "cat"@.len());
                assert("su"@[0] != "cd"@[0]);
                assert("su"@.len() != "echo"@.len());
                assert("su"@.len() != "halt"@.len());
                assert("su"@.len() != "exit"@.len());
                assert("su"@.len() != "help"@.len());
                assert("su"@[0] != "ll"@[0]);
                assert("su"@.len() != "mkdir"@.len());
                assert("su"@.len() != "pwd"@.len());
                assert("su"@[0] != "rm"@[0]);
                assert("su"@.len() != "uname"@.len());
                assert("su"@.len() != "chmod"@.len());
                assert("su"@.len() != "chown"@.len());
                assert("su"@.len() != "whoami"@.len());
            },
            Builtin::Sudo => {
                assert("sudo"@.len() != "cat"@.len());
                assert("sudo"@.len() != "cd"@.len());
                assert("sudo"@[0] != "echo"@[0]);
                assert("sudo"@[0] != "halt"@[0]);
                assert("sudo"@[0] != "exit"@[0]);
                assert("sudo"@[0] != "help"@[0]);
                assert("sudo"@.len() != "ll"@.len());
                assert("sudo"@.len() != "mkdir"@.len());
                assert("sudo"@.len() != "pwd"@.len());
                assert("sudo"@.len() != "rm"@.len());
                assert("sudo"@.len() != "uname"@.len());
                assert("sudo"@.len() != "chmod"@.len());
                assert("sudo"@.len() != "chown"@.len());
                assert("sudo"@.len() != "whoami"@.len());
                assert("sudo"@.len() != "su"@.len());
            },
            Builtin::IfTestExist => {
                assert("if_test_exist"@.len() != "cat"@.len());
                assert("if_test_exist"@.len() != "cd"@.len());
                assert("if_test_exist"@.len() != "echo"@.len());
                assert("if_test_exist"@.len() != "halt"@.len());
                assert("if_test_exist"@.len() != "exit"@.len());
                assert("if_test_exist"@.len() != "help"@.len());
                assert("if_test_exist"@.len() != "ll"@.len());
                assert("if_test_exist"@.len() != "mkdir"@.len());
                assert("if_test_exist"@.len() != "pwd"@.len());
                assert("if_test_exist"@.len() != "rm"@.len());
                assert("if_test_exist"@.len() != "uname"@.len());
                assert("if_test_exist"@.len() != "chmod"@.len());
                assert("if_test_exist"@.len() != "chown"@.len());
                assert("if_test_exist"@.len() != "whoami"@.len());
                assert("if_test_exist"@.len() != "su"@.len());
                assert("if_test_exist"@.len() != "sudo"@.len());
            },
            Builtin::Adduser => {
                assert("adduser"@.len() != "cat"@.len());
                assert("adduser"@.len() != "cd"@.len());
                assert("adduser"@.len() != "echo"@.len());
                assert("adduser"@.len() != "halt"@.len());
                assert("adduser"@.len() != "exit"@.len());
                assert("adduser"@.len() != "help"@.len());
                assert("adduser"@.len() != "ll"@.len());
                assert("adduser"@.len() != "mkdir"@.len());
                assert("adduser"@.len() != "pwd"@.len());
                assert("adduser"@.len() != "rm"@.len());
                assert("adduser"@.len() != "uname"@.len());
                assert("adduser"@.len() != "chmod"@.len());
                assert("adduser"@.len() != "chown"@.len());
                assert("adduser"@.len() != "whoami"@.len());
                assert("adduser"@.len() != "su"@.len());
                assert("adduser"@.len() != "sudo"@.len());
                assert("adduser"@.len() != "if_test_exist"@.len());
            },
            Builtin::Deluser => {
                assert("deluser"@.len() != "cat"@.len());
                assert("deluser"@.len() != "cd"@.len());
                assert("deluser"@.len() != "echo"@.len());
                assert("deluser"@.len() != "halt"@.len());
                assert("deluser"@.len() != "exit"@.len());
                assert("deluser"@.len() != "help"@.len());
                assert("deluser"@.len() != "ll"@.len());
                assert("deluser"@.len() != "mkdir"@.len());
                assert("deluser"@.len() != "pwd"@.len());
                assert("deluser"@.len() != "rm"@.len());
                assert("deluser"@.len() != "uname"@.len());
                assert("deluser"@.len() != "chmod"@.len());
                assert("deluser"@.len() != "chown"@.len());
                assert("deluser"@.len() != "whoami"@.len());
                assert("deluser"@.len() != "su"@.len());
                assert("deluser"@.len() != "sudo"@.len());
                assert("deluser"@.len() != "if_test_exist"@.len());
                assert("deluser"@[0] != "adduser"@[0]);
            },
            Builtin::Passwd => {
                assert("passwd"@.len() != "cat"@.len());
                assert("passwd"@.len() != "cd"@.len());
                assert("passwd"@.len() != "echo"@.len());
                assert("passwd"@.len() != "halt"@.len());
                assert("passwd"@.len() != "exit"@.len());
                assert("passwd"@.len() != "help"@.len());
                assert("passwd"@.len() != "ll"@.len());
                assert("passwd"@.len() != "mkdir"@.len());
                assert("passwd"@.len() != "pwd"@.len());
                assert("passwd"@.len() != "rm"@.len());
                assert("passwd"@.len() != "uname"@.len());
                assert("passwd"@.len() != "chmod"@.len());
                assert("passwd"@.len() != "chown"@.len());
                assert("passwd"@[0] != "whoami"@[0]);
                assert("passwd"@.len() != "su"@.len());
                assert("passwd"@.len() != "sudo"@.len());
                assert("passwd"@.len() != "if_test_exist"@.len());
                assert("passwd"@.len() != "adduser"@.len());
                assert("passwd"@.len() != "deluser"@.len());
            },
        }
    }
    assert(lookup_result(builtin_name_spec(Builtin::Cat)) == Some(Builtin::Cat));
    assert(lookup_result(builtin_name_spec(Builtin::Cd)) == Some(Builtin::Cd));
    assert(lookup_result(builtin_name_spec(Builtin::Echo)) == Some(Builtin::Echo));
    assert(lookup_result(builtin_name_spec(Builtin::Halt)) == Some(Builtin::Halt));
    assert(lookup_result(builtin_name_spec(Builtin::Exit)) == Some(Builtin::Exit));
    assert(lookup_result(builtin_name_spec(Builtin::Help)) == Some(Builtin::Help));
    assert(lookup_result(builtin_name_spec(Builtin::Ll)) == Some(Builtin::Ll));
    assert(lookup_result(builtin_name_spec(Builtin::Mkdir)) == Some(Builtin::Mkdir));
    assert(lookup_result(builtin_name_spec(Builtin::Pwd)) == Some(Builtin::Pwd));
    assert(lookup_result(builtin_name_spec(Builtin::Rm)) == Some(Builtin::Rm));
    assert(lookup_result(builtin_name_spec(Builtin::Uname)) == Some(Builtin::Uname));
    assert(lookup_result(builtin_name_spec(Builtin::Chmod)) == Some(Builtin::Chmod));
    assert(lookup_result(builtin_name_spec(Builtin::Chown)) == Some(Builtin::Chown));
    assert(lookup_result(builtin_name_spec(Builtin::Whoami)) == Some(Builtin::Whoami));
    assert(lookup_result(builtin_name_spec(Builtin::Su)) == Some(Builtin::Su));
    assert(lookup_result(builtin_name_spec(Builtin::Sudo)) == Some(Builtin::Sudo));
    assert(lookup_result(builtin_name_spec(Builtin::IfTestExist)) == Some(Builtin::IfTestExist));
    assert(lookup_result(builtin_name_spec(Builtin::Adduser)) == Some(Builtin::Adduser));
    assert(lookup_result(builtin_name_spec(Builtin::Deluser)) == Some(Builtin::Deluser));
    assert(lookup_result(builtin_name_spec(Builtin::Passwd)) == Some(Builtin::Passwd));
}

} // verus!

