use axuser_perm::commands::{
    adduser_check, adduser_exists, adduser_group, adduser_passwd, cd_target, chmod_perm, chown_ids, deluser_passwd, exit_code,
    file_perm_to_rwx, file_type_to_char, join_path, ll_line, parse_echo, parse_mkdir_args, parse_rm_args,
    parse_two_operands, split_owner, split_whitespace, su_uid, CmdError, EchoAction,
};
use axuser_perm::permission::FileType;
use axuser_perm::script::{
    builtin_name, builtins, command_kind, expand_line, lookup_builtin, parse_script_args, replace_str,
    script_commands, script_lines, segment_step, Builtin, CmdKind, Step,
};
use axuser_perm::shell::{group_id, group_map, group_name, user_id, user_map, user_name};
use axuser_perm::text::{split_words, u32_to_string, u64_to_string};
use axuser_perm::user::user_id as axuser_user_id;

const PASSWD: &str = "root:x:0:0:root:/root:/bin/bash\n guest :x:2:2::/home/guest:/bin/sh\n";
const GROUP: &str = "root:x:0:\nstaff:x:50:\n";

#[test]
fn shell_maps() {
    assert_eq!(user_map(PASSWD), vec![(0, "root".to_string()), (2, "guest".to_string())]);
    assert_eq!(group_map(GROUP), vec![(0, "root".to_string()), (50, "staff".to_string())]);
    assert_eq!(user_map("a:x:abc\n"), vec![(u32::MAX, "a".to_string())]);
    assert_eq!(group_map(" g :x:3\n"), vec![(3, " g ".to_string())]);
    assert_eq!(user_map(""), vec![]);
}

#[test]
fn shell_lookups() {
    assert_eq!(user_name(PASSWD, 2), "guest");
    assert_eq!(user_name(PASSWD, 7), "root");
    assert_eq!(group_name(GROUP, 50), "staff");
    assert_eq!(group_name(GROUP, 51), "root");
    assert_eq!(user_id(PASSWD, "guest".to_string()), 2);
    assert_eq!(user_id(PASSWD, "nobody".to_string()), 0);
    assert_eq!(group_id(GROUP, "staff".to_string()), 50);
    assert_eq!(group_id(GROUP, "x".to_string()), 0);
    assert_eq!(user_name("a:x:1\nb:x:1\n", 1), "a");
}

#[test]
fn split_whitespace_splits_first_word() {
    assert_eq!(split_whitespace("  ls   -l  a "), ("ls".to_string(), "-l  a".to_string()));
    assert_eq!(split_whitespace("pwd"), ("pwd".to_string(), "".to_string()));
    assert_eq!(split_whitespace("   "), ("".to_string(), "".to_string()));
    assert_eq!(split_whitespace("a\tb"), ("a".to_string(), "b".to_string()));
}

#[test]
fn rwx_text_of_modes() {
    assert_eq!(&file_perm_to_rwx(0o755), b"rwxr-xr-x");
    assert_eq!(&file_perm_to_rwx(0o640), b"rw-r-----");
    assert_eq!(&file_perm_to_rwx(0o1000), b"---------");
}

#[test]
fn type_letters() {
    assert_eq!(file_type_to_char(FileType::Dir), 'd');
    assert_eq!(file_type_to_char(FileType::File), '-');
    assert_eq!(file_type_to_char(FileType::SymLink), 'l');
    assert_eq!(file_type_to_char(FileType::Unknown), '?');
}

#[test]
fn cd_targets() {
    assert_eq!(cd_target("").unwrap(), "/");
    assert_eq!(cd_target("/tmp").unwrap(), "/tmp");
    assert_eq!(cd_target("a b").unwrap_err(), CmdError::TooManyArguments);
}

#[test]
fn exit_codes() {
    assert_eq!(exit_code(b""), 0);
    assert_eq!(exit_code(b"3"), 3);
    assert_eq!(exit_code(b"a"), 49);
}

#[test]
fn chmod_modes() {
    assert_eq!(chmod_perm(b"755"), 493);
    assert_eq!(chmod_perm(b"600x"), 384);
    assert_eq!(parse_two_operands("-R 644 file").unwrap(), ("644".to_string(), "file".to_string(), true));
    assert_eq!(parse_two_operands(" 644  file ").unwrap(), ("644".to_string(), "file".to_string(), false));
    assert_eq!(parse_two_operands("644").unwrap_err(), CmdError::WrongOperand);
    assert_eq!(parse_two_operands("a b c").unwrap_err(), CmdError::WrongOperand);
}

#[test]
fn chown_owner_parts() {
    assert_eq!(split_owner("bob: staff "), ("bob".to_string(), "staff".to_string()));
    assert_eq!(split_owner("bob"), ("bob".to_string(), "".to_string()));
    assert_eq!(split_owner("a:b:c"), ("a".to_string(), "b:c".to_string()));
    assert_eq!(chown_ids(PASSWD, GROUP, "root", "staff"), Ok((0, 50)));
    assert_eq!(chown_ids(PASSWD, GROUP, "guest", "root"), Ok((2, 0)));
    assert_eq!(chown_ids(PASSWD, GROUP, "nobody", "staff"), Err(CmdError::InvalidUser));
    assert_eq!(chown_ids(PASSWD, GROUP, "root", ""), Err(CmdError::InvalidGroup));
}

#[test]
fn su_targets() {
    assert_eq!(su_uid(PASSWD, "guest"), Ok(2));
    assert_eq!(su_uid(PASSWD, "root"), Ok(0));
    assert_eq!(su_uid(PASSWD, "nobody"), Err(CmdError::InvalidUser));
    assert_eq!(su_uid(PASSWD, "a b"), Err(CmdError::TooManyArguments));
}

#[test]
fn echo_actions() {
    match parse_echo("hello world").unwrap() {
        EchoAction::Print(t) => assert_eq!(t, "hello world"),
        _ => panic!("expected print"),
    }
    match parse_echo("hi there > out.txt").unwrap() {
        EchoAction::Write { fname, text, append } => {
            assert_eq!(fname, "out.txt");
            assert_eq!(text, "hi there\n");
            assert!(!append);
        }
        _ => panic!("expected write"),
    }
    match parse_echo("a >> f extra").unwrap() {
        EchoAction::Write { fname, text, append } => {
            assert_eq!(fname, "f");
            assert_eq!(text, "a extra\n");
            assert!(append);
        }
        _ => panic!("expected write"),
    }
    assert!(matches!(parse_echo("a >"), Err(CmdError::NoFileSpecified)));
}

#[test]
fn adduser_records() {
    assert_eq!(
        adduser_passwd("root:x:0:0:root:/root:/bin/bash\n", "bob").unwrap(),
        "root:x:0:0:root:/root:/bin/bash\nbob:x:1:1:,,,:/home/bob:/bin/sh\n"
    );
    assert_eq!(
        adduser_passwd("  r:x:0:0::/:/s\nq:x:41:zz:::\n\n", "bob").unwrap(),
        "r:x:0:0::/:/s\nq:x:41:zz:::\nbob:x:42:1:,,,:/home/bob:/bin/sh\n"
    );
    assert_eq!(adduser_passwd("a:b\n", "bob").unwrap_err(), CmdError::InvalidData);
    assert_eq!(adduser_group("root:x:0:\n", "bob").unwrap(), "root:x:0:\nbob:x:1:\n");
    assert_eq!(adduser_group("root:x\n", "bob").unwrap_err(), CmdError::InvalidData);
}

#[test]
fn adduser_then_user_is_found() {
    let p = adduser_passwd("root:x:0:0:root:/root:/bin/bash\n", "bob").unwrap();
    assert_eq!(axuser_user_id(Some(&p), "bob".to_string()), 1);
}

#[test]
fn adduser_existing_names() {
    assert!(adduser_exists(PASSWD, "root"));
    assert!(adduser_exists(PASSWD, "guest"));
    assert!(!adduser_exists(PASSWD, "bob"));
}

#[test]
fn deluser_lines() {
    let p = "root:x:0:0::/:/bin/sh\nbob:x:1:1::/:/bin/sh\n";
    assert_eq!(deluser_passwd(p, "bob"), ("root:x:0:0::/:/bin/sh\n".to_string(), true));
    assert_eq!(deluser_passwd(p, "zed"), (p.to_string(), false));
    let (q, _) = deluser_passwd(p, "bob");
    assert_eq!(axuser_user_id(Some(&q), "bob".to_string()), 0);
}

#[test]
fn script_expansion() {
    assert_eq!(expand_line("echo $0 $1; ls", "a b"), vec!["echo a b".to_string(), " ls".to_string()]);
    assert_eq!(expand_line("  # comment", "a"), Vec::<String>::new());
    assert_eq!(expand_line("   ", "a"), Vec::<String>::new());
    assert_eq!(expand_line("x $0$0", "  q  "), vec!["x qq".to_string()]);
    assert_eq!(parse_script_args(" a  b "), vec!["a".to_string(), "b".to_string()]);
    assert_eq!(script_lines("a\nb\n"), vec!["a".to_string(), "b".to_string(), "".to_string()]);
}

#[test]
fn replace_all_left_to_right() {
    assert_eq!(replace_str("aaa", "aa", "b"), "ba");
    assert_eq!(replace_str("$1$10", "$1", "x"), "xx0");
    assert_eq!(replace_str("abc", "z", "y"), "abc");
}

#[test]
fn command_kinds() {
    assert_eq!(command_kind(""), None);
    assert_eq!(command_kind("/bin/x"), Some(CmdKind::Script));
    assert_eq!(command_kind("cat"), Some(CmdKind::Builtin(Builtin::Cat)));
    assert_eq!(command_kind("if_test_exist"), Some(CmdKind::Builtin(Builtin::IfTestExist)));
    assert_eq!(command_kind("ls"), Some(CmdKind::External));
    assert_eq!(lookup_builtin("passwd"), Some(Builtin::Passwd));
    assert_eq!(lookup_builtin("nope"), None);
    let names: Vec<&str> = builtins().into_iter().map(builtin_name).collect();
    assert_eq!(names.len(), 20);
    assert_eq!(names[0], "cat");
    assert_eq!(names[19], "passwd");
}

#[test]
fn ll_lines() {
    assert_eq!(
        ll_line(FileType::File, 0o644, "root", "root", 12, "a.txt"),
        "-rw-r--r--     root     root       12 a.txt"
    );
    assert_eq!(
        ll_line(FileType::Dir, 0o755, "averylongname", "g", 123456789, "d"),
        "drwxr-xr-x averylongname        g 123456789 d"
    );
    assert_eq!(join_path("/etc", "passwd"), "/etc/passwd");
    assert_eq!(join_path("/", "passwd"), "/passwd");
}

#[test]
fn rm_and_mkdir_args() {
    assert_eq!(parse_rm_args("-d x y").unwrap(), (vec!["x".to_string(), "y".to_string()], true));
    assert_eq!(parse_rm_args("x").unwrap(), (vec!["x".to_string()], false));
    assert_eq!(parse_rm_args("").unwrap_err(), CmdError::MissingOperand);
    assert_eq!(parse_mkdir_args(" a  b").unwrap(), vec!["a".to_string(), "b".to_string()]);
    assert_eq!(parse_mkdir_args("").unwrap_err(), CmdError::MissingOperand);
}

#[test]
fn numerals_and_words() {
    assert_eq!(u32_to_string(0), "0");
    assert_eq!(u32_to_string(4294967295), "4294967295");
    assert_eq!(u64_to_string(18446744073709551615), "18446744073709551615");
    assert_eq!(split_words("  a \t bb\nc "), vec!["a".to_string(), "bb".to_string(), "c".to_string()]);
}

#[test]
fn adduser_argument_checks() {
    assert_eq!(adduser_check(PASSWD, "bob"), Ok(()));
    assert_eq!(adduser_check(PASSWD, "guest"), Err(CmdError::ExistingUser));
    assert_eq!(adduser_check(PASSWD, "b c"), Err(CmdError::TooManyArguments));
}

#[test]
fn segment_steps() {
    assert!(matches!(segment_step("   "), Step::Skip));
    match segment_step(" ./run.sh  a b ") {
        Step::Script(path, args) => {
            assert_eq!(path, "./run.sh");
            assert_eq!(args, " ./run.sh  a b ");
        }
        _ => panic!("expected a script"),
    }
    match segment_step("cat  f ") {
        Step::Builtin(b, args) => {
            assert_eq!(b, Builtin::Cat);
            assert_eq!(args, "f");
        }
        _ => panic!("expected a built-in"),
    }
    match segment_step("hello x y") {
        Step::External(cmd, path, args) => {
            assert_eq!(cmd, "hello");
            assert_eq!(path, "/bin/hello");
            assert_eq!(args, "x y");
        }
        _ => panic!("expected an external command"),
    }
}

#[test]
fn script_commands_pair_lines_with_args() {
    let seg = "./s x";
    assert_eq!(
        script_commands("echo 1\nls\n", seg),
        vec![
            ("echo 1".to_string(), seg.to_string()),
            ("ls".to_string(), seg.to_string()),
            ("".to_string(), seg.to_string()),
        ]
    );
    assert_eq!(script_commands("", "a"), vec![("".to_string(), "a".to_string())]);
}

#[test]
fn deluser_undoes_adduser() {
    let p = "root:x:0:0:root:/root:/bin/bash\nalice:x:1000:1000::/home/alice:/bin/sh\n";
    let q = adduser_passwd(p, "bob").unwrap();
    assert_eq!(q, format!("{}bob:x:1001:1001:,,,:/home/bob:/bin/sh\n", p));
    assert_eq!(deluser_passwd(&q, "bob"), (p.to_string(), true));
}
