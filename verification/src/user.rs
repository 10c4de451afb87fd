use vstd::prelude::*;
use std::collections::BTreeMap;
use vstd::std_specs::btree::{increasing_seq, spec_btree_map_iter};
use vstd::std_specs::iter::IteratorSpec;
use vstd::std_specs::cmp::OrdSpec;
use crate::error::UserError;
use crate::text::{
    chars_of, is_blank, parse_u32, parse_u32_range, pieces, ranges_within, split, split_ranges,
    substring, trim_bounds, trim, lemma_split_nonempty, range_eq, opt_view,
};

verus! {

/// One record of the user database (`/etc/passwd`).
#[derive(Debug)]
pub struct UserInfo {
    pub username: String,
    pub password: String,
    pub uid: u32,
    pub gid: u32,
    pub comment: String,
    pub home: String,
    pub shell: String,
}

/// The contents of a [`UserInfo`], as plain values.
pub struct UserRecord {
    pub username: Seq<char>,
    pub password: Seq<char>,
    pub uid: u32,
    pub gid: u32,
    pub comment: Seq<char>,
    pub home: Seq<char>,
    pub shell: Seq<char>,
}

impl View for UserInfo {
    type V = UserRecord;

    open spec fn view(&self) -> UserRecord {
        UserRecord {
            username: self.username@,
            password: self.password@,
            uid: self.uid,
            gid: self.gid,
            comment: self.comment@,
            home: self.home@,
            shell: self.shell@,
        }
    }
}

/// The record that a line of `/etc/passwd` holds: at least seven fields
/// separated by `:`, of which the third and fourth are the user and group
/// ids; an id that does not parse, or that is `u32::MAX`, makes the line invalid.
pub open spec fn parse_passwd_line(line: Seq<char>) -> Option<UserRecord> {
    let f = split(line, ':');
    if f.len() < 7 {
        None
    } else {
        match (parse_u32(f[2]), parse_u32(f[3])) {
            (Some(uid), Some(gid)) => if uid != u32::MAX && gid != u32::MAX {
                Some(
                    UserRecord {
                        username: f[0],
                        password: f[1],
                        uid,
                        gid,
                        comment: f[4],
                        home: f[5],
                        shell: f[6],
                    },
                )
            } else {
                None
            },
            _ => None,
        }
    }
}

/// The records of the lines of a user database, in order, with blank lines
/// left out; `None` if a line that is not blank is invalid.
pub open spec fn passwd_records(lines: Seq<Seq<char>>) -> Option<Seq<UserRecord>>
    decreases lines.len(),
{
    if lines.len() == 0 {
        Some(Seq::<UserRecord>::empty())
    } else {
        match passwd_records(lines.drop_last()) {
            None => None,
            Some(rs) => if is_blank(lines.last()) {
                Some(rs)
            } else {
                match parse_passwd_line(lines.last()) {
                    None => None,
                    Some(r) => Some(rs.push(r)),
                }
            },
        }
    }
}

/// Once a prefix of the lines is invalid, so is the whole.
pub proof fn lemma_records_invalid_prefix(lines: Seq<Seq<char>>, k: int)
    requires
        0 <= k <= lines.len(),
        passwd_records(lines.take(k)) is None,
    ensures
        passwd_records(lines) is None,
    decreases lines.len() - k,
{
    if k == lines.len() {
        assert(lines.take(k) =~= lines);
    } else {
        assert(lines.take(k + 1).drop_last() =~= lines.take(k));
        lemma_records_invalid_prefix(lines, k + 1);
    }
}

/// The table of records by user id: a later record for an id replaces an earlier one.
pub open spec fn records_map(rs: Seq<UserRecord>) -> Map<u32, UserRecord>
    decreases rs.len(),
{
    if rs.len() == 0 {
        Map::empty()
    } else {
        records_map(rs.drop_last()).insert(rs.last().uid, rs.last())
    }
}

/// The users that the text of `/etc/passwd` describes, by id; `None` if the
/// text is malformed.
pub open spec fn passwd_users(content: Seq<char>) -> Option<Map<u32, UserRecord>> {
    match passwd_records(split(content, '\n')) {
        Some(rs) => Some(records_map(rs)),
        None => None,
    }
}

/// The views of a list of records.
pub open spec fn infos_view(v: Seq<UserInfo>) -> Seq<UserRecord> {
    v.map_values(|u: UserInfo| u@)
}

/// The views of a table of records.
pub open spec fn infos_map_view(m: Map<u32, UserInfo>) -> Map<u32, UserRecord> {
    m.map_values(|u: UserInfo| u@)
}

/// Reads the user records out of the text of `/etc/passwd`, in the order of the lines.
fn passwd_entries(content: &str) -> (r: Result<Vec<UserInfo>, UserError>)
    ensures
        match r {
            Ok(v) => passwd_records(split(content@, '\n')) == Some(infos_view(v@)),
            Err(e) => e == UserError::InvalidData && passwd_records(split(content@, '\n'))
                is None,
        },
{
    let chars = chars_of(content);
    let lines = split_ranges(&chars, 0, chars.len(), '\n');
    assert(chars@.subrange(0, chars@.len() as int) =~= chars@);
    let ghost ls = pieces(chars@, lines@);
    let mut out: Vec<UserInfo> = Vec::new();
    let mut i: usize = 0;
    assert(ls.take(0) =~= Seq::<Seq<char>>::empty());
    assert(infos_view(out@) =~= Seq::<UserRecord>::empty());
    while i < lines.len()
        invariant
            chars@ == content@,
            ls == pieces(chars@, lines@),
            ls == split(content@, '\n'),
            ranges_within(lines@, 0, chars@.len() as int),
            i <= lines.len(),
            passwd_records(ls.take(i as int)) == Some(infos_view(out@)),
        decreases lines.len() - i,
    {
        let (a, b) = lines[i];
        assert(ls.take(i + 1).drop_last() =~= ls.take(i as int));
        assert(ls.take(i + 1).last() == ls[i as int]);
        assert(ls[i as int] == chars@.subrange(a as int, b as int));
        let (ta, tb) = trim_bounds(&chars, a, b);
        if ta == tb {
            i = i + 1;
            continue;
        }
        let f = split_ranges(&chars, a, b, ':');
        let ghost fs = pieces(chars@, f@);
        assert(fs == split(ls[i as int], ':'));
        assert(!is_blank(ls[i as int]));
        if f.len() < 7 {
            proof {
                lemma_records_invalid_prefix(ls, i + 1);
            }
            return Err(UserError::InvalidData);
        }
        assert(fs[2] == chars@.subrange(f[2].0 as int, f[2].1 as int));
        assert(fs[3] == chars@.subrange(f[3].0 as int, f[3].1 as int));
        let uid = match parse_u32_range(&chars, f[2].0, f[2].1) {
            Some(u) => u,
            None => {
                proof {
                    lemma_records_invalid_prefix(ls, i + 1);
                }
                return Err(UserError::InvalidData);
            },
        };
        if uid == u32::MAX {
            proof {
                lemma_records_invalid_prefix(ls, i + 1);
            }
            return Err(UserError::InvalidData);
        }
        let gid = match parse_u32_range(&chars, f[3].0, f[3].1) {
            Some(g) => g,
            None => {
                proof {
                    lemma_records_invalid_prefix(ls, i + 1);
                }
                return Err(UserError::InvalidData);
            },
        };
        if gid == u32::MAX {
            proof {
                lemma_records_invalid_prefix(ls, i + 1);
            }
            return Err(UserError::InvalidData);
        }
        let info = UserInfo {
            username: substring(content, f[0].0, f[0].1),
            password: substring(content, f[1].0, f[1].1),
            uid,
            gid,
            comment: substring(content, f[4].0, f[4].1),
            home: substring(content, f[5].0, f[5].1),
            shell: substring(content, f[6].0, f[6].1),
        };
        let ghost old_out = out@;
        out.push(info);
        assert(infos_view(out@) =~= infos_view(old_out).push(info@));
        i = i + 1;
    }
    assert(ls.take(lines.len() as int) =~= ls);
    Ok(out)
}

/// Reads the users out of the text of `/etc/passwd` into a table by user id;
/// where two lines give the same id, the later one is kept.
pub fn user_list(content: &str) -> (r: Result<BTreeMap<u32, UserInfo>, UserError>)
    ensures
        match r {
            Ok(m) => passwd_users(content@) == Some(infos_map_view(m@)),
            Err(e) => e == UserError::InvalidData && passwd_users(content@) is None,
        },
{
    let mut recs = match passwd_entries(content) {
        Ok(v) => v,
        Err(e) => {
            return Err(e);
        },
    };
    let ghost rs = infos_view(recs@);
    let n = recs.len();
    let mut table: BTreeMap<u32, UserInfo> = BTreeMap::new();
    let mut k: usize = 0;
    assert(rs.skip(0) =~= rs);
    assert(infos_map_view(table@) =~= records_map(rs.take(0)));
    while recs.len() > 0
        invariant
            n == rs.len(),
            k + recs.len() == n,
            infos_view(recs@) == rs.skip(k as int),
            infos_map_view(table@) == records_map(rs.take(k as int)),
        decreases recs.len(),
    {
        let ghost before = recs@;
        let info = recs.remove(0);
        assert(info@ == rs[k as int]) by {
            assert(infos_view(before)[0] == before[0]@);
        }
        assert(infos_view(recs@) =~= rs.skip(k + 1)) by {
            assert forall|t: int| 0 <= t < recs@.len() implies infos_view(recs@)[t] == rs.skip(
                k + 1,
            )[t] by {
                assert(recs@[t] == before[t + 1]);
                assert(infos_view(before)[t + 1] == before[t + 1]@);
            }
        }
        let ghost old_table = table@;
        let uid = info.uid;
        table.insert(uid, info);
        assert(rs.take(k + 1).drop_last() =~= rs.take(k as int));
        assert(infos_map_view(table@) =~= infos_map_view(old_table).insert(uid, info@));
        k = k + 1;
    }
    assert(rs.take(n as int) =~= rs);
    Ok(table)
}

} // verus!

verus! {

/// No later record has the same user id as record `i`.
pub open spec fn is_final(rs: Seq<UserRecord>, i: int) -> bool {
    forall|j: int| i < j < rs.len() ==> #[trigger] rs[j].uid != rs[i].uid
}

/// The table by user id holds exactly the ids of the records, each mapped
/// to the last record with that id.
pub proof fn lemma_records_map(rs: Seq<UserRecord>)
    ensures
        forall|u: u32| #[trigger]
            records_map(rs).contains_key(u) ==> exists|i: int|
                0 <= i < rs.len() && rs[i].uid == u && is_final(rs, i) && records_map(rs)[u]
                    == rs[i],
        forall|i: int|
            0 <= i < rs.len() && #[trigger] is_final(rs, i) ==> records_map(rs).contains_key(
                rs[i].uid,
            ) && records_map(rs)[rs[i].uid] == rs[i],
    decreases rs.len(),
{
    if rs.len() > 0 {
        let pre = rs.drop_last();
        let r = rs.last();
        lemma_records_map(pre);
        assert forall|u: u32| #[trigger] records_map(rs).contains_key(u) implies exists|i: int|
            0 <= i < rs.len() && rs[i].uid == u && is_final(rs, i) && records_map(rs)[u]
                == rs[i] by {
            if u == r.uid {
                assert(is_final(rs, rs.len() - 1));
            } else {
                assert(records_map(pre).contains_key(u));
                let i = choose|i: int|
                    0 <= i < pre.len() && pre[i].uid == u && is_final(pre, i)
                        && records_map(pre)[u] == pre[i];
                assert(rs[i] == pre[i]);
                assert forall|j: int| i < j < rs.len() implies #[trigger] rs[j].uid != rs[i].uid by {
                    if j < rs.len() - 1 {
                        assert(rs[j] == pre[j]);
                    }
                }
                assert(is_final(rs, i));
            }
        }
        assert forall|i: int| 0 <= i < rs.len() && #[trigger] is_final(rs, i) implies records_map(
            rs,
        ).contains_key(rs[i].uid) && records_map(rs)[rs[i].uid] == rs[i] by {
            if i < rs.len() - 1 {
                assert(rs[i] == pre[i]);
                assert(rs[rs.len() - 1].uid != rs[i].uid);
                assert(is_final(pre, i));
            }
        }
    }
}

/// `u` is the least user id in `m` whose record is named `name`.
pub open spec fn least_uid_named(m: Map<u32, UserRecord>, name: Seq<char>, u: u32) -> bool {
    &&& m.contains_key(u)
    &&& m[u].username == name
    &&& forall|v: u32| #[trigger] m.contains_key(v) && m[v].username == name ==> u <= v
}

/// Some user in `m` is named `name`.
pub open spec fn has_user_named(m: Map<u32, UserRecord>, name: Seq<char>) -> bool {
    exists|v: u32| #[trigger] m.contains_key(v) && m[v].username == name
}

/// What `user_name` answers for `uid`, given the text of `/etc/passwd` if it could be read.
pub open spec fn user_name_spec(passwd: Option<Seq<char>>, uid: u32) -> Seq<char> {
    match passwd {
        Some(c) => match passwd_users(c) {
            Some(m) => if m.contains_key(uid) {
                m[uid].username
            } else {
                Seq::<char>::empty()
            },
            None => Seq::<char>::empty(),
        },
        None => Seq::<char>::empty(),
    }
}

/// The name of user `uid` in `/etc/passwd` (the last record for that id
/// wins); empty if there is none, or if the file could not be read
/// (`passwd` is `None`) or is malformed.
pub fn user_name(passwd: Option<&str>, uid: u32) -> (r: String)
    ensures
        r@ == user_name_spec(opt_view(passwd), uid),
{
    let content = match passwd {
        Some(c) => c,
        None => {
            return String::new();
        },
    };
    let table = match user_list(content) {
        Ok(m) => m,
        Err(_) => {
            return String::new();
        },
    };
    match table.get(&uid) {
        Some(u) => u.username.clone(),
        None => String::new(),
    }
}

/// What `user_id` answers for `name`.
pub open spec fn user_id_ok(passwd: Option<Seq<char>>, name: Seq<char>, r: u32) -> bool {
    match passwd {
        Some(c) => match passwd_users(c) {
            Some(m) => if has_user_named(m, name) {
                least_uid_named(m, name, r)
            } else {
                r == 0
            },
            None => r == 0,
        },
        None => r == 0,
    }
}

/// The least user id named `name` in `/etc/passwd`; 0 if there is none, or if
/// the file could not be read (`passwd` is `None`) or is malformed.
pub fn user_id(passwd: Option<&str>, name: String) -> (r: u32)
    ensures
        user_id_ok(opt_view(passwd), name@, r),
{
    let content = match passwd {
        Some(c) => c,
        None => {
            return 0;
        },
    };
    let table = match user_list(content) {
        Ok(m) => m,
        Err(_) => {
            return 0;
        },
    };
    let ghost m = infos_map_view(table@);
    let entries = table.iter();
    let ghost all = spec_btree_map_iter(&table).remaining();
    let ghost keys = all.map_values(|kv: (&u32, &UserInfo)| *kv.0);
    assert(entries == spec_btree_map_iter(&table));
    assert(increasing_seq(keys));
    for entry in it: entries
        invariant
            it.seq() == all,
            all == spec_btree_map_iter(&table).remaining(),
            keys == all.map_values(|kv: (&u32, &UserInfo)| *kv.0),
            increasing_seq(keys),
            opt_view(passwd) == Some(content@),
            passwd_users(content@) == Some(m),
            m == infos_map_view(table@),
            forall|t: int| 0 <= t < it.index() ==> (*#[trigger] it.seq()[t].1).username@ != name@,
    {
        assert(entry == all[it.index()]);
        let (k, u) = entry;
        if u.username == name {
            assert(least_uid_named(m, name@, *k)) by {
                assert(table@.contains_key(*k));
                assert forall|v: u32| #[trigger] m.contains_key(v) && m[v].username == name@ implies *k <= v by {
                    assert(it.seq().contains((&v, &table@[v])));
                    let t = choose|t: int| 0 <= t < it.seq().len() && it.seq()[t] == (&v, &table@[v]);
                    if t < it.index() {
                        assert((*it.seq()[t].1).username@ != name@);
                    } else if t > it.index() {
                        assert(keys[it.index()] == *k);
                        assert(keys[t] == v);
                        assert(keys[it.index()].cmp_spec(&keys[t]) is Less);
                    } else {
                        assert(keys[t] == v);
                        assert(keys[t] == *k);
                    }
                }
            }
            assert(m.contains_key(*k) && m[*k].username == name@);
            assert(has_user_named(m, name@));
            return *k;
        }
    }
    assert(!has_user_named(m, name@)) by {
        assert forall|v: u32| #[trigger] m.contains_key(v) implies m[v].username != name@ by {
            assert(all.contains((&v, &table@[v])));
            let t = choose|t: int| 0 <= t < all.len() && all[t] == (&v, &table@[v]);
            assert((*all[t].1).username@ != name@);
        }
    }
    0
}

} // verus!

verus! {

/// The first word of a line of `/etc/sudoers`: the trimmed line up to its first space.
pub open spec fn sudoer_of_line(line: Seq<char>) -> Seq<char> {
    split(trim(line), ' ')[0]
}

/// Whether the text of `/etc/sudoers` names `name` at the start of a line that is not blank.
pub open spec fn sudoers_list(content: Seq<char>, name: Seq<char>) -> bool {
    let lines = split(content, '\n');
    exists|i: int|
        0 <= i < lines.len() && !is_blank(lines[i]) && #[trigger] sudoer_of_line(lines[i]) == name
}

/// Whether `name` may use `sudo`, given the text of `/etc/sudoers` if it
/// could be opened (`None`: it could not, and nobody may).
pub fn is_sudoer(sudoers: Option<&str>, name: String) -> (r: bool)
    ensures
        r == match sudoers {
            Some(c) => sudoers_list(c@, name@),
            None => false,
        },
{
    let content = match sudoers {
        Some(c) => c,
        None => {
            return false;
        },
    };
    let chars = chars_of(content);
    let want = chars_of(name.as_str());
    let lines = split_ranges(&chars, 0, chars.len(), '\n');
    assert(chars@.subrange(0, chars@.len() as int) =~= chars@);
    let ghost ls = pieces(chars@, lines@);
    let mut i: usize = 0;
    while i < lines.len()
        invariant
            sudoers == Some(content),
            chars@ == content@,
            want@ == name@,
            ls == pieces(chars@, lines@),
            ls == split(content@, '\n'),
            ranges_within(lines@, 0, chars@.len() as int),
            i <= lines.len(),
            forall|t: int|
                0 <= t < i ==> is_blank(ls[t]) || #[trigger] sudoer_of_line(ls[t]) != name@,
        decreases lines.len() - i,
    {
        let (a, b) = lines[i];
        assert(ls[i as int] == chars@.subrange(a as int, b as int));
        let (ta, tb) = trim_bounds(&chars, a, b);
        if ta < tb {
            let words = split_ranges(&chars, ta, tb, ' ');
            proof {
                lemma_split_nonempty(chars@.subrange(ta as int, tb as int), ' ');
            }
            assert(pieces(chars@, words@)[0] == chars@.subrange(
                words@[0].0 as int,
                words@[0].1 as int,
            ));
            if range_eq(&chars, words[0].0, words[0].1, &want, 0, want.len()) {
                assert(want@.subrange(0, want@.len() as int) =~= want@);
                assert(sudoer_of_line(ls[i as int]) == name@);
                assert(!is_blank(ls[i as int]));
                assert(sudoers_list(content@, name@));
                return true;
            }
            assert(want@.subrange(0, want@.len() as int) =~= want@);
        }
        i = i + 1;
    }
    false
}

} // verus!

verus! {

/// Law: the name of the user that `user_id` finds for `name` is `name`,
/// whenever some user has that name.
pub proof fn law_user_name_of_user_id(passwd: Option<Seq<char>>, name: Seq<char>, id: u32)
    requires
        user_id_ok(passwd, name, id),
        passwd matches Some(c) && passwd_users(c) matches Some(m) && has_user_named(m, name),
    ensures
        user_name_spec(passwd, id) == name,
{
}

} // verus!

verus! {

/// Every user record read from lines is named by the first `:`-field of one of the lines.
pub proof fn lemma_records_named_by_lines(lines: Seq<Seq<char>>)
    ensures
        passwd_records(lines) matches Some(rs) ==> forall|i: int|
            0 <= i < rs.len() ==> exists|j: int|
                0 <= j < lines.len() && #[trigger] rs[i].username == split(lines[j], ':')[0],
    decreases lines.len(),
{
    if lines.len() > 0 {
        let pre = lines.drop_last();
        lemma_records_named_by_lines(pre);
        if let Some(rs) = passwd_records(lines) {
            let prs = passwd_records(pre)->Some_0;
            assert forall|i: int| 0 <= i < rs.len() implies exists|j: int|
                0 <= j < lines.len() && #[trigger] rs[i].username == split(lines[j], ':')[0] by {
                if i < prs.len() {
                    assert(rs[i] == prs[i]);
                    let j = choose|j: int|
                        0 <= j < pre.len() && #[trigger] prs[i].username == split(pre[j], ':')[0];
                    assert(lines[j] == pre[j]);
                } else {
                    assert(rs[i].username == split(lines[lines.len() - 1], ':')[0]);
                }
            }
        }
    }
}

} // verus!
