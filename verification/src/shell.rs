use vstd::prelude::*;
use crate::text::{
    chars_of, parse_u32, parse_u32_range, pieces, ranges_within, split, split_ranges, substring,
    trim, trim_bounds,
};

verus! {

/// The id and name that a line of `/etc/passwd` or `/etc/group` gives the
/// shell: the third field parsed as a number (`u32::MAX` when it does not
/// parse) and the first field, trimmed when `trim_name` holds.
pub open spec fn map_line(line: Seq<char>, trim_name: bool) -> (u32, Seq<char>) {
    let f = split(line, ':');
    (
        match parse_u32(f[2]) {
            Some(u) => u,
            None => u32::MAX,
        },
        if trim_name {
            trim(f[0])
        } else {
            f[0]
        },
    )
}

/// The (id, name) pairs of the lines that are not empty, in order.
pub open spec fn id_map(lines: Seq<Seq<char>>, trim_name: bool) -> Seq<(u32, Seq<char>)>
    decreases lines.len(),
{
    if lines.len() == 0 {
        Seq::<(u32, Seq<char>)>::empty()
    } else {
        let rest = id_map(lines.drop_last(), trim_name);
        if lines.last().len() == 0 {
            rest
        } else {
            rest.push(map_line(lines.last(), trim_name))
        }
    }
}

/// Every line that is not empty has at least three `:`-separated fields
/// (the shell reads the third field of each such line).
pub open spec fn map_text_ok(content: Seq<char>) -> bool {
    let lines = split(content, '\n');
    forall|i: int|
        0 <= i < lines.len() && lines[i].len() > 0 ==> split(#[trigger] lines[i], ':').len() >= 3
}

/// The plain-value view of a list of (id, name) pairs.
pub open spec fn pairs_view(v: Seq<(u32, String)>) -> Seq<(u32, Seq<char>)> {
    v.map_values(|p: (u32, String)| (p.0, p.1@))
}

/// The (id, name) pairs of a user or group file.
fn id_pairs(content: &str, trim_name: bool) -> (r: Vec<(u32, String)>)
    requires
        map_text_ok(content@),
    ensures
        pairs_view(r@) == id_map(split(content@, '\n'), trim_name),
{
    let chars = chars_of(content);
    let lines = split_ranges(&chars, 0, chars.len(), '\n');
    assert(chars@.subrange(0, chars@.len() as int) =~= chars@);
    let ghost ls = pieces(chars@, lines@);
    let mut out: Vec<(u32, String)> = Vec::new();
    let mut i: usize = 0;
    assert(ls.take(0) =~= Seq::<Seq<char>>::empty());
    assert(pairs_view(out@) =~= Seq::<(u32, Seq<char>)>::empty());
    while i < lines.len()
        invariant
            chars@ == content@,
            map_text_ok(content@),
            ls == pieces(chars@, lines@),
            ls == split(content@, '\n'),
            ranges_within(lines@, 0, chars@.len() as int),
            i <= lines.len(),
            pairs_view(out@) == id_map(ls.take(i as int), trim_name),
        decreases lines.len() - i,
    {
        let (a, b) = lines[i];
        assert(ls.take(i + 1).drop_last() =~= ls.take(i as int));
        assert(ls.take(i + 1).last() == ls[i as int]);
        assert(ls[i as int] == chars@.subrange(a as int, b as int));
        if a < b {
            let f = split_ranges(&chars, a, b, ':');
            let ghost fs = pieces(chars@, f@);
            assert(fs.len() >= 3);
            assert(fs[0] == chars@.subrange(f@[0].0 as int, f@[0].1 as int));
            assert(fs[2] == chars@.subrange(f@[2].0 as int, f@[2].1 as int));
            let id = match parse_u32_range(&chars, f[2].0, f[2].1) {
                Some(u) => u,
                None => u32::MAX,
            };
            let name = if trim_name {
                let (ta, tb) = trim_bounds(&chars, f[0].0, f[0].1);
                substring(content, ta, tb)
            } else {
                substring(content, f[0].0, f[0].1)
            };
            let ghost before = out@;
            out.push((id, name));
            assert(pairs_view(out@) =~= pairs_view(before).push(map_line(ls[i as int], trim_name)));
        } else {
            assert(ls[i as int].len() == 0);
        }
        i = i + 1;
    }
    assert(ls.take(lines.len() as int) =~= ls);
    out
}

/// The shell's table of users: (uid, name) for each line of `/etc/passwd`
/// that is not empty, the name trimmed.
pub fn user_map(passwd: &str) -> (r: Vec<(u32, String)>)
    requires
        map_text_ok(passwd@),
    ensures
        pairs_view(r@) == id_map(split(passwd@, '\n'), true),
{
    id_pairs(passwd, true)
}

/// The shell's table of groups: (gid, name) for each line of `/etc/group`
/// that is not empty.
pub fn group_map(group: &str) -> (r: Vec<(u32, String)>)
    requires
        map_text_ok(group@),
    ensures
        pairs_view(r@) == id_map(split(group@, '\n'), false),
{
    id_pairs(group, false)
}

/// The name of the first pair with id `id`; `root` if there is none.
pub open spec fn name_of(m: Seq<(u32, Seq<char>)>, id: u32) -> Seq<char>
    decreases m.len(),
{
    if m.len() == 0 {
        "root"@
    } else if m[0].0 == id {
        m[0].1
    } else {
        name_of(m.drop_first(), id)
    }
}

/// The id of the first pair named `name`; 0 if there is none.
pub open spec fn id_of(m: Seq<(u32, Seq<char>)>, name: Seq<char>) -> u32
    decreases m.len(),
{
    if m.len() == 0 {
        0
    } else if m[0].1 == name {
        m[0].0
    } else {
        id_of(m.drop_first(), name)
    }
}

/// The name of the first pair of `m` with id `id`; `root` if there is none.
fn lookup_name(m: &Vec<(u32, String)>, id: u32) -> (r: String)
    ensures
        r@ == name_of(pairs_view(m@), id),
{
    let ghost pv = pairs_view(m@);
    let mut i: usize = 0;
    assert(pv.skip(0) =~= pv);
    while i < m.len()
        invariant
            pv == pairs_view(m@),
            i <= m.len(),
            name_of(pv, id) == name_of(pv.skip(i as int), id),
        decreases m.len() - i,
    {
        assert(pv.skip(i as int)[0] == pv[i as int]);
        assert(pv.skip(i as int).drop_first() =~= pv.skip(i + 1));
        if m[i].0 == id {
            return m[i].1.clone();
        }
        i = i + 1;
    }
    assert(pv.skip(i as int) =~= Seq::<(u32, Seq<char>)>::empty());
    "root".to_owned()
}

/// The id of the first pair of `m` named `name`; 0 if there is none.
fn lookup_id(m: &Vec<(u32, String)>, name: &String) -> (r: u32)
    ensures
        r == id_of(pairs_view(m@), name@),
{
    let ghost pv = pairs_view(m@);
    let mut i: usize = 0;
    assert(pv.skip(0) =~= pv);
    while i < m.len()
        invariant
            pv == pairs_view(m@),
            i <= m.len(),
            id_of(pv, name@) == id_of(pv.skip(i as int), name@),
        decreases m.len() - i,
    {
        assert(pv.skip(i as int)[0] == pv[i as int]);
        assert(pv.skip(i as int).drop_first() =~= pv.skip(i + 1));
        if m[i].1 == *name {
            return m[i].0;
        }
        i = i + 1;
    }
    assert(pv.skip(i as int) =~= Seq::<(u32, Seq<char>)>::empty());
    0
}

/// The name of user `uid` by the text of `/etc/passwd`: the first line with
/// that id; `root` if there is none.
pub fn user_name(passwd: &str, uid: u32) -> (r: String)
    requires
        map_text_ok(passwd@),
    ensures
        r@ == name_of(id_map(split(passwd@, '\n'), true), uid),
{
    lookup_name(&user_map(passwd), uid)
}

/// The name of group `gid` by the text of `/etc/group`: the first line with
/// that id; `root` if there is none.
pub fn group_name(group: &str, gid: u32) -> (r: String)
    requires
        map_text_ok(group@),
    ensures
        r@ == name_of(id_map(split(group@, '\n'), false), gid),
{
    lookup_name(&group_map(group), gid)
}

/// The id of user `name` by the text of `/etc/passwd`: the first line with
/// that name; 0 if there is none.
pub fn user_id(passwd: &str, name: String) -> (r: u32)
    requires
        map_text_ok(passwd@),
    ensures
        r == id_of(id_map(split(passwd@, '\n'), true), name@),
{
    lookup_id(&user_map(passwd), &name)
}

/// The id of group `name` by the text of `/etc/group`: the first line with
/// that name; 0 if there is none.
pub fn group_id(group: &str, name: String) -> (r: u32)
    requires
        map_text_ok(group@),
    ensures
        r == id_of(id_map(split(group@, '\n'), false), name@),
{
    lookup_id(&group_map(group), &name)
}

} // verus!

verus! {

/// Whether every line of a user or group file that is not empty has at
/// least three fields, as the shell's tables need.
pub fn map_text_valid(content: &str) -> (r: bool)
    ensures
        r == map_text_ok(content@),
{
    let chars = chars_of(content);
    let lines = split_ranges(&chars, 0, chars.len(), '\n');
    assert(chars@.subrange(0, chars@.len() as int) =~= chars@);
    let ghost ls = pieces(chars@, lines@);
    let mut i: usize = 0;
    while i < lines.len()
        invariant
            chars@ == content@,
            ls == pieces(chars@, lines@),
            ls == split(content@, '\n'),
            ranges_within(lines@, 0, chars@.len() as int),
            i <= lines.len(),
            forall|t: int|
                0 <= t < i && ls[t].len() > 0 ==> split(#[trigger] ls[t], ':').len() >= 3,
        decreases lines.len() - i,
    {
        let (a, b) = lines[i];
        assert(ls[i as int] == chars@.subrange(a as int, b as int));
        if a < b {
            let f = split_ranges(&chars, a, b, ':');
            if f.len() < 3 {
                assert(ls[i as int].len() > 0);
                return false;
            }
        }
        i = i + 1;
    }
    true
}

} // verus!
