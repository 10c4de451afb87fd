use vstd::prelude::*;
use vstd::string::*;
use crate::text::{
    chars_of, decimal, is_blank, lacks, pieces, range_eq, ranges_within, split, split_ranges,
    trim_bounds, u32_to_string, lemma_split_nonempty, lemma_split_concat,
    lemma_split_lacking, lemma_split_pieces_lack_sep, lemma_not_blank, lemma_decimal_digits,
    lemma_decimal_injective, trim, trim_start, trim_end,
};

verus! {

/// What SHA-1 gives for `data`.
pub uninterp spec fn sha1_digest(data: Seq<u8>) -> Seq<u8>;

/// The SHA-1 digest of `data`, computed by `sha1_smol::Sha1::from(data).digest().bytes()`.
/// Trusted: the result is the 20-byte digest of `data`, named `sha1_digest`.
#[verifier::external_body]
fn sha1(data: &[u8]) -> (d: Vec<u8>)
    ensures
        d@ == sha1_digest(data@),
        d@.len() == 20,
{
    sha1_smol::Sha1::from(data).digest().bytes().to_vec()
}

/// The letter that stands for the nibble `n` in a stored password hash: `a` for 0 up to `p` for 15.
pub open spec fn letter(n: nat) -> char {
    (97 + n) as char
}

/// The text that `/etc/shadow` stores for the digest `b`: each byte as two
/// letters, high nibble first.
pub open spec fn letter_hex(b: Seq<u8>) -> Seq<char>
    decreases b.len(),
{
    if b.len() == 0 {
        Seq::<char>::empty()
    } else {
        letter_hex(b.drop_last()).push(letter((b.last() / 16) as nat)).push(
            letter((b.last() % 16) as nat),
        )
    }
}

/// The one-character string of the letter for the nibble `n`.
fn letter_str(n: u8) -> (s: &'static str)
    requires
        n < 16,
    ensures
        s@ == seq![letter(n as nat)],
{
    proof {
        reveal_strlit("a");
        reveal_strlit("b");
        reveal_strlit("c");
        reveal_strlit("d");
        reveal_strlit("e");
        reveal_strlit("f");
        reveal_strlit("g");
        reveal_strlit("h");
        reveal_strlit("i");
        reveal_strlit("j");
        reveal_strlit("k");
        reveal_strlit("l");
        reveal_strlit("m");
        reveal_strlit("n");
        reveal_strlit("o");
        reveal_strlit("p");
    }
    match n {
        0 => "a",
        1 => "b",
        2 => "c",
        3 => "d",
        4 => "e",
        5 => "f",
        6 => "g",
        7 => "h",
        8 => "i",
        9 => "j",
        10 => "k",
        11 => "l",
        12 => "m",
        13 => "n",
        14 => "o",
        _ => "p",
    }
}

/// The letters of `letter_hex` lie between `a` and `p`.
pub proof fn lemma_letter_hex_letters(b: Seq<u8>)
    ensures
        forall|i: int|
            0 <= i < letter_hex(b).len() ==> 'a' <= #[trigger] letter_hex(b)[i] <= 'p',
        letter_hex(b).len() == 2 * b.len(),
    decreases b.len(),
{
    if b.len() > 0 {
        lemma_letter_hex_letters(b.drop_last());
        let pre = letter_hex(b.drop_last());
        let h = letter((b.last() / 16) as nat);
        let l = letter((b.last() % 16) as nat);
        assert(h as int == 97 + b.last() / 16);
        assert(l as int == 97 + b.last() % 16);
        assert forall|i: int| 0 <= i < letter_hex(b).len() implies 'a' <= #[trigger] letter_hex(
            b,
        )[i] <= 'p' by {
            if i < pre.len() {
                assert(letter_hex(b)[i] == pre[i]);
            }
        }
    }
}

/// The text of the hash of `password` as `/etc/shadow` stores it.
pub open spec fn password_hash_spec(password: Seq<char>) -> Seq<char> {
    letter_hex(sha1_digest(vstd::utf8::encode_utf8(password)))
}

/// Hashes `password` and writes the digest as `/etc/shadow` stores it.
pub fn password_hash(password: &str) -> (r: String)
    ensures
        r@ == password_hash_spec(password@),
{
    let d = sha1(password.as_bytes());
    let mut r = String::new();
    let mut k: usize = 0;
    assert(d@.take(0) =~= Seq::<u8>::empty());
    while k < d.len()
        invariant
            k <= d.len(),
            r@ == letter_hex(d@.take(k as int)),
        decreases d.len() - k,
    {
        let byte = d[k];
        assert(d@.take(k + 1).drop_last() =~= d@.take(k as int));
        assert(d@.take(k + 1).last() == byte);
        r.append(letter_str(byte / 16));
        r.append(letter_str(byte % 16));
        k = k + 1;
    }
    assert(d@.take(d.len() as int) =~= d@);
    r
}

/// The user-id field of a line of `/etc/shadow`: the text before its first `:`.
pub open spec fn shadow_id(line: Seq<char>) -> Seq<char> {
    split(line, ':')[0]
}

/// The password check over the lines of `/etc/shadow`: the first line that is
/// not blank and whose id field is `id` decides; it accepts `hash` when it has
/// no second field or when its second field is `hash`. With no such line the
/// check passes.
pub open spec fn check_lines(lines: Seq<Seq<char>>, id: Seq<char>, hash: Seq<char>) -> bool
    decreases lines.len(),
{
    if lines.len() == 0 {
        true
    } else if !is_blank(lines[0]) && shadow_id(lines[0]) == id {
        let f = split(lines[0], ':');
        f.len() <= 1 || f[1] == hash
    } else {
        check_lines(lines.drop_first(), id, hash)
    }
}

/// Whether the text of `/etc/shadow` accepts the stored hash text `hash` for user `uid`.
pub open spec fn shadow_check(content: Seq<char>, uid: u32, hash: Seq<char>) -> bool {
    check_lines(split(content, '\n'), decimal(uid as nat), hash)
}

/// Checks the stored hash text `hash` for user `uid` against the text of `/etc/shadow`.
pub fn check_shadow(shadow: &str, uid: u32, hash: &str) -> (r: bool)
    ensures
        r == shadow_check(shadow@, uid, hash@),
{
    let chars = chars_of(shadow);
    let id_s = u32_to_string(uid);
    let id = chars_of(id_s.as_str());
    let want = chars_of(hash);
    let lines = split_ranges(&chars, 0, chars.len(), '\n');
    assert(chars@.subrange(0, chars@.len() as int) =~= chars@);
    assert(id@.subrange(0, id@.len() as int) =~= id@);
    assert(want@.subrange(0, want@.len() as int) =~= want@);
    let ghost ls = pieces(chars@, lines@);
    let mut i: usize = 0;
    assert(ls.skip(0) =~= ls);
    while i < lines.len()
        invariant
            chars@ == shadow@,
            id@ == decimal(uid as nat),
            want@ == hash@,
            id@.subrange(0, id@.len() as int) == id@,
            want@.subrange(0, want@.len() as int) == want@,
            ls == pieces(chars@, lines@),
            ls == split(shadow@, '\n'),
            ranges_within(lines@, 0, chars@.len() as int),
            i <= lines.len(),
            check_lines(ls, id@, hash@) == check_lines(ls.skip(i as int), id@, hash@),
        decreases lines.len() - i,
    {
        let (a, b) = lines[i];
        assert(ls[i as int] == chars@.subrange(a as int, b as int));
        assert(ls.skip(i as int)[0] == ls[i as int]);
        assert(ls.skip(i as int).drop_first() =~= ls.skip(i + 1));
        let (ta, tb) = trim_bounds(&chars, a, b);
        if ta < tb {
            let f = split_ranges(&chars, a, b, ':');
            proof {
                lemma_split_nonempty(chars@.subrange(a as int, b as int), ':');
            }
            let ghost fs = pieces(chars@, f@);
            assert(fs[0] == chars@.subrange(f@[0].0 as int, f@[0].1 as int));
            if range_eq(&chars, f[0].0, f[0].1, &id, 0, id.len()) {
                if f.len() <= 1 {
                    return true;
                }
                assert(fs[1] == chars@.subrange(f@[1].0 as int, f@[1].1 as int));
                return range_eq(&chars, f[1].0, f[1].1, &want, 0, want.len());
            }
        }
        i = i + 1;
    }
    assert(ls.skip(i as int) =~= Seq::<Seq<char>>::empty());
    true
}

/// Checks `password` for user `uid` against the text of `/etc/shadow`, if the
/// file could be opened; a file that could not be opened (`None`) accepts no password.
pub fn verify(shadow: Option<&str>, uid: u32, password: String) -> (r: bool)
    ensures
        r == match shadow {
            Some(c) => shadow_check(c@, uid, password_hash_spec(password@)),
            None => false,
        },
{
    match shadow {
        Some(c) => {
            let h = password_hash(password.as_str());
            check_shadow(c, uid, h.as_str())
        },
        None => false,
    }
}

} // verus!

verus! {

/// The lines of `/etc/shadow` that a password change keeps: those that are
/// not blank and do not belong to the user whose id text is `id`.
pub open spec fn kept_lines(lines: Seq<Seq<char>>, id: Seq<char>) -> Seq<Seq<char>>
    decreases lines.len(),
{
    if lines.len() == 0 {
        Seq::<Seq<char>>::empty()
    } else {
        let rest = kept_lines(lines.drop_first(), id);
        if !is_blank(lines[0]) && shadow_id(lines[0]) != id {
            seq![lines[0]] + rest
        } else {
            rest
        }
    }
}

/// Lines joined into a text, each followed by a newline.
pub open spec fn join_lines(ls: Seq<Seq<char>>) -> Seq<char>
    decreases ls.len(),
{
    if ls.len() == 0 {
        Seq::<char>::empty()
    } else {
        ls[0].push('\n') + join_lines(ls.drop_first())
    }
}

/// The line of `/etc/shadow` that stores `hash` for user `uid`.
pub open spec fn shadow_entry(uid: u32, hash: Seq<char>) -> Seq<char> {
    decimal(uid as nat).push(':') + hash
}

/// The text of `/etc/shadow` after user `uid` set the password whose stored
/// text is `hash`: the new entry first, then the other users' lines.
pub open spec fn new_shadow(content: Seq<char>, uid: u32, hash: Seq<char>) -> Seq<char> {
    join_lines(
        seq![shadow_entry(uid, hash)] + kept_lines(split(content, '\n'), decimal(uid as nat)),
    )
}

/// The text of `/etc/shadow` after user `uid` set the password whose stored text is `hash`.
pub fn shadow_with_hash(shadow: &str, uid: u32, hash: &str) -> (r: String)
    ensures
        r@ == new_shadow(shadow@, uid, hash@),
{
    let chars = chars_of(shadow);
    let id_s = u32_to_string(uid);
    let id = chars_of(id_s.as_str());
    let mut out = u32_to_string(uid);
    out.append(":");
    out.append(hash);
    out.append("\n");
    proof {
        reveal_strlit(":");
        reveal_strlit("\n");
    }
    let lines = split_ranges(&chars, 0, chars.len(), '\n');
    assert(chars@.subrange(0, chars@.len() as int) =~= chars@);
    assert(id@.subrange(0, id@.len() as int) =~= id@);
    let ghost ls = pieces(chars@, lines@);
    let ghost e = shadow_entry(uid, hash@);
    let ghost k0 = kept_lines(ls, id@);
    assert((seq![e] + k0)[0] == e);
    assert((seq![e] + k0).drop_first() =~= k0);
    assert(out@ =~= e.push('\n'));
    let mut i: usize = 0;
    assert(ls.skip(0) =~= ls);
    while i < lines.len()
        invariant
            chars@ == shadow@,
            id@ == decimal(uid as nat),
            id@.subrange(0, id@.len() as int) == id@,
            ls == pieces(chars@, lines@),
            ls == split(shadow@, '\n'),
            ranges_within(lines@, 0, chars@.len() as int),
            i <= lines.len(),
            new_shadow(shadow@, uid, hash@) == out@ + join_lines(
                kept_lines(ls.skip(i as int), id@),
            ),
        decreases lines.len() - i,
    {
        let (a, b) = lines[i];
        assert(ls[i as int] == chars@.subrange(a as int, b as int));
        assert(ls.skip(i as int)[0] == ls[i as int]);
        assert(ls.skip(i as int).drop_first() =~= ls.skip(i + 1));
        let ghost rest = kept_lines(ls.skip(i + 1), id@);
        let (ta, tb) = trim_bounds(&chars, a, b);
        if ta < tb {
            let f = split_ranges(&chars, a, b, ':');
            proof {
                lemma_split_nonempty(chars@.subrange(a as int, b as int), ':');
            }
            let ghost fs = pieces(chars@, f@);
            assert(fs[0] == chars@.subrange(f@[0].0 as int, f@[0].1 as int));
            if !range_eq(&chars, f[0].0, f[0].1, &id, 0, id.len()) {
                let ghost l = ls[i as int];
                assert((seq![l] + rest)[0] == l);
                assert((seq![l] + rest).drop_first() =~= rest);
                let ghost before = out@;
                assert(join_lines(seq![l] + rest) == l.push('\n') + join_lines(rest));
                out.append(shadow.substring_char(a, b));
                proof {
                    reveal_strlit("\n");
                }
                out.append("\n");
                assert(out@ =~= before + l.push('\n'));
                assert(before + join_lines(seq![l] + rest) =~= out@ + join_lines(rest));
            }
        }
        i = i + 1;
    }
    assert(ls.skip(i as int) =~= Seq::<Seq<char>>::empty());
    assert(out@ + join_lines(kept_lines(ls.skip(i as int), id@)) =~= out@);
    out
}

/// The text of `/etc/shadow` after user `uid` set `password`.
pub fn set_password(shadow: &str, uid: u32, password: String) -> (r: String)
    ensures
        r@ == new_shadow(shadow@, uid, password_hash_spec(password@)),
{
    let h = password_hash(password.as_str());
    shadow_with_hash(shadow, uid, h.as_str())
}

} // verus!

verus! {

/// Joined lines that hold no newline split back into those lines and an
/// empty last piece.
pub proof fn lemma_split_join(ls: Seq<Seq<char>>)
    requires
        forall|i: int| 0 <= i < ls.len() ==> lacks(#[trigger] ls[i], '\n'),
    ensures
        split(join_lines(ls), '\n') == ls.push(Seq::<char>::empty()),
    decreases ls.len(),
{
    if ls.len() == 0 {
        assert(join_lines(ls) =~= Seq::<char>::empty());
        assert(split(Seq::<char>::empty(), '\n') =~= seq![Seq::<char>::empty()]);
        assert(ls.push(Seq::<char>::empty()) =~= seq![Seq::<char>::empty()]);
    } else {
        let rest = ls.drop_first();
        assert forall|i: int| 0 <= i < rest.len() implies lacks(#[trigger] rest[i], '\n') by {
            assert(rest[i] == ls[i + 1]);
        }
        lemma_split_join(rest);
        assert(lacks(ls[0], '\n'));
        lemma_split_concat(ls[0], join_lines(rest), '\n');
        lemma_split_lacking(ls[0], '\n');
        assert(seq![ls[0]] + rest.push(Seq::<char>::empty()) =~= ls.push(Seq::<char>::empty()));
    }
}

/// The kept lines are lines of the old text, so they hold no newline.
proof fn lemma_kept_lack(lines: Seq<Seq<char>>, id: Seq<char>)
    requires
        forall|i: int| 0 <= i < lines.len() ==> lacks(#[trigger] lines[i], '\n'),
    ensures
        forall|i: int|
            0 <= i < kept_lines(lines, id).len() ==> lacks(#[trigger] kept_lines(lines, id)[i], '\n'),
    decreases lines.len(),
{
    if lines.len() > 0 {
        let rest = lines.drop_first();
        assert forall|i: int| 0 <= i < rest.len() implies lacks(#[trigger] rest[i], '\n') by {
            assert(rest[i] == lines[i + 1]);
        }
        lemma_kept_lack(rest, id);
        let k = kept_lines(lines, id);
        let kr = kept_lines(rest, id);
        if !is_blank(lines[0]) && shadow_id(lines[0]) != id {
            assert forall|i: int| 0 <= i < k.len() implies lacks(#[trigger] k[i], '\n') by {
                if i > 0 {
                    assert(k[i] == kr[i - 1]);
                } else {
                    assert(k[i] == lines[0]);
                }
            }
        }
    }
}

/// Checking another user over the kept lines, followed by an empty line,
/// agrees with checking over all the lines.
proof fn lemma_check_kept(lines: Seq<Seq<char>>, id: Seq<char>, other: Seq<char>, h: Seq<char>)
    requires
        id != other,
    ensures
        check_lines(kept_lines(lines, id).push(Seq::<char>::empty()), other, h) == check_lines(
            lines,
            other,
            h,
        ),
    decreases lines.len(),
{
    let e = Seq::<char>::empty();
    if lines.len() == 0 {
        assert(trim(e) =~= e) by {
            assert(trim_start(e) == e);
            assert(trim_end(e) == e);
        }
        let s = kept_lines(lines, id).push(e);
        assert(kept_lines(lines, id) =~= Seq::<Seq<char>>::empty());
        assert(s =~= seq![e]);
        assert(s[0] == e);
        assert(is_blank(e));
        assert(s.drop_first() =~= Seq::<Seq<char>>::empty());
        assert(check_lines(s, other, h) == check_lines(s.drop_first(), other, h));
    } else {
        let rest = lines.drop_first();
        lemma_check_kept(rest, id, other, h);
        let kr = kept_lines(rest, id).push(e);
        let l = lines[0];
        if !is_blank(l) && shadow_id(l) != id {
            let s = (seq![l] + kept_lines(rest, id)).push(e);
            assert(kept_lines(lines, id).push(e) == s);
            assert(s[0] == l);
            assert(s.drop_first() =~= kr);
        } else {
            assert(kept_lines(lines, id) == kept_lines(rest, id));
        }
    }
}

/// The new text of `/etc/shadow` splits back into the new entry, the kept
/// lines and an empty last piece; the id text of the entry holds no `:`.
proof fn lemma_new_shadow_lines(shadow: Seq<char>, uid: u32, hash: Seq<char>)
    requires
        lacks(hash, '\n'),
    ensures
        lacks(decimal(uid as nat), ':'),
        split(new_shadow(shadow, uid, hash), '\n') == (seq![shadow_entry(uid, hash)] + kept_lines(
            split(shadow, '\n'),
            decimal(uid as nat),
        )).push(Seq::<char>::empty()),
{
    let id = decimal(uid as nat);
    let e = shadow_entry(uid, hash);
    lemma_decimal_digits(uid as nat);
    let lines = split(shadow, '\n');
    lemma_split_pieces_lack_sep(shadow, '\n');
    let k = kept_lines(lines, id);
    lemma_kept_lack(lines, id);
    assert(lacks(id, ':'));
    assert(lacks(e, '\n')) by {
        assert forall|i: int| 0 <= i < e.len() implies #[trigger] e[i] != '\n' by {
            if i > id.len() {
                assert(e[i] == hash[i - id.len() - 1]);
            } else if i < id.len() {
                assert(e[i] == id[i]);
            }
        }
    }
    let all = seq![e] + k;
    assert forall|i: int| 0 <= i < all.len() implies lacks(#[trigger] all[i], '\n') by {
        if i > 0 {
            assert(all[i] == k[i - 1]);
        }
    }
    lemma_split_join(all);
}

/// Law: once user `uid` has set a password, the password check for `uid`
/// accepts exactly the attempts whose stored text is the same as that of the
/// password set; a stored text without `:` or newline stands for any password hash.
pub proof fn law_verify_after_set(shadow: Seq<char>, uid: u32, hash: Seq<char>, attempt: Seq<char>)
    requires
        lacks(hash, ':'),
        lacks(hash, '\n'),
    ensures
        shadow_check(new_shadow(shadow, uid, hash), uid, attempt) == (attempt == hash),
{
    let id = decimal(uid as nat);
    let e = shadow_entry(uid, hash);
    lemma_new_shadow_lines(shadow, uid, hash);
    lemma_decimal_digits(uid as nat);
    assert(e[0] == id[0]);
    lemma_not_blank(e);
    lemma_split_concat(id, hash, ':');
    lemma_split_lacking(id, ':');
    lemma_split_lacking(hash, ':');
    assert(split(e, ':') =~= seq![id, hash]);
}

/// Law: setting the password of user `uid` leaves the password check of
/// every other user as it was.
pub proof fn law_set_keeps_others(
    shadow: Seq<char>,
    uid: u32,
    hash: Seq<char>,
    other: u32,
    attempt: Seq<char>,
)
    requires
        uid != other,
        lacks(hash, '\n'),
    ensures
        shadow_check(new_shadow(shadow, uid, hash), other, attempt) == shadow_check(
            shadow,
            other,
            attempt,
        ),
{
    let id = decimal(uid as nat);
    let oid = decimal(other as nat);
    if id == oid {
        lemma_decimal_injective(uid as nat, other as nat);
    }
    let e = shadow_entry(uid, hash);
    let lines = split(shadow, '\n');
    let k = kept_lines(lines, id);
    lemma_new_shadow_lines(shadow, uid, hash);
    let ls = split(new_shadow(shadow, uid, hash), '\n');
    assert(ls[0] == e);
    lemma_split_concat(id, hash, ':');
    lemma_split_lacking(id, ':');
    lemma_split_nonempty(hash, ':');
    assert(split(e, ':')[0] == id);
    assert(ls.drop_first() =~= k.push(Seq::<char>::empty()));
    lemma_check_kept(lines, id, oid, attempt);
}

/// Law: after user `uid` sets `password`, checking `uid` against any attempt
/// succeeds exactly when the attempt hashes to the same stored text; in
/// particular the password just set is accepted.
pub proof fn law_verify_after_set_password(
    shadow: Seq<char>,
    uid: u32,
    password: Seq<char>,
    attempt: Seq<char>,
)
    ensures
        shadow_check(
            new_shadow(shadow, uid, password_hash_spec(password)),
            uid,
            password_hash_spec(attempt),
        ) == (password_hash_spec(attempt) == password_hash_spec(password)),
        shadow_check(
            new_shadow(shadow, uid, password_hash_spec(password)),
            uid,
            password_hash_spec(password),
        ),
{
    let h = password_hash_spec(password);
    lemma_letter_hex_letters(sha1_digest(vstd::utf8::encode_utf8(password)));
    assert(lacks(h, ':'));
    assert(lacks(h, '\n'));
    law_verify_after_set(shadow, uid, h, password_hash_spec(attempt));
    law_verify_after_set(shadow, uid, h, h);
}

} // verus!

verus! {

/// Changes the password of user `uid` who knows the old one: when `old` is
/// accepted by the text of `/etc/shadow`, the new text stores `new`;
/// otherwise the change is refused with `AuthenticationFailure`.
pub fn change_password(shadow: &str, uid: u32, old: &str, new: String) -> (r: Result<
    String,
    crate::error::UserError,
>)
    ensures
        !shadow_check(shadow@, uid, password_hash_spec(old@)) ==> r == Err::<
            String,
            crate::error::UserError,
        >(crate::error::UserError::AuthenticationFailure),
        shadow_check(shadow@, uid, password_hash_spec(old@)) ==> (r matches Ok(t) && t@
            == new_shadow(shadow@, uid, password_hash_spec(new@))),
{
    let h = password_hash(old);
    if !check_shadow(shadow, uid, h.as_str()) {
        return Err(crate::error::UserError::AuthenticationFailure);
    }
    Ok(set_password(shadow, uid, new))
}

} // verus!
