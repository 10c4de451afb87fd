use vstd::prelude::*;
use vstd::string::*;

verus! {

/// Whether `c` is a white-space character in the sense of Unicode's
/// `White_Space` property (the characters that `char::is_whitespace` accepts).
pub open spec fn is_ws(c: char) -> bool {
    ||| ('\u{9}' <= c && c <= '\u{d}')
    ||| c == ' '
    ||| c == '\u{85}'
    ||| c == '\u{a0}'
    ||| c == '\u{1680}'
    ||| ('\u{2000}' <= c && c <= '\u{200a}')
    ||| c == '\u{2028}'
    ||| c == '\u{2029}'
    ||| c == '\u{202f}'
    ||| c == '\u{205f}'
    ||| c == '\u{3000}'
}

/// Executable white-space test.
pub fn char_is_ws(c: char) -> (r: bool)
    ensures
        r == is_ws(c),
{
    ('\u{9}' <= c && c <= '\u{d}') || c == ' ' || c == '\u{85}' || c == '\u{a0}' || c == '\u{1680}'
        || ('\u{2000}' <= c && c <= '\u{200a}') || c == '\u{2028}' || c == '\u{2029}' || c
        == '\u{202f}' || c == '\u{205f}' || c == '\u{3000}'
}

/// The characters of a string slice, in order.
pub fn chars_of(s: &str) -> (v: Vec<char>)
    ensures
        v@ == s@,
{
    let mut v: Vec<char> = Vec::new();
    for c in it: s.chars()
        invariant
            v@ == it.seq().take(it.index() as int),
    {
        v.push(c);
    }
    v
}

} // verus!

verus! {

/// The pieces of `s` between occurrences of `sep`, as `str::split` with a
/// character pattern gives them: one more piece than `s` has separators.
pub open spec fn split(s: Seq<char>, sep: char) -> Seq<Seq<char>>
    decreases s.len(),
{
    if s.len() == 0 {
        seq![Seq::<char>::empty()]
    } else {
        let rest = split(s.drop_last(), sep);
        if s.last() == sep {
            rest.push(Seq::<char>::empty())
        } else {
            rest.update(rest.len() - 1, rest.last().push(s.last()))
        }
    }
}

/// `split` never yields an empty list of pieces.
pub proof fn lemma_split_nonempty(s: Seq<char>, sep: char)
    ensures
        split(s, sep).len() >= 1,
    decreases s.len(),
{
    if s.len() > 0 {
        lemma_split_nonempty(s.drop_last(), sep);
    }
}

/// The sub-slices of `v` that the index pairs in `r` delimit.
pub open spec fn pieces(v: Seq<char>, r: Seq<(usize, usize)>) -> Seq<Seq<char>> {
    r.map_values(|p: (usize, usize)| v.subrange(p.0 as int, p.1 as int))
}

/// Every index pair of `r` delimits a sub-slice of `v[lo..hi]`.
pub open spec fn ranges_within(r: Seq<(usize, usize)>, lo: int, hi: int) -> bool {
    forall|i: int| 0 <= i < r.len() ==> lo <= #[trigger] r[i].0 <= r[i].1 <= hi
}

/// The positions of the pieces of `v[lo..hi]` between occurrences of `sep`.
pub fn split_ranges(v: &Vec<char>, lo: usize, hi: usize, sep: char) -> (r: Vec<(usize, usize)>)
    requires
        lo <= hi <= v.len(),
    ensures
        ranges_within(r@, lo as int, hi as int),
        pieces(v@, r@) == split(v@.subrange(lo as int, hi as int), sep),
{
    let mut r: Vec<(usize, usize)> = Vec::new();
    let mut start = lo;
    let mut k = lo;
    assert(v@.subrange(lo as int, lo as int) =~= Seq::<char>::empty());
    assert(pieces(v@, r@) =~= Seq::<Seq<char>>::empty());
    assert(pieces(v@, r@).push(v@.subrange(lo as int, lo as int)) =~= split(
        v@.subrange(lo as int, lo as int),
        sep,
    ));
    while k < hi
        invariant
            lo <= start <= k <= hi <= v.len(),
            ranges_within(r@, lo as int, start as int),
            pieces(v@, r@).push(v@.subrange(start as int, k as int)) == split(
                v@.subrange(lo as int, k as int),
                sep,
            ),
        decreases hi - k,
    {
        let ghost old_r = r@;
        let ghost cur = v@.subrange(lo as int, (k + 1) as int);
        assert(cur.drop_last() =~= v@.subrange(lo as int, k as int));
        assert(cur.last() == v@[k as int]);
        if v[k] == sep {
            r.push((start, k));
            assert forall|i: int| 0 <= i < r@.len() implies lo <= #[trigger] r@[i].0 <= r@[i].1
                <= k by {
                if i < old_r.len() {
                    assert(r@[i] == old_r[i]);
                }
            }
            assert(pieces(v@, r@) =~= pieces(v@, old_r).push(v@.subrange(start as int, k as int)));
            assert(v@.subrange((k + 1) as int, (k + 1) as int) =~= Seq::<char>::empty());
            start = k + 1;
        } else {
            assert(v@.subrange(start as int, (k + 1) as int) =~= v@.subrange(
                start as int,
                k as int,
            ).push(v@[k as int]));
            let ghost rest = split(v@.subrange(lo as int, k as int), sep);
            assert(rest.update(rest.len() - 1, rest.last().push(v@[k as int])) =~= pieces(
                v@,
                r@,
            ).push(v@.subrange(start as int, (k + 1) as int)));
        }
        k = k + 1;
    }
    let ghost before = r@;
    r.push((start, hi));
    assert(pieces(v@, r@) =~= pieces(v@, before).push(v@.subrange(start as int, hi as int)));
    r
}

} // verus!

verus! {

/// `s` without its leading white space.
pub open spec fn trim_start(s: Seq<char>) -> Seq<char>
    decreases s.len(),
{
    if s.len() > 0 && is_ws(s[0]) {
        trim_start(s.drop_first())
    } else {
        s
    }
}

/// `s` without its trailing white space.
pub open spec fn trim_end(s: Seq<char>) -> Seq<char>
    decreases s.len(),
{
    if s.len() > 0 && is_ws(s.last()) {
        trim_end(s.drop_last())
    } else {
        s
    }
}

/// `s` without leading and trailing white space, as `str::trim` gives it.
pub open spec fn trim(s: Seq<char>) -> Seq<char> {
    trim_end(trim_start(s))
}

/// The bounds of `v[lo..hi]` with its leading and trailing white space left out.
pub fn trim_bounds(v: &Vec<char>, lo: usize, hi: usize) -> (r: (usize, usize))
    requires
        lo <= hi <= v.len(),
    ensures
        lo <= r.0 <= r.1 <= hi,
        v@.subrange(r.0 as int, r.1 as int) == trim(v@.subrange(lo as int, hi as int)),
{
    let mut i = lo;
    while i < hi && char_is_ws(v[i])
        invariant
            lo <= i <= hi <= v.len(),
            trim_start(v@.subrange(lo as int, hi as int)) == trim_start(
                v@.subrange(i as int, hi as int),
            ),
        decreases hi - i,
    {
        assert(v@.subrange(i as int, hi as int).drop_first() =~= v@.subrange(
            (i + 1) as int,
            hi as int,
        ));
        i = i + 1;
    }
    let mut j = hi;
    while j > i && char_is_ws(v[j - 1])
        invariant
            lo <= i <= j <= hi <= v.len(),
            trim_start(v@.subrange(lo as int, hi as int)) == v@.subrange(i as int, hi as int),
            trim_end(v@.subrange(i as int, hi as int)) == trim_end(
                v@.subrange(i as int, j as int),
            ),
        decreases j - i,
    {
        assert(v@.subrange(i as int, j as int).drop_last() =~= v@.subrange(
            i as int,
            (j - 1) as int,
        ));
        j = j - 1;
    }
    (i, j)
}

/// Whether `v[a..b]` and `w[c..d]` hold the same characters.
pub fn range_eq(v: &Vec<char>, a: usize, b: usize, w: &Vec<char>, c: usize, d: usize) -> (r: bool)
    requires
        a <= b <= v.len(),
        c <= d <= w.len(),
    ensures
        r == (v@.subrange(a as int, b as int) == w@.subrange(c as int, d as int)),
{
    if b - a != d - c {
        assert(v@.subrange(a as int, b as int).len() != w@.subrange(c as int, d as int).len());
        return false;
    }
    let mut k: usize = 0;
    while k < b - a
        invariant
            a <= b <= v.len(),
            c <= d <= w.len(),
            b - a == d - c,
            k <= b - a,
            forall|t: int|
                0 <= t < k ==> #[trigger] v@.subrange(a as int, b as int)[t] == w@.subrange(
                    c as int,
                    d as int,
                )[t],
        decreases b - a - k,
    {
        if v[a + k] != w[c + k] {
            assert(v@.subrange(a as int, b as int)[k as int] != w@.subrange(
                c as int,
                d as int,
            )[k as int]);
            return false;
        }
        k = k + 1;
    }
    assert(v@.subrange(a as int, b as int) =~= w@.subrange(c as int, d as int));
    true
}

} // verus!

verus! {

/// Whether `c` is an ASCII decimal digit.
pub open spec fn is_digit(c: char) -> bool {
    '0' <= c && c <= '9'
}

/// The value of the decimal digit `c`.
pub open spec fn digit_value(c: char) -> nat {
    (c as int - '0' as int) as nat
}

/// The value of the decimal numeral `s`, most significant digit first.
pub open spec fn digits_value(s: Seq<char>) -> nat
    decreases s.len(),
{
    if s.len() == 0 {
        0
    } else {
        digits_value(s.drop_last()) * 10 + digit_value(s.last())
    }
}

/// Whether every character of `d` is a decimal digit.
pub open spec fn all_digits(d: Seq<char>) -> bool {
    forall|i: int| 0 <= i < d.len() ==> is_digit(#[trigger] d[i])
}

/// The value of a non-empty run of digits that fits in a `u32`.
pub open spec fn parse_digits(d: Seq<char>) -> Option<u32> {
    if d.len() > 0 && all_digits(d) && digits_value(d) <= u32::MAX {
        Some(digits_value(d) as u32)
    } else {
        None
    }
}

/// What `str::parse::<u32>` gives for `s`: an optional `+`, then one or more
/// decimal digits whose value fits in a `u32`.
pub open spec fn parse_u32(s: Seq<char>) -> Option<u32> {
    if s.len() > 0 && s[0] == '+' {
        parse_digits(s.drop_first())
    } else {
        parse_digits(s)
    }
}

/// Parses the decimal numeral `v[lo..hi]` as `str::parse::<u32>` does.
pub fn parse_u32_range(v: &Vec<char>, lo: usize, hi: usize) -> (r: Option<u32>)
    requires
        lo <= hi <= v.len(),
    ensures
        r == parse_u32(v@.subrange(lo as int, hi as int)),
{
    let ghost s = v@.subrange(lo as int, hi as int);
    let mut start = lo;
    if lo < hi && v[lo] == '+' {
        start = lo + 1;
    }
    let ghost d = if s.len() > 0 && s[0] == '+' {
        s.drop_first()
    } else {
        s
    };
    assert(d =~= v@.subrange(start as int, hi as int));
    if start == hi {
        return None;
    }
    let mut acc: u64 = 0;
    let mut k = start;
    while k < hi
        invariant
            lo <= start <= k <= hi <= v.len(),
            s == v@.subrange(lo as int, hi as int),
            d == (if s.len() > 0 && s[0] == '+' {
                s.drop_first()
            } else {
                s
            }),
            d == v@.subrange(start as int, hi as int),
            forall|i: int| start <= i < k ==> is_digit(#[trigger] v@[i]),
            acc as int == if digits_value(v@.subrange(start as int, k as int)) <= u32::MAX {
                digits_value(v@.subrange(start as int, k as int)) as int
            } else {
                u32::MAX + 1
            },
        decreases hi - k,
    {
        let c = v[k];
        if !('0' <= c && c <= '9') {
            assert(d[k - start] == c);
            assert(!is_digit(d[k - start]));
            return None;
        }
        let ghost pre = v@.subrange(start as int, k as int);
        let ghost nxt = v@.subrange(start as int, (k + 1) as int);
        assert(nxt.drop_last() =~= pre);
        assert(nxt.last() == c);
        let dv: u64 = (c as u32 - '0' as u32) as u64;
        assert(dv == digit_value(c));
        let next = acc * 10 + dv;
        if next > 0xffff_ffff {
            acc = 0x1_0000_0000;
        } else {
            acc = next;
        }
        k = k + 1;
    }
    assert(v@.subrange(start as int, k as int) =~= d);
    if acc > 0xffff_ffff {
        None
    } else {
        Some(acc as u32)
    }
}

/// The decimal digit character for `d` (below ten).
pub open spec fn digit_char(d: nat) -> char {
    (48 + d) as char
}

/// The decimal numeral of `n`, as `u32::to_string` writes it.
pub open spec fn decimal(n: nat) -> Seq<char>
    decreases n,
{
    if n < 10 {
        seq![digit_char(n)]
    } else {
        decimal(n / 10).push(digit_char(n % 10))
    }
}

/// A decimal numeral is made of digits only.
pub proof fn lemma_decimal_digits(n: nat)
    ensures
        decimal(n).len() >= 1,
        forall|i: int| 0 <= i < decimal(n).len() ==> is_digit(#[trigger] decimal(n)[i]),
    decreases n,
{
    if n >= 10 {
        lemma_decimal_digits(n / 10);
        let s = decimal(n / 10);
        assert forall|i: int| 0 <= i < decimal(n).len() implies is_digit(
            #[trigger] decimal(n)[i],
        ) by {
            if i < s.len() {
                assert(decimal(n)[i] == s[i]);
            }
        }
    }
}

/// Distinct numbers have distinct numerals.
pub proof fn lemma_decimal_injective(m: nat, n: nat)
    requires
        decimal(m) == decimal(n),
    ensures
        m == n,
    decreases m + n,
{
    lemma_decimal_digits(m);
    lemma_decimal_digits(n);
    if m < 10 && n < 10 {
        assert(decimal(m) == seq![digit_char(m)]);
        assert(decimal(n) == seq![digit_char(n)]);
        assert(decimal(m)[0] == digit_char(m));
        assert(decimal(n)[0] == digit_char(n));
        assert(digit_char(m) == digit_char(n));
        assert(digit_char(m) as int == 48 + m);
        assert(digit_char(n) as int == 48 + n);
        assert(m == n);
    } else if m < 10 {
        lemma_decimal_digits(n / 10);
        assert(decimal(n).len() >= 2);
        assert(decimal(m).len() == 1);
    } else if n < 10 {
        lemma_decimal_digits(m / 10);
        assert(decimal(m).len() >= 2);
        assert(decimal(n).len() == 1);
    } else {
        assert(decimal(m).drop_last() =~= decimal(m / 10));
        assert(decimal(n).drop_last() =~= decimal(n / 10));
        lemma_decimal_injective(m / 10, n / 10);
        assert(decimal(m).last() == decimal(n).last());
        assert(decimal(m) == decimal(m / 10).push(digit_char(m % 10)));
        assert(decimal(n) == decimal(n / 10).push(digit_char(n % 10)));
        assert(decimal(m).last() == digit_char(m % 10));
        assert(decimal(n).last() == digit_char(n % 10));
        assert(digit_char(m % 10) as int == 48 + m % 10);
        assert(digit_char(n % 10) as int == 48 + n % 10);
        assert(m == (m / 10) * 10 + m % 10);
        assert(n == (n / 10) * 10 + n % 10);
    }
}

/// The one-character string of the digit `d`.
pub fn digit_str(d: u32) -> (s: &'static str)
    requires
        d < 10,
    ensures
        s@ == seq![digit_char(d as nat)],
{
    proof {
        reveal_strlit("0");
        reveal_strlit("1");
        reveal_strlit("2");
        reveal_strlit("3");
        reveal_strlit("4");
        reveal_strlit("5");
        reveal_strlit("6");
        reveal_strlit("7");
        reveal_strlit("8");
        reveal_strlit("9");
    }
    match d {
        0 => "0",
        1 => "1",
        2 => "2",
        3 => "3",
        4 => "4",
        5 => "5",
        6 => "6",
        7 => "7",
        8 => "8",
        _ => "9",
    }
}

/// The decimal numeral of `n`.
pub fn u32_to_string(n: u32) -> (s: String)
    ensures
        s@ == decimal(n as nat),
{
    u64_to_string(n as u64)
}

/// The decimal numeral of `n`.
pub fn u64_to_string(n: u64) -> (s: String)
    ensures
        s@ == decimal(n as nat),
    decreases n,
{
    if n < 10 {
        digit_str(n as u32).to_owned()
    } else {
        let mut s = u64_to_string(n / 10);
        s.append(digit_str((n % 10) as u32));
        s
    }
}

} // verus!

verus! {

/// An owned copy of the characters `from..to` of `s`.
pub fn substring(s: &str, from: usize, to: usize) -> (r: String)
    requires
        from <= to <= s@.len(),
    ensures
        r@ == s@.subrange(from as int, to as int),
{
    s.substring_char(from, to).to_owned()
}

/// Whether `s` has no character other than white space.
pub open spec fn is_blank(s: Seq<char>) -> bool {
    trim(s).len() == 0
}

} // verus!

verus! {

/// `s` does not hold the character `c`.
pub open spec fn lacks(s: Seq<char>, c: char) -> bool {
    forall|i: int| 0 <= i < s.len() ==> #[trigger] s[i] != c
}

/// No piece of a split holds the separator.
pub proof fn lemma_split_pieces_lack_sep(s: Seq<char>, sep: char)
    ensures
        forall|i: int| 0 <= i < split(s, sep).len() ==> lacks(#[trigger] split(s, sep)[i], sep),
    decreases s.len(),
{
    if s.len() > 0 {
        let pre = s.drop_last();
        lemma_split_pieces_lack_sep(pre, sep);
        lemma_split_nonempty(pre, sep);
        let rest = split(pre, sep);
        assert forall|i: int| 0 <= i < split(s, sep).len() implies lacks(
            #[trigger] split(s, sep)[i],
            sep,
        ) by {
            if s.last() == sep {
                if i < rest.len() {
                    assert(split(s, sep)[i] == rest[i]);
                } else {
                    assert(split(s, sep)[i] =~= Seq::<char>::empty());
                }
            } else {
                if i < rest.len() - 1 {
                    assert(split(s, sep)[i] == rest[i]);
                } else {
                    let p = rest.last().push(s.last());
                    assert(split(s, sep)[i] == p);
                    assert(lacks(rest[rest.len() - 1], sep));
                    assert forall|k: int| 0 <= k < p.len() implies #[trigger] p[k] != sep by {
                        if k < p.len() - 1 {
                            assert(p[k] == rest.last()[k]);
                        }
                    }
                }
            }
        }
    }
}

/// A sequence without the separator splits into itself alone.
pub proof fn lemma_split_lacking(s: Seq<char>, sep: char)
    requires
        lacks(s, sep),
    ensures
        split(s, sep) == seq![s],
    decreases s.len(),
{
    if s.len() > 0 {
        let pre = s.drop_last();
        assert(lacks(pre, sep)) by {
            assert forall|i: int| 0 <= i < pre.len() implies #[trigger] pre[i] != sep by {
                assert(pre[i] == s[i]);
            }
        }
        lemma_split_lacking(pre, sep);
        assert(s.last() != sep);
        assert(split(s, sep) =~= seq![pre.push(s.last())]);
        assert(pre.push(s.last()) =~= s);
    } else {
        assert(s =~= Seq::<char>::empty());
    }
}

/// Splitting `x`, the separator, then `y`, gives the pieces of `x` followed
/// by those of `y`.
pub proof fn lemma_split_concat(x: Seq<char>, y: Seq<char>, sep: char)
    ensures
        split(x.push(sep) + y, sep) == split(x, sep) + split(y, sep),
    decreases y.len(),
{
    lemma_split_nonempty(x, sep);
    if y.len() == 0 {
        assert(x.push(sep) + y =~= x.push(sep));
        assert(x.push(sep).drop_last() =~= x);
        assert(split(y, sep) =~= seq![Seq::<char>::empty()]);
        assert(split(x, sep).push(Seq::<char>::empty()) =~= split(x, sep) + split(y, sep));
    } else {
        let yp = y.drop_last();
        let c = y.last();
        lemma_split_concat(x, yp, sep);
        lemma_split_nonempty(yp, sep);
        let whole = x.push(sep) + y;
        assert(whole.drop_last() =~= x.push(sep) + yp);
        assert(whole.last() == c);
        let a = split(x, sep);
        let b = split(yp, sep);
        if c == sep {
            assert((a + b).push(Seq::<char>::empty()) =~= a + b.push(Seq::<char>::empty()));
        } else {
            assert((a + b).update((a + b).len() - 1, (a + b).last().push(c)) =~= a + b.update(
                b.len() - 1,
                b.last().push(c),
            ));
        }
    }
}

/// A sequence that starts with a character other than white space is not blank.
pub proof fn lemma_not_blank(s: Seq<char>)
    requires
        s.len() > 0,
        !is_ws(s[0]),
    ensures
        !is_blank(s),
{
    assert(trim_start(s) == s);
    lemma_trim_end_keeps_head(s);
}

/// Trimming the end of a sequence whose first character is not white space
/// keeps that character.
pub proof fn lemma_trim_end_keeps_head(s: Seq<char>)
    requires
        s.len() > 0,
        !is_ws(s[0]),
    ensures
        trim_end(s).len() > 0,
    decreases s.len(),
{
    if is_ws(s.last()) {
        assert(s.len() > 1);
        assert(s.drop_last()[0] == s[0]);
        lemma_trim_end_keeps_head(s.drop_last());
    }
}

} // verus!

verus! {

/// Whether two string slices hold the same characters.
pub fn str_eq(a: &str, b: &str) -> (r: bool)
    ensures
        r == (a@ == b@),
{
    let x = chars_of(a);
    let y = chars_of(b);
    assert(x@.subrange(0, x@.len() as int) =~= x@);
    assert(y@.subrange(0, y@.len() as int) =~= y@);
    range_eq(&x, 0, x.len(), &y, 0, y.len())
}

} // verus!

verus! {

/// The white-space separated words of `s`, as `str::split_whitespace` gives them.
pub open spec fn words(s: Seq<char>) -> Seq<Seq<char>>
    decreases s.len(),
{
    if s.len() == 0 {
        Seq::<Seq<char>>::empty()
    } else {
        let w = words(s.drop_last());
        if is_ws(s.last()) {
            w
        } else if s.len() >= 2 && !is_ws(s[s.len() - 2]) {
            w.update(w.len() - 1, w.last().push(s.last()))
        } else {
            w.push(seq![s.last()])
        }
    }
}

/// The positions of the white-space separated words of `v[lo..hi]`.
pub fn word_ranges(v: &Vec<char>, lo: usize, hi: usize) -> (r: Vec<(usize, usize)>)
    requires
        lo <= hi <= v.len(),
    ensures
        ranges_within(r@, lo as int, hi as int),
        pieces(v@, r@) == words(v@.subrange(lo as int, hi as int)),
{
    let mut r: Vec<(usize, usize)> = Vec::new();
    let mut start = lo;
    let mut k = lo;
    assert(v@.subrange(lo as int, lo as int) =~= Seq::<char>::empty());
    assert(pieces(v@, r@) =~= Seq::<Seq<char>>::empty());
    while k < hi
        invariant
            lo <= start <= k <= hi <= v.len(),
            ranges_within(r@, lo as int, start as int),
            start < k ==> !is_ws(v@[k - 1]),
            start == k ==> (k == lo || is_ws(v@[k - 1])),
            words(v@.subrange(lo as int, k as int)) == (if start < k {
                pieces(v@, r@).push(v@.subrange(start as int, k as int))
            } else {
                pieces(v@, r@)
            }),
        decreases hi - k,
    {
        let ghost old_r = r@;
        let ghost cur = v@.subrange(lo as int, (k + 1) as int);
        assert(cur.drop_last() =~= v@.subrange(lo as int, k as int));
        assert(cur.last() == v@[k as int]);
        if k > lo {
            assert(cur[cur.len() - 2] == v@[k - 1]);
        }
        if char_is_ws(v[k]) {
            if start < k {
                r.push((start, k));
                assert(pieces(v@, r@) =~= pieces(v@, old_r).push(
                    v@.subrange(start as int, k as int),
                ));
                assert forall|i: int| 0 <= i < r@.len() implies lo <= #[trigger] r@[i].0
                    <= r@[i].1 <= k by {
                    if i < old_r.len() {
                        assert(r@[i] == old_r[i]);
                    }
                }
            }
            start = k + 1;
        } else {
            if start < k {
                assert(v@.subrange(start as int, (k + 1) as int) =~= v@.subrange(
                    start as int,
                    k as int,
                ).push(v@[k as int]));
                let ghost w = words(v@.subrange(lo as int, k as int));
                assert(w.update(w.len() - 1, w.last().push(v@[k as int])) =~= pieces(
                    v@,
                    r@,
                ).push(v@.subrange(start as int, (k + 1) as int)));
            } else {
                assert(v@.subrange(start as int, (k + 1) as int) =~= seq![v@[k as int]]);
            }
        }
        k = k + 1;
    }
    if start < hi {
        let ghost before = r@;
        r.push((start, hi));
        assert(pieces(v@, r@) =~= pieces(v@, before).push(v@.subrange(start as int, hi as int)));
    }
    r
}

/// The index of the first white-space character of `s`; its length if it has none.
pub open spec fn first_ws(s: Seq<char>) -> int
    decreases s.len(),
{
    if s.len() == 0 {
        0
    } else if is_ws(s[0]) {
        0
    } else {
        1 + first_ws(s.drop_first())
    }
}

/// `first_ws` is the least index of a white-space character, or the length.
pub proof fn lemma_first_ws(s: Seq<char>)
    ensures
        0 <= first_ws(s) <= s.len(),
        first_ws(s) < s.len() ==> is_ws(s[first_ws(s)]),
        forall|i: int| 0 <= i < first_ws(s) ==> !is_ws(#[trigger] s[i]),
    decreases s.len(),
{
    if s.len() > 0 && !is_ws(s[0]) {
        let t = s.drop_first();
        lemma_first_ws(t);
        assert forall|i: int| 0 <= i < first_ws(s) implies !is_ws(#[trigger] s[i]) by {
            if i > 0 {
                assert(s[i] == t[i - 1]);
            }
        }
    }
}

/// The index of the first white-space character of `v[lo..hi]`; `hi` if it has none.
pub fn first_ws_in(v: &Vec<char>, lo: usize, hi: usize) -> (r: usize)
    requires
        lo <= hi <= v.len(),
    ensures
        lo <= r <= hi,
        r - lo == first_ws(v@.subrange(lo as int, hi as int)),
{
    let mut k = lo;
    while k < hi && !char_is_ws(v[k])
        invariant
            lo <= k <= hi <= v.len(),
            first_ws(v@.subrange(lo as int, hi as int)) == (k - lo) + first_ws(
                v@.subrange(k as int, hi as int),
            ),
        decreases hi - k,
    {
        assert(v@.subrange(k as int, hi as int).drop_first() =~= v@.subrange(
            (k + 1) as int,
            hi as int,
        ));
        k = k + 1;
    }
    k
}

/// `s` holds a white-space character.
pub open spec fn has_ws(s: Seq<char>) -> bool {
    exists|i: int| 0 <= i < s.len() && is_ws(#[trigger] s[i])
}

/// Whether `s` holds a white-space character.
pub fn str_has_ws(s: &str) -> (r: bool)
    ensures
        r == has_ws(s@),
{
    let v = chars_of(s);
    let k = first_ws_in(&v, 0, v.len());
    proof {
        assert(v@.subrange(0, v@.len() as int) =~= v@);
        lemma_first_ws(v@);
    }
    k < v.len()
}

} // verus!

verus! {

/// The plain-value view of a list of strings.
pub open spec fn strings_view(v: Seq<String>) -> Seq<Seq<char>> {
    v.map_values(|s: String| s@)
}

/// Owned copies of the pieces of `s` that the index pairs `r` delimit.
pub fn substrings(s: &str, r: &Vec<(usize, usize)>) -> (out: Vec<String>)
    requires
        ranges_within(r@, 0, s@.len() as int),
    ensures
        strings_view(out@) == pieces(s@, r@),
{
    let mut out: Vec<String> = Vec::new();
    let mut i: usize = 0;
    while i < r.len()
        invariant
            ranges_within(r@, 0, s@.len() as int),
            i <= r.len(),
            strings_view(out@) == pieces(s@, r@).take(i as int),
        decreases r.len() - i,
    {
        let (a, b) = r[i];
        let ghost before = out@;
        let piece = substring(s, a, b);
        assert(pieces(s@, r@)[i as int] == piece@);
        out.push(piece);
        assert(strings_view(out@) =~= strings_view(before).push(piece@));
        assert(strings_view(out@) =~= pieces(s@, r@).take(i + 1));
        i = i + 1;
    }
    assert(pieces(s@, r@).take(r.len() as int) =~= pieces(s@, r@));
    out
}

/// The white-space separated words of `s`.
pub fn split_words(s: &str) -> (r: Vec<String>)
    ensures
        strings_view(r@) == words(s@),
{
    let v = chars_of(s);
    let w = word_ranges(&v, 0, v.len());
    assert(v@.subrange(0, v@.len() as int) =~= v@);
    substrings(s, &w)
}

} // verus!

verus! {

/// The index of the first `c` in `s`; its length if there is none.
pub open spec fn index_of(s: Seq<char>, c: char) -> int
    decreases s.len(),
{
    if s.len() == 0 {
        0
    } else if s[0] == c {
        0
    } else {
        1 + index_of(s.drop_first(), c)
    }
}

/// The index of the last `c` in `s`; -1 if there is none.
pub open spec fn last_index_of(s: Seq<char>, c: char) -> int
    decreases s.len(),
{
    if s.len() == 0 {
        -1
    } else if s.last() == c {
        s.len() - 1
    } else {
        last_index_of(s.drop_last(), c)
    }
}

/// `index_of` is the least index of `c`, or the length.
pub proof fn lemma_index_of(s: Seq<char>, c: char)
    ensures
        0 <= index_of(s, c) <= s.len(),
        index_of(s, c) < s.len() ==> s[index_of(s, c)] == c,
        forall|i: int| 0 <= i < index_of(s, c) ==> #[trigger] s[i] != c,
    decreases s.len(),
{
    if s.len() > 0 && s[0] != c {
        let t = s.drop_first();
        lemma_index_of(t, c);
        assert forall|i: int| 0 <= i < index_of(s, c) implies #[trigger] s[i] != c by {
            if i > 0 {
                assert(s[i] == t[i - 1]);
            }
        }
    }
}

/// `last_index_of` is the greatest index of `c`, or -1.
pub proof fn lemma_last_index_of(s: Seq<char>, c: char)
    ensures
        -1 <= last_index_of(s, c) < s.len(),
        last_index_of(s, c) >= 0 ==> s[last_index_of(s, c)] == c,
        forall|i: int| last_index_of(s, c) < i < s.len() ==> #[trigger] s[i] != c,
    decreases s.len(),
{
    if s.len() > 0 && s.last() != c {
        let t = s.drop_last();
        lemma_last_index_of(t, c);
        assert forall|i: int| last_index_of(s, c) < i < s.len() implies #[trigger] s[i] != c by {
            if i < s.len() - 1 {
                assert(s[i] == t[i]);
            }
        }
    }
}

/// The index of the first `c` in `v[lo..hi]`; `hi` if there is none.
pub fn find_char(v: &Vec<char>, lo: usize, hi: usize, c: char) -> (r: usize)
    requires
        lo <= hi <= v.len(),
    ensures
        lo <= r <= hi,
        r - lo == index_of(v@.subrange(lo as int, hi as int), c),
{
    let mut k = lo;
    while k < hi && v[k] != c
        invariant
            lo <= k <= hi <= v.len(),
            index_of(v@.subrange(lo as int, hi as int), c) == (k - lo) + index_of(
                v@.subrange(k as int, hi as int),
                c,
            ),
        decreases hi - k,
    {
        assert(v@.subrange(k as int, hi as int).drop_first() =~= v@.subrange(
            (k + 1) as int,
            hi as int,
        ));
        k = k + 1;
    }
    k
}

/// The index of the last `c` in `v`, if any.
pub fn rfind_char(v: &Vec<char>, c: char) -> (r: Option<usize>)
    ensures
        match r {
            Some(i) => i == last_index_of(v@, c),
            None => last_index_of(v@, c) == -1,
        },
{
    let mut k = v.len();
    assert(v@.subrange(0, k as int) =~= v@);
    while k > 0 && v[k - 1] != c
        invariant
            k <= v.len(),
            last_index_of(v@, c) == last_index_of(v@.subrange(0, k as int), c),
        decreases k,
    {
        assert(v@.subrange(0, k as int).drop_last() =~= v@.subrange(0, (k - 1) as int));
        k = k - 1;
    }
    if k == 0 {
        None
    } else {
        Some(k - 1)
    }
}

} // verus!

verus! {

/// A numeral is worth the number it was written for.
pub proof fn lemma_digits_value_decimal(n: nat)
    ensures
        digits_value(decimal(n)) == n,
    decreases n,
{
    if n < 10 {
        let s = decimal(n);
        assert(s.drop_last() =~= Seq::<char>::empty());
        assert(digit_char(n) as int == 48 + n);
        assert(s.last() == digit_char(n));
        assert(digit_value(digit_char(n)) == n);
        assert(digits_value(s.drop_last()) == 0);
        assert(digits_value(s) == digits_value(s.drop_last()) * 10 + digit_value(s.last()));
    } else {
        lemma_digits_value_decimal(n / 10);
        let s = decimal(n);
        assert(s.drop_last() =~= decimal(n / 10));
        assert(s.last() == digit_char(n % 10));
        assert(digit_char(n % 10) as int == 48 + n % 10);
        assert(digit_value(digit_char(n % 10)) == n % 10);
        assert(digits_value(s) == digits_value(s.drop_last()) * 10 + digit_value(s.last()));
        assert(n == (n / 10) * 10 + n % 10);
    }
}

/// Law: parsing the numeral of a `u32` gives that `u32` back.
pub proof fn law_parse_decimal(n: u32)
    ensures
        parse_u32(decimal(n as nat)) == Some(n),
{
    lemma_decimal_digits(n as nat);
    lemma_digits_value_decimal(n as nat);
    let s = decimal(n as nat);
    assert(is_digit(s[0]));
    assert(all_digits(s));
}

} // verus!

verus! {

/// A sequence with a character other than white space is not blank.
pub proof fn lemma_not_blank_at(s: Seq<char>, i: int)
    requires
        0 <= i < s.len(),
        !is_ws(s[i]),
    ensures
        !is_blank(s),
    decreases s.len(),
{
    if is_ws(s[0]) {
        let t = s.drop_first();
        assert(t[i - 1] == s[i]);
        lemma_not_blank_at(t, i - 1);
        assert(trim_start(s) == trim_start(t));
    } else {
        lemma_not_blank(s);
    }
}

} // verus!

verus! {

/// The characters of an optional string slice.
pub open spec fn opt_view(o: Option<&str>) -> Option<Seq<char>> {
    match o {
        Some(s) => Some(s@),
        None => None,
    }
}

} // verus!
