//! Character-level text handling shared by the parsers of this crate.
//!
//! Strings are modelled by their view, the sequence of their characters.
use vstd::prelude::*;

verus! {

/// Whether a character has the Unicode `White_Space` property, which
/// `char::is_whitespace` reports: the ASCII tab, line feed, vertical tab,
/// form feed, carriage return and space, and the next line, no-break,
/// Ogham, en quad to hair, line and paragraph separator, narrow no-break,
/// medium mathematical and ideographic spaces.
pub open spec fn char_is_whitespace(c: char) -> bool {
    let u = c as u32;
    ||| 0x9 <= u <= 0xd
    ||| u == 0x20
    ||| u == 0x85
    ||| u == 0xa0
    ||| u == 0x1680
    ||| 0x2000 <= u <= 0x200a
    ||| u == 0x2028
    ||| u == 0x2029
    ||| u == 0x202f
    ||| u == 0x205f
    ||| u == 0x3000
}

/// Whether a character has the Unicode `White_Space` property, as
/// `char::is_whitespace` tells.
pub(crate) fn is_whitespace(c: char) -> (b: bool)
    ensures
        b == char_is_whitespace(c),
{
    let u = c as u32;
    (0x9 <= u && u <= 0xd) || u == 0x20 || u == 0x85 || u == 0xa0 || u == 0x1680 || (0x2000 <= u
        && u <= 0x200a) || u == 0x2028 || u == 0x2029 || u == 0x202f || u == 0x205f || u == 0x3000
}

/// The characters left once leading whitespace is removed.
pub open spec fn trim_start_chars(s: Seq<char>) -> Seq<char>
    decreases s.len(),
{
    if s.len() > 0 && char_is_whitespace(s[0]) {
        trim_start_chars(s.drop_first())
    } else {
        s
    }
}

/// The characters left once trailing whitespace is removed.
pub open spec fn trim_end_chars(s: Seq<char>) -> Seq<char>
    decreases s.len(),
{
    if s.len() > 0 && char_is_whitespace(s.last()) {
        trim_end_chars(s.drop_last())
    } else {
        s
    }
}

/// The characters left once leading and trailing whitespace are removed.
pub open spec fn trim_chars(s: Seq<char>) -> Seq<char> {
    trim_end_chars(trim_start_chars(s))
}

/// What leading-whitespace trimming leaves is a suffix of the input, and
/// starts with a character that is not whitespace, if it has any.
pub proof fn lemma_trim_start_shape(s: Seq<char>)
    ensures
        trim_start_chars(s).len() <= s.len(),
        trim_start_chars(s) == s.subrange(s.len() - trim_start_chars(s).len(), s.len() as int),
        trim_start_chars(s).len() > 0 ==> !char_is_whitespace(trim_start_chars(s)[0]),
    decreases s.len(),
{
    if s.len() > 0 && char_is_whitespace(s[0]) {
        lemma_trim_start_shape(s.drop_first());
        let t = trim_start_chars(s.drop_first());
        assert(s.drop_first().subrange(s.len() - 1 - t.len(), s.len() - 1) =~= s.subrange(
            s.len() - t.len(),
            s.len() as int,
        ));
    } else {
        assert(s.subrange(0, s.len() as int) =~= s);
    }
}

/// What trailing-whitespace trimming leaves is a prefix of the input, and
/// ends with a character that is not whitespace, if it has any.
pub proof fn lemma_trim_end_shape(s: Seq<char>)
    ensures
        trim_end_chars(s).len() <= s.len(),
        trim_end_chars(s) == s.subrange(0, trim_end_chars(s).len() as int),
        trim_end_chars(s).len() > 0 ==> !char_is_whitespace(trim_end_chars(s).last()),
    decreases s.len(),
{
    if s.len() > 0 && char_is_whitespace(s.last()) {
        lemma_trim_end_shape(s.drop_last());
        let t = trim_end_chars(s.drop_last());
        assert(s.drop_last().subrange(0, t.len() as int) =~= s.subrange(0, t.len() as int));
    } else {
        assert(s.subrange(0, s.len() as int) =~= s);
    }
}

/// Trimming both ends leaves a part of the input that neither starts nor
/// ends with whitespace.
pub proof fn lemma_trim_shape(s: Seq<char>)
    ensures
        exists|k: int|
            0 <= k && k + trim_chars(s).len() <= s.len() && trim_chars(s) == #[trigger] s.subrange(
                k,
                k + trim_chars(s).len(),
            ),
        trim_chars(s).len() > 0 ==> !char_is_whitespace(trim_chars(s)[0]),
        trim_chars(s).len() > 0 ==> !char_is_whitespace(trim_chars(s).last()),
{
    let a = trim_start_chars(s);
    lemma_trim_start_shape(s);
    lemma_trim_end_shape(a);
    let t = trim_end_chars(a);
    let k = s.len() - a.len();
    assert(t =~= s.subrange(k, k + t.len()));
    assert(trim_chars(s) == s.subrange(k, k + trim_chars(s).len()));
    if t.len() > 0 {
        assert(t[0] == a[0]);
    }
}

/// Trimming text that already has no whitespace at either end changes
/// nothing, so trimming twice trims no more than once.
pub proof fn trim_idempotent(s: Seq<char>)
    ensures
        trim_chars(trim_chars(s)) == trim_chars(s),
{
    let t = trim_chars(s);
    lemma_trim_shape(s);
    assert(trim_start_chars(t) == t);
    assert(trim_end_chars(t) == t);
}

/// Whether `p` is a prefix of `s`.
pub open spec fn has_prefix(s: Seq<char>, p: Seq<char>) -> bool {
    p.len() <= s.len() && s.subrange(0, p.len() as int) == p
}

/// Whether `p` is a suffix of `s`.
pub open spec fn has_suffix(s: Seq<char>, p: Seq<char>) -> bool {
    p.len() <= s.len() && s.subrange(s.len() - p.len(), s.len() as int) == p
}

/// Index of the first occurrence of `c` in `s`, if any.
pub open spec fn find_char(s: Seq<char>, c: char) -> Option<int>
    decreases s.len(),
{
    if s.len() == 0 {
        None
    } else if s[0] == c {
        Some(0)
    } else {
        match find_char(s.drop_first(), c) {
            Some(i) => Some(i + 1),
            None => None,
        }
    }
}

/// The line starting `s`, without its line ending, for `lines_of`.
pub open spec fn line_body(line: Seq<char>) -> Seq<char> {
    if line.len() > 0 && line.last() == '\r' {
        line.drop_last()
    } else {
        line
    }
}

/// The lines of `s` as `str::lines` splits them: at `\n` or `\r\n`, with
/// the final line ending optional.
pub open spec fn lines_of(s: Seq<char>) -> Seq<Seq<char>>
    decreases s.len(),
{
    if s.len() == 0 {
        Seq::empty()
    } else {
        match find_char(s, '\n') {
            None => seq![s],
            Some(k) if !(0 <= k < s.len()) => Seq::empty(),
            Some(k) => seq![line_body(s.subrange(0, k))] + lines_of(
                s.subrange(k + 1, s.len() as int),
            ),
        }
    }
}

proof fn lemma_find_char_bounds(s: Seq<char>, c: char)
    ensures
        match find_char(s, c) {
            Some(i) => 0 <= i < s.len() && s[i] == c && forall|j: int|
                0 <= j < i ==> s[j] != c,
            None => forall|j: int| 0 <= j < s.len() ==> s[j] != c,
        },
    decreases s.len(),
{
    if s.len() > 0 && s[0] != c {
        lemma_find_char_bounds(s.drop_first(), c);
        match find_char(s.drop_first(), c) {
            Some(i) => {
                assert forall|j: int| 0 <= j < i + 1 implies s[j] != c by {
                    if j > 0 {
                        assert(s[j] == s.drop_first()[j - 1]);
                    }
                }
            },
            None => {
                assert forall|j: int| 0 <= j < s.len() implies s[j] != c by {
                    if j > 0 {
                        assert(s[j] == s.drop_first()[j - 1]);
                    }
                }
            },
        }
    }
}

proof fn lemma_find_char_is(s: Seq<char>, c: char, i: int)
    requires
        0 <= i <= s.len(),
        forall|j: int| 0 <= j < i ==> s[j] != c,
        i == s.len() || s[i] == c,
    ensures
        find_char(s, c) == (if i == s.len() {
            None::<int>
        } else {
            Some(i)
        }),
    decreases s.len(),
{
    if s.len() > 0 && s[0] != c {
        assert forall|j: int| 0 <= j < i - 1 implies s.drop_first()[j] != c by {
            assert(s.drop_first()[j] == s[j + 1]);
        }
        lemma_find_char_is(s.drop_first(), c, i - 1);
    }
}

/// The characters of `s` from index `from` on.
proof fn lemma_trim_start_step(s: Seq<char>, i: int)
    requires
        0 <= i < s.len(),
        char_is_whitespace(s[i]),
    ensures
        trim_start_chars(s.subrange(i, s.len() as int)) == trim_start_chars(
            s.subrange(i + 1, s.len() as int),
        ),
{
    assert(s.subrange(i, s.len() as int).drop_first() =~= s.subrange(i + 1, s.len() as int));
}

proof fn lemma_trim_end_step(s: Seq<char>, j: int)
    requires
        0 < j <= s.len(),
        char_is_whitespace(s[j - 1]),
    ensures
        trim_end_chars(s.subrange(0, j)) == trim_end_chars(s.subrange(0, j - 1)),
{
    assert(s.subrange(0, j).drop_last() =~= s.subrange(0, j - 1));
}

/// `s` with leading whitespace removed, as `str::trim_start` gives it.
pub fn trim_start<'a>(s: &'a str) -> (r: &'a str)
    ensures
        r@ == trim_start_chars(s@),
{
    let n = s.unicode_len();
    let mut i: usize = 0;
    assert(s@.subrange(0, n as int) =~= s@);
    while i < n
        invariant
            i <= n,
            n == s@.len(),
            trim_start_chars(s@) == trim_start_chars(s@.subrange(i as int, n as int)),
        ensures
            i <= n,
            trim_start_chars(s@) == trim_start_chars(s@.subrange(i as int, n as int)),
            i < n ==> !char_is_whitespace(s@[i as int]),
        decreases n - i,
    {
        if !is_whitespace(s.get_char(i)) {
            break;
        }
        proof {
            lemma_trim_start_step(s@, i as int);
        }
        i = i + 1;
    }
    let r = s.substring_char(i, n);
    proof {
        if i < n {
            assert(r@[0] == s@[i as int]);
        }
    }
    r
}

/// `s` with trailing whitespace removed, as `str::trim_end` gives it.
pub fn trim_end<'a>(s: &'a str) -> (r: &'a str)
    ensures
        r@ == trim_end_chars(s@),
{
    let n = s.unicode_len();
    let mut j: usize = n;
    assert(s@.subrange(0, n as int) =~= s@);
    while j > 0
        invariant
            j <= n,
            n == s@.len(),
            trim_end_chars(s@) == trim_end_chars(s@.subrange(0, j as int)),
        ensures
            j <= n,
            trim_end_chars(s@) == trim_end_chars(s@.subrange(0, j as int)),
            j > 0 ==> !char_is_whitespace(s@[j - 1]),
        decreases j,
    {
        if !is_whitespace(s.get_char(j - 1)) {
            break;
        }
        proof {
            lemma_trim_end_step(s@, j as int);
        }
        j = j - 1;
    }
    let r = s.substring_char(0, j);
    proof {
        if j > 0 {
            assert(r@.last() == s@[j - 1]);
        }
    }
    r
}

/// `s` with leading and trailing whitespace removed, as `str::trim` gives it.
pub fn trim<'a>(s: &'a str) -> (r: &'a str)
    ensures
        r@ == trim_chars(s@),
{
    trim_end(trim_start(s))
}

/// Whether `s` starts with `p`.
pub fn starts_with(s: &str, p: &str) -> (b: bool)
    ensures
        b == has_prefix(s@, p@),
{
    let n = s.unicode_len();
    let m = p.unicode_len();
    if m > n {
        return false;
    }
    let mut i: usize = 0;
    while i < m
        invariant
            i <= m <= n,
            n == s@.len(),
            m == p@.len(),
            forall|k: int| 0 <= k < i ==> s@[k] == p@[k],
        decreases m - i,
    {
        if s.get_char(i) != p.get_char(i) {
            assert(s@.subrange(0, m as int)[i as int] != p@[i as int]);
            return false;
        }
        i = i + 1;
    }
    assert(s@.subrange(0, m as int) =~= p@);
    true
}

/// Whether `s` and `t` hold the same characters.
pub fn str_eq(s: &str, t: &str) -> (b: bool)
    ensures
        b == (s@ == t@),
{
    if s.unicode_len() != t.unicode_len() {
        return false;
    }
    let r = starts_with(s, t);
    proof {
        assert(s@.subrange(0, t@.len() as int) =~= s@);
    }
    r
}

/// `s` without the prefix `p`, if it starts with it, as `str::strip_prefix`
/// gives it.
pub fn strip_prefix<'a>(s: &'a str, p: &str) -> (r: Option<&'a str>)
    ensures
        match r {
            Some(rest) => has_prefix(s@, p@) && rest@ == s@.subrange(
                p@.len() as int,
                s@.len() as int,
            ),
            None => !has_prefix(s@, p@),
        },
{
    if starts_with(s, p) {
        let n = s.unicode_len();
        let m = p.unicode_len();
        Some(s.substring_char(m, n))
    } else {
        None
    }
}

/// Whether `s` ends with the character `c`.
pub fn ends_with_char(s: &str, c: char) -> (b: bool)
    ensures
        b == (s@.len() > 0 && s@.last() == c),
{
    let n = s.unicode_len();
    n > 0 && s.get_char(n - 1) == c
}

/// `s` without a final `c`, if it ends with one, as `str::strip_suffix`
/// gives it for a character pattern.
pub fn strip_suffix_char<'a>(s: &'a str, c: char) -> (r: Option<&'a str>)
    ensures
        match r {
            Some(rest) => s@.len() > 0 && s@.last() == c && rest@ == s@.drop_last(),
            None => !(s@.len() > 0 && s@.last() == c),
        },
{
    let n = s.unicode_len();
    if n > 0 && s.get_char(n - 1) == c {
        let r = s.substring_char(0, n - 1);
        assert(r@ =~= s@.drop_last());
        Some(r)
    } else {
        None
    }
}

/// Position of the first `c` in `s`, if any.
pub fn find(s: &str, c: char) -> (r: Option<usize>)
    ensures
        match r {
            Some(i) => find_char(s@, c) == Some(i as int),
            None => find_char(s@, c) is None,
        },
{
    let n = s.unicode_len();
    let mut i: usize = 0;
    while i < n
        invariant
            i <= n,
            n == s@.len(),
            forall|j: int| 0 <= j < i ==> s@[j] != c,
        decreases n - i,
    {
        if s.get_char(i) == c {
            proof {
                lemma_find_char_is(s@, c, i as int);
            }
            return Some(i);
        }
        i = i + 1;
    }
    proof {
        lemma_find_char_is(s@, c, n as int);
    }
    None
}

/// Whether `c` occurs in `s`.
pub fn contains_char(s: &str, c: char) -> (b: bool)
    ensures
        b == s@.contains(c),
{
    let r = find(s, c);
    proof {
        lemma_find_char_bounds(s@, c);
        if r is None {
            assert forall|j: int| 0 <= j < s@.len() implies s@[j] != c by {}
        } else {
            assert(s@[r.unwrap() as int] == c);
        }
    }
    r.is_some()
}

/// The parts of `s` before and after the first `c`, as `str::split_once`
/// gives them for a character pattern.
pub fn split_once<'a>(s: &'a str, c: char) -> (r: Option<(&'a str, &'a str)>)
    ensures
        match r {
            Some((a, b)) => match find_char(s@, c) {
                Some(k) => a@ == s@.subrange(0, k) && b@ == s@.subrange(k + 1, s@.len() as int),
                None => false,
            },
            None => find_char(s@, c) is None,
        },
{
    match find(s, c) {
        Some(k) => {
            proof {
                lemma_find_char_bounds(s@, c);
            }
            let n = s.unicode_len();
            Some((s.substring_char(0, k), s.substring_char(k + 1, n)))
        },
        None => None,
    }
}

/// The lines of `s`, as `str::lines` splits them.
pub fn lines<'a>(s: &'a str) -> (r: Vec<&'a str>)
    ensures
        r@.map_values(|l: &str| l@) == lines_of(s@),
{
    let mut out: Vec<&'a str> = Vec::new();
    let mut rest: &'a str = s;
    loop
        invariant
            out@.map_values(|l: &str| l@) + lines_of(rest@) == lines_of(s@),
        decreases rest@.len(),
    {
        let n = rest.unicode_len();
        if n == 0 {
            assert(out@.map_values(|l: &str| l@) + lines_of(rest@) =~= out@.map_values(
                |l: &str| l@,
            ));
            return out;
        }
        let ghost old_out = out@;
        match find(rest, '\n') {
            None => {
                out.push(rest);
                assert(out@.map_values(|l: &str| l@) =~= old_out.map_values(|l: &str| l@) + seq![
                    rest@,
                ]);
                assert(lines_of(rest@) == seq![rest@]);
                return out;
            },
            Some(k) => {
                proof {
                    lemma_find_char_bounds(rest@, '\n');
                }
                let line = rest.substring_char(0, k);
                let body = match strip_suffix_char(line, '\r') {
                    Some(b) => b,
                    None => line,
                };
                assert(body@ == line_body(rest@.subrange(0, k as int)));
                out.push(body);
                let next = rest.substring_char(k + 1, n);
                assert(out@.map_values(|l: &str| l@) =~= old_out.map_values(|l: &str| l@) + seq![
                    body@,
                ]);
                assert(lines_of(rest@) == seq![body@] + lines_of(next@));
                assert(out@.map_values(|l: &str| l@) + lines_of(next@) =~= old_out.map_values(
                    |l: &str| l@,
                ) + lines_of(rest@));
                rest = next;
            },
        }
    }
}

/// The words of `s` still to come once `cur` holds the characters of the
/// word being read: maximal runs of characters other than whitespace.
pub open spec fn words_from(s: Seq<char>, cur: Seq<char>) -> Seq<Seq<char>>
    decreases s.len(),
{
    let done: Seq<Seq<char>> = if cur.len() > 0 {
        seq![cur]
    } else {
        Seq::empty()
    };
    if s.len() == 0 {
        done
    } else if char_is_whitespace(s[0]) {
        done + words_from(s.drop_first(), Seq::empty())
    } else {
        words_from(s.drop_first(), cur.push(s[0]))
    }
}

/// The words of `s`, as `str::split_whitespace` yields them.
pub open spec fn words_of(s: Seq<char>) -> Seq<Seq<char>> {
    words_from(s, Seq::empty())
}

/// The words of `s`, as `str::split_whitespace` yields them.
pub fn split_whitespace<'a>(s: &'a str) -> (r: Vec<&'a str>)
    ensures
        r@.map_values(|w: &str| w@) == words_of(s@),
{
    let n = s.unicode_len();
    let mut out: Vec<&'a str> = Vec::new();
    let mut start: usize = 0;
    let mut i: usize = 0;
    assert(s@.subrange(0, n as int) =~= s@);
    assert(s@.subrange(0, 0) =~= Seq::<char>::empty());
    while i < n
        invariant
            start <= i <= n,
            n == s@.len(),
            out@.map_values(|w: &str| w@) + words_from(
                s@.subrange(i as int, n as int),
                s@.subrange(start as int, i as int),
            ) == words_of(s@),
        decreases n - i,
    {
        let ghost before = out@.map_values(|w: &str| w@);
        let ghost rest = s@.subrange(i as int, n as int);
        let ghost cur = s@.subrange(start as int, i as int);
        assert(rest.drop_first() =~= s@.subrange(i + 1, n as int));
        if is_whitespace(s.get_char(i)) {
            if start < i {
                out.push(s.substring_char(start, i));
                assert(out@.map_values(|w: &str| w@) =~= before + seq![cur]);
            } else {
                assert(out@.map_values(|w: &str| w@) =~= before);
            }
            assert(s@.subrange(i + 1, i + 1) =~= Seq::<char>::empty());
            assert(before + words_from(rest, cur) =~= out@.map_values(|w: &str| w@) + words_from(
                s@.subrange(i + 1, n as int),
                Seq::empty(),
            ));
            i = i + 1;
            start = i;
        } else {
            assert(cur.push(s@[i as int]) =~= s@.subrange(start as int, i + 1));
            i = i + 1;
        }
    }
    let ghost before = out@.map_values(|w: &str| w@);
    if start < n {
        out.push(s.substring_char(start, n));
        assert(out@.map_values(|w: &str| w@) =~= before + seq![s@.subrange(start as int, n as int)]);
    } else {
        assert(out@.map_values(|w: &str| w@) =~= before);
    }
    assert(s@.subrange(n as int, n as int) =~= Seq::<char>::empty());
    out
}

/// The character of a decimal digit.
pub open spec fn digit_char(d: int) -> char {
    (('0' as int) + d) as char
}

/// The decimal digits of a natural number, without leading zeros.
pub open spec fn natural_digits(n: nat) -> Seq<char>
    decreases n,
{
    if n < 10 {
        seq![digit_char(n as int)]
    } else {
        natural_digits(n / 10).push(digit_char((n % 10) as int))
    }
}

/// An integer written in decimal, with a minus sign when negative.
pub open spec fn decimal(n: int) -> Seq<char> {
    if n < 0 {
        seq!['-'] + natural_digits((-n) as nat)
    } else {
        natural_digits(n as nat)
    }
}

/// The decimal digit `d`, as text.
fn digit_text(d: u64) -> (s: &'static str)
    requires
        d < 10,
    ensures
        s@ == seq![digit_char(d as int)],
{
    match d {
        0 => {
            proof { reveal_strlit("0"); }
            "0"
        },
        1 => {
            proof { reveal_strlit("1"); }
            "1"
        },
        2 => {
            proof { reveal_strlit("2"); }
            "2"
        },
        3 => {
            proof { reveal_strlit("3"); }
            "3"
        },
        4 => {
            proof { reveal_strlit("4"); }
            "4"
        },
        5 => {
            proof { reveal_strlit("5"); }
            "5"
        },
        6 => {
            proof { reveal_strlit("6"); }
            "6"
        },
        7 => {
            proof { reveal_strlit("7"); }
            "7"
        },
        8 => {
            proof { reveal_strlit("8"); }
            "8"
        },
        _ => {
            proof { reveal_strlit("9"); }
            "9"
        },
    }
}

/// A natural number written in decimal, without leading zeros.
fn natural_text(n: u64) -> (s: String)
    ensures
        s@ == natural_digits(n as nat),
    decreases n,
{
    if n < 10 {
        digit_text(n).to_owned()
    } else {
        let mut s = natural_text(n / 10);
        let ghost high = s@;
        s.append(digit_text(n % 10));
        assert(s@ =~= high.push(digit_char((n % 10) as int)));
        s
    }
}

/// An `i64` written in decimal, with a minus sign when negative, as its
/// `Display` implementation writes it.
pub(crate) fn i64_to_string(v: i64) -> (s: String)
    ensures
        s@ == decimal(v as int),
{
    if v < 0 {
        let magnitude: u64 = if v == i64::MIN {
            9223372036854775808
        } else {
            (-v) as u64
        };
        let mut s = "-".to_owned();
        proof {
            reveal_strlit("-");
        }
        let digits = natural_text(magnitude);
        s.append(digits.as_str());
        s
    } else {
        natural_text(v as u64)
    }
}

} // verus!
