//! Text handling shared by both ends of the protocol: splitting on a
//! separator, parsing and printing `i32` values, trimming whitespace.

use vstd::prelude::*;
use vstd::string::*;

verus! {

/// The part of `s` before its first `sep` and the part after it, or `None`
/// when `s` holds no `sep`.
pub open spec fn split_once_spec(s: Seq<char>, sep: char) -> Option<(Seq<char>, Seq<char>)>
    decreases s.len(),
{
    if s.len() == 0 {
        None
    } else if s[0] == sep {
        Some((Seq::<char>::empty(), s.drop_first()))
    } else {
        match split_once_spec(s.drop_first(), sep) {
            Some((a, b)) => Some((seq![s[0]] + a, b)),
            None => None,
        }
    }
}

proof fn lemma_split_once_at(s: Seq<char>, sep: char, i: int)
    requires
        0 <= i < s.len(),
        s[i] == sep,
        forall|j: int| 0 <= j < i ==> s[j] != sep,
    ensures
        split_once_spec(s, sep) == Some((s.take(i), s.skip(i + 1))),
    decreases i,
{
    if i > 0 {
        let t = s.drop_first();
        lemma_split_once_at(t, sep, i - 1);
        assert(seq![s[0]] + t.take(i - 1) =~= s.take(i));
        assert(t.skip(i) =~= s.skip(i + 1));
    } else {
        assert(s.take(0) =~= Seq::<char>::empty());
        assert(s.drop_first() =~= s.skip(1));
    }
}

proof fn lemma_split_once_none(s: Seq<char>, sep: char)
    requires
        forall|j: int| 0 <= j < s.len() ==> s[j] != sep,
    ensures
        split_once_spec(s, sep) is None,
    decreases s.len(),
{
    if s.len() > 0 {
        lemma_split_once_none(s.drop_first(), sep);
    }
}

/// What `split_once_spec` gives back: the text on both sides of the first
/// separator.
pub proof fn lemma_split_once_shape(s: Seq<char>, sep: char)
    ensures
        match split_once_spec(s, sep) {
            Some((a, b)) => s == a + seq![sep] + b && !a.contains(sep),
            None => !s.contains(sep),
        },
    decreases s.len(),
{
    if s.len() > 0 {
        lemma_split_once_shape(s.drop_first(), sep);
        if s[0] == sep {
            assert(s =~= Seq::<char>::empty() + seq![sep] + s.drop_first());
        } else {
            match split_once_spec(s.drop_first(), sep) {
                Some((a, b)) => {
                    assert(s.drop_first() == a + seq![sep] + b);
                    assert(s =~= seq![s[0]] + s.drop_first());
                    assert(s =~= (seq![s[0]] + a) + seq![sep] + b);
                    if (seq![s[0]] + a).contains(sep) {
                        let k = choose|k: int| 0 <= k < (seq![s[0]] + a).len() && (seq![s[0]] + a)[k] == sep;
                        assert(a[k - 1] == sep);
                    }
                },
                None => {
                    if s.contains(sep) {
                        let k = choose|k: int| 0 <= k < s.len() && s[k] == sep;
                        assert(s.drop_first()[k - 1] == sep);
                    }
                },
            }
        }
    }
}

/// Splits `s` at the first occurrence of `sep`, as `str::split_once` does
/// with a `char` pattern.
pub fn split_once(s: &str, sep: char) -> (res: Option<(&str, &str)>)
    ensures
        match res {
            Some((a, b)) => split_once_spec(s@, sep) == Some((a@, b@)),
            None => split_once_spec(s@, sep) is None,
        },
{
    let n = s.unicode_len();
    let mut i: usize = 0;
    while i < n
        invariant
            n == s@.len(),
            i <= n,
            forall|j: int| 0 <= j < i ==> s@[j] != sep,
        decreases n - i,
    {
        if s.get_char(i) == sep {
            proof {
                lemma_split_once_at(s@, sep, i as int);
            }
            let a = s.substring_char(0, i);
            let b = s.substring_char(i + 1, n);
            assert(a@ =~= s@.take(i as int));
            assert(b@ =~= s@.skip(i + 1));
            return Some((a, b));
        }
        i = i + 1;
    }
    proof {
        lemma_split_once_none(s@, sep);
    }
    None
}


/// The views of a sequence of string slices.
pub open spec fn views(v: Seq<&str>) -> Seq<Seq<char>> {
    v.map_values(|p: &str| p@)
}

/// The pieces of `s` between occurrences of `sep`, as `str::split` gives
/// them with a `char` pattern: one more piece than there are separators.
pub open spec fn split_spec(s: Seq<char>, sep: char) -> Seq<Seq<char>>
    decreases s.len(),
{
    match split_once_spec(s, sep) {
        Some((a, b)) => {
            proof {
                lemma_split_once_shape(s, sep);
            }
            seq![a] + split_spec(b, sep)
        },
        None => seq![s],
    }
}

/// Splits `s` at every occurrence of `sep`, as `s.split(sep).collect()` does.
pub fn split(s: &str, sep: char) -> (res: Vec<&str>)
    ensures
        views(res@) == split_spec(s@, sep),
{
    let mut parts: Vec<&str> = Vec::new();
    let mut rest: &str = s;
    loop
        invariant
            split_spec(s@, sep) == views(parts@) + split_spec(rest@, sep),
        decreases rest@.len(),
    {
        proof {
            lemma_split_once_shape(rest@, sep);
        }
        match split_once(rest, sep) {
            Some((a, b)) => {
                let ghost old_parts = parts@;
                parts.push(a);
                assert(views(parts@) =~= views(old_parts) + seq![a@]);
                assert(split_spec(rest@, sep) == seq![a@] + split_spec(b@, sep));
                assert(views(old_parts) + split_spec(rest@, sep) =~= views(parts@) + split_spec(b@, sep));
                rest = b;
            },
            None => {
                let ghost old_parts = parts@;
                parts.push(rest);
                assert(views(parts@) =~= views(old_parts) + seq![rest@]);
                return parts;
            },
        }
    }
}

/// A decimal digit.
pub open spec fn is_digit(c: char) -> bool {
    '0' <= c <= '9'
}

/// The value of a decimal digit.
pub open spec fn digit_value(c: char) -> int {
    (c as int) - ('0' as int)
}

/// Every character of `d` is a decimal digit.
pub open spec fn all_digits(d: Seq<char>) -> bool {
    forall|i: int| 0 <= i < d.len() ==> is_digit(#[trigger] d[i])
}

/// The number that the decimal digits `d` spell, most significant first.
pub open spec fn digits_value(d: Seq<char>) -> int
    decreases d.len(),
{
    if d.len() == 0 {
        0
    } else {
        digits_value(d.drop_last()) * 10 + digit_value(d.last())
    }
}

/// The value of a non-empty run of decimal digits, `None` for anything else.
pub open spec fn unsigned_value(d: Seq<char>) -> Option<int> {
    if d.len() > 0 && all_digits(d) {
        Some(digits_value(d))
    } else {
        None
    }
}

/// What `s.parse::<i32>()` accepts: an optional `+` or `-`, then at least
/// one decimal digit, with a value that fits in an `i32`.
pub open spec fn parse_i32_spec(s: Seq<char>) -> Option<i32> {
    if s.len() > 0 && s[0] == '-' {
        match unsigned_value(s.drop_first()) {
            Some(v) => if -v >= i32::MIN {
                Some((-v) as i32)
            } else {
                None
            },
            None => None,
        }
    } else {
        let d = if s.len() > 0 && s[0] == '+' {
            s.drop_first()
        } else {
            s
        };
        match unsigned_value(d) {
            Some(v) => if v <= i32::MAX {
                Some(v as i32)
            } else {
                None
            },
            None => None,
        }
    }
}

proof fn lemma_digits_value_nonneg(d: Seq<char>)
    requires
        all_digits(d),
    ensures
        digits_value(d) >= 0,
    decreases d.len(),
{
    if d.len() > 0 {
        assert(all_digits(d.drop_last())) by {
            assert forall|i: int| 0 <= i < d.drop_last().len() implies is_digit(#[trigger] d.drop_last()[i]) by {
                assert(d.drop_last()[i] == d[i]);
            }
        }
        lemma_digits_value_nonneg(d.drop_last());
        assert(is_digit(d[d.len() - 1]));
    }
}

proof fn lemma_digits_value_prefix(d: Seq<char>, k: int)
    requires
        all_digits(d),
        0 <= k <= d.len(),
    ensures
        digits_value(d) >= digits_value(d.take(k)),
    decreases d.len(),
{
    if k < d.len() {
        let p = d.drop_last();
        assert(all_digits(p)) by {
            assert forall|i: int| 0 <= i < p.len() implies is_digit(#[trigger] p[i]) by {
                assert(p[i] == d[i]);
            }
        }
        lemma_digits_value_prefix(p, k);
        lemma_digits_value_nonneg(p);
        assert(p.take(k) =~= d.take(k));
        assert(is_digit(d[d.len() - 1]));
    } else {
        assert(d.take(k) =~= d);
    }
}

/// Parses a decimal `i32` as `str::parse::<i32>` does; `None` where it fails.
pub fn parse_i32(s: &str) -> (res: Option<i32>)
    ensures
        res == parse_i32_spec(s@),
{
    let n = s.unicode_len();
    if n == 0 {
        return None;
    }
    let first = s.get_char(0);
    let neg = first == '-';
    let start: usize = if first == '-' || first == '+' {
        1
    } else {
        0
    };
    let ghost d = s@.subrange(start as int, n as int);
    proof {
        if start == 1 {
            assert(d =~= s@.drop_first());
        } else {
            assert(d =~= s@);
        }
    }
    if start == n {
        return None;
    }
    let limit: i64 = if neg {
        2147483648
    } else {
        2147483647
    };
    let mut acc: i64 = 0;
    let mut i: usize = start;
    while i < n
        invariant
            n == s@.len(),
            start <= i <= n,
            start < n,
            d == s@.subrange(start as int, n as int),
            start == 1 ==> d == s@.drop_first(),
            start == 0 ==> d == s@,
            start <= 1,
            neg <==> s@[0] == '-',
            start == 1 <==> (s@[0] == '-' || s@[0] == '+'),
            0 <= acc <= limit,
            limit == (if neg { 2147483648i64 } else { 2147483647i64 }),
            all_digits(d.take(i - start)),
            acc == digits_value(d.take(i - start)),
        decreases n - i,
    {
        let c = s.get_char(i);
        assert(d[i - start] == c);
        if !('0' <= c && c <= '9') {
            assert(!all_digits(d));
            return None;
        }
        let dv = (c as u32 - '0' as u32) as i64;
        let ghost k = i - start;
        assert(d.take(k + 1).drop_last() =~= d.take(k));
        assert(d.take(k + 1).last() == c);
        assert(all_digits(d.take(k + 1))) by {
            assert forall|j: int| 0 <= j < d.take(k + 1).len() implies is_digit(#[trigger] d.take(k + 1)[j]) by {
                if j < k {
                    assert(d.take(k + 1)[j] == d.take(k)[j]);
                }
            }
        }
        assert(digits_value(d.take(k + 1)) == digits_value(d.take(k)) * 10 + digit_value(c));
        acc = acc * 10 + dv;
        assert(acc == digits_value(d.take(k + 1)));
        if acc > limit {
            proof {
                if all_digits(d) {
                    lemma_digits_value_prefix(d, k + 1);
                    assert(digits_value(d) > limit);
                    assert(unsigned_value(d) == Some(digits_value(d)));
                }
                if neg {
                    assert(unsigned_value(s@.drop_first()) == unsigned_value(d));
                } else if s@[0] == '+' {
                    assert(unsigned_value(s@.drop_first()) == unsigned_value(d));
                } else {
                    assert(unsigned_value(s@) == unsigned_value(d));
                }
            }
            return None;
        }
        i = i + 1;
    }
    assert(d.take(n - start) =~= d);
    if neg {
        Some((0 - acc) as i32)
    } else {
        Some(acc as i32)
    }
}

/// The character of the decimal digit `d`.
pub open spec fn digit_char(d: int) -> char {
    (('0' as int) + d) as char
}

/// The decimal text of a natural number, without leading zeros.
pub open spec fn nat_text(n: nat) -> Seq<char>
    decreases n,
{
    if n < 10 {
        seq![digit_char(n as int)]
    } else {
        nat_text(n / 10) + seq![digit_char((n % 10) as int)]
    }
}

/// The decimal text of an integer as `Display` prints it: a `-` before
/// negative values.
pub open spec fn int_text(n: int) -> Seq<char> {
    if n < 0 {
        seq!['-'] + nat_text((-n) as nat)
    } else {
        nat_text(n as nat)
    }
}

fn digit_str(d: u32) -> (s: &'static str)
    requires
        d < 10,
    ensures
        s@ == seq![digit_char(d as int)],
{
    proof {
        reveal_strlit("0");
        reveal_strlit("1");
        reveal_strlit("2");
        reveal_strlit("3");
        reveal_strlit("4");
        reveal_strlit("5");
        reveal_strlit("6");
        reveal_strlit("7");
        reveal_strlit("8");
        reveal_strlit("9");
    }
    match d {
        0 => "0",
        1 => "1",
        2 => "2",
        3 => "3",
        4 => "4",
        5 => "5",
        6 => "6",
        7 => "7",
        8 => "8",
        _ => "9",
    }
}

fn push_digits(out: &mut String, n: u32)
    ensures
        final(out)@ == old(out)@ + nat_text(n as nat),
    decreases n,
{
    if n >= 10 {
        push_digits(out, n / 10);
    }
    out.append(digit_str(n % 10));
    proof {
        if n >= 10 {
            assert(old(out)@ + nat_text((n / 10) as nat) + seq![digit_char((n % 10) as int)] =~= old(out)@
                + nat_text(n as nat));
        }
    }
}

/// Appends the decimal text of `n` to `out`, as `write!(out, "{}", n)` does.
pub fn push_i32(out: &mut String, n: i32)
    ensures
        final(out)@ == old(out)@ + int_text(n as int),
{
    if n < 0 {
        proof {
            reveal_strlit("-");
        }
        out.append("-");
        let m: i64 = 0 - (n as i64);
        push_digits(out, m as u32);
        assert(old(out)@ + seq!['-'] + nat_text(m as nat) =~= old(out)@ + int_text(n as int));
    } else {
        push_digits(out, n as u32);
    }
}

/// The decimal text of `n`, as `n.to_string()` gives it.
pub fn i32_text(n: i32) -> (res: String)
    ensures
        res@ == int_text(n as int),
{
    let mut s = String::new();
    push_i32(&mut s, n);
    assert(Seq::<char>::empty() + int_text(n as int) =~= int_text(n as int));
    s
}


proof fn lemma_nat_text_digits(n: nat)
    ensures
        nat_text(n).len() > 0,
        all_digits(nat_text(n)),
        digits_value(nat_text(n)) == n,
        nat_text(n)[0] != '-',
        nat_text(n)[0] != '+',
    decreases n,
{
    if n >= 10 {
        lemma_nat_text_digits(n / 10);
        let t = nat_text(n);
        let p = nat_text(n / 10);
        assert(t.drop_last() =~= p);
        assert(all_digits(t)) by {
            assert forall|i: int| 0 <= i < t.len() implies is_digit(#[trigger] t[i]) by {
                if i < p.len() {
                    assert(t[i] == p[i]);
                }
            }
        }
        assert(t[0] == p[0]);
        assert(t.last() == digit_char((n % 10) as int));
        assert(digit_value(t.last()) == n % 10);
        assert(n == (n / 10) * 10 + n % 10);
        assert(digits_value(t) == digits_value(t.drop_last()) * 10 + digit_value(t.last()));
        assert(digits_value(t) == n);
    } else {
        assert(nat_text(n).drop_last() =~= Seq::<char>::empty());
        assert(digit_value(nat_text(n).last()) == n);
        assert(digits_value(Seq::<char>::empty()) == 0);
        assert(digits_value(nat_text(n)) == digits_value(nat_text(n).drop_last()) * 10 + digit_value(
            nat_text(n).last(),
        ));
    }
}

/// Printing an `i32` and parsing the text back gives the same value: the
/// numbers that travel in protocol frames survive the trip.
pub proof fn lemma_i32_text_round_trip(n: i32)
    ensures
        parse_i32_spec(int_text(n as int)) == Some(n),
{
    if n < 0 {
        let m = (-n) as nat;
        lemma_nat_text_digits(m);
        let t = int_text(n as int);
        assert(t.drop_first() =~= nat_text(m));
    } else {
        lemma_nat_text_digits(n as nat);
    }
}

/// A whitespace character as `char::is_whitespace` defines it (the Unicode
/// `White_Space` property).
pub open spec fn is_ws(c: char) -> bool {
    ||| '\u{9}' <= c <= '\u{d}'
    ||| c == ' '
    ||| c == '\u{85}'
    ||| c == '\u{a0}'
    ||| c == '\u{1680}'
    ||| '\u{2000}' <= c <= '\u{200a}'
    ||| c == '\u{2028}'
    ||| c == '\u{2029}'
    ||| c == '\u{202f}'
    ||| c == '\u{205f}'
    ||| c == '\u{3000}'
}

/// Whether `c` is whitespace, as `char::is_whitespace` answers.
pub fn is_whitespace(c: char) -> (res: bool)
    ensures
        res == is_ws(c),
{
    ('\u{9}' <= c && c <= '\u{d}') || c == ' ' || c == '\u{85}' || c == '\u{a0}' || c == '\u{1680}'
        || ('\u{2000}' <= c && c <= '\u{200a}') || c == '\u{2028}' || c == '\u{2029}' || c
        == '\u{202f}' || c == '\u{205f}' || c == '\u{3000}'
}

/// `s` without its leading whitespace.
pub open spec fn trim_start_spec(s: Seq<char>) -> Seq<char>
    decreases s.len(),
{
    if s.len() > 0 && is_ws(s[0]) {
        trim_start_spec(s.drop_first())
    } else {
        s
    }
}

/// `s` without its trailing whitespace.
pub open spec fn trim_end_spec(s: Seq<char>) -> Seq<char>
    decreases s.len(),
{
    if s.len() > 0 && is_ws(s.last()) {
        trim_end_spec(s.drop_last())
    } else {
        s
    }
}

/// `s` without leading and trailing whitespace, as `str::trim` gives it.
pub open spec fn trim_spec(s: Seq<char>) -> Seq<char> {
    trim_end_spec(trim_start_spec(s))
}

proof fn lemma_trim_start_at(s: Seq<char>, i: int)
    requires
        0 <= i <= s.len(),
        forall|j: int| 0 <= j < i ==> is_ws(s[j]),
        i == s.len() || !is_ws(s[i]),
    ensures
        trim_start_spec(s) == s.skip(i),
    decreases i,
{
    if i > 0 {
        lemma_trim_start_at(s.drop_first(), i - 1);
        assert(s.drop_first().skip(i - 1) =~= s.skip(i));
    } else {
        assert(s.skip(0) =~= s);
    }
}

proof fn lemma_trim_end_at(s: Seq<char>, k: int)
    requires
        0 <= k <= s.len(),
        forall|j: int| k <= j < s.len() ==> is_ws(s[j]),
        k == 0 || !is_ws(s[k - 1]),
    ensures
        trim_end_spec(s) == s.take(k),
    decreases s.len() - k,
{
    if k < s.len() {
        lemma_trim_end_at(s.drop_last(), k);
        assert(s.drop_last().take(k) =~= s.take(k));
    } else {
        assert(s.take(k) =~= s);
    }
}

/// `s` without leading and trailing whitespace, as `str::trim` gives it.
pub fn trim(s: &str) -> (res: &str)
    ensures
        res@ == trim_spec(s@),
{
    let n = s.unicode_len();
    let mut i: usize = 0;
    while i < n && is_whitespace(s.get_char(i))
        invariant
            n == s@.len(),
            i <= n,
            forall|j: int| 0 <= j < i ==> is_ws(s@[j]),
        decreases n - i,
    {
        i = i + 1;
    }
    proof {
        lemma_trim_start_at(s@, i as int);
    }
    let mut k: usize = n;
    while k > i && is_whitespace(s.get_char(k - 1))
        invariant
            n == s@.len(),
            i <= k <= n,
            forall|j: int| k <= j < n ==> is_ws(s@[j]),
        decreases k,
    {
        k = k - 1;
    }
    let ghost u = s@.skip(i as int);
    proof {
        assert forall|j: int| (k - i) <= j < u.len() implies is_ws(u[j]) by {
            assert(u[j] == s@[j + i]);
        }
        if k > i {
            assert(u[k - i - 1] == s@[k - 1]);
        }
        lemma_trim_end_at(u, k - i);
        assert(u.take(k - i) =~= s@.subrange(i as int, k as int));
    }
    s.substring_char(i, k)
}

/// `p` occurs in `s` as a contiguous run of characters.
pub open spec fn contains_text(s: Seq<char>, p: Seq<char>) -> bool {
    exists|i: int| 0 <= i && i + p.len() <= s.len() && #[trigger] s.subrange(i, i + p.len()) == p
}

/// Whether `p` occurs in `s`, as `str::contains` answers for a string
/// pattern.
pub fn contains(s: &str, p: &str) -> (res: bool)
    ensures
        res == contains_text(s@, p@),
{
    let n = s.unicode_len();
    let m = p.unicode_len();
    if m > n {
        return false;
    }
    let mut i: usize = 0;
    while i <= n - m
        invariant
            n == s@.len(),
            m == p@.len(),
            m <= n,
            i <= n - m + 1,
            forall|k: int| 0 <= k < i ==> #[trigger] s@.subrange(k, k + m) != p@,
        decreases n - m + 1 - i,
    {
        let mut j: usize = 0;
        while j < m && s.get_char(i + j) == p.get_char(j)
            invariant
                n == s@.len(),
                m == p@.len(),
                i + m <= n,
                j <= m,
                forall|t: int| 0 <= t < j ==> s@[i + t] == p@[t],
            decreases m - j,
        {
            j = j + 1;
        }
        if j == m {
            assert(s@.subrange(i as int, i + m) =~= p@);
            return true;
        }
        assert(s@.subrange(i as int, i + m)[j as int] != p@[j as int]);
        i = i + 1;
    }
    false
}


/// Whether `a` and `b` hold the same text, as `==` on `str` answers.
pub fn str_eq(a: &str, b: &str) -> (res: bool)
    ensures
        res == (a@ == b@),
{
    let n = a.unicode_len();
    if n != b.unicode_len() {
        return false;
    }
    let mut i: usize = 0;
    while i < n
        invariant
            n == a@.len(),
            n == b@.len(),
            i <= n,
            forall|j: int| 0 <= j < i ==> a@[j] == b@[j],
        decreases n - i,
    {
        if a.get_char(i) != b.get_char(i) {
            return false;
        }
        i = i + 1;
    }
    assert(a@ =~= b@);
    true
}


/// `s` with every trailing `"\r\n"` removed, as
/// `s.trim_end_matches("\r\n")` gives it.
pub open spec fn trim_crlf_spec(s: Seq<char>) -> Seq<char>
    decreases s.len(),
{
    if s.len() >= 2 && s[s.len() - 2] == '\r' && s[s.len() - 1] == '\n' {
        trim_crlf_spec(s.subrange(0, s.len() - 2))
    } else {
        s
    }
}

/// `s` with every trailing `"\r\n"` removed.
pub fn trim_crlf(s: &str) -> (res: &str)
    ensures
        res@ == trim_crlf_spec(s@),
{
    let mut end = s.unicode_len();
    assert(s@.subrange(0, end as int) =~= s@);
    while end >= 2 && s.get_char(end - 2) == '\r' && s.get_char(end - 1) == '\n'
        invariant
            end <= s@.len(),
            trim_crlf_spec(s@) == trim_crlf_spec(s@.subrange(0, end as int)),
        decreases end,
    {
        let ghost t = s@.subrange(0, end as int);
        assert(t.subrange(0, t.len() - 2) =~= s@.subrange(0, end - 2));
        end = end - 2;
    }
    s.substring_char(0, end)
}


/// Splitting at a separator that the first part does not hold gives the
/// two parts back.
pub proof fn lemma_split_once_concat(a: Seq<char>, sep: char, b: Seq<char>)
    requires
        !a.contains(sep),
    ensures
        split_once_spec(a + seq![sep] + b, sep) == Some((a, b)),
{
    let s = a + seq![sep] + b;
    assert forall|j: int| 0 <= j < a.len() implies s[j] != sep by {
        assert(s[j] == a[j]);
    }
    lemma_split_once_at(s, sep, a.len() as int);
    assert(s.take(a.len() as int) =~= a);
    assert(s.skip(a.len() as int + 1) =~= b);
}

/// A text without the separator is one piece.
pub proof fn lemma_split_single(a: Seq<char>, sep: char)
    requires
        !a.contains(sep),
    ensures
        split_spec(a, sep) == seq![a],
{
    assert forall|j: int| 0 <= j < a.len() implies a[j] != sep by {
        if a[j] == sep {
            assert(a.contains(sep));
        }
    }
    lemma_split_once_none(a, sep);
}

/// Splitting after a separator-free first piece.
pub proof fn lemma_split_concat(a: Seq<char>, sep: char, b: Seq<char>)
    requires
        !a.contains(sep),
    ensures
        split_spec(a + seq![sep] + b, sep) == seq![a] + split_spec(b, sep),
{
    lemma_split_once_concat(a, sep, b);
}

/// The decimal text of an integer is not empty, and holds only digits
/// and a leading `-`.
pub proof fn lemma_int_text_chars(n: int)
    ensures
        int_text(n).len() > 0,
        forall|i: int| 0 <= i < int_text(n).len() ==> is_digit(#[trigger] int_text(n)[i]) || (i == 0
            && int_text(n)[i] == '-'),
{
    if n < 0 {
        let m = (-n) as nat;
        lemma_nat_text_digits(m);
        let t = int_text(n);
        assert forall|i: int| 0 <= i < t.len() implies is_digit(#[trigger] t[i]) || (i == 0 && t[i] == '-') by {
            if i > 0 {
                assert(t[i] == nat_text(m)[i - 1]);
            }
        }
    } else {
        lemma_nat_text_digits(n as nat);
    }
}

/// The decimal text of an integer holds no `;` and no whitespace.
pub proof fn lemma_int_text_plain(n: int)
    ensures
        int_text(n).len() > 0,
        !int_text(n).contains(';'),
        forall|i: int| 0 <= i < int_text(n).len() ==> !is_ws(#[trigger] int_text(n)[i]),
{
    lemma_int_text_chars(n);
    if int_text(n).contains(';') {
        let k = choose|k: int| 0 <= k < int_text(n).len() && int_text(n)[k] == ';';
        assert(is_digit(int_text(n)[k]) || int_text(n)[k] == '-');
    }
}

/// Trimming a line that ends in `"\n"` gives back its text when that text
/// neither starts nor ends with whitespace.
pub proof fn lemma_trim_line(x: Seq<char>)
    requires
        x.len() > 0,
        !is_ws(x[0]),
        !is_ws(x.last()),
    ensures
        trim_spec(x + seq!['\n']) == x,
{
    let l = x + seq!['\n'];
    assert(l[0] == x[0]);
    assert(trim_start_spec(l) == l);
    assert(is_ws(l.last()));
    assert(l.drop_last() =~= x);
    assert(trim_end_spec(x) == x);
}

} // verus!
