//! Character-level string handling for names, key combos and colours.
use vstd::prelude::*;
use vstd::string::*;

verus! {

/// Whether `a` and `b` hold the same characters.
pub fn str_eq(a: &str, b: &str) -> (r: bool)
    ensures
        r == (a@ == b@),
{
    let n = a.unicode_len();
    if n != b.unicode_len() {
        return false;
    }
    let mut i: usize = 0;
    while i < n
        invariant
            n == a@.len(),
            n == b@.len(),
            i <= n,
            forall|k: int| 0 <= k < i ==> a@[k] == b@[k],
        decreases n - i,
    {
        if a.get_char(i) != b.get_char(i) {
            return false;
        }
        i = i + 1;
    }
    assert(a@ =~= b@);
    true
}

/// `s` without its prefix `p`, if it starts with `p`.
pub open spec fn spec_strip_prefix(s: Seq<char>, p: Seq<char>) -> Option<Seq<char>> {
    if p.len() <= s.len() && s.subrange(0, p.len() as int) == p {
        Some(s.subrange(p.len() as int, s.len() as int))
    } else {
        None
    }
}

/// `s` without its prefix `p`, if it starts with `p`.
pub fn strip_prefix<'a>(s: &'a str, p: &str) -> (r: Option<&'a str>)
    ensures
        match r {
            Some(rest) => spec_strip_prefix(s@, p@) == Some(rest@),
            None => spec_strip_prefix(s@, p@) is None,
        },
{
    let n = s.unicode_len();
    let m = p.unicode_len();
    if m > n {
        return None;
    }
    let mut i: usize = 0;
    while i < m
        invariant
            n == s@.len(),
            m == p@.len(),
            m <= n,
            i <= m,
            forall|k: int| 0 <= k < i ==> s@[k] == p@[k],
        decreases m - i,
    {
        if s.get_char(i) != p.get_char(i) {
            assert(s@.subrange(0, m as int)[i as int] != p@[i as int]);
            return None;
        }
        i = i + 1;
    }
    assert(s@.subrange(0, m as int) =~= p@);
    Some(s.substring_char(m, n))
}

/// The character of decimal digit `d`.
pub open spec fn digit_char(d: nat) -> char {
    ('0' as nat + d) as char
}

/// Whether `c` is an ASCII decimal digit.
pub open spec fn is_digit(c: char) -> bool {
    '0' <= c <= '9'
}

/// The value of decimal digit `c`.
pub open spec fn digit_value(c: char) -> nat {
    (c as nat - '0' as nat) as nat
}

/// `n` written in decimal, without leading zeros.
pub open spec fn decimal(n: nat) -> Seq<char>
    decreases n,
{
    if n < 10 {
        seq![digit_char(n)]
    } else {
        decimal(n / 10).push(digit_char(n % 10))
    }
}

/// The value of the decimal digits `s`.
pub open spec fn digits_value(s: Seq<char>) -> nat
    decreases s.len(),
{
    if s.len() == 0 {
        0
    } else {
        digits_value(s.drop_last()) * 10 + digit_value(s.last())
    }
}

/// `s` without a leading `+`, if it has one.
pub open spec fn unsigned_body(s: Seq<char>) -> Seq<char> {
    if s.len() > 0 && s[0] == '+' {
        s.drop_first()
    } else {
        s
    }
}

/// Whether every character of `s` is an ASCII digit.
pub open spec fn all_digits(s: Seq<char>) -> bool {
    forall|i: int| 0 <= i < s.len() ==> is_digit(#[trigger] s[i])
}

/// What reading `s` as an unsigned decimal number gives: an optional `+` and then one or
/// more ASCII digits, of value at most `max`.
pub open spec fn spec_parse_decimal(s: Seq<char>, max: nat) -> Option<nat> {
    let body = unsigned_body(s);
    if body.len() > 0 && all_digits(body) && digits_value(body) <= max {
        Some(digits_value(body))
    } else {
        None
    }
}

fn append_digit(out: &mut String, d: u64)
    requires
        d < 10,
    ensures
        final(out)@ == old(out)@.push(digit_char(d as nat)),
{
    proof {
        reveal_strlit("0");
        reveal_strlit("1");
        reveal_strlit("2");
        reveal_strlit("3");
        reveal_strlit("4");
        reveal_strlit("5");
        reveal_strlit("6");
        reveal_strlit("7");
        reveal_strlit("8");
        reveal_strlit("9");
    }
    let lit = if d == 0 {
        "0"
    } else if d == 1 {
        "1"
    } else if d == 2 {
        "2"
    } else if d == 3 {
        "3"
    } else if d == 4 {
        "4"
    } else if d == 5 {
        "5"
    } else if d == 6 {
        "6"
    } else if d == 7 {
        "7"
    } else if d == 8 {
        "8"
    } else {
        "9"
    };
    assert(lit@ =~= seq![digit_char(d as nat)]);
    out.append(lit);
}

/// Appends `n` in decimal to `out`.
pub fn append_decimal(out: &mut String, n: u64)
    ensures
        final(out)@ == old(out)@ + decimal(n as nat),
    decreases n,
{
    if n < 10 {
        append_digit(out, n);
        assert(old(out)@.push(digit_char(n as nat)) =~= old(out)@ + decimal(n as nat));
    } else {
        append_decimal(out, n / 10);
        append_digit(out, n % 10);
        assert(old(out)@ + decimal(n as nat / 10) + seq![digit_char(n as nat % 10)] =~= old(out)@ + decimal(n as nat));
    }
}

/// Reads `s` as an unsigned decimal number of value at most `max`: an optional `+` and
/// then one or more ASCII digits.
pub fn parse_decimal(s: &str, max: u64) -> (r: Option<u64>)
    ensures
        match r {
            Some(v) => spec_parse_decimal(s@, max as nat) == Some(v as nat),
            None => spec_parse_decimal(s@, max as nat) is None,
        },
{
    let n = s.unicode_len();
    let start: usize = if n > 0 && s.get_char(0) == '+' { 1 } else { 0 };
    let ghost body = unsigned_body(s@);
    assert(body =~= s@.subrange(start as int, n as int));
    if start >= n {
        return None;
    }
    let mut v: u64 = 0;
    let mut over = false;
    let mut i: usize = start;
    while i < n
        invariant
            n == s@.len(),
            start <= i <= n,
            body == s@.subrange(start as int, n as int),
            body == unsigned_body(s@),
            forall|k: int| 0 <= k < i - start ==> is_digit(#[trigger] body[k]),
            !over ==> v == digits_value(body.take(i - start)) && v <= max,
            over ==> digits_value(body.take(i - start)) > max,
        decreases n - i,
    {
        let c = s.get_char(i);
        assert(c == body[i - start]);
        if !('0' <= c && c <= '9') {
            assert(!is_digit(body[i - start]));
            assert(body.len() == n - start);
            return None;
        }
        let d = (c as u32 - '0' as u32) as u64;
        assert(body.take(i - start + 1).drop_last() =~= body.take(i - start));
        assert(digits_value(body.take(i - start + 1)) == digits_value(body.take(i - start)) * 10 + d);
        if !over {
            if d > max || v > (max - d) / 10 {
                over = true;
            } else {
                v = v * 10 + d;
            }
        }
        i = i + 1;
    }
    assert(body.take(n - start) =~= body);
    if over {
        None
    } else {
        Some(v)
    }
}

proof fn lemma_digit_char(d: nat)
    requires
        d < 10,
    ensures
        is_digit(digit_char(d)),
        digit_value(digit_char(d)) == d,
{
    assert(digit_char(d) as nat == '0' as nat + d);
}

/// Decimal writing gives one or more digits that read back as the number.
pub proof fn lemma_decimal_reads_back(n: nat)
    ensures
        decimal(n).len() > 0,
        all_digits(decimal(n)),
        digits_value(decimal(n)) == n,
    decreases n,
{
    if n < 10 {
        lemma_digit_char(n);
        assert(seq![digit_char(n)].drop_last() =~= Seq::<char>::empty());
        assert(digits_value(decimal(n)) == digits_value(Seq::<char>::empty()) * 10 + digit_value(digit_char(n)));
    } else {
        lemma_digit_char(n % 10);
        lemma_decimal_reads_back(n / 10);
        let d = decimal(n);
        assert(d.drop_last() =~= decimal(n / 10));
        assert(d.last() == digit_char(n % 10));
        assert(digits_value(d) == digits_value(decimal(n / 10)) * 10 + digit_value(digit_char(n % 10)));
        assert((n / 10) * 10 + n % 10 == n);
        assert forall|i: int| 0 <= i < d.len() implies is_digit(#[trigger] d[i]) by {
            if i < d.len() - 1 {
                assert(d[i] == decimal(n / 10)[i]);
            }
        }
    }
}

/// A number at most `max` written in decimal is read back as itself.
pub proof fn lemma_parse_decimal_of_decimal(n: nat, max: nat)
    requires
        n <= max,
    ensures
        spec_parse_decimal(decimal(n), max) == Some(n),
{
    lemma_decimal_reads_back(n);
    assert(is_digit(decimal(n)[0]));
    assert(unsigned_body(decimal(n)) == decimal(n));
}

/// `p` followed by `r`, without its prefix `p`, is `r`.
pub proof fn lemma_strip_prefix_of_concat(p: Seq<char>, r: Seq<char>)
    ensures
        spec_strip_prefix(p + r, p) == Some(r),
{
    assert((p + r).subrange(0, p.len() as int) =~= p);
    assert((p + r).subrange(p.len() as int, (p + r).len() as int) =~= r);
}

/// A sequence that differs from `p` at a position both have does not start with `p`.
pub proof fn lemma_not_prefix(s: Seq<char>, p: Seq<char>, i: int)
    requires
        0 <= i < s.len(),
        i < p.len(),
        s[i] != p[i],
    ensures
        spec_strip_prefix(s, p) is None,
{
    if p.len() <= s.len() {
        assert(s.subrange(0, p.len() as int)[i] != p[i]);
    }
}

} // verus!
