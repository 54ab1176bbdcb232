//! Human-readable renderings of durations and memory sizes.
use vstd::prelude::*;
use crate::text::{
    all_digits, digit_value, is_white, occurs_at, tokens_of, tokens_state, chars_of, decimal, decimal_chars, digit_char, digits_value, find_chars, find_from,
    is_digit, parse_u64_chars, slice_of, string_of, token_nth, tokens_chars,
    unsigned_of, views,
};

verus! {

/// `"{days}d {hours}h {mins}m"`, dropping the leading zero units: days when
/// there are none, and hours too when there are neither.
pub open spec fn uptime_text(secs: nat) -> Seq<char> {
    let days = secs / 86400;
    let hours = (secs % 86400) / 3600;
    let mins = (secs % 3600) / 60;
    if days > 0 {
        decimal(days) + seq!['d', ' '] + decimal(hours) + seq!['h', ' '] + decimal(mins) + seq![
            'm',
        ]
    } else if hours > 0 {
        decimal(hours) + seq!['h', ' '] + decimal(mins) + seq!['m']
    } else {
        decimal(mins) + seq!['m']
    }
}

/// Formats an uptime given in whole seconds.
pub fn format_uptime(total_secs: u64) -> (r: String)
    ensures
        r@ == uptime_text(total_secs as nat),
{
    let days = total_secs / 86400;
    let hours = (total_secs % 86400) / 3600;
    let mins = (total_secs % 3600) / 60;
    let mut v: Vec<char> = Vec::new();
    if days > 0 {
        let mut d = decimal_chars(days);
        v.append(&mut d);
        v.push('d');
        v.push(' ');
    }
    if days > 0 || hours > 0 {
        let mut h = decimal_chars(hours);
        v.append(&mut h);
        v.push('h');
        v.push(' ');
    }
    let mut m = decimal_chars(mins);
    v.append(&mut m);
    v.push('m');
    assert(v@ =~= uptime_text(total_secs as nat));
    string_of(v.as_slice())
}

/// The text before the first `.` of `s` and the text after it; all of `s` and
/// nothing when it holds no `.`.
pub open spec fn point_parts(s: Seq<char>) -> (Seq<char>, Seq<char>) {
    match find_from(s, seq!['.'], 0) {
        Some(k) => (s.take(k), s.skip(k + 1)),
        None => (s, seq![]),
    }
}

/// The whole seconds of a decimal seconds count such as `12345.67`: an
/// optional `+`, digits, and optionally a `.` followed by digits, with at
/// least one digit in all. The fraction is dropped.
pub open spec fn seconds_of(t: Seq<char>) -> Option<nat> {
    let body = if t.len() > 0 && t[0] == '+' {
        t.drop_first()
    } else {
        t
    };
    let parts = point_parts(body);
    if all_digits(parts.0) && all_digits(parts.1) && parts.0.len() + parts.1.len() > 0 {
        Some(digits_value(parts.0))
    } else {
        None
    }
}

pub open spec fn unknown() -> Seq<char> {
    seq!['U', 'n', 'k', 'n', 'o', 'w', 'n']
}

/// The uptime shown for the content of the uptime file: its first
/// whitespace-separated token read as seconds, or the placeholder.
pub open spec fn uptime_of(content: Seq<char>) -> Seq<char> {
    match token_nth(content, 0) {
        Some(t) => match seconds_of(t) {
            Some(v) => if v <= u64::MAX {
                uptime_text(v)
            } else {
                unknown()
            },
            None => unknown(),
        },
        None => unknown(),
    }
}

/// For uptime-file content whose first token is a seconds count `v`, the
/// uptime shown is `v` broken into whole days, hours and minutes.
pub proof fn lemma_uptime_decomposition(content: Seq<char>, v: nat)
    requires
        token_nth(content, 0) matches Some(t) && seconds_of(t) == Some(v),
        v <= u64::MAX,
    ensures
        uptime_of(content) == uptime_text(v),
        uptime_text(v) == (if v / 86400 > 0 {
            decimal(v / 86400) + seq!['d', ' '] + decimal((v % 86400) / 3600) + seq!['h', ' ']
                + decimal((v % 3600) / 60) + seq!['m']
        } else if v / 3600 > 0 {
            decimal(v / 3600) + seq!['h', ' '] + decimal((v % 3600) / 60) + seq!['m']
        } else {
            decimal(v / 60) + seq!['m']
        }),
{
    if v / 86400 == 0 {
        assert(v < 86400);
        assert(v % 86400 == v);
        if v / 3600 == 0 {
            assert(v % 3600 == v);
        }
    }
}

proof fn lemma_decimal_digits(n: nat)
    ensures
        decimal(n).len() > 0,
        all_digits(decimal(n)),
        digits_value(decimal(n)) == n,
    decreases n,
{
    let d = n % 10;
    assert(digit_value(digit_char(d)) == d && is_digit(digit_char(d)));
    if n >= 10 {
        lemma_decimal_digits(n / 10);
        let s = decimal(n);
        assert(s.drop_last() =~= decimal(n / 10));
        assert(s.last() == digit_char(d));
        assert(digits_value(s) == digits_value(decimal(n / 10)) * 10 + d);
        assert((n / 10) * 10 + n % 10 == n);
        assert forall|i: int| 0 <= i < s.len() implies is_digit(#[trigger] s[i]) by {
            if i < s.len() - 1 {
                assert(s[i] == decimal(n / 10)[i]);
            }
        }
    } else {
        assert(n % 10 == n);
        let s = decimal(n);
        assert(s =~= seq![digit_char(n)]);
        assert(s.drop_last() =~= Seq::<char>::empty());
        assert(digits_value(Seq::<char>::empty()) == 0);
        assert(digits_value(s) == digits_value(s.drop_last()) * 10 + digit_value(s.last()));
    }
}

proof fn lemma_tokens_extend(x: Seq<char>, y: Seq<char>)
    ensures
        tokens_state(x).0.len() <= tokens_state(x + y).0.len(),
        tokens_state(x + y).0.take(tokens_state(x).0.len() as int) == tokens_state(x).0,
    decreases y.len(),
{
    if y.len() == 0 {
        assert(x + y =~= x);
        assert(tokens_state(x).0.take(tokens_state(x).0.len() as int) =~= tokens_state(x).0);
    } else {
        lemma_tokens_extend(x, y.drop_last());
        assert((x + y).drop_last() =~= x + y.drop_last());
        let a = tokens_state(x + y.drop_last()).0;
        let n = tokens_state(x).0.len() as int;
        assert(tokens_state(x + y).0 == a || tokens_state(x + y).0 == a.push(
            tokens_state(x + y.drop_last()).1,
        ));
        assert(a.push(tokens_state(x + y.drop_last()).1).take(n) =~= a.take(n));
    }
}

proof fn lemma_tokens_word(t: Seq<char>)
    requires
        forall|i: int| 0 <= i < t.len() ==> !is_white(#[trigger] t[i]),
    ensures
        tokens_state(t) == (Seq::<Seq<char>>::empty(), t),
    decreases t.len(),
{
    if t.len() > 0 {
        lemma_tokens_word(t.drop_last());
        assert(t.drop_last().push(t.last()) =~= t);
    } else {
        assert(t =~= seq![]);
    }
}

proof fn lemma_find_from_at(s: Seq<char>, p: Seq<char>, i: int, k: int)
    requires
        0 <= i <= k,
        occurs_at(s, p, k),
        forall|j: int| i <= j < k ==> !occurs_at(s, p, j),
    ensures
        find_from(s, p, i) == Some(k),
    decreases k - i,
{
    if i < k {
        lemma_find_from_at(s, p, i + 1, k);
    }
}

/// Uptime-file content that starts with a seconds count written in decimal,
/// a fraction and a space, whatever follows (the idle time), shows that
/// count broken into whole days, hours and minutes.
pub proof fn lemma_uptime_well_formed(secs: nat, frac: Seq<char>, rest: Seq<char>)
    requires
        all_digits(frac),
        secs <= u64::MAX,
    ensures
        uptime_of(decimal(secs) + seq!['.'] + frac + seq![' '] + rest) == uptime_text(secs),
{
    let d = decimal(secs);
    let t = d + seq!['.'] + frac;
    let content = t + seq![' '] + rest;
    lemma_decimal_digits(secs);
    assert forall|i: int| 0 <= i < t.len() implies !is_white(#[trigger] t[i]) by {
        if i < d.len() {
            assert(is_digit(d[i]));
        } else if i > d.len() {
            assert(t[i] == frac[i - d.len() - 1]);
            assert(is_digit(frac[i - d.len() - 1]));
        }
    }
    lemma_tokens_word(t);
    let tw = t + seq![' '];
    assert(tw.drop_last() =~= t);
    assert(tokens_state(tw).0 =~= seq![t]);
    lemma_tokens_extend(tw, rest);
    assert(content =~= tw + rest);
    assert(tokens_state(tw + rest).0.take(1)[0] == tokens_state(tw + rest).0[0]);
    assert(tokens_state(content).0[0] == t);
    assert(tokens_of(content)[0] == t);
    assert(token_nth(content, 0) == Some(t));
    assert forall|j: int| 0 <= j < d.len() implies !occurs_at(t, seq!['.'], j) by {
        assert(is_digit(d[j]));
        assert(t.subrange(j, j + 1)[0] == d[j]);
    }
    assert(t.subrange(d.len() as int, d.len() as int + 1) =~= seq!['.']);
    lemma_find_from_at(t, seq!['.'], 0, d.len() as int);
    assert(t.take(d.len() as int) =~= d);
    assert(t.skip(d.len() as int + 1) =~= frac);
    assert(seconds_of(t) == Some(secs));
}

pub fn all_digits_chars(s: &[char]) -> (r: bool)
    ensures
        r == all_digits(s@),
{
    let mut i: usize = 0;
    while i < s.len()
        invariant
            i <= s@.len(),
            forall|j: int| 0 <= j < i ==> is_digit(#[trigger] s@[j]),
        decreases s@.len() - i,
    {
        let u = s[i] as u32;
        if !(48 <= u && u <= 57) {
            assert(!is_digit(s@[i as int]));
            return false;
        }
        i += 1;
    }
    true
}

/// Reads a seconds count as `seconds_of` describes it, where it fits in `u64`.
pub fn parse_seconds(t: &[char]) -> (r: Option<u64>)
    ensures
        r matches Some(v) ==> seconds_of(t@) == Some(v as nat),
        r is None ==> seconds_of(t@) is None || seconds_of(t@).unwrap() > u64::MAX,
{
    let start: usize = if t.len() > 0 && t[0] == '+' {
        1
    } else {
        0
    };
    let body = slice_of(t, start, t.len());
    assert(body@ =~= (if t@.len() > 0 && t@[0] == '+' {
        t@.drop_first()
    } else {
        t@
    }));
    let point: Vec<char> = vec!['.'];
    assert(point@ =~= seq!['.']);
    let (int_part, frac) = match find_chars(body.as_slice(), point.as_slice()) {
        Some(k) => (slice_of(body.as_slice(), 0, k), slice_of(body.as_slice(), k + 1, body.len())),
        None => (body.clone(), Vec::new()),
    };
    proof {
        match find_from(body@, seq!['.'], 0) {
            Some(k) => {
                assert(occurs_at(body@, seq!['.'], k));
                assert(int_part@ =~= body@.take(k));
                assert(frac@ =~= body@.skip(k + 1));
            },
            None => {
                assert(int_part@ =~= body@);
                assert(frac@ =~= seq![]);
            },
        }
    }
    if !all_digits_chars(int_part.as_slice()) || !all_digits_chars(frac.as_slice()) || int_part.len()
        + frac.len() == 0 {
        return None;
    }
    if int_part.len() == 0 {
        return Some(0);
    }
    let r = parse_u64_chars(int_part.as_slice());
    assert(unsigned_of(int_part@) == Some(digits_value(int_part@)));
    r
}

/// Formats the content of the uptime file (`<seconds> <idle seconds>`).
pub fn uptime_from(content: &str) -> (r: String)
    ensures
        r@ == uptime_of(content@),
{
    let cs = chars_of(content);
    let toks = tokens_chars(cs.as_slice());
    if toks.len() == 0 {
        return string_of(&['U', 'n', 'k', 'n', 'o', 'w', 'n']);
    }
    assert(views(toks@)[0] == toks@[0]@);
    match parse_seconds(toks[0].as_slice()) {
        Some(v) => format_uptime(v),
        None => string_of(&['U', 'n', 'k', 'n', 'o', 'w', 'n']),
    }
}

/// `num / den` rounded to the nearest integer, halves to the even neighbour.
pub open spec fn rounded_div(num: nat, den: nat) -> nat
    recommends
        den > 0,
{
    let q = num / den;
    let r = num % den;
    if 2 * r > den || (2 * r == den && q % 2 == 1) {
        q + 1
    } else {
        q
    }
}

/// A count of hundredths written with two decimals, as in `5.72`.
pub open spec fn fixed2(h: nat) -> Seq<char> {
    decimal(h / 100) + seq!['.', digit_char((h % 100) / 10), digit_char(h % 10)]
}

/// A size in kibibytes shown in mebibytes, or in gibibytes above 1024
/// mebibytes, rounded to two decimals.
pub open spec fn memory_text(size_kb: nat) -> Seq<char> {
    if size_kb > 1048576 {
        fixed2(rounded_div(size_kb * 100, 1048576)) + seq![' ', 'G', 'B']
    } else {
        fixed2(rounded_div(size_kb * 100, 1024)) + seq![' ', 'M', 'B']
    }
}

/// Formats a size given in kibibytes.
pub fn format_memory_size(size_kb: u64) -> (r: String)
    ensures
        r@ == memory_text(size_kb as nat),
{
    let gb = size_kb > 1048576;
    let den: u128 = if gb {
        1048576
    } else {
        1024
    };
    let num: u128 = size_kb as u128 * 100;
    let q = num / den;
    let rem = num % den;
    let h: u128 = if 2 * rem > den || (2 * rem == den && q % 2 == 1) {
        q + 1
    } else {
        q
    };
    assert(h == rounded_div(size_kb as nat * 100, den as nat));
    assert(h <= 1844674407370955162 * 100) by (nonlinear_arith)
        requires
            h <= q + 1,
            q == num / den,
            num == size_kb as u128 * 100,
            den >= 1024,
    ;
    let whole = (h / 100) as u64;
    let tenths = ((h % 100) / 10) as u8;
    let cents = (h % 10) as u8;
    let mut v = decimal_chars(whole);
    v.push('.');
    v.push(((48 + tenths) as u8) as char);
    v.push(((48 + cents) as u8) as char);
    v.push(' ');
    v.push(if gb {
        'G'
    } else {
        'M'
    });
    v.push('B');
    assert(v@ =~= memory_text(size_kb as nat));
    string_of(v.as_slice())
}

} // verus!
