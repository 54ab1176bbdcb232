//! Character-level text primitives shared by the probes and the layout code.
//!
//! Text is handled as `Vec<char>` internally; each operation is stated over
//! `Seq<char>` by a spec function that mirrors the corresponding `str` method.
use vstd::prelude::*;

verus! {

/// The Unicode `White_Space` property, which `char::is_whitespace` tests.
pub open spec fn is_white(c: char) -> bool {
    let u = c as u32;
    u == 0x20 || (0x09 <= u && u <= 0x0d) || u == 0x85 || u == 0xa0 || u == 0x1680 || (0x2000
        <= u && u <= 0x200a) || u == 0x2028 || u == 0x2029 || u == 0x202f || u == 0x205f || u
        == 0x3000
}

pub fn is_white_char(c: char) -> (r: bool)
    ensures
        r == is_white(c),
{
    let u = c as u32;
    u == 0x20 || (0x09 <= u && u <= 0x0d) || u == 0x85 || u == 0xa0 || u == 0x1680 || (0x2000
        <= u && u <= 0x200a) || u == 0x2028 || u == 0x2029 || u == 0x202f || u == 0x205f || u
        == 0x3000
}

/// The characters of a string, in order.
pub fn chars_of(s: &str) -> (r: Vec<char>)
    ensures
        r@ == s@,
{
    let mut r: Vec<char> = Vec::new();
    for c in it: s.chars()
        invariant
            r@ == it.seq().take(it.index() as int),
    {
        r.push(c);
    }
    r
}

/// Relies on `String::from_iter` over chars: the string holds exactly those characters.
#[verifier::external_body]
pub fn string_of(v: &[char]) -> (r: String)
    ensures
        r@ == v@,
{
    v.iter().collect::<String>()
}

/// The views of a sequence of character vectors.
pub open spec fn views(v: Seq<Vec<char>>) -> Seq<Seq<char>> {
    v.map_values(|x: Vec<char>| x@)
}

/// The characters `s[from..to]`, copied.
pub fn slice_of(s: &[char], from: usize, to: usize) -> (r: Vec<char>)
    requires
        from <= to <= s@.len(),
    ensures
        r@ == s@.subrange(from as int, to as int),
{
    let mut r: Vec<char> = Vec::new();
    let mut i: usize = from;
    while i < to
        invariant
            from <= i <= to <= s@.len(),
            r@ == s@.subrange(from as int, i as int),
        decreases to - i,
    {
        r.push(s[i]);
        i += 1;
    }
    r
}

pub open spec fn trim_start(s: Seq<char>) -> Seq<char>
    decreases s.len(),
{
    if s.len() > 0 && is_white(s[0]) {
        trim_start(s.drop_first())
    } else {
        s
    }
}

pub open spec fn trim_end(s: Seq<char>) -> Seq<char>
    decreases s.len(),
{
    if s.len() > 0 && is_white(s.last()) {
        trim_end(s.drop_last())
    } else {
        s
    }
}

/// `str::trim`: leading and trailing whitespace removed.
pub open spec fn trim(s: Seq<char>) -> Seq<char> {
    trim_end(trim_start(s))
}

pub fn trim_chars(s: &[char]) -> (r: Vec<char>)
    ensures
        r@ == trim(s@),
{
    let n = s.len();
    let mut i: usize = 0;
    assert(s@.subrange(0, n as int) =~= s@);
    while i < n && is_white_char(s[i])
        invariant
            i <= n == s@.len(),
            trim_start(s@) == trim_start(s@.subrange(i as int, n as int)),
        decreases n - i,
    {
        assert(s@.subrange(i as int, n as int).drop_first() =~= s@.subrange(i + 1, n as int));
        i += 1;
    }
    assert(trim_start(s@) == s@.subrange(i as int, n as int));
    let mut j: usize = n;
    while j > i && is_white_char(s[j - 1])
        invariant
            i <= j <= n == s@.len(),
            trim(s@) == trim_end(s@.subrange(i as int, j as int)),
        decreases j,
    {
        assert(s@.subrange(i as int, j as int).drop_last() =~= s@.subrange(i as int, j - 1));
        j -= 1;
    }
    slice_of(s, i, j)
}

/// The segments of a string split at every `sep` (`str::split` with a char):
/// the finished segments and the one still open.
pub open spec fn split_state(s: Seq<char>, sep: char) -> (Seq<Seq<char>>, Seq<char>)
    decreases s.len(),
{
    if s.len() == 0 {
        (seq![], seq![])
    } else {
        let st = split_state(s.drop_last(), sep);
        if s.last() == sep {
            (st.0.push(st.1), seq![])
        } else {
            (st.0, st.1.push(s.last()))
        }
    }
}

/// `str::split(sep)`: always at least one segment.
pub open spec fn split_of(s: Seq<char>, sep: char) -> Seq<Seq<char>> {
    split_state(s, sep).0.push(split_state(s, sep).1)
}

/// `str::split(sep).nth(n)`.
pub open spec fn split_nth(s: Seq<char>, sep: char, n: int) -> Option<Seq<char>> {
    if 0 <= n < split_of(s, sep).len() {
        Some(split_of(s, sep)[n])
    } else {
        None
    }
}

pub fn split_chars(s: &[char], sep: char) -> (r: Vec<Vec<char>>)
    ensures
        views(r@) == split_of(s@, sep),
{
    let mut out: Vec<Vec<char>> = Vec::new();
    let mut cur: Vec<char> = Vec::new();
    let mut i: usize = 0;
    while i < s.len()
        invariant
            i <= s@.len(),
            views(out@) == split_state(s@.take(i as int), sep).0,
            cur@ == split_state(s@.take(i as int), sep).1,
        decreases s@.len() - i,
    {
        assert(s@.take(i + 1).drop_last() =~= s@.take(i as int));
        let c = s[i];
        if c == sep {
            let ghost old_out = out@;
            let done = cur;
            out.push(done);
            assert(views(out@) =~= views(old_out).push(done@));
            cur = Vec::new();
        } else {
            cur.push(c);
        }
        i += 1;
    }
    assert(s@.take(s@.len() as int) =~= s@);
    let ghost old_out = out@;
    let done = cur;
    out.push(done);
    assert(views(out@) =~= views(old_out).push(done@));
    out
}

/// `str::lines`: a line ends at `\n`, which, with a `\r` just before it, is
/// dropped; a final unterminated line is kept when not empty.
pub open spec fn strip_cr(l: Seq<char>) -> Seq<char> {
    if l.len() > 0 && l.last() == '\r' {
        l.drop_last()
    } else {
        l
    }
}

/// Each finished line with its `\r` removed.
pub open spec fn stripped(ls: Seq<Seq<char>>) -> Seq<Seq<char>> {
    ls.map_values(|l: Seq<char>| strip_cr(l))
}

pub open spec fn lines_of(s: Seq<char>) -> Seq<Seq<char>> {
    let st = split_state(s, '\n');
    let done = stripped(st.0);
    if st.1.len() > 0 {
        done.push(st.1)
    } else {
        done
    }
}

pub fn lines_chars(s: &[char]) -> (r: Vec<Vec<char>>)
    ensures
        views(r@) == lines_of(s@),
{
    let pieces = split_chars(s, '\n');
    let ghost st = split_state(s@, '\n');
    assert(views(pieces@) == st.0.push(st.1));
    assert(views(pieces@).len() == pieces@.len());
    let mut out: Vec<Vec<char>> = Vec::new();
    let mut i: usize = 0;
    while i < pieces.len() - 1
        invariant
            pieces@.len() == st.0.len() + 1,
            i < pieces@.len(),
            views(pieces@) == st.0.push(st.1),
            views(out@) == stripped(st.0.take(i as int)),
        decreases pieces@.len() - i,
    {
        let p = &pieces[i];
        assert(views(pieces@)[i as int] == p@);
        assert(st.0.push(st.1)[i as int] == st.0[i as int]);
        let mut l = slice_of(p.as_slice(), 0, p.len());
        if l.len() > 0 && l[l.len() - 1] == '\r' {
            l.pop();
        }
        assert(l@ =~= strip_cr(st.0[i as int]));
        let ghost old_out = out@;
        out.push(l);
        assert(views(out@) =~= views(old_out).push(l@));
        assert(stripped(st.0.take(i + 1)) =~= stripped(st.0.take(i as int)).push(
            strip_cr(st.0[i as int]),
        ));
        i += 1;
    }
    assert(st.0.take(i as int) =~= st.0);
    let last = &pieces[i];
    assert(views(pieces@)[i as int] == last@);
    assert(st.0.push(st.1)[i as int] == st.1);
    assert(views(out@) == stripped(st.0));
    if last.len() > 0 {
        let l = slice_of(last.as_slice(), 0, last.len());
        assert(l@ =~= st.1);
        let ghost old_out = out@;
        out.push(l);
        assert(views(out@) =~= views(old_out).push(l@));
    }
    assert(views(out@) =~= lines_of(s@));
    out
}

/// `str::split_whitespace`: the maximal runs of non-whitespace characters,
/// as finished runs and the run still open.
pub open spec fn tokens_state(s: Seq<char>) -> (Seq<Seq<char>>, Seq<char>)
    decreases s.len(),
{
    if s.len() == 0 {
        (seq![], seq![])
    } else {
        let st = tokens_state(s.drop_last());
        if is_white(s.last()) {
            if st.1.len() > 0 {
                (st.0.push(st.1), seq![])
            } else {
                (st.0, seq![])
            }
        } else {
            (st.0, st.1.push(s.last()))
        }
    }
}

pub open spec fn tokens_of(s: Seq<char>) -> Seq<Seq<char>> {
    let st = tokens_state(s);
    if st.1.len() > 0 {
        st.0.push(st.1)
    } else {
        st.0
    }
}

/// `str::split_whitespace().nth(n)`.
pub open spec fn token_nth(s: Seq<char>, n: int) -> Option<Seq<char>> {
    if 0 <= n < tokens_of(s).len() {
        Some(tokens_of(s)[n])
    } else {
        None
    }
}

pub fn tokens_chars(s: &[char]) -> (r: Vec<Vec<char>>)
    ensures
        views(r@) == tokens_of(s@),
{
    let mut out: Vec<Vec<char>> = Vec::new();
    let mut cur: Vec<char> = Vec::new();
    let mut i: usize = 0;
    while i < s.len()
        invariant
            i <= s@.len(),
            views(out@) == tokens_state(s@.take(i as int)).0,
            cur@ == tokens_state(s@.take(i as int)).1,
        decreases s@.len() - i,
    {
        assert(s@.take(i + 1).drop_last() =~= s@.take(i as int));
        let c = s[i];
        if is_white_char(c) {
            if cur.len() > 0 {
                let ghost old_out = out@;
                let done = cur;
                out.push(done);
                assert(views(out@) =~= views(old_out).push(done@));
            }
            cur = Vec::new();
            assert(cur@ =~= seq![]);
        } else {
            cur.push(c);
        }
        i += 1;
    }
    assert(s@.take(s@.len() as int) =~= s@);
    if cur.len() > 0 {
        let ghost old_out = out@;
        let done = cur;
        out.push(done);
        assert(views(out@) =~= views(old_out).push(done@));
    }
    out
}

/// `s` starts with `p`.
pub open spec fn has_prefix(s: Seq<char>, p: Seq<char>) -> bool {
    p.len() <= s.len() && s.take(p.len() as int) == p
}

/// `p` occurs in `s` at position `i`.
pub open spec fn occurs_at(s: Seq<char>, p: Seq<char>, i: int) -> bool {
    0 <= i && i + p.len() <= s.len() && s.subrange(i, i + p.len()) == p
}

/// The first position at or after `i` where `p` occurs in `s` (`str::find`
/// from `i` on).
pub open spec fn find_from(s: Seq<char>, p: Seq<char>, i: int) -> Option<int>
    decreases s.len() + 1 - i,
{
    if i < 0 || i + p.len() > s.len() {
        None
    } else if occurs_at(s, p, i) {
        Some(i)
    } else {
        find_from(s, p, i + 1)
    }
}

/// `str::contains`.
pub open spec fn contains(s: Seq<char>, p: Seq<char>) -> bool {
    find_from(s, p, 0) is Some
}

pub fn occurs_at_chars(s: &[char], p: &[char], i: usize) -> (r: bool)
    requires
        i <= s@.len(),
    ensures
        r == occurs_at(s@, p@, i as int),
{
    if p.len() > s.len() - i {
        return false;
    }
    assert(i + p@.len() <= s@.len());
    let mut k: usize = 0;
    while k < p.len()
        invariant
            i + p@.len() <= s@.len() <= usize::MAX,
            k <= p@.len(),
            s@.subrange(i as int, i + k) =~= p@.take(k as int),
        decreases p@.len() - k,
    {
        if s[i + k] != p[k] {
            assert(s@.subrange(i as int, i + p@.len())[k as int] != p@[k as int]);
            return false;
        }
        k += 1;
    }
    assert(p@.take(k as int) =~= p@);
    true
}

pub fn starts_with_chars(s: &[char], p: &[char]) -> (r: bool)
    ensures
        r == has_prefix(s@, p@),
{
    let r = occurs_at_chars(s, p, 0);
    assert(s@.subrange(0, p@.len() as int) =~= s@.take(p@.len() as int));
    r
}

pub fn find_chars(s: &[char], p: &[char]) -> (r: Option<usize>)
    ensures
        r matches Some(i) ==> find_from(s@, p@, 0) == Some(i as int) && occurs_at(s@, p@, i as int),
        r is None ==> find_from(s@, p@, 0) is None,
{
    if p.len() == 0 {
        assert(s@.subrange(0, 0) =~= p@);
        return Some(0);
    }
    let mut i: usize = 0;
    while i < s.len()
        invariant
            p@.len() > 0,
            i <= s@.len(),
            find_from(s@, p@, 0) == find_from(s@, p@, i as int),
        decreases s@.len() - i,
    {
        if p.len() > s.len() - i {
            return None;
        }
        if occurs_at_chars(s, p, i) {
            return Some(i);
        }
        i += 1;
    }
    None
}

/// The decimal digit `d` as a character.
pub open spec fn digit_char(d: nat) -> char {
    ((48 + d) as u8) as char
}

pub open spec fn is_digit(c: char) -> bool {
    48 <= c as u32 && c as u32 <= 57
}

pub open spec fn digit_value(c: char) -> nat {
    (c as u32 - 48) as nat
}

/// The decimal representation of `n`, without leading zeros.
pub open spec fn decimal(n: nat) -> Seq<char>
    decreases n,
{
    if n < 10 {
        seq![digit_char(n)]
    } else {
        decimal(n / 10).push(digit_char(n % 10))
    }
}

pub fn decimal_chars(n: u64) -> (r: Vec<char>)
    ensures
        r@ == decimal(n as nat),
{
    let mut acc: Vec<char> = Vec::new();
    let mut m: u64 = n;
    while m >= 10
        invariant
            decimal(n as nat) == decimal(m as nat) + acc@,
        decreases m,
    {
        let d = ((48 + m % 10) as u8) as char;
        assert(decimal(m as nat) == decimal((m / 10) as nat).push(digit_char((m % 10) as nat)));
        let ghost old_acc = acc@;
        acc.insert(0, d);
        assert(acc@ =~= seq![d] + old_acc);
        assert(decimal((m / 10) as nat) + acc@ =~= decimal((m / 10) as nat).push(d) + old_acc);
        m = m / 10;
    }
    let mut r: Vec<char> = Vec::new();
    r.push(((48 + m) as u8) as char);
    assert(decimal(m as nat) =~= r@);
    r.append(&mut acc);
    r
}

/// The number that a run of decimal digits stands for.
pub open spec fn digits_value(s: Seq<char>) -> nat
    decreases s.len(),
{
    if s.len() == 0 {
        0
    } else {
        digits_value(s.drop_last()) * 10 + digit_value(s.last())
    }
}

pub open spec fn all_digits(s: Seq<char>) -> bool {
    forall|i: int| 0 <= i < s.len() ==> is_digit(#[trigger] s[i])
}

/// What `str::parse::<u64>` reads: an optional `+`, then one or more decimal
/// digits; the number they stand for, whatever its size.
pub open spec fn unsigned_of(t: Seq<char>) -> Option<nat> {
    let body = if t.len() > 0 && t[0] == '+' {
        t.drop_first()
    } else {
        t
    };
    if body.len() > 0 && all_digits(body) {
        Some(digits_value(body))
    } else {
        None
    }
}

/// `str::parse::<u64>`: the number, where it is well formed and fits.
pub open spec fn parse_u64(t: Seq<char>) -> Option<u64> {
    match unsigned_of(t) {
        Some(v) => if v <= u64::MAX {
            Some(v as u64)
        } else {
            None
        },
        None => None,
    }
}

proof fn lemma_digits_grow(s: Seq<char>, k: int)
    requires
        0 <= k <= s.len(),
    ensures
        digits_value(s.take(k)) <= digits_value(s),
    decreases s.len(),
{
    if k < s.len() {
        lemma_digits_grow(s.drop_last(), k);
        assert(s.drop_last().take(k) =~= s.take(k));
    } else {
        assert(s.take(k) =~= s);
    }
}

pub fn parse_u64_chars(t: &[char]) -> (r: Option<u64>)
    ensures
        r == parse_u64(t@),
{
    let start: usize = if t.len() > 0 && t[0] == '+' {
        1
    } else {
        0
    };
    let ghost body = t@.skip(start as int);
    assert(body =~= (if t@.len() > 0 && t@[0] == '+' {
        t@.drop_first()
    } else {
        t@
    }));
    assert(unsigned_of(t@) == (if body.len() > 0 && all_digits(body) {
        Some(digits_value(body))
    } else {
        None
    }));
    if start >= t.len() {
        assert(unsigned_of(t@) is None);
        return None;
    }
    let mut i: usize = start;
    while i < t.len()
        invariant
            start <= i <= t@.len(),
            body == t@.skip(start as int),
            unsigned_of(t@) == (if body.len() > 0 && all_digits(body) {
                Some(digits_value(body))
            } else {
                None
            }),
            forall|j: int| 0 <= j < i - start ==> is_digit(#[trigger] body[j]),
        decreases t@.len() - i,
    {
        let u = t[i] as u32;
        if !(48 <= u && u <= 57) {
            assert(!is_digit(body[i - start]));
            assert(!all_digits(body));
            assert(unsigned_of(t@) is None);
            return None;
        }
        i += 1;
    }
    let mut v: u64 = 0;
    let mut i: usize = start;
    while i < t.len()
        invariant
            start <= i <= t@.len(),
            body == t@.skip(start as int),
            start < t@.len(),
            all_digits(body),
            unsigned_of(t@) == Some(digits_value(body)),
            v == digits_value(body.take(i - start)),
        decreases t@.len() - i,
    {
        assert(body.take(i - start + 1).drop_last() =~= body.take(i - start));
        assert(is_digit(body[i - start]));
        let d = (t[i] as u32 - 48) as u64;
        if v > (u64::MAX - d) / 10 {
            proof {
                let k = i - start;
                assert(v * 10 + d > u64::MAX) by (nonlinear_arith)
                    requires
                        v > (u64::MAX - d) / 10,
                        d <= 9,
                ;
                assert(body.take(k + 1).last() == body[k]);
                assert(digits_value(body.take(k + 1)) == v * 10 + d);
                lemma_digits_grow(body, k + 1);
                assert(unsigned_of(t@) == Some(digits_value(body)));
            }
            return None;
        }
        v = v * 10 + d;
        i += 1;
    }
    assert(body.take(body.len() as int) =~= body);
    Some(v)
}

} // verus!
