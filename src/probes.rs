//! Parsers that turn the text of one source (a system file, a command's
//! output, an environment variable) into one field of the report, each with
//! its own placeholder.
use vstd::prelude::*;
use crate::format::{format_memory_size, memory_text};
use crate::text::{
    chars_of, decimal, decimal_chars, has_prefix, lines_chars, lines_of, parse_u64,
    parse_u64_chars, slice_of, split_chars, split_nth, split_of, starts_with_chars, string_of,
    token_nth, tokens_chars, trim, trim_chars, views,
};

verus! {

/// The view of an optional text.
pub open spec fn opt_view(o: Option<&str>) -> Option<Seq<char>> {
    match o {
        Some(s) => Some(s@),
        None => None,
    }
}

/// The index of the first line at or after `i` that satisfies `pred`.
pub open spec fn first_from(ls: Seq<Seq<char>>, pred: spec_fn(Seq<char>) -> bool, i: int) -> Option<
    int,
>
    decreases ls.len() - i,
{
    if 0 <= i < ls.len() {
        if pred(ls[i]) {
            Some(i)
        } else {
            first_from(ls, pred, i + 1)
        }
    } else {
        None
    }
}

/// The host name: the hostname file's content trimmed, or `Unknown`.
pub open spec fn hostname_of(content: Option<Seq<char>>) -> Seq<char> {
    match content {
        Some(c) => trim(c),
        None => "Unknown"@,
    }
}

pub fn hostname_from(content: Option<&str>) -> (r: String)
    ensures
        r@ == hostname_of(opt_view(content)),
{
    match content {
        Some(c) => {
            let cs = chars_of(c);
            let t = trim_chars(cs.as_slice());
            string_of(t.as_slice())
        },
        None => String::from_str("Unknown"),
    }
}

pub open spec fn strip_quotes_start(s: Seq<char>) -> Seq<char>
    decreases s.len(),
{
    if s.len() > 0 && s[0] == '"' {
        strip_quotes_start(s.drop_first())
    } else {
        s
    }
}

pub open spec fn strip_quotes_end(s: Seq<char>) -> Seq<char>
    decreases s.len(),
{
    if s.len() > 0 && s.last() == '"' {
        strip_quotes_end(s.drop_last())
    } else {
        s
    }
}

/// `str::trim_matches('"')`: every leading and trailing double quote removed.
pub open spec fn unquote(s: Seq<char>) -> Seq<char> {
    strip_quotes_end(strip_quotes_start(s))
}

pub fn unquote_chars(s: &[char]) -> (r: Vec<char>)
    ensures
        r@ == unquote(s@),
{
    let n = s.len();
    let mut i: usize = 0;
    assert(s@.subrange(0, n as int) =~= s@);
    while i < n && s[i] == '"'
        invariant
            i <= n == s@.len(),
            strip_quotes_start(s@) == strip_quotes_start(s@.subrange(i as int, n as int)),
        decreases n - i,
    {
        assert(s@.subrange(i as int, n as int).drop_first() =~= s@.subrange(i + 1, n as int));
        i += 1;
    }
    let mut j: usize = n;
    while j > i && s[j - 1] == '"'
        invariant
            i <= j <= n == s@.len(),
            unquote(s@) == strip_quotes_end(s@.subrange(i as int, j as int)),
        decreases j,
    {
        assert(s@.subrange(i as int, j as int).drop_last() =~= s@.subrange(i as int, j - 1));
        j -= 1;
    }
    slice_of(s, i, j)
}

pub open spec fn pretty_line() -> spec_fn(Seq<char>) -> bool {
    |l: Seq<char>| has_prefix(l, pretty_key())
}

pub open spec fn pretty_key() -> Seq<char> {
    "PRETTY_NAME="@
}

/// The OS name: the first `PRETTY_NAME=` line of the os-release file, with
/// the key and surrounding quotes removed, or `Linux`.
pub open spec fn os_name_of(content: Option<Seq<char>>) -> Seq<char> {
    match content {
        Some(c) => match first_from(lines_of(c), pretty_line(), 0) {
            Some(k) => unquote(lines_of(c)[k].skip(pretty_key().len() as int)),
            None => "Linux"@,
        },
        None => "Linux"@,
    }
}

pub fn os_name_from(content: Option<&str>) -> (r: String)
    ensures
        r@ == os_name_of(opt_view(content)),
{
    let c = match content {
        Some(c) => c,
        None => {
            return String::from_str("Linux");
        },
    };
    let cs = chars_of(c);
    let ls = lines_chars(cs.as_slice());
    let key = chars_of("PRETTY_NAME=");
    let ghost lv = views(ls@);
    let mut i: usize = 0;
    while i < ls.len()
        invariant
            i <= ls@.len(),
            lv == views(ls@),
            lv == lines_of(c@),
            opt_view(content) == Some(c@),
            key@ == pretty_key(),
            first_from(lv, pretty_line(), 0) == first_from(lv, pretty_line(), i as int),
        decreases ls@.len() - i,
    {
        assert(lv[i as int] == ls@[i as int]@);
        if starts_with_chars(ls[i].as_slice(), key.as_slice()) {
            assert(pretty_line()(lv[i as int]));
            assert(first_from(lv, pretty_line(), i as int) == Some(i as int));
            let rest = slice_of(ls[i].as_slice(), key.len(), ls[i].len());
            assert(rest@ =~= lv[i as int].skip(pretty_key().len() as int));
            let v = unquote_chars(rest.as_slice());
            return string_of(v.as_slice());
        }
        i += 1;
    }
    String::from_str("Linux")
}

/// The kernel release: the command's output trimmed.
pub fn kernel_from(output: &str) -> (r: String)
    ensures
        r@ == trim(output@),
{
    let cs = chars_of(output);
    let t = trim_chars(cs.as_slice());
    string_of(t.as_slice())
}

/// The shell: the last `/`-separated segment of the variable's value, or
/// `Unknown`.
pub open spec fn shell_of(var: Option<Seq<char>>) -> Seq<char> {
    match var {
        Some(v) => split_of(v, '/').last(),
        None => "Unknown"@,
    }
}

pub fn shell_from(var: Option<&str>) -> (r: String)
    ensures
        r@ == shell_of(opt_view(var)),
{
    match var {
        Some(v) => {
            let cs = chars_of(v);
            let parts = split_chars(cs.as_slice(), '/');
            assert(views(parts@).len() == parts@.len());
            assert(views(parts@).last() == parts@.last()@);
            string_of(parts[parts.len() - 1].as_slice())
        },
        None => String::from_str("Unknown"),
    }
}

/// `"{n} ({label})"`, with `n` the number of lines of the output.
pub open spec fn package_line(output: Seq<char>, label: Seq<char>) -> Seq<char> {
    decimal(lines_of(output).len()) + " ("@ + label + ")"@
}

/// The package count: the line count of the first package manager's listing
/// that could be produced, tried as apt, pacman, then rpm; or `Unknown`.
pub open spec fn packages_of(
    dpkg: Option<Seq<char>>,
    pacman: Option<Seq<char>>,
    rpm: Option<Seq<char>>,
) -> Seq<char> {
    match (dpkg, pacman, rpm) {
        (Some(o), _, _) => package_line(o, "apt"@),
        (None, Some(o), _) => package_line(o, "pacman"@),
        (None, None, Some(o)) => package_line(o, "rpm"@),
        (None, None, None) => "Unknown"@,
    }
}

/// A listing from dpkg gives its line count labelled apt, whatever the
/// others hold; with none from dpkg, one from pacman gives its line count
/// labelled pacman.
pub proof fn lemma_package_priority(
    dpkg: Seq<char>,
    pacman: Seq<char>,
    other: Option<Seq<char>>,
    rpm: Option<Seq<char>>,
)
    ensures
        packages_of(Some(dpkg), other, rpm) == decimal(lines_of(dpkg).len()) + " (apt)"@,
        packages_of(None, Some(pacman), rpm) == decimal(lines_of(pacman).len()) + " (pacman)"@,
{
    reveal_strlit(" (");
    reveal_strlit(")");
    reveal_strlit("apt");
    reveal_strlit("pacman");
    reveal_strlit(" (apt)");
    reveal_strlit(" (pacman)");
    assert(" ("@ + "apt"@ + ")"@ =~= " (apt)"@);
    assert(" ("@ + "pacman"@ + ")"@ =~= " (pacman)"@);
    assert(package_line(dpkg, "apt"@) =~= decimal(lines_of(dpkg).len()) + " (apt)"@);
    assert(package_line(pacman, "pacman"@) =~= decimal(lines_of(pacman).len()) + " (pacman)"@);
}

fn package_line_from(output: &str, label: &str) -> (r: String)
    ensures
        r@ == package_line(output@, label@),
{
    let cs = chars_of(output);
    let ls = lines_chars(cs.as_slice());
    assert(views(ls@).len() == ls@.len());
    let n = decimal_chars(ls.len() as u64);
    let mut r = string_of(n.as_slice());
    r.append(" (");
    r.append(label);
    r.append(")");
    r
}

pub fn packages_from(dpkg: Option<&str>, pacman: Option<&str>, rpm: Option<&str>) -> (r: String)
    ensures
        r@ == packages_of(opt_view(dpkg), opt_view(pacman), opt_view(rpm)),
{
    match (dpkg, pacman, rpm) {
        (Some(o), _, _) => package_line_from(o, "apt"),
        (None, Some(o), _) => package_line_from(o, "pacman"),
        (None, None, Some(o)) => package_line_from(o, "rpm"),
        (None, None, None) => String::from_str("Unknown"),
    }
}

pub open spec fn model_line() -> spec_fn(Seq<char>) -> bool {
    |l: Seq<char>| has_prefix(l, model_key())
}

pub open spec fn model_key() -> Seq<char> {
    "model name"@
}

/// The CPU model: on the first `model name` line, the text after its first
/// colon (up to any second one), trimmed; `Unknown` when that line has no
/// colon; `Unknown CPU` when there is no such line.
pub open spec fn cpu_of(content: Option<Seq<char>>) -> Seq<char> {
    match content {
        Some(c) => match first_from(lines_of(c), model_line(), 0) {
            Some(k) => match split_nth(lines_of(c)[k], ':', 1) {
                Some(v) => trim(v),
                None => "Unknown"@,
            },
            None => "Unknown CPU"@,
        },
        None => "Unknown CPU"@,
    }
}

/// The text after the first `sep` of `l`, up to the next one, trimmed.
fn field_after(l: &[char], sep: char, n: usize) -> (r: Option<Vec<char>>)
    ensures
        r matches Some(v) ==> split_nth(l@, sep, n as int) matches Some(f) && v@ == trim(f),
        r is None ==> split_nth(l@, sep, n as int) is None,
{
    let parts = split_chars(l, sep);
    assert(views(parts@).len() == parts@.len());
    if n < parts.len() {
        assert(views(parts@)[n as int] == parts@[n as int]@);
        Some(trim_chars(parts[n].as_slice()))
    } else {
        None
    }
}

pub fn cpu_from(content: Option<&str>) -> (r: String)
    ensures
        r@ == cpu_of(opt_view(content)),
{
    let c = match content {
        Some(c) => c,
        None => {
            return String::from_str("Unknown CPU");
        },
    };
    let cs = chars_of(c);
    let ls = lines_chars(cs.as_slice());
    let key = chars_of("model name");
    let ghost lv = views(ls@);
    let mut i: usize = 0;
    while i < ls.len()
        invariant
            i <= ls@.len(),
            lv == views(ls@),
            lv == lines_of(c@),
            opt_view(content) == Some(c@),
            key@ == model_key(),
            first_from(lv, model_line(), 0) == first_from(lv, model_line(), i as int),
        decreases ls@.len() - i,
    {
        assert(lv[i as int] == ls@[i as int]@);
        if starts_with_chars(ls[i].as_slice(), key.as_slice()) {
            assert(model_line()(lv[i as int]));
            assert(first_from(lv, model_line(), i as int) == Some(i as int));
            return match field_after(ls[i].as_slice(), ':', 1) {
                Some(v) => string_of(v.as_slice()),
                None => String::from_str("Unknown"),
            };
        }
        i += 1;
    }
    String::from_str("Unknown CPU")
}

/// The value of the last line that starts with `key` and whose second
/// whitespace-separated token reads as a `u64`; 0 when there is none.
pub open spec fn key_value(ls: Seq<Seq<char>>, key: Seq<char>) -> u64
    decreases ls.len(),
{
    if ls.len() == 0 {
        0
    } else {
        let l = ls.last();
        if has_prefix(l, key) && token_nth(l, 1) is Some && parse_u64(token_nth(l, 1)->0) is Some {
            parse_u64(token_nth(l, 1)->0)->0
        } else {
            key_value(ls.drop_last(), key)
        }
    }
}

/// The value a line gives for `key`, as `key_value` reads it.
fn line_value(l: &[char], key: &[char]) -> (r: Option<u64>)
    ensures
        r == (if has_prefix(l@, key@) && token_nth(l@, 1) is Some && parse_u64(
            token_nth(l@, 1)->0,
        ) is Some {
            parse_u64(token_nth(l@, 1)->0)
        } else {
            None
        }),
{
    if !starts_with_chars(l, key) {
        return None;
    }
    let toks = tokens_chars(l);
    assert(views(toks@).len() == toks@.len());
    if toks.len() < 2 {
        return None;
    }
    assert(views(toks@)[1] == toks@[1]@);
    parse_u64_chars(toks[1].as_slice())
}

/// Kibibytes in all, and kibibytes available, as the meminfo file gives them.
pub open spec fn mem_total_of(content: Option<Seq<char>>) -> u64 {
    match content {
        Some(c) => key_value(lines_of(c), "MemTotal:"@),
        None => 0,
    }
}

pub open spec fn mem_available_of(content: Option<Seq<char>>) -> u64 {
    match content {
        Some(c) => key_value(lines_of(c), "MemAvailable:"@),
        None => 0,
    }
}

/// Kibibytes in use: all less available, never below zero.
pub open spec fn mem_used_of(content: Option<Seq<char>>) -> nat {
    if mem_total_of(content) >= mem_available_of(content) {
        (mem_total_of(content) - mem_available_of(content)) as nat
    } else {
        0
    }
}

/// Reads the total and available kibibytes from the meminfo file's content.
pub fn memory_kb(content: Option<&str>) -> (r: (u64, u64))
    ensures
        r.0 == mem_total_of(opt_view(content)),
        r.1 == mem_available_of(opt_view(content)),
{
    let c = match content {
        Some(c) => c,
        None => {
            return (0, 0);
        },
    };
    let cs = chars_of(c);
    let ls = lines_chars(cs.as_slice());
    let total_key = chars_of("MemTotal:");
    let avail_key = chars_of("MemAvailable:");
    let ghost lv = views(ls@);
    let mut total: u64 = 0;
    let mut available: u64 = 0;
    let mut i: usize = 0;
    while i < ls.len()
        invariant
            i <= ls@.len(),
            lv == views(ls@),
            lv == lines_of(c@),
            total_key@ == "MemTotal:"@,
            avail_key@ == "MemAvailable:"@,
            total == key_value(lv.take(i as int), "MemTotal:"@),
            available == key_value(lv.take(i as int), "MemAvailable:"@),
        decreases ls@.len() - i,
    {
        assert(lv[i as int] == ls@[i as int]@);
        assert(lv.take(i + 1).drop_last() =~= lv.take(i as int));
        assert(lv.take(i + 1).last() == lv[i as int]);
        if let Some(v) = line_value(ls[i].as_slice(), total_key.as_slice()) {
            total = v;
        }
        if let Some(v) = line_value(ls[i].as_slice(), avail_key.as_slice()) {
            available = v;
        }
        i += 1;
    }
    assert(lv.take(lv.len() as int) =~= lv);
    (total, available)
}

/// Memory in use and in all, each formatted as a size.
pub fn memory_from(content: Option<&str>) -> (r: (String, String))
    ensures
        r.0@ == memory_text(mem_used_of(opt_view(content))),
        r.1@ == memory_text(mem_total_of(opt_view(content)) as nat),
{
    let (total, available) = memory_kb(content);
    let used = if total >= available {
        total - available
    } else {
        0
    };
    (format_memory_size(used), format_memory_size(total))
}

} // verus!
