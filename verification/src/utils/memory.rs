//! Memory figures out of a process status text.
//!
//! The text holds one field to a line: a key that ends in a colon, then the
//! value as a decimal number of kibibytes, then the unit. The second word of
//! a line is its value; the figures are given in bytes.

use crate::text::{begins_with, to_chars, vec_occurs_at};
use vstd::prelude::*;

verus! {

/// How much memory a process uses, in bytes.
#[derive(Debug, Clone, Copy, PartialEq, Eq, Structural)]
pub struct MemoryUsage {
    /// What is resident.
    pub rss: u64,
    /// What is mapped.
    pub vms: u64,
    /// What is resident and backed by files.
    pub shared: u64,
}

/// The character separates words.
pub open spec fn is_blank(c: char) -> bool {
    c == ' ' || c == '\t' || c == '\n' || c == '\r' || c == '\x0b' || c == '\x0c'
}

/// The index of the first character at or after `i` that is blank, or not
/// blank, as `blank` says; the length of `s` where there is none.
pub open spec fn next_where(s: Seq<char>, i: int, blank: bool) -> int
    decreases s.len() - i,
{
    if i < 0 || i >= s.len() {
        s.len() as int
    } else if is_blank(s[i]) == blank {
        i
    } else {
        next_where(s, i + 1, blank)
    }
}

/// Where the second word of `s` starts and ends; it is empty where `s` has
/// no second word.
pub open spec fn second_word_bounds(s: Seq<char>) -> (int, int) {
    let first = next_where(s, 0, false);
    let gap = next_where(s, first, true);
    let second = next_where(s, gap, false);
    (second, next_where(s, second, true))
}

/// The number that the decimal digits `s[from..to]` write after the digits
/// that wrote `acc`, or `None` where one of them is no digit or the number
/// does not fit.
pub open spec fn digits_value(s: Seq<char>, from: int, to: int, acc: u64) -> Option<u64>
    decreases to - from,
{
    if from >= to {
        Some(acc)
    } else if !('0' <= s[from] && s[from] <= '9') {
        None
    } else if acc * 10 + (s[from] as u8 - '0' as u8) > u64::MAX {
        None
    } else {
        digits_value(s, from + 1, to, (acc * 10 + (s[from] as u8 - '0' as u8)) as u64)
    }
}

/// The number that the word `s[from..to]` writes: decimal digits, after a
/// plus sign or without one. A word that writes no number counts as 0.
pub open spec fn word_value(s: Seq<char>, from: int, to: int) -> u64 {
    let start = if from < to && s[from] == '+' {
        from + 1
    } else {
        from
    };
    if start >= to {
        0
    } else {
        match digits_value(s, start, to, 0) {
            Some(n) => n,
            None => 0,
        }
    }
}

/// The value of the field that the line states: its second word as a
/// number, or `None` where the line has no second word.
pub open spec fn field_value(line: Seq<char>) -> Option<u64> {
    let (from, to) = second_word_bounds(line);
    if from < to {
        Some(word_value(line, from, to))
    } else {
        None
    }
}

/// The figures in kibibytes after the line `line` is read, `acc` being the
/// figures before: a line that begins with `VmRSS:`, `VmSize:` or `RssFile:`
/// and has a value sets the figure of that name.
pub open spec fn after_line(acc: MemoryUsage, line: Seq<char>) -> MemoryUsage {
    match field_value(line) {
        Some(n) => {
            if begins_with("VmRSS:"@, line) {
                MemoryUsage { rss: n, ..acc }
            } else if begins_with("VmSize:"@, line) {
                MemoryUsage { vms: n, ..acc }
            } else if begins_with("RssFile:"@, line) {
                MemoryUsage { shared: n, ..acc }
            } else {
                acc
            }
        },
        None => acc,
    }
}

/// The index of the line feed that ends the line starting at `i`, or the
/// length of `s` where the line is the last.
pub open spec fn line_end(s: Seq<char>, i: int) -> int
    decreases s.len() - i,
{
    if i < 0 || i >= s.len() {
        s.len() as int
    } else if s[i] == '\n' {
        i
    } else {
        line_end(s, i + 1)
    }
}

/// A line ends at or after its start and within the text.
pub proof fn lemma_line_end(s: Seq<char>, i: int)
    requires
        0 <= i <= s.len(),
    ensures
        i <= line_end(s, i) <= s.len(),
    decreases s.len() - i,
{
    if i < s.len() && s[i] != '\n' {
        lemma_line_end(s, i + 1);
    }
}

/// The figures in kibibytes after the lines of `s` from index `i` on are
/// read, `acc` being the figures before.
pub open spec fn figures_from(s: Seq<char>, i: int, acc: MemoryUsage) -> MemoryUsage
    decreases s.len() - i,
{
    if i < 0 || i >= s.len() {
        acc
    } else {
        let e = line_end(s, i);
        if i <= e < s.len() {
            figures_from(s, e + 1, after_line(acc, s.subrange(i, e)))
        } else {
            after_line(acc, s.subrange(i, s.len() as int))
        }
    }
}

/// `n` kibibytes in bytes, or the largest number where that does not fit.
pub open spec fn in_bytes(n: u64) -> u64 {
    if n * 1024 > u64::MAX {
        u64::MAX
    } else {
        (n * 1024) as u64
    }
}

/// The memory figures that the status text `status` states, in bytes. A
/// figure that the text does not state is 0; where it states one more than
/// once, the last counts.
pub open spec fn usage_of(status: Seq<char>) -> MemoryUsage {
    let kib = figures_from(status, 0, MemoryUsage { rss: 0, vms: 0, shared: 0 });
    MemoryUsage { rss: in_bytes(kib.rss), vms: in_bytes(kib.vms), shared: in_bytes(kib.shared) }
}

fn blank(c: char) -> (b: bool)
    ensures
        b == is_blank(c),
{
    c == ' ' || c == '\t' || c == '\n' || c == '\r' || c == '\x0b' || c == '\x0c'
}

fn skip_where(v: &Vec<char>, from: usize, to: usize, wanted: bool) -> (r: usize)
    requires
        from <= to <= v.len(),
    ensures
        r == next_where(v@.subrange(0, to as int), from as int, wanted),
        from <= r <= to,
{
    let ghost s = v@.subrange(0, to as int);
    let mut i: usize = from;
    while i < to && blank(v[i]) != wanted
        invariant
            from <= i <= to,
            to <= v.len(),
            s == v@.subrange(0, to as int),
            next_where(s, from as int, wanted) == next_where(s, i as int, wanted),
        decreases to - i,
    {
        i += 1;
    }
    i
}

#[verifier::loop_isolation(false)]
fn to_kib(v: &Vec<char>, from: usize, to: usize) -> (r: u64)
    requires
        from <= to <= v.len(),
    ensures
        r == word_value(v@, from as int, to as int),
{
    let start: usize = if from < to && v[from] == '+' {
        from + 1
    } else {
        from
    };
    if start >= to {
        return 0;
    }
    let mut acc: u64 = 0;
    let mut i: usize = start;
    while i < to
        invariant
            start <= i <= to,
            to <= v.len(),
            digits_value(v@, start as int, to as int, 0) == digits_value(
                v@,
                i as int,
                to as int,
                acc,
            ),
        decreases to - i,
    {
        let c = v[i];
        if !('0' <= c && c <= '9') {
            return 0;
        }
        let d: u64 = (c as u8 - '0' as u8) as u64;
        if acc > u64::MAX / 10 {
            return 0;
        }
        let tens: u64 = acc * 10;
        if tens > u64::MAX - d {
            return 0;
        }
        acc = tens + d;
        i += 1;
    }
    acc
}

/// The memory figures that the status text states. See `usage_of`.
#[verifier::loop_isolation(false)]
pub fn get_memory_usage(status: &str) -> (r: MemoryUsage)
    ensures
        r == usage_of(status@),
{
    let v = to_chars(status);
    let rss_key = to_chars("VmRSS:");
    let vms_key = to_chars("VmSize:");
    let shared_key = to_chars("RssFile:");
    let mut acc = MemoryUsage { rss: 0, vms: 0, shared: 0 };
    let ghost first = acc;
    let mut i: usize = 0;
    while i < v.len()
        invariant
            i <= v.len(),
            figures_from(v@, 0, first) == figures_from(v@, i as int, acc),
        decreases v.len() - i,
    {
        let mut e: usize = i;
        while e < v.len() && v[e] != '\n'
            invariant
                i <= e <= v.len(),
                line_end(v@, i as int) == line_end(v@, e as int),
            decreases v.len() - e,
        {
            e += 1;
        }
        proof {
            lemma_line_end(v@, i as int);
        }
        let line_chars = slice_of(&v, i, e);
        let a = skip_where(&line_chars, 0, line_chars.len(), false);
        let b = skip_where(&line_chars, a, line_chars.len(), true);
        let c = skip_where(&line_chars, b, line_chars.len(), false);
        let d = skip_where(&line_chars, c, line_chars.len(), true);
        assert(line_chars@.subrange(0, line_chars@.len() as int) =~= line_chars@);
        if c < d {
            let n = to_kib(&line_chars, c, d);
            if vec_occurs_at(&rss_key, &line_chars, 0) {
                acc = MemoryUsage { rss: n, vms: acc.vms, shared: acc.shared };
            } else if vec_occurs_at(&vms_key, &line_chars, 0) {
                acc = MemoryUsage { rss: acc.rss, vms: n, shared: acc.shared };
            } else if vec_occurs_at(&shared_key, &line_chars, 0) {
                acc = MemoryUsage { rss: acc.rss, vms: acc.vms, shared: n };
            }
        }
        if e < v.len() {
            i = e + 1;
        } else {
            i = e;
        }
    }
    MemoryUsage { rss: bytes_of(acc.rss), vms: bytes_of(acc.vms), shared: bytes_of(acc.shared) }
}

fn bytes_of(n: u64) -> (r: u64)
    ensures
        r == in_bytes(n),
{
    if n > u64::MAX / 1024 {
        u64::MAX
    } else {
        n * 1024
    }
}

fn slice_of(v: &Vec<char>, from: usize, to: usize) -> (r: Vec<char>)
    requires
        from <= to <= v.len(),
    ensures
        r@ == v@.subrange(from as int, to as int),
{
    let mut out: Vec<char> = Vec::new();
    let mut i: usize = from;
    while i < to
        invariant
            from <= i <= to,
            to <= v.len(),
            out@ == v@.subrange(from as int, i as int),
        decreases to - i,
    {
        out.push(v[i]);
        assert(out@ =~= v@.subrange(from as int, i + 1));
        i += 1;
    }
    out
}

} // verus!
