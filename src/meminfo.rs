use vstd::prelude::*;
use vstd::slice::slice_subrange;

use crate::snapshot::{zero_spec, App, MemorySnapshot};

verus! {

/// The counters of the meminfo text that a snapshot holds.
#[derive(Clone, Copy, Debug, PartialEq, Eq, Structural)]
pub enum Counter {
    MemTotal,
    MemFree,
    MemAvailable,
    Buffers,
    Cached,
    Shmem,
    SwapTotal,
    SwapFree,
}

/// The key under which the source names a counter.
pub open spec fn counter_key_spec(c: Counter) -> Seq<char> {
    match c {
        Counter::MemTotal => seq!['M', 'e', 'm', 'T', 'o', 't', 'a', 'l'],
        Counter::MemFree => seq!['M', 'e', 'm', 'F', 'r', 'e', 'e'],
        Counter::MemAvailable => seq!['M', 'e', 'm', 'A', 'v', 'a', 'i', 'l', 'a', 'b', 'l', 'e'],
        Counter::Buffers => seq!['B', 'u', 'f', 'f', 'e', 'r', 's'],
        Counter::Cached => seq!['C', 'a', 'c', 'h', 'e', 'd'],
        Counter::Shmem => seq!['S', 'h', 'm', 'e', 'm'],
        Counter::SwapTotal => seq!['S', 'w', 'a', 'p', 'T', 'o', 't', 'a', 'l'],
        Counter::SwapFree => seq!['S', 'w', 'a', 'p', 'F', 'r', 'e', 'e'],
    }
}

/// The counter a key names, if any.
pub open spec fn key_counter_spec(key: Seq<char>) -> Option<Counter> {
    if key == counter_key_spec(Counter::MemTotal) {
        Some(Counter::MemTotal)
    } else if key == counter_key_spec(Counter::MemFree) {
        Some(Counter::MemFree)
    } else if key == counter_key_spec(Counter::MemAvailable) {
        Some(Counter::MemAvailable)
    } else if key == counter_key_spec(Counter::Buffers) {
        Some(Counter::Buffers)
    } else if key == counter_key_spec(Counter::Cached) {
        Some(Counter::Cached)
    } else if key == counter_key_spec(Counter::Shmem) {
        Some(Counter::Shmem)
    } else if key == counter_key_spec(Counter::SwapTotal) {
        Some(Counter::SwapTotal)
    } else if key == counter_key_spec(Counter::SwapFree) {
        Some(Counter::SwapFree)
    } else {
        None
    }
}

/// The snapshot with one counter replaced.
pub open spec fn with_counter_spec(s: MemorySnapshot, c: Counter, v: u64) -> MemorySnapshot {
    match c {
        Counter::MemTotal => MemorySnapshot { total: v, ..s },
        Counter::MemFree => MemorySnapshot { free: v, ..s },
        Counter::MemAvailable => MemorySnapshot { available: v, ..s },
        Counter::Buffers => MemorySnapshot { buffers: v, ..s },
        Counter::Cached => MemorySnapshot { cached: v, ..s },
        Counter::Shmem => MemorySnapshot { shared: v, ..s },
        Counter::SwapTotal => MemorySnapshot { swap_total: v, ..s },
        Counter::SwapFree => MemorySnapshot { swap_free: v, ..s },
    }
}

/// Unicode's White_Space characters, those that `char::is_whitespace` accepts.
pub open spec fn is_space_spec(c: char) -> bool {
    let u = c as u32;
    (0x09 <= u <= 0x0d) || u == 0x20 || u == 0x85 || u == 0xa0 || u == 0x1680 || (0x2000 <= u
        <= 0x200a) || u == 0x2028 || u == 0x2029 || u == 0x202f || u == 0x205f || u == 0x3000
}

/// `s` without its leading whitespace.
pub open spec fn trim_start_spec(s: Seq<char>) -> Seq<char>
    decreases s.len(),
{
    if s.len() > 0 && is_space_spec(s[0]) {
        trim_start_spec(s.drop_first())
    } else {
        s
    }
}

/// `s` without its trailing whitespace.
pub open spec fn trim_end_spec(s: Seq<char>) -> Seq<char>
    decreases s.len(),
{
    if s.len() > 0 && is_space_spec(s.last()) {
        trim_end_spec(s.drop_last())
    } else {
        s
    }
}

pub open spec fn trim_spec(s: Seq<char>) -> Seq<char> {
    trim_end_spec(trim_start_spec(s))
}

/// The characters of `s` up to its first whitespace.
pub open spec fn token_spec(s: Seq<char>) -> Seq<char>
    decreases s.len(),
{
    if s.len() == 0 || is_space_spec(s[0]) {
        Seq::empty()
    } else {
        seq![s[0]] + token_spec(s.drop_first())
    }
}

/// The first whitespace-separated token of `s`; empty if it has none.
pub open spec fn first_token_spec(s: Seq<char>) -> Seq<char> {
    token_spec(trim_start_spec(s))
}

pub open spec fn is_digit_spec(c: char) -> bool {
    0x30 <= (c as u32) <= 0x39
}

/// The number a string of decimal digits denotes.
pub open spec fn digits_value(s: Seq<char>) -> int
    decreases s.len(),
{
    if s.len() == 0 {
        0
    } else {
        digits_value(s.drop_last()) * 10 + (s.last() as u32 - 0x30)
    }
}

/// The digits of a token, after an optional leading `+`.
pub open spec fn unsigned_digits(tok: Seq<char>) -> Seq<char> {
    if tok.len() > 0 && tok[0] == '+' {
        tok.drop_first()
    } else {
        tok
    }
}

/// A token read as a `u64` the way `str::parse::<u64>` reads it: an optional
/// `+`, then one or more decimal digits, with a value that fits.
pub open spec fn parse_u64_spec(tok: Seq<char>) -> Option<u64> {
    let d = unsigned_digits(tok);
    if d.len() > 0 && (forall|i: int| 0 <= i < d.len() ==> is_digit_spec(#[trigger] d[i]))
        && digits_value(d) <= u64::MAX {
        Some(digits_value(d) as u64)
    } else {
        None
    }
}

/// `line` holds exactly one colon, at `i`.
pub open spec fn single_colon_at(line: Seq<char>, i: int) -> bool {
    &&& 0 <= i < line.len()
    &&& line[i] == ':'
    &&& forall|j: int| 0 <= j < line.len() && j != i ==> #[trigger] line[j] != ':'
}

/// What a line contributes: with exactly one colon, a key that names a
/// counter before it and a number as the first token after it, that counter
/// and number; nothing otherwise.
pub open spec fn entry_spec(line: Seq<char>) -> Option<(Counter, u64)> {
    if exists|i: int| single_colon_at(line, i) {
        let i = choose|i: int| single_colon_at(line, i);
        match key_counter_spec(trim_spec(line.subrange(0, i))) {
            Some(c) => match parse_u64_spec(first_token_spec(line.subrange(i + 1, line.len() as int))) {
                Some(v) => Some((c, v)),
                None => None,
            },
            None => None,
        }
    } else {
        None
    }
}

pub open spec fn apply_line_spec(s: MemorySnapshot, line: Seq<char>) -> MemorySnapshot {
    match entry_spec(line) {
        Some((c, v)) => with_counter_spec(s, c, v),
        None => s,
    }
}

/// The length of the first line of `text`, without its newline.
pub open spec fn line_end(text: Seq<char>) -> nat
    decreases text.len(),
{
    if text.len() == 0 || text[0] == '\n' {
        0
    } else {
        1 + line_end(text.drop_first())
    }
}

/// `s` after each line of `text` in turn; a later line overrides an earlier
/// one for the same counter.
pub open spec fn apply_text_spec(s: MemorySnapshot, text: Seq<char>) -> MemorySnapshot
    decreases text.len(),
{
    let k = line_end(text);
    if k >= text.len() {
        apply_line_spec(s, text)
    } else {
        apply_text_spec(
            apply_line_spec(s, text.subrange(0, k as int)),
            text.subrange(k as int + 1, text.len() as int),
        )
    }
}

/// The snapshot that a meminfo text describes; a counter it does not name is zero.
pub open spec fn snapshot_of_text(text: Seq<char>) -> MemorySnapshot {
    apply_text_spec(zero_spec(), text)
}

proof fn lemma_trim_start(s: Seq<char>, k: int)
    requires
        0 <= k <= s.len(),
        forall|j: int| 0 <= j < k ==> is_space_spec(#[trigger] s[j]),
        k == s.len() || !is_space_spec(s[k]),
    ensures
        trim_start_spec(s) == s.subrange(k, s.len() as int),
    decreases k,
{
    if k == 0 {
        assert(s.subrange(0, s.len() as int) =~= s);
    } else {
        let t = s.drop_first();
        assert forall|j: int| 0 <= j < k - 1 implies is_space_spec(#[trigger] t[j]) by {
            assert(t[j] == s[j + 1]);
        }
        lemma_trim_start(t, k - 1);
        assert(t.subrange(k - 1, t.len() as int) =~= s.subrange(k, s.len() as int));
    }
}

proof fn lemma_trim_end(s: Seq<char>, k: int)
    requires
        0 <= k <= s.len(),
        forall|j: int| k <= j < s.len() ==> is_space_spec(#[trigger] s[j]),
        k == 0 || !is_space_spec(s[k - 1]),
    ensures
        trim_end_spec(s) == s.subrange(0, k),
    decreases s.len() - k,
{
    if k == s.len() {
        assert(s.subrange(0, s.len() as int) =~= s);
    } else {
        let t = s.drop_last();
        assert(is_space_spec(s[s.len() - 1]));
        assert forall|j: int| k <= j < t.len() implies is_space_spec(#[trigger] t[j]) by {
            assert(t[j] == s[j]);
        }
        if k > 0 {
            assert(t[k - 1] == s[k - 1]);
        }
        lemma_trim_end(t, k);
        assert(t.subrange(0, k) =~= s.subrange(0, k));
    }
}

proof fn lemma_token(s: Seq<char>, k: int)
    requires
        0 <= k <= s.len(),
        forall|j: int| 0 <= j < k ==> !is_space_spec(#[trigger] s[j]),
        k == s.len() || is_space_spec(s[k]),
    ensures
        token_spec(s) == s.subrange(0, k),
    decreases k,
{
    if k == 0 {
        assert(s.subrange(0, 0) =~= Seq::<char>::empty());
    } else {
        let t = s.drop_first();
        assert forall|j: int| 0 <= j < k - 1 implies !is_space_spec(#[trigger] t[j]) by {
            assert(t[j] == s[j + 1]);
        }
        if k < s.len() {
            assert(t[k - 1] == s[k]);
        }
        lemma_token(t, k - 1);
        assert(seq![s[0]] + t.subrange(0, k - 1) =~= s.subrange(0, k));
    }
}

proof fn lemma_line_end(s: Seq<char>, k: int)
    requires
        0 <= k <= s.len(),
        forall|j: int| 0 <= j < k ==> #[trigger] s[j] != '\n',
        k == s.len() || s[k] == '\n',
    ensures
        line_end(s) == k,
    decreases k,
{
    if k > 0 {
        let t = s.drop_first();
        assert forall|j: int| 0 <= j < k - 1 implies #[trigger] t[j] != '\n' by {
            assert(t[j] == s[j + 1]);
        }
        if k < s.len() {
            assert(t[k - 1] == s[k]);
        }
        lemma_line_end(t, k - 1);
    }
}

proof fn lemma_digits_nonneg(s: Seq<char>)
    requires
        forall|i: int| 0 <= i < s.len() ==> is_digit_spec(#[trigger] s[i]),
    ensures
        digits_value(s) >= 0,
    decreases s.len(),
{
    if s.len() > 0 {
        let t = s.drop_last();
        assert forall|i: int| 0 <= i < t.len() implies is_digit_spec(#[trigger] t[i]) by {
            assert(t[i] == s[i]);
        }
        assert(is_digit_spec(s[s.len() - 1]));
        lemma_digits_nonneg(t);
    }
}

proof fn lemma_digits_prefix(s: Seq<char>, m: int)
    requires
        0 <= m <= s.len(),
        forall|i: int| 0 <= i < s.len() ==> is_digit_spec(#[trigger] s[i]),
    ensures
        digits_value(s.subrange(0, m)) <= digits_value(s),
    decreases s.len() - m,
{
    if m == s.len() {
        assert(s.subrange(0, m) =~= s);
    } else {
        let t = s.drop_last();
        assert forall|i: int| 0 <= i < t.len() implies is_digit_spec(#[trigger] t[i]) by {
            assert(t[i] == s[i]);
        }
        assert(is_digit_spec(s[s.len() - 1]));
        lemma_digits_prefix(t, m);
        lemma_digits_nonneg(t);
        assert(t.subrange(0, m) =~= s.subrange(0, m));
    }
}

/// Whether `c` is whitespace, as `char::is_whitespace` has it.
pub fn is_space(c: char) -> (r: bool)
    ensures
        r == is_space_spec(c),
{
    let u = c as u32;
    (0x09 <= u && u <= 0x0d) || u == 0x20 || u == 0x85 || u == 0xa0 || u == 0x1680 || (0x2000 <= u
        && u <= 0x200a) || u == 0x2028 || u == 0x2029 || u == 0x202f || u == 0x205f || u == 0x3000
}

/// The bounds of `s` without its leading and trailing whitespace.
pub fn trim_bounds(s: &[char]) -> (r: (usize, usize))
    ensures
        r.0 <= r.1 <= s@.len(),
        s@.subrange(r.0 as int, r.1 as int) == trim_spec(s@),
{
    let n = s.len();
    let mut lo: usize = 0;
    while lo < n && is_space(s[lo])
        invariant
            lo <= n == s@.len(),
            forall|j: int| 0 <= j < lo ==> is_space_spec(#[trigger] s@[j]),
        decreases n - lo,
    {
        lo = lo + 1;
    }
    let mut hi: usize = n;
    while hi > lo && is_space(s[hi - 1])
        invariant
            lo <= hi <= n == s@.len(),
            forall|j: int| hi <= j < n ==> is_space_spec(#[trigger] s@[j]),
        decreases hi,
    {
        hi = hi - 1;
    }
    proof {
        lemma_trim_start(s@, lo as int);
        let t = s@.subrange(lo as int, n as int);
        assert forall|j: int| hi - lo <= j < t.len() implies is_space_spec(#[trigger] t[j]) by {
            assert(t[j] == s@[lo + j]);
        }
        if hi > lo {
            assert(t[hi - lo - 1] == s@[hi - 1]);
        }
        lemma_trim_end(t, hi - lo);
        assert(t.subrange(0, hi - lo) =~= s@.subrange(lo as int, hi as int));
    }
    (lo, hi)
}

/// The bounds of the first whitespace-separated token of `s` (empty if none).
pub fn first_token_bounds(s: &[char]) -> (r: (usize, usize))
    ensures
        r.0 <= r.1 <= s@.len(),
        s@.subrange(r.0 as int, r.1 as int) == first_token_spec(s@),
{
    let n = s.len();
    let mut lo: usize = 0;
    while lo < n && is_space(s[lo])
        invariant
            lo <= n == s@.len(),
            forall|j: int| 0 <= j < lo ==> is_space_spec(#[trigger] s@[j]),
        decreases n - lo,
    {
        lo = lo + 1;
    }
    let mut hi: usize = lo;
    while hi < n && !is_space(s[hi])
        invariant
            lo <= hi <= n == s@.len(),
            forall|j: int| lo <= j < hi ==> !is_space_spec(#[trigger] s@[j]),
        decreases n - hi,
    {
        hi = hi + 1;
    }
    proof {
        lemma_trim_start(s@, lo as int);
        let t = s@.subrange(lo as int, n as int);
        assert forall|j: int| 0 <= j < hi - lo implies !is_space_spec(#[trigger] t[j]) by {
            assert(t[j] == s@[lo + j]);
        }
        if hi < n {
            assert(t[hi - lo] == s@[hi as int]);
        }
        lemma_token(t, hi - lo);
        assert(t.subrange(0, hi - lo) =~= s@.subrange(lo as int, hi as int));
    }
    (lo, hi)
}

/// Reads a token as `str::parse::<u64>` does: an optional `+`, then decimal
/// digits only, with a value that fits in a `u64`.
pub fn parse_u64(tok: &[char]) -> (r: Option<u64>)
    ensures
        r == parse_u64_spec(tok@),
{
    let n = tok.len();
    let mut start: usize = 0;
    if n > 0 && tok[0] == '+' {
        start = 1;
    }
    if start >= n {
        return None;
    }
    let d = slice_subrange(tok, start, n);
    assert(d@ =~= unsigned_digits(tok@));
    let mut i: usize = 0;
    while i < d.len()
        invariant
            i <= d@.len(),
            d@ == unsigned_digits(tok@),
            forall|j: int| 0 <= j < i ==> is_digit_spec(#[trigger] d@[j]),
        decreases d@.len() - i,
    {
        let u = d[i] as u32;
        if u < 0x30 || u > 0x39 {
            assert(!is_digit_spec(d@[i as int]));
            return None;
        }
        i = i + 1;
    }
    let mut acc: u64 = 0;
    let mut k: usize = 0;
    while k < d.len()
        invariant
            k <= d@.len(),
            d@ == unsigned_digits(tok@),
            d@.len() > 0,
            forall|j: int| 0 <= j < d@.len() ==> is_digit_spec(#[trigger] d@[j]),
            acc == digits_value(d@.subrange(0, k as int)),
        decreases d@.len() - k,
    {
        let dig = (d[k] as u32 - 0x30) as u64;
        let ghost pre = d@.subrange(0, k + 1);
        proof {
            assert(pre.drop_last() =~= d@.subrange(0, k as int));
            assert(pre.last() == d@[k as int]);
            assert(is_digit_spec(d@[k as int]));
            assert(digits_value(pre) == acc * 10 + dig);
        }
        match acc.checked_mul(10) {
            None => {
                proof {
                    lemma_digits_prefix(d@, k + 1);
                }
                return None;
            },
            Some(m) => match m.checked_add(dig) {
                None => {
                    proof {
                        lemma_digits_prefix(d@, k + 1);
                    }
                    return None;
                },
                Some(a) => {
                    acc = a;
                },
            },
        }
        k = k + 1;
    }
    assert(d@.subrange(0, d@.len() as int) =~= d@);
    Some(acc)
}

/// Whether two character sequences are equal.
fn chars_equal(a: &[char], b: &[char]) -> (r: bool)
    ensures
        r == (a@ == b@),
{
    if a.len() != b.len() {
        return false;
    }
    let mut i: usize = 0;
    while i < a.len()
        invariant
            i <= a@.len() == b@.len(),
            forall|j: int| 0 <= j < i ==> a@[j] == b@[j],
        decreases a@.len() - i,
    {
        if a[i] != b[i] {
            return false;
        }
        i = i + 1;
    }
    assert(a@ =~= b@);
    true
}

impl Counter {
    /// The key under which the source names this counter.
    pub fn key(&self) -> (r: Vec<char>)
        ensures
            r@ == counter_key_spec(*self),
    {
        let r = match self {
            Counter::MemTotal => vec!['M', 'e', 'm', 'T', 'o', 't', 'a', 'l'],
            Counter::MemFree => vec!['M', 'e', 'm', 'F', 'r', 'e', 'e'],
            Counter::MemAvailable => vec!['M', 'e', 'm', 'A', 'v', 'a', 'i', 'l', 'a', 'b', 'l', 'e'],
            Counter::Buffers => vec!['B', 'u', 'f', 'f', 'e', 'r', 's'],
            Counter::Cached => vec!['C', 'a', 'c', 'h', 'e', 'd'],
            Counter::Shmem => vec!['S', 'h', 'm', 'e', 'm'],
            Counter::SwapTotal => vec!['S', 'w', 'a', 'p', 'T', 'o', 't', 'a', 'l'],
            Counter::SwapFree => vec!['S', 'w', 'a', 'p', 'F', 'r', 'e', 'e'],
        };
        assert(r@ =~= counter_key_spec(*self));
        r
    }
}

/// The counter that `key` names, if any.
pub fn key_counter(key: &[char]) -> (r: Option<Counter>)
    ensures
        r == key_counter_spec(key@),
{
    if chars_equal(key, Counter::MemTotal.key().as_slice()) {
        Some(Counter::MemTotal)
    } else if chars_equal(key, Counter::MemFree.key().as_slice()) {
        Some(Counter::MemFree)
    } else if chars_equal(key, Counter::MemAvailable.key().as_slice()) {
        Some(Counter::MemAvailable)
    } else if chars_equal(key, Counter::Buffers.key().as_slice()) {
        Some(Counter::Buffers)
    } else if chars_equal(key, Counter::Cached.key().as_slice()) {
        Some(Counter::Cached)
    } else if chars_equal(key, Counter::Shmem.key().as_slice()) {
        Some(Counter::Shmem)
    } else if chars_equal(key, Counter::SwapTotal.key().as_slice()) {
        Some(Counter::SwapTotal)
    } else if chars_equal(key, Counter::SwapFree.key().as_slice()) {
        Some(Counter::SwapFree)
    } else {
        None
    }
}

/// Reads one line of the meminfo text: with exactly one colon, a known key
/// before it and a number as the first token after it, that counter and
/// number; `None` for any other line, which is skipped.
pub fn parse_line(line: &[char]) -> (r: Option<(Counter, u64)>)
    ensures
        r == entry_spec(line@),
{
    let n = line.len();
    let mut p: usize = 0;
    while p < n && line[p] != ':'
        invariant
            p <= n == line@.len(),
            forall|j: int| 0 <= j < p ==> #[trigger] line@[j] != ':',
        decreases n - p,
    {
        p = p + 1;
    }
    if p == n {
        assert(!exists|i: int| single_colon_at(line@, i));
        return None;
    }
    let mut q: usize = p + 1;
    while q < n
        invariant
            p < q <= n == line@.len(),
            line@[p as int] == ':',
            forall|j: int| 0 <= j < p ==> #[trigger] line@[j] != ':',
            forall|j: int| p < j < q ==> #[trigger] line@[j] != ':',
        decreases n - q,
    {
        if line[q] == ':' {
            assert forall|i: int| !single_colon_at(line@, i) by {
                if single_colon_at(line@, i) {
                    if i == p {
                        assert(line@[q as int] == ':');
                    } else {
                        assert(line@[p as int] == ':');
                    }
                }
            }
            return None;
        }
        q = q + 1;
    }
    proof {
        assert(single_colon_at(line@, p as int));
        let i = choose|i: int| single_colon_at(line@, i);
        if i != p {
            assert(line@[p as int] == ':');
        }
    }
    let key_part = slice_subrange(line, 0, p);
    let (lo, hi) = trim_bounds(key_part);
    let key = slice_subrange(key_part, lo, hi);
    match key_counter(key) {
        None => None,
        Some(c) => {
            let value_part = slice_subrange(line, p + 1, n);
            let (a, b) = first_token_bounds(value_part);
            let tok = slice_subrange(value_part, a, b);
            match parse_u64(tok) {
                None => None,
                Some(v) => Some((c, v)),
            }
        },
    }
}

impl MemorySnapshot {
    /// This snapshot with counter `c` set to `v`.
    pub fn with_counter(self, c: Counter, v: u64) -> (r: MemorySnapshot)
        ensures
            r == with_counter_spec(self, c, v),
    {
        match c {
            Counter::MemTotal => MemorySnapshot { total: v, ..self },
            Counter::MemFree => MemorySnapshot { free: v, ..self },
            Counter::MemAvailable => MemorySnapshot { available: v, ..self },
            Counter::Buffers => MemorySnapshot { buffers: v, ..self },
            Counter::Cached => MemorySnapshot { cached: v, ..self },
            Counter::Shmem => MemorySnapshot { shared: v, ..self },
            Counter::SwapTotal => MemorySnapshot { swap_total: v, ..self },
            Counter::SwapFree => MemorySnapshot { swap_free: v, ..self },
        }
    }
}

/// `s` with the entry of one line applied, if the line holds one.
fn apply_line(s: MemorySnapshot, line: &[char]) -> (r: MemorySnapshot)
    ensures
        r == apply_line_spec(s, line@),
{
    match parse_line(line) {
        Some((c, v)) => s.with_counter(c, v),
        None => s,
    }
}

/// The snapshot that a meminfo text describes. Lines are separated by
/// newlines; a line that holds no known counter is skipped, a counter that
/// no line names is zero, and where two lines name one counter the later wins.
pub fn parse_meminfo(text: &[char]) -> (r: MemorySnapshot)
    ensures
        r == snapshot_of_text(text@),
{
    let n = text.len();
    let mut snap = MemorySnapshot::zeroed();
    let mut start: usize = 0;
    let mut i: usize = 0;
    assert(text@.subrange(0, n as int) =~= text@);
    while i < n
        invariant
            start <= i <= n == text@.len(),
            forall|j: int| start <= j < i ==> #[trigger] text@[j] != '\n',
            apply_text_spec(snap, text@.subrange(start as int, n as int)) == snapshot_of_text(
                text@,
            ),
        decreases n - i,
    {
        if text[i] == '\n' {
            let line = slice_subrange(text, start, i);
            proof {
                let rest = text@.subrange(start as int, n as int);
                assert forall|j: int| 0 <= j < i - start implies #[trigger] rest[j] != '\n' by {
                    assert(rest[j] == text@[start + j]);
                }
                assert(rest[i - start] == text@[i as int]);
                lemma_line_end(rest, i - start);
                assert(rest.subrange(0, i - start) =~= line@);
                assert(rest.subrange(i - start + 1, rest.len() as int) =~= text@.subrange(
                    i + 1,
                    n as int,
                ));
            }
            snap = apply_line(snap, line);
            start = i + 1;
        }
        i = i + 1;
    }
    let line = slice_subrange(text, start, n);
    proof {
        let rest = text@.subrange(start as int, n as int);
        assert forall|j: int| 0 <= j < n - start implies #[trigger] rest[j] != '\n' by {
            assert(rest[j] == text@[start + j]);
        }
        lemma_line_end(rest, n - start);
        assert(rest =~= line@);
    }
    apply_line(snap, line)
}

impl App {
    /// Replaces the snapshot with the one that a fresh meminfo text describes.
    pub fn update(&mut self, text: &[char])
        ensures
            final(self).snapshot == snapshot_of_text(text@),
    {
        self.snapshot = parse_meminfo(text);
    }
}

} // verus!
