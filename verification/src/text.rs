//! Character-level text routines with exact contracts.
//!
//! Text is modelled as a `Seq<char>`; every routine states what it computes
//! over that model.
use vstd::prelude::*;
use vstd::string::{StrSliceExecFns, StringExecFns};

verus! {

/// `String::push`: the character is appended at the end.
pub assume_specification[ std::string::String::push ](s: &mut std::string::String, c: char)
    ensures
        final(s)@ == old(s)@.push(c),
;

/// The characters of `s`, in order.
pub fn chars_of(s: &str) -> (out: Vec<char>)
    ensures
        out@ == s@,
{
    let mut out: Vec<char> = Vec::new();
    for c in it: s.chars()
        invariant
            out@ == it.seq().take(it.index() as int),
    {
        out.push(c);
    }
    out
}

/// The text made of `cs[from..to]`.
pub fn string_of_range(cs: &Vec<char>, from: usize, to: usize) -> (out: String)
    requires
        from <= to <= cs.len(),
    ensures
        out@ == cs@.subrange(from as int, to as int),
{
    let mut out = String::new();
    let mut i: usize = from;
    while i < to
        invariant
            from <= i <= to <= cs.len(),
            out@ == cs@.subrange(from as int, i as int),
        decreases to - i,
    {
        out.push(cs[i]);
        i += 1;
    }
    out
}

/// An owned copy of `s`.
pub fn owned(s: &str) -> (out: String)
    ensures
        out@ == s@,
{
    s.to_owned()
}

/// The concatenation of `a` and `b`.
pub fn join2(a: &str, b: &str) -> (out: String)
    ensures
        out@ == a@ + b@,
{
    a.to_owned().concat(b)
}

/// The concatenation of `a`, `b` and `c`.
pub fn join3(a: &str, b: &str, c: &str) -> (out: String)
    ensures
        out@ == a@ + b@ + c@,
{
    a.to_owned().concat(b).concat(c)
}

/// Whether two texts are the same.
pub fn str_eq(a: &str, b: &str) -> (r: bool)
    ensures
        r == (a@ == b@),
{
    let x = chars_of(a);
    let y = chars_of(b);
    if x.len() != y.len() {
        return false;
    }
    let mut i: usize = 0;
    while i < x.len()
        invariant
            i <= x.len() == y.len(),
            x@ == a@,
            y@ == b@,
            forall|k: int| 0 <= k < i ==> x@[k] == y@[k],
        decreases x.len() - i,
    {
        if x[i] != y[i] {
            return false;
        }
        i += 1;
    }
    assert(x@ =~= y@);
    true
}

// ---------------------------------------------------------------------------
// Lexicographic order
// ---------------------------------------------------------------------------

/// `a` and `b` agree before `k`, and `a` is the smaller one there: it ends at
/// `k`, or its character at `k` is the smaller.
pub open spec fn lex_lt_at(a: Seq<char>, b: Seq<char>, k: int) -> bool {
    &&& 0 <= k <= a.len()
    &&& k < b.len()
    &&& forall|i: int| 0 <= i < k ==> a[i] == b[i]
    &&& k == a.len() || (a[k] as int) < (b[k] as int)
}

/// The order of Rust's `str`: lexicographic by code point.
pub open spec fn lex_lt(a: Seq<char>, b: Seq<char>) -> bool {
    exists|k: int| lex_lt_at(a, b, k)
}

pub proof fn lemma_lex_irreflexive(a: Seq<char>)
    ensures
        !lex_lt(a, a),
{
}

pub proof fn lemma_lex_transitive(a: Seq<char>, b: Seq<char>, c: Seq<char>)
    requires
        lex_lt(a, b),
        lex_lt(b, c),
    ensures
        lex_lt(a, c),
{
    let i = choose|k: int| lex_lt_at(a, b, k);
    let j = choose|k: int| lex_lt_at(b, c, k);
    let m = if i < j { i } else { j };
    assert(lex_lt_at(a, c, m));
}

pub proof fn lemma_lex_asymmetric(a: Seq<char>, b: Seq<char>)
    requires
        lex_lt(a, b),
    ensures
        !lex_lt(b, a),
        a != b,
{
    if lex_lt(b, a) {
        lemma_lex_transitive(a, b, a);
    }
    lemma_lex_irreflexive(a);
}

/// The position of the first difference decides.
pub proof fn lemma_lex_total(a: Seq<char>, b: Seq<char>)
    ensures
        lex_lt(a, b) || a == b || lex_lt(b, a),
    decreases a.len(),
{
    lemma_lex_total_from(a, b, 0);
}

proof fn lemma_lex_total_from(a: Seq<char>, b: Seq<char>, k: int)
    requires
        0 <= k <= a.len(),
        k <= b.len(),
        forall|i: int| 0 <= i < k ==> a[i] == b[i],
    ensures
        lex_lt(a, b) || a == b || lex_lt(b, a),
    decreases a.len() - k,
{
    if k == a.len() && k == b.len() {
        assert(a =~= b);
    } else if k == a.len() {
        assert(lex_lt_at(a, b, k));
    } else if k == b.len() {
        assert(lex_lt_at(b, a, k));
    } else if a[k] == b[k] {
        lemma_lex_total_from(a, b, k + 1);
    } else if (a[k] as int) < (b[k] as int) {
        assert(lex_lt_at(a, b, k));
    } else {
        assert(lex_lt_at(b, a, k));
    }
}

/// Whether the code point of `a` is less than that of `b`.
fn char_lt(a: char, b: char) -> (r: bool)
    ensures
        r == ((a as int) < (b as int)),
{
    a < b
}

/// Whether `a` stands before `b`.
pub fn str_lt(a: &str, b: &str) -> (r: bool)
    ensures
        r == lex_lt(a@, b@),
{
    let x = chars_of(a);
    let y = chars_of(b);
    let mut k: usize = 0;
    while k < x.len() && k < y.len()
        invariant
            k <= x.len(),
            k <= y.len(),
            x@ == a@,
            y@ == b@,
            forall|i: int| 0 <= i < k ==> x@[i] == y@[i],
        decreases x.len() - k,
    {
        if x[k] != y[k] {
            let less = char_lt(x[k], y[k]);
            proof {
                if less {
                    assert(lex_lt_at(a@, b@, k as int));
                } else {
                    assert(lex_lt_at(b@, a@, k as int));
                    lemma_lex_asymmetric(b@, a@);
                }
            }
            return less;
        }
        k += 1;
    }
    let less = k < y.len();
    proof {
        if less {
            assert(lex_lt_at(a@, b@, k as int));
        } else if lex_lt(a@, b@) {
            let j = choose|j: int| lex_lt_at(a@, b@, j);
            assert(j < k);
        }
    }
    less
}

// ---------------------------------------------------------------------------
// Searching
// ---------------------------------------------------------------------------

/// `needle` stands in `hay` at position `i`.
pub open spec fn occurs_at(hay: Seq<char>, needle: Seq<char>, i: int) -> bool {
    &&& 0 <= i
    &&& i + needle.len() <= hay.len()
    &&& hay.subrange(i, i + needle.len()) == needle
}

/// `needle` stands somewhere in `hay`.
pub open spec fn has_text(hay: Seq<char>, needle: Seq<char>) -> bool {
    exists|i: int| occurs_at(hay, needle, i)
}

/// `hay` begins with `needle`.
pub open spec fn begins_with(hay: Seq<char>, needle: Seq<char>) -> bool {
    occurs_at(hay, needle, 0)
}

/// `hay` ends with `needle`.
pub open spec fn finishes_with(hay: Seq<char>, needle: Seq<char>) -> bool {
    occurs_at(hay, needle, hay.len() - needle.len())
}

/// Whether `needle` stands in `hay` at `i`.
pub fn matches_at(hay: &Vec<char>, needle: &Vec<char>, i: usize) -> (r: bool)
    requires
        i <= hay.len(),
    ensures
        r == occurs_at(hay@, needle@, i as int),
{
    if hay.len() - i < needle.len() {
        return false;
    }
    let mut k: usize = 0;
    while k < needle.len()
        invariant
            k <= needle.len(),
            i + needle.len() <= hay.len(),
            forall|j: int| 0 <= j < k ==> hay@[i + j] == needle@[j],
        decreases needle.len() - k,
    {
        if hay[i + k] != needle[k] {
            assert(hay@.subrange(i as int, i + needle@.len())[k as int] != needle@[k as int]);
            return false;
        }
        k += 1;
    }
    assert(hay@.subrange(i as int, i + needle@.len()) =~= needle@);
    true
}

/// `str::contains` for a text pattern.
pub fn contains(hay: &str, needle: &str) -> (r: bool)
    ensures
        r == has_text(hay@, needle@),
{
    let h = chars_of(hay);
    let n = chars_of(needle);
    let mut i: usize = 0;
    while i < h.len()
        invariant
            i <= h.len(),
            h@ == hay@,
            n@ == needle@,
            forall|j: int| 0 <= j < i ==> !occurs_at(hay@, needle@, j),
        decreases h.len() - i,
    {
        if matches_at(&h, &n, i) {
            return true;
        }
        i += 1;
    }
    matches_at(&h, &n, i)
}

/// `str::starts_with` for a text pattern.
pub fn starts_with(hay: &str, needle: &str) -> (r: bool)
    ensures
        r == begins_with(hay@, needle@),
{
    matches_at(&chars_of(hay), &chars_of(needle), 0)
}

/// `str::ends_with` for a text pattern.
pub fn ends_with(hay: &str, needle: &str) -> (r: bool)
    ensures
        r == finishes_with(hay@, needle@),
{
    let h = chars_of(hay);
    let n = chars_of(needle);
    if h.len() < n.len() {
        return false;
    }
    matches_at(&h, &n, h.len() - n.len())
}

/// Whether the character `c` stands in `s`.
pub fn contains_char(s: &str, c: char) -> (r: bool)
    ensures
        r == s@.contains(c),
{
    let h = chars_of(s);
    let mut i: usize = 0;
    while i < h.len()
        invariant
            i <= h.len(),
            h@ == s@,
            forall|j: int| 0 <= j < i ==> h@[j] != c,
        decreases h.len() - i,
    {
        if h[i] == c {
            assert(s@[i as int] == c);
            return true;
        }
        i += 1;
    }
    false
}

/// The text of `s` from character `from` on.
pub fn skip_chars(s: &str, from: usize) -> (out: String)
    requires
        from <= s@.len(),
    ensures
        out@ == s@.subrange(from as int, s@.len() as int),
{
    let h = chars_of(s);
    string_of_range(&h, from, h.len())
}

// ---------------------------------------------------------------------------
// Case
// ---------------------------------------------------------------------------

/// `a` and `b` are the same character, or the same ASCII letter in two cases.
pub open spec fn same_letter(a: char, b: char) -> bool {
    ||| a == b
    ||| 'A' <= a <= 'Z' && b as int == a as int + 32
    ||| 'A' <= b <= 'Z' && a as int == b as int + 32
}

/// `str::eq_ignore_ascii_case`.
pub open spec fn same_ignoring_case(a: Seq<char>, b: Seq<char>) -> bool {
    a.len() == b.len() && forall|i: int|
        0 <= i < a.len() ==> same_letter(#[trigger] a[i], #[trigger] b[i])
}

fn letters_match(a: char, b: char) -> (r: bool)
    ensures
        r == same_letter(a, b),
{
    a == b || ('A' <= a && a <= 'Z' && b as u32 == a as u32 + 32) || ('A' <= b && b <= 'Z'
        && a as u32 == b as u32 + 32)
}

/// Whether the texts differ at most in the case of ASCII letters.
pub fn eq_ignore_case(a: &str, b: &str) -> (r: bool)
    ensures
        r == same_ignoring_case(a@, b@),
{
    let x = chars_of(a);
    let y = chars_of(b);
    if x.len() != y.len() {
        return false;
    }
    let mut i: usize = 0;
    while i < x.len()
        invariant
            i <= x.len(),
            x.len() == y.len(),
            x@ == a@,
            y@ == b@,
            forall|k: int| 0 <= k < i ==> same_letter(#[trigger] a@[k], #[trigger] b@[k]),
        decreases x.len() - i,
    {
        if !letters_match(x[i], y[i]) {
            assert(!same_letter(a@[i as int], b@[i as int]));
            return false;
        }
        i += 1;
    }
    true
}

// ---------------------------------------------------------------------------
// Replacing
// ---------------------------------------------------------------------------

/// `hay` with every occurrence of `from`, taken from the left without overlap,
/// replaced by `to`.
pub open spec fn replaced(hay: Seq<char>, from: Seq<char>, to: Seq<char>) -> Seq<char>
    decreases hay.len(),
{
    if from.len() == 0 || hay.len() < from.len() {
        hay
    } else if begins_with(hay, from) {
        to + replaced(hay.subrange(from.len() as int, hay.len() as int), from, to)
    } else {
        seq![hay[0]] + replaced(hay.subrange(1, hay.len() as int), from, to)
    }
}

/// `str::replace` for a non-empty pattern; the identity for an empty one.
pub fn replace_all(hay: &str, from: &str, to: &str) -> (out: String)
    ensures
        out@ == replaced(hay@, from@, to@),
{
    let h = chars_of(hay);
    let f = chars_of(from);
    if f.len() == 0 {
        return owned(hay);
    }
    let mut out = String::new();
    let mut i: usize = 0;
    assert(h@.subrange(0, h@.len() as int) =~= h@);
    assert(out@ + replaced(hay@, from@, to@) =~= replaced(hay@, from@, to@));
    while i < h.len() && f.len() <= h.len() - i
        invariant
            i <= h.len(),
            f.len() > 0,
            h@ == hay@,
            f@ == from@,
            out@ + replaced(h@.subrange(i as int, h@.len() as int), from@, to@) == replaced(
                hay@,
                from@,
                to@,
            ),
        decreases h.len() - i,
    {
        let ghost rest = h@.subrange(i as int, h@.len() as int);
        let hit = matches_at(&h, &f, i);
        proof {
            assert(rest.subrange(0, f@.len() as int) =~= h@.subrange(i as int, i + f@.len()));
            assert(hit == begins_with(rest, from@));
        }
        if hit {
            let ghost before = out@;
            out.append(to);
            proof {
                let tail = h@.subrange(i + f@.len(), h@.len() as int);
                assert(rest.subrange(f@.len() as int, rest.len() as int) =~= tail);
                assert(before + (to@ + replaced(tail, from@, to@)) =~= (before + to@) + replaced(
                    tail,
                    from@,
                    to@,
                ));
            }
            i += f.len();
        } else {
            let ghost before = out@;
            out.push(h[i]);
            proof {
                let tail = h@.subrange(i + 1, h@.len() as int);
                assert(rest.subrange(1, rest.len() as int) =~= tail);
                assert(before + (seq![h@[i as int]] + replaced(tail, from@, to@)) =~= before.push(
                    h@[i as int],
                ) + replaced(tail, from@, to@));
            }
            i += 1;
        }
    }
    let tail = string_of_range(&h, i, h.len());
    out.append(tail.as_str());
    out
}

// ---------------------------------------------------------------------------
// White space
// ---------------------------------------------------------------------------

/// The Unicode `White_Space` property.
pub open spec fn is_space(c: char) -> bool {
    let n = c as u32;
    ||| 0x9 <= n <= 0xd
    ||| n == 0x20
    ||| n == 0x85
    ||| n == 0xa0
    ||| n == 0x1680
    ||| 0x2000 <= n <= 0x200a
    ||| n == 0x2028
    ||| n == 0x2029
    ||| n == 0x202f
    ||| n == 0x205f
    ||| n == 0x3000
}

/// Whether `c` is white space.
pub fn is_space_char(c: char) -> (r: bool)
    ensures
        r == is_space(c),
{
    let n: u32 = c as u32;
    (0x9 <= n && n <= 0xd) || n == 0x20 || n == 0x85 || n == 0xa0 || n == 0x1680 || (0x2000 <= n
        && n <= 0x200a) || n == 0x2028 || n == 0x2029 || n == 0x202f || n == 0x205f || n == 0x3000
}

/// `s` without leading white space.
pub open spec fn trimmed_start(s: Seq<char>) -> Seq<char>
    decreases s.len(),
{
    if s.len() > 0 && is_space(s[0]) {
        trimmed_start(s.subrange(1, s.len() as int))
    } else {
        s
    }
}

/// `s` without trailing white space.
pub open spec fn trimmed_end(s: Seq<char>) -> Seq<char>
    decreases s.len(),
{
    if s.len() > 0 && is_space(s[s.len() - 1]) {
        trimmed_end(s.subrange(0, s.len() - 1))
    } else {
        s
    }
}

/// `s` without leading and trailing white space.
pub open spec fn trimmed(s: Seq<char>) -> Seq<char> {
    trimmed_end(trimmed_start(s))
}

/// `str::trim`.
pub fn trim(s: &str) -> (out: String)
    ensures
        out@ == trimmed(s@),
{
    let h = chars_of(s);
    let mut lo: usize = 0;
    assert(h@.subrange(0, h@.len() as int) =~= h@);
    while lo < h.len() && is_space_char(h[lo])
        invariant
            lo <= h.len(),
            h@ == s@,
            trimmed_start(s@) == trimmed_start(h@.subrange(lo as int, h@.len() as int)),
        decreases h.len() - lo,
    {
        proof {
            let cur = h@.subrange(lo as int, h@.len() as int);
            assert(cur.subrange(1, cur.len() as int) =~= h@.subrange(lo + 1, h@.len() as int));
        }
        lo += 1;
    }
    let ghost start = h@.subrange(lo as int, h@.len() as int);
    assert(trimmed_start(s@) == start);
    let mut hi: usize = h.len();
    while lo < hi && is_space_char(h[hi - 1])
        invariant
            lo <= hi <= h.len(),
            trimmed_end(start) == trimmed_end(h@.subrange(lo as int, hi as int)),
        decreases hi,
    {
        proof {
            let cur = h@.subrange(lo as int, hi as int);
            assert(cur.subrange(0, cur.len() - 1) =~= h@.subrange(lo as int, hi - 1));
        }
        hi -= 1;
    }
    string_of_range(&h, lo, hi)
}

// ---------------------------------------------------------------------------
// Numbers
// ---------------------------------------------------------------------------

/// `c` is one of `0` to `9`.
pub open spec fn is_digit(c: char) -> bool {
    '0' as u32 <= c as u32 <= '9' as u32
}

/// The value of the decimal digits `s`, most significant first.
pub open spec fn digits_value(s: Seq<char>) -> nat
    decreases s.len(),
{
    if s.len() == 0 {
        0
    } else {
        digits_value(s.subrange(0, s.len() - 1)) * 10 + ((s[s.len() - 1] as u32 - '0' as u32) as nat)
    }
}

/// The digits of `s` behind an optional leading plus sign.
pub open spec fn unsigned_body(s: Seq<char>) -> Seq<char> {
    if s.len() > 0 && s[0] == '+' {
        s.subrange(1, s.len() as int)
    } else {
        s
    }
}

/// What `str::parse::<u64>` makes of `s`: an optional plus sign, at least one
/// decimal digit and nothing else, with a value that fits.
pub open spec fn parsed_u64(s: Seq<char>) -> Option<u64> {
    let body = unsigned_body(s);
    if body.len() > 0 && (forall|i: int| 0 <= i < body.len() ==> is_digit(body[i])) && digits_value(
        body,
    ) <= u64::MAX {
        Some(digits_value(body) as u64)
    } else {
        None
    }
}

pub(crate) proof fn lemma_digits_value_prefix(s: Seq<char>, n: int)
    requires
        0 <= n <= s.len(),
    ensures
        digits_value(s.subrange(0, n)) <= digits_value(s),
    decreases s.len() - n,
{
    if n < s.len() {
        lemma_digits_value_prefix(s, n + 1);
        assert(s.subrange(0, n + 1).subrange(0, n) =~= s.subrange(0, n));
    } else {
        assert(s.subrange(0, n) =~= s);
    }
}

/// `str::parse::<u64>`.
pub fn parse_u64(s: &str) -> (r: Option<u64>)
    ensures
        r == parsed_u64(s@),
{
    let h = chars_of(s);
    let mut i: usize = 0;
    if h.len() > 0 && h[0] == '+' {
        i = 1;
    }
    let start: usize = i;
    let ghost body = unsigned_body(s@);
    assert(body =~= h@.subrange(start as int, h@.len() as int));
    if i == h.len() {
        return None;
    }
    let mut value: u64 = 0;
    while i < h.len()
        invariant
            start <= i <= h.len(),
            start < h.len(),
            body == unsigned_body(s@),
            body == h@.subrange(start as int, h@.len() as int),
            forall|k: int| 0 <= k < i - start ==> is_digit(body[k]),
            value == digits_value(body.subrange(0, i - start)),
        decreases h.len() - i,
    {
        let c = h[i];
        assert(body[i - start] == c);
        if (c as u32) < ('0' as u32) || ('9' as u32) < (c as u32) {
            return None;
        }
        let d: u64 = (c as u32 - '0' as u32) as u64;
        proof {
            assert(body.subrange(0, i - start + 1).subrange(0, i - start) =~= body.subrange(
                0,
                i - start,
            ));
            lemma_digits_value_prefix(body, i - start + 1);
        }
        if value > (u64::MAX - d) / 10 {
            assert(value * 10 + d > u64::MAX);
            return None;
        }
        value = value * 10 + d;
        i += 1;
    }
    assert(body.subrange(0, body.len() as int) =~= body);
    Some(value)
}

/// The decimal digits of `n`, without leading zeros.
pub open spec fn decimal(n: nat) -> Seq<char>
    decreases n,
{
    if n < 10 {
        seq![digit_char(n)]
    } else {
        decimal(n / 10).push(digit_char(n % 10))
    }
}

/// The digit for `d`, which is less than ten.
pub open spec fn digit_char(d: nat) -> char {
    ('0' as u32 + d) as char
}

/// The decimal text of `n`.
pub fn decimal_text(n: u64) -> (out: String)
    ensures
        out@ == decimal(n as nat),
    decreases n,
{
    let digits: [char; 10] = ['0', '1', '2', '3', '4', '5', '6', '7', '8', '9'];
    let d = digits[(n % 10) as usize];
    assert(d == digit_char((n % 10) as nat));
    if n < 10 {
        let mut out = String::new();
        out.push(d);
        assert(out@ =~= seq![digit_char(n as nat)]);
        out
    } else {
        let mut out = decimal_text(n / 10);
        out.push(d);
        out
    }
}

// ---------------------------------------------------------------------------
// Lines
// ---------------------------------------------------------------------------

/// The position of the first line feed at or behind `i`, or the length.
pub open spec fn line_end(s: Seq<char>, i: int) -> int
    decreases s.len() - i,
{
    if i < 0 || i >= s.len() {
        s.len() as int
    } else if s[i] == '\n' {
        i
    } else {
        line_end(s, i + 1)
    }
}

/// A line without the carriage return that stood before its line feed.
pub open spec fn without_cr(line: Seq<char>) -> Seq<char> {
    if line.len() > 0 && line[line.len() - 1] == '\r' {
        line.subrange(0, line.len() - 1)
    } else {
        line
    }
}

pub proof fn lemma_line_end(s: Seq<char>, i: int)
    requires
        0 <= i <= s.len(),
    ensures
        i <= line_end(s, i) <= s.len(),
    decreases s.len() - i,
{
    if i < s.len() && s[i] != '\n' {
        lemma_line_end(s, i + 1);
    }
}

/// The lines of `s` from position `i` on, as `str::lines` cuts them: at each
/// line feed, which with a carriage return before it belongs to no line; what
/// follows the last line feed is a line only if it is not empty.
pub open spec fn lines_from(s: Seq<char>, i: int) -> Seq<Seq<char>>
    decreases s.len() - i,
{
    if i < 0 || i >= s.len() {
        Seq::empty()
    } else {
        let e = line_end(s, i);
        if e < i || e >= s.len() {
            seq![s.subrange(i, s.len() as int)]
        } else {
            seq![without_cr(s.subrange(i, e))] + lines_from(s, e + 1)
        }
    }
}

/// The lines of `s`.
pub open spec fn lines_of(s: Seq<char>) -> Seq<Seq<char>> {
    lines_from(s, 0)
}

/// The views of a sequence of texts.
pub open spec fn views(v: Seq<String>) -> Seq<Seq<char>> {
    v.map_values(|s: String| s@)
}

/// `str::lines`.
pub fn lines(s: &str) -> (out: Vec<String>)
    ensures
        views(out@) == lines_of(s@),
{
    let h = chars_of(s);
    let mut out: Vec<String> = Vec::new();
    let mut i: usize = 0;
    assert(views(out@) =~= Seq::<Seq<char>>::empty());
    assert(Seq::<Seq<char>>::empty() + lines_of(s@) =~= lines_of(s@));
    while i < h.len()
        invariant
            i <= h.len(),
            h@ == s@,
            views(out@) + lines_from(s@, i as int) == lines_of(s@),
        decreases h.len() - i,
    {
        let mut e: usize = i;
        while e < h.len() && h[e] != '\n'
            invariant
                i <= e <= h.len(),
                h@ == s@,
                line_end(s@, i as int) == line_end(s@, e as int),
            decreases h.len() - e,
        {
            e += 1;
        }
        let ghost before = views(out@);
        if e == h.len() {
            let line = string_of_range(&h, i, e);
            out.push(line);
            proof {
                assert(views(out@) =~= before.push(s@.subrange(i as int, e as int)));
                assert(lines_from(s@, i as int) =~= seq![s@.subrange(i as int, e as int)]);
                assert(views(out@) =~= lines_of(s@));
                assert(lines_from(s@, e as int) =~= Seq::<Seq<char>>::empty());
                assert(views(out@) + lines_from(s@, e as int) =~= lines_of(s@));
            }
            i = e;
        } else {
            let mut stop: usize = e;
            if i < e && h[e - 1] == '\r' {
                stop = e - 1;
            }
            let line = string_of_range(&h, i, stop);
            proof {
                let full = s@.subrange(i as int, e as int);
                if i < e && h@[e - 1] == '\r' {
                    assert(full.subrange(0, full.len() - 1) =~= line@);
                } else {
                    assert(full =~= line@);
                }
                assert(line@ == without_cr(full));
            }
            out.push(line);
            proof {
                assert(views(out@) =~= before.push(line@));
                assert(before.push(line@) + lines_from(s@, e + 1) =~= before + (seq![line@]
                    + lines_from(s@, e + 1)));
            }
            i = e + 1;
        }
    }
    assert(lines_from(s@, i as int) =~= Seq::<Seq<char>>::empty());
    assert(views(out@) + Seq::<Seq<char>>::empty() =~= views(out@));
    out
}

// ---------------------------------------------------------------------------
// Collections of texts
// ---------------------------------------------------------------------------

/// `name` stands in `list`.
pub open spec fn listed(list: Seq<String>, name: Seq<char>) -> bool {
    exists|i: int| 0 <= i < list.len() && list[i]@ == name
}

/// Whether `name` stands in `list`.
pub fn slice_contains(list: &[String], name: &str) -> (r: bool)
    ensures
        r == listed(list@, name@),
{
    let mut i: usize = 0;
    while i < list.len()
        invariant
            i <= list.len(),
            forall|k: int| 0 <= k < i ==> list@[k]@ != name@,
        decreases list.len() - i,
    {
        if str_eq(list[i].as_str(), name) {
            return true;
        }
        i += 1;
    }
    false
}

/// Whether `name` stands in `list`.
pub fn list_contains(list: &Vec<String>, name: &str) -> (r: bool)
    ensures
        r == listed(list@, name@),
{
    slice_contains(list.as_slice(), name)
}

/// A copy of a list of texts.
pub fn clone_list(list: &Vec<String>) -> (out: Vec<String>)
    ensures
        out@ == list@,
{
    let mut out: Vec<String> = Vec::new();
    let mut i: usize = 0;
    while i < list.len()
        invariant
            i <= list.len(),
            out@ == list@.take(i as int),
        decreases list.len() - i,
    {
        out.push(list[i].clone());
        i += 1;
    }
    out
}

/// The views of two optional texts agree.
pub open spec fn opt_view(o: Option<String>) -> Option<Seq<char>> {
    match o {
        Some(s) => Some(s@),
        None => None,
    }
}

/// A copy of an optional text.
pub fn clone_opt(o: &Option<String>) -> (out: Option<String>)
    ensures
        out == *o,
{
    match o {
        Some(s) => Some(s.clone()),
        None => None,
    }
}

// ---------------------------------------------------------------------------
// Laws
// ---------------------------------------------------------------------------

proof fn lemma_trimmed_start(a: Seq<char>, s: Seq<char>)
    requires
        forall|i: int| 0 <= i < a.len() ==> is_space(#[trigger] a[i]),
        s.len() > 0,
        !is_space(s[0]),
    ensures
        trimmed_start(a + s) == s,
    decreases a.len(),
{
    let t = a + s;
    if a.len() == 0 {
        assert(t =~= s);
    } else {
        let rest = a.subrange(1, a.len() as int);
        assert(t[0] == a[0]);
        assert(t.subrange(1, t.len() as int) =~= rest + s);
        lemma_trimmed_start(rest, s);
    }
}

proof fn lemma_trimmed_end(s: Seq<char>, b: Seq<char>)
    requires
        forall|i: int| 0 <= i < b.len() ==> is_space(#[trigger] b[i]),
        s.len() > 0,
        !is_space(s[s.len() - 1]),
    ensures
        trimmed_end(s + b) == s,
    decreases b.len(),
{
    let t = s + b;
    if b.len() == 0 {
        assert(t =~= s);
    } else {
        let rest = b.subrange(0, b.len() - 1);
        assert(t[t.len() - 1] == b[b.len() - 1]);
        assert(t.subrange(0, t.len() - 1) =~= s + rest);
        lemma_trimmed_end(s, rest);
    }
}

/// White space around a text does not count, and nothing else is taken off.
pub proof fn law_margins_are_trimmed(a: Seq<char>, s: Seq<char>, b: Seq<char>)
    requires
        forall|i: int| 0 <= i < a.len() ==> is_space(#[trigger] a[i]),
        forall|i: int| 0 <= i < b.len() ==> is_space(#[trigger] b[i]),
        s.len() > 0,
        !is_space(s[0]),
        !is_space(s[s.len() - 1]),
    ensures
        trimmed(a + s + b) == s,
{
    let sb = s + b;
    assert(a + s + b =~= a + sb);
    assert(sb[0] == s[0]);
    lemma_trimmed_start(a, sb);
    lemma_trimmed_end(s, b);
}

/// What is written in digits reads as the same number.
pub proof fn law_numbers_are_read_as_written(n: nat)
    ensures
        digits_value(decimal(n)) == n,
        decimal(n).len() > 0,
        forall|i: int| 0 <= i < decimal(n).len() ==> is_digit(#[trigger] decimal(n)[i]),
        n <= u64::MAX ==> parsed_u64(decimal(n)) == Some(n as u64),
    decreases n,
{
    let d = decimal(n);
    if n < 10 {
        assert(d.subrange(0, 0) =~= Seq::empty());
        assert(digits_value(d.subrange(0, d.len() - 1)) == 0);
        assert(d[0] == digit_char(n));
        assert(is_digit(digit_char(n)));
    } else {
        law_numbers_are_read_as_written(n / 10);
        assert(d.subrange(0, d.len() - 1) =~= decimal(n / 10));
        assert(d[d.len() - 1] == digit_char(n % 10));
        assert(is_digit(digit_char(n % 10)));
        assert forall|i: int| 0 <= i < d.len() implies is_digit(#[trigger] d[i]) by {
            if i < d.len() - 1 {
                assert(d[i] == decimal(n / 10)[i]);
            }
        }
    }
    assert(is_digit(d[0]));
    assert(unsigned_body(d) == d);
}

proof fn lemma_first_line(l: Seq<char>, s: Seq<char>, i: int)
    requires
        0 <= i <= l.len() <= s.len(),
        forall|k: int| 0 <= k < l.len() ==> #[trigger] l[k] != '\n' && s[k] == l[k],
        l.len() == s.len() || s[l.len() as int] == '\n',
    ensures
        line_end(s, i) == l.len(),
    decreases l.len() - i,
{
    if i < l.len() {
        assert(l[i] != '\n');
        lemma_first_line(l, s, i + 1);
    }
}

proof fn lemma_lines_shift(a: Seq<char>, s: Seq<char>, i: int)
    requires
        0 <= i <= s.len(),
    ensures
        lines_from(a + s, a.len() + i) == lines_from(s, i),
    decreases s.len() - i,
{
    let t = a + s;
    if i < s.len() {
        lemma_line_shift(a, s, i);
        lemma_line_end(s, i);
        let e = line_end(s, i);
        assert(t.subrange(a.len() + i, a.len() + e) =~= s.subrange(i, e));
        if e < s.len() {
            lemma_lines_shift(a, s, e + 1);
        }
    }
}

proof fn lemma_line_shift(a: Seq<char>, s: Seq<char>, i: int)
    requires
        0 <= i <= s.len(),
    ensures
        line_end(a + s, a.len() + i) == a.len() + line_end(s, i),
    decreases s.len() - i,
{
    if i < s.len() {
        assert((a + s)[a.len() + i] == s[i]);
        if s[i] != '\n' {
            lemma_line_shift(a, s, i + 1);
        }
    }
}

/// Lines are what stands between line feeds: the one before the first line feed,
/// without a carriage return at its end, comes first, and then the lines of what
/// follows; a text without a line feed is one line, if it is not empty.
pub proof fn law_lines_are_cut_at_line_feeds(l: Seq<char>, rest: Seq<char>)
    requires
        forall|k: int| 0 <= k < l.len() ==> #[trigger] l[k] != '\n',
    ensures
        l.len() > 0 ==> lines_of(l) == seq![l],
        l.len() == 0 ==> lines_of(l).len() == 0,
        l.len() == 0 || l[l.len() - 1] != '\r' ==> lines_of(l + seq!['\n'] + rest) == seq![l]
            + lines_of(rest),
        lines_of(l + seq!['\r', '\n'] + rest) == seq![l] + lines_of(rest),
{
    if l.len() > 0 {
        lemma_first_line(l, l, 0);
        assert(l.subrange(0, l.len() as int) =~= l);
    }
    let s = l + seq!['\n'] + rest;
    lemma_first_line(l, s, 0);
    assert(s.subrange(0, l.len() as int) =~= l);
    let head = l + seq!['\n'];
    lemma_lines_shift(head, rest, 0);
    assert(s =~= head + rest);
    let m = l.push('\r');
    let t = l + seq!['\r', '\n'] + rest;
    lemma_first_line(m, t, 0);
    assert(t.subrange(0, m.len() as int) =~= m);
    assert(m.subrange(0, m.len() - 1) =~= l);
    let over = m + seq!['\n'];
    lemma_lines_shift(over, rest, 0);
    assert(t =~= over + rest);
}

/// A text in which nothing occurs that is replaced stays as it is.
pub proof fn law_replacing_keeps_other_text(a: Seq<char>, from: Seq<char>, to: Seq<char>)
    requires
        from.len() > 0,
        !has_text(a, from),
    ensures
        replaced(a, from, to) == a,
    decreases a.len(),
{
    if a.len() >= from.len() {
        let m = from.len() as int;
        let rest = a.subrange(1, a.len() as int);
        assert(!occurs_at(a, from, 0));
        assert(!has_text(rest, from)) by {
            if has_text(rest, from) {
                let k = choose|k: int| occurs_at(rest, from, k);
                assert(a.subrange(k + 1, k + 1 + m) =~= rest.subrange(k, k + m));
                assert(occurs_at(a, from, k + 1));
            }
        }
        law_replacing_keeps_other_text(rest, from, to);
        assert(seq![a[0]] + rest =~= a);
    }
}

/// No occurrence of `from` begins before `n`.
spec fn none_before(s: Seq<char>, from: Seq<char>, n: int) -> bool {
    forall|k: int| 0 <= k < n ==> !#[trigger] occurs_at(s, from, k)
}

proof fn lemma_replaced_head(a: Seq<char>, from: Seq<char>, to: Seq<char>, b: Seq<char>)
    requires
        from.len() > 0,
        none_before(a.add(from).add(b), from, a.len() as int),
    ensures
        replaced(a.add(from).add(b), from, to) == a.add(to).add(replaced(b, from, to)),
    decreases a.len(),
{
    let s = a.add(from).add(b);
    let m = from.len() as int;
    let end = replaced(b, from, to);
    if a.len() == 0 {
        assert(s =~= from.add(b));
        assert(s.subrange(0, m) =~= from);
        assert(begins_with(s, from));
        assert(s.subrange(m, s.len() as int) =~= b);
        assert(a.add(to).add(end) =~= to + end);
    } else {
        let rest = a.subrange(1, a.len() as int);
        let t = rest.add(from).add(b);
        assert(s.subrange(1, s.len() as int) =~= t);
        assert(!occurs_at(s, from, 0));
        assert(none_before(t, from, rest.len() as int)) by {
            assert forall|k: int| 0 <= k < rest.len() implies !#[trigger] occurs_at(t, from, k) by {
                if occurs_at(t, from, k) {
                    assert(s.subrange(k + 1, k + 1 + m) =~= t.subrange(k, k + m));
                    assert(occurs_at(s, from, k + 1));
                }
            }
        }
        lemma_replaced_head(rest, from, to, b);
        assert(s[0] == a[0]);
        assert(seq![a[0]] + rest.add(to).add(end) =~= a.add(to).add(end));
    }
}

/// Each occurrence of a text, from the left, is replaced, and nothing else is
/// changed: what stands before the first one stays, and what follows it is dealt
/// with in the same way.
pub proof fn law_replacing_changes_only_occurrences(
    a: Seq<char>,
    from: Seq<char>,
    to: Seq<char>,
    b: Seq<char>,
)
    requires
        from.len() > 0,
        forall|k: int| 0 <= k < a.len() ==> !#[trigger] occurs_at(a.add(from).add(b), from, k),
    ensures
        replaced(a.add(from).add(b), from, to) == a.add(to).add(replaced(b, from, to)),
{
    lemma_replaced_head(a, from, to, b);
}

/// White space is the blanks and breaks of ASCII, and those of Unicode beyond it.
pub proof fn law_white_space(c: char)
    ensures
        c as u32 <= 0x7f ==> (is_space(c) <==> c as u32 == 0x9 || c as u32 == 0xa || c as u32 == 0xb
            || c as u32 == 0xc || c as u32 == 0xd || c as u32 == 0x20),
        c as u32 > 0x7f ==> (is_space(c) <==> c as u32 == 0x85 || c as u32 == 0xa0 || c as u32
            == 0x1680 || (c as u32 >= 0x2000 && c as u32 <= 0x200a) || c as u32 == 0x2028 || c as u32
            == 0x2029 || c as u32 == 0x202f || c as u32 == 0x205f || c as u32 == 0x3000),
{
}

/// A text comes before every longer one that it begins, and of two that differ
/// first at some place the one with the smaller character there comes first.
pub proof fn law_texts_are_ordered_by_their_characters(
    p: Seq<char>,
    c: char,
    d: char,
    x: Seq<char>,
    y: Seq<char>,
)
    ensures
        lex_lt(p, p.push(c) + x),
        !lex_lt(p.push(c) + x, p),
        (c as int) < (d as int) ==> lex_lt(p.push(c) + x, p.push(d) + y) && !lex_lt(
            p.push(d) + y,
            p.push(c) + x,
        ),
{
    let a = p.push(c) + x;
    let b = p.push(d) + y;
    let n = p.len() as int;
    assert(lex_lt_at(p, a, n));
    if lex_lt(a, p) {
        lemma_lex_asymmetric(a, p);
    }
    if (c as int) < (d as int) {
        assert(a[n] == c && b[n] == d);
        assert(lex_lt_at(a, b, n));
        if lex_lt(b, a) {
            lemma_lex_asymmetric(b, a);
        }
    }
}

/// Upper and lower case of an ASCII letter are the same letter; any other two
/// characters are only the same where they are equal.
pub proof fn law_case_of_ascii_letters_does_not_count(k: int, a: char, b: char)
    ensures
        0 <= k < 26 && a as int == 65 + k && b as int == 97 + k ==> same_letter(a, b)
            && same_letter(b, a),
        same_letter(a, a),
        same_letter(a, b) && a != b ==> (65 <= a as int <= 90 && b as int == a as int + 32) || (65
            <= b as int <= 90 && a as int == b as int + 32),
{
}

/// Texts are the same but for case where they are as long and the same at each
/// place.
pub proof fn law_case_is_ignored_at_each_place(a: Seq<char>, b: Seq<char>, c: char, d: char)
    ensures
        same_ignoring_case(a.push(c), b.push(d)) <==> same_ignoring_case(a, b) && same_letter(c, d),
        same_ignoring_case(a, a),
        same_ignoring_case(a, b) ==> a.len() == b.len(),
{
    let x = a.push(c);
    let y = b.push(d);
    if same_ignoring_case(x, y) {
        assert forall|i: int| 0 <= i < a.len() implies same_letter(
            #[trigger] a[i],
            #[trigger] b[i],
        ) by {
            assert(same_letter(x[i], y[i]));
        }
        assert(same_letter(x[a.len() as int], y[a.len() as int]));
    }
    if same_ignoring_case(a, b) && same_letter(c, d) {
        assert forall|i: int| 0 <= i < x.len() implies same_letter(
            #[trigger] x[i],
            #[trigger] y[i],
        ) by {
            if i < a.len() {
                assert(same_letter(a[i], b[i]));
            }
        }
    }
}

} // verus!
