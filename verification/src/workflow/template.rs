//! The markup of a prompt template.
//!
//! Templates go through the `liquid` crate, which stops the process on a few of
//! them. What is needed here of a template is read off its text: where its
//! markup stands, whether it can be rendered without harm, and whether what
//! comes out is a matter of the template and its variables alone.
use vstd::prelude::*;

use crate::text::{chars_of, digits_value, has_text, is_digit, lemma_digits_value_prefix, matches_at, occurs_at, views};
use crate::workflow::grammar::{closes_at, digit, find_quote, inside, is_blank, is_close, is_letter, is_open, is_quote, is_sure, is_value_word, lemma_past_blanks, lemma_past_path, letter, opens_at, past_blanks, past_digits, past_name, past_path, skip_blanks, skip_digits, skip_name, skip_path, sure_from, to_quote, value_word_at};

verus! {

/// A variable of a template.
#[derive(Debug, PartialEq, Eq)]
pub enum Global {
    Missing,
    Text(String),
    Texts(Vec<String>),
}

#[verifier::ext_equal]
pub enum GlobalView {
    Missing,
    Text(Seq<char>),
    Texts(Seq<Seq<char>>),
}

impl View for Global {
    type V = GlobalView;

    open spec fn view(&self) -> GlobalView {
        match self {
            Global::Missing => GlobalView::Missing,
            Global::Text(s) => GlobalView::Text(s@),
            Global::Texts(v) => GlobalView::Texts(views(v@)),
        }
    }
}

pub open spec fn global_views(v: Seq<(String, Global)>) -> Seq<(Seq<char>, GlobalView)> {
    Seq::new(v.len(), |i: int| (v[i].0@, v[i].1@))
}

// ---------------------------------------------------------------------------
// Where the markup stands
// ---------------------------------------------------------------------------

/// Where a reader of a template stands.
#[derive(Debug, Clone, Copy, PartialEq, Eq, Structural)]
pub enum Place {
    /// Outside markup.
    Text,
    /// Between the two characters that open markup.
    Opening,
    /// In markup, outside strings.
    Markup,
    /// In a string that this quote ends.
    Quote(char),
    /// Between the two characters that close markup.
    Closing,
    /// Behind a string that holds a delimiter, in a template with markup that
    /// may not be readable: what is markup and what is not cannot be told any
    /// more.
    Lost,
}

/// Where a reader stands that comes from `p` past the character at `i`; `sure`
/// says that all markup surely can be read.
pub open spec fn passed(s: Seq<char>, sure: bool, i: int, p: Place) -> Place {
    match p {
        Place::Text => if opens_at(s, i) {
            Place::Opening
        } else {
            Place::Text
        },
        Place::Opening => Place::Markup,
        Place::Markup => if closes_at(s, i) {
            Place::Closing
        } else if is_quote(s[i]) {
            Place::Quote(s[i])
        } else {
            Place::Markup
        },
        Place::Quote(q) => if !sure && (opens_at(s, i) || closes_at(s, i)) {
            Place::Lost
        } else if s[i] == q {
            Place::Markup
        } else {
            p
        },
        Place::Closing => Place::Text,
        Place::Lost => Place::Lost,
    }
}

/// Where a reader comes to before the character at `i`.
pub open spec fn reached(s: Seq<char>, sure: bool, i: int) -> Place
    decreases i,
{
    if i <= 0 {
        Place::Text
    } else {
        passed(s, sure, i - 1, reached(s, sure, i - 1))
    }
}

/// Where a reader stands before the character at `i`.
pub open spec fn place(s: Seq<char>, i: int) -> Place {
    reached(s, sure_from(s, 0), i)
}

/// The character at `i` is part of markup.
pub open spec fn in_markup(s: Seq<char>, i: int) -> bool {
    place(s, i) != Place::Text || place(s, i + 1) != Place::Text
}

/// The template with a blank for every character outside markup.
pub open spec fn markup(s: Seq<char>) -> Seq<char> {
    Seq::new(
        s.len(),
        |i: int|
            if in_markup(s, i) {
                s[i]
            } else {
                ' '
            },
    )
}

/// The template with a blank for every character outside markup and for every
/// character of a string behind its first quote.
pub open spec fn code(s: Seq<char>) -> Seq<char> {
    Seq::new(
        s.len(),
        |i: int|
            if in_markup(s, i) && !(place(s, i) is Quote) {
                s[i]
            } else {
                ' '
            },
    )
}

fn pass(s: &Vec<char>, sure: bool, i: usize, p: Place) -> (r: Place)
    requires
        i < s.len(),
    ensures
        r == passed(s@, sure, i as int, p),
{
    match p {
        Place::Text => if is_open(s, i) {
            Place::Opening
        } else {
            Place::Text
        },
        Place::Opening => Place::Markup,
        Place::Markup => if is_close(s, i) {
            Place::Closing
        } else if s[i] == '\'' || s[i] == '"' {
            Place::Quote(s[i])
        } else {
            Place::Markup
        },
        Place::Quote(q) => if !sure && (is_open(s, i) || is_close(s, i)) {
            Place::Lost
        } else if s[i] == q {
            Place::Markup
        } else {
            p
        },
        Place::Closing => Place::Text,
        Place::Lost => Place::Lost,
    }
}

/// The places before every character, and behind the last.
fn places_of(s: &Vec<char>) -> (v: Vec<Place>)
    ensures
        v@.len() == s@.len() + 1,
        forall|i: int| 0 <= i <= s@.len() ==> v@[i] == #[trigger] place(s@, i),
{
    let sure = is_sure(s);
    let mut v: Vec<Place> = Vec::new();
    let mut p = Place::Text;
    v.push(p);
    let mut i: usize = 0;
    while i < s.len()
        invariant
            i <= s.len(),
            v@.len() == i + 1,
            sure == sure_from(s@, 0),
            p == place(s@, i as int),
            forall|k: int| 0 <= k <= i ==> v@[k] == #[trigger] place(s@, k),
        decreases s.len() - i,
    {
        p = pass(s, sure, i, p);
        v.push(p);
        i += 1;
    }
    v
}

fn markup_of(s: &Vec<char>, places: &Vec<Place>) -> (m: Vec<char>)
    requires
        places@.len() == s@.len() + 1,
        forall|i: int| 0 <= i <= s@.len() ==> places@[i] == #[trigger] place(s@, i),
    ensures
        m@ == markup(s@),
{
    let mut m: Vec<char> = Vec::new();
    let mut i: usize = 0;
    while i < s.len()
        invariant
            i <= s.len(),
            places@.len() == s@.len() + 1,
            forall|k: int| 0 <= k <= s@.len() ==> places@[k] == #[trigger] place(s@, k),
            m@ == markup(s@).take(i as int),
        decreases s.len() - i,
    {
        proof {
            assert(places@[i as int] == place(s@, i as int));
            assert(places@[i + 1] == place(s@, i + 1));
        }
        let inside = places[i] != Place::Text || places[i + 1] != Place::Text;
        m.push(
            if inside {
                s[i]
            } else {
                ' '
            },
        );
        i += 1;
        assert(m@ =~= markup(s@).take(i as int));
    }
    assert(markup(s@).take(s@.len() as int) =~= markup(s@));
    m
}

fn code_of(s: &Vec<char>, places: &Vec<Place>) -> (c: Vec<char>)
    requires
        places@.len() == s@.len() + 1,
        forall|i: int| 0 <= i <= s@.len() ==> places@[i] == #[trigger] place(s@, i),
    ensures
        c@ == code(s@),
{
    let mut c: Vec<char> = Vec::new();
    let mut i: usize = 0;
    while i < s.len()
        invariant
            i <= s.len(),
            places@.len() == s@.len() + 1,
            forall|k: int| 0 <= k <= s@.len() ==> places@[k] == #[trigger] place(s@, k),
            c@ == code(s@).take(i as int),
        decreases s.len() - i,
    {
        proof {
            assert(places@[i as int] == place(s@, i as int));
            assert(places@[i + 1] == place(s@, i + 1));
        }
        let quoted = match places[i] {
            Place::Quote(_) => true,
            _ => false,
        };
        let inside = places[i] != Place::Text || places[i + 1] != Place::Text;
        c.push(
            if inside && !quoted {
                s[i]
            } else {
                ' '
            },
        );
        i += 1;
        assert(c@ =~= code(s@).take(i as int));
    }
    assert(code(s@).take(s@.len() as int) =~= code(s@));
    c
}

// ---------------------------------------------------------------------------
// What stands in the markup
// ---------------------------------------------------------------------------

fn has_word(m: &Vec<char>, word: &str) -> (r: bool)
    ensures
        r == has_text(m@, word@),
{
    let w = chars_of(word);
    let mut i: usize = 0;
    while i < m.len()
        invariant
            i <= m.len(),
            w@ == word@,
            forall|k: int| 0 <= k < i ==> !occurs_at(m@, word@, k),
        decreases m.len() - i,
    {
        if matches_at(m, &w, i) {
            return true;
        }
        i += 1;
    }
    let r = matches_at(m, &w, m.len());
    proof {
        if has_text(m@, word@) {
            let k = choose|k: int| occurs_at(m@, word@, k);
            assert(k == m@.len());
        }
    }
    r
}

/// `n` digits in a row stand at `k`.
pub open spec fn digits_at(m: Seq<char>, k: int, n: int) -> bool {
    0 <= k && k + n <= m.len() && forall|j: int| k <= j < k + n ==> is_digit(#[trigger] m[j])
}

/// A number of `n` digits or more.
pub open spec fn has_number(m: Seq<char>, n: int) -> bool {
    exists|k: int| #[trigger] digits_at(m, k, n)
}

fn holds_number(m: &Vec<char>, n: usize) -> (r: bool)
    requires
        n > 0,
    ensures
        r == has_number(m@, n as int),
{
    let mut run: usize = 0;
    let mut i: usize = 0;
    while i < m.len()
        invariant
            run <= i <= m.len(),
            run < n,
            digits_at(m@, i - run, run as int),
            run < i ==> !is_digit(m@[i - run - 1]),
            forall|k: int| 0 <= k && k + n <= i ==> !#[trigger] digits_at(m@, k, n as int),
        decreases m.len() - i,
    {
        let c = m[i];
        let ghost before: int = run as int;
        if digit(c) {
            run += 1;
        } else {
            run = 0;
        }
        i += 1;
        if run == n {
            assert(digits_at(m@, i - run, n as int));
            return true;
        }
        proof {
            assert forall|k: int| 0 <= k && k + n <= i implies !#[trigger] digits_at(
                m@,
                k,
                n as int,
            ) by {
                if k + n == i && digits_at(m@, k, n as int) {
                    assert(is_digit(m@[i - 1]));
                    assert(run == before + 1);
                    assert(i - run - 1 >= k);
                    assert(is_digit(m@[i - run - 1]));
                }
            }
        }
    }
    false
}

/// The bar at `k` is followed by a filter whose name begins with `word`.
pub open spec fn filter_at(m: Seq<char>, k: int, word: Seq<char>) -> bool {
    0 <= k < m.len() && m[k] == '|' && occurs_at(m, word, past_blanks(m, k + 1))
}

/// A filter whose name begins with `word` is used.
pub open spec fn filters(m: Seq<char>, word: Seq<char>) -> bool {
    exists|k: int| #[trigger] filter_at(m, k, word)
}

fn is_filter(m: &Vec<char>, k: usize, word: &str) -> (r: bool)
    requires
        k < m.len(),
    ensures
        r == filter_at(m@, k as int, word@),
{
    m[k] == '|' && matches_at(m, &chars_of(word), skip_blanks(m, k + 1))
}

fn uses_filter(m: &Vec<char>, word: &str) -> (r: bool)
    ensures
        r == filters(m@, word@),
{
    let mut k: usize = 0;
    while k < m.len()
        invariant
            k <= m.len(),
            forall|j: int| 0 <= j < k ==> !#[trigger] filter_at(m@, j, word@),
        decreases m.len() - k,
    {
        if is_filter(m, k, word) {
            return true;
        }
        k += 1;
    }
    false
}

/// The bar at `k` is followed by a filter that reckons with integers.
pub open spec fn reckons_at(m: Seq<char>, k: int) -> bool {
    ||| filter_at(m, k, "abs"@)
    ||| filter_at(m, k, "plus"@)
    ||| filter_at(m, k, "minus"@)
    ||| filter_at(m, k, "times"@)
    ||| filter_at(m, k, "divided_by"@)
    ||| filter_at(m, k, "modulo"@)
    ||| filter_at(m, k, "slice"@)
}

fn is_reckoning(m: &Vec<char>, k: usize) -> (r: bool)
    requires
        k < m.len(),
    ensures
        r == reckons_at(m@, k as int),
{
    is_filter(m, k, "abs") || is_filter(m, k, "plus") || is_filter(m, k, "minus") || is_filter(
        m,
        k,
        "times",
    ) || is_filter(m, k, "divided_by") || is_filter(m, k, "modulo") || is_filter(m, k, "slice")
}

/// A filter reckons with integers.
pub open spec fn reckons(c: Seq<char>) -> bool {
    exists|k: int| #[trigger] reckons_at(c, k)
}

fn is_reckoner(c: &Vec<char>) -> (r: bool)
    ensures
        r == reckons(c@),
{
    let mut k: usize = 0;
    while k < c.len()
        invariant
            k <= c.len(),
            forall|j: int| 0 <= j < k ==> !#[trigger] reckons_at(c@, j),
        decreases c.len() - k,
    {
        if is_reckoning(c, k) {
            return true;
        }
        k += 1;
    }
    false
}

/// The bars at `j` and `k` stand in the same markup, and one of them reckons.
pub open spec fn linked(m: Seq<char>, j: int, k: int) -> bool {
    &&& 0 <= j < k < m.len()
    &&& m[j] == '|'
    &&& m[k] == '|'
    &&& reckons_at(m, j) || reckons_at(m, k)
    &&& forall|c: int| j < c < k ==> !#[trigger] closes_at(m, c)
}

/// A filter that reckons has another beside it.
pub open spec fn reckons_in_chain(m: Seq<char>) -> bool {
    exists|j: int, k: int| #[trigger] linked(m, j, k)
}

fn chains_from(m: &Vec<char>, j: usize) -> (r: bool)
    requires
        j < m.len(),
    ensures
        r == exists|k: int| #[trigger] linked(m@, j as int, k),
{
    if m[j] != '|' {
        return false;
    }
    let first = is_reckoning(m, j);
    let mut k: usize = j + 1;
    while k < m.len()
        invariant
            j < k <= m.len(),
            m@[j as int] == '|',
            first == reckons_at(m@, j as int),
            forall|c: int| j < c < k ==> !#[trigger] closes_at(m@, c),
            forall|i: int| i < k ==> !#[trigger] linked(m@, j as int, i),
        decreases m.len() - k,
    {
        if m[k] == '|' && (first || is_reckoning(m, k)) {
            assert(linked(m@, j as int, k as int));
            return true;
        }
        if is_close(m, k) {
            assert forall|i: int| !#[trigger] linked(m@, j as int, i) by {
                if i > k {
                    assert(closes_at(m@, k as int));
                }
            }
            return false;
        }
        k += 1;
    }
    false
}

fn has_chain(m: &Vec<char>) -> (r: bool)
    ensures
        r == reckons_in_chain(m@),
{
    let mut j: usize = 0;
    while j < m.len()
        invariant
            j <= m.len(),
            forall|i: int, k: int| i < j ==> !#[trigger] linked(m@, i, k),
        decreases m.len() - j,
    {
        if chains_from(m, j) {
            return true;
        }
        j += 1;
    }
    false
}

/// The colon at `k` is the last thing in a tag.
pub open spec fn loose_colon(m: Seq<char>, k: int) -> bool {
    0 <= k < m.len() && m[k] == ':' && {
        let i = past_blanks(m, k + 1);
        occurs_at(m, "%}"@, i) || occurs_at(m, "-%}"@, i)
    }
}

fn has_loose_colon(m: &Vec<char>) -> (r: bool)
    ensures
        r == exists|k: int| #[trigger] loose_colon(m@, k),
{
    let close = chars_of("%}");
    let trim = chars_of("-%}");
    let mut k: usize = 0;
    while k < m.len()
        invariant
            k <= m.len(),
            close@ == "%}"@,
            trim@ == "-%}"@,
            forall|j: int| 0 <= j < k ==> !#[trigger] loose_colon(m@, j),
        decreases m.len() - k,
    {
        if m[k] == ':' {
            let i = skip_blanks(m, k + 1);
            if matches_at(m, &close, i) || matches_at(m, &trim, i) {
                assert(loose_colon(m@, k as int));
                return true;
            }
        }
        k += 1;
    }
    false
}

/// Every character is one of ASCII.
pub open spec fn plain(m: Seq<char>) -> bool {
    forall|i: int| 0 <= i < m.len() ==> (#[trigger] m[i] as u32) < 128
}

fn is_plain(m: &Vec<char>) -> (r: bool)
    ensures
        r == plain(m@),
{
    let mut i: usize = 0;
    while i < m.len()
        invariant
            i <= m.len(),
            forall|k: int| 0 <= k < i ==> (#[trigger] m@[k] as u32) < 128,
        decreases m.len() - i,
    {
        if m[i] as u32 >= 128 {
            return false;
        }
        i += 1;
    }
    true
}

fn piece(m: &Vec<char>, from: usize, to: usize) -> (v: Vec<char>)
    requires
        from <= to <= m.len(),
    ensures
        v@ == m@.subrange(from as int, to as int),
{
    let mut v: Vec<char> = Vec::new();
    let mut i: usize = from;
    while i < to
        invariant
            from <= i <= to <= m.len(),
            v@ == m@.subrange(from as int, i as int),
        decreases to - i,
    {
        v.push(m[i]);
        i += 1;
        assert(v@ =~= m@.subrange(from as int, i as int));
    }
    v
}

/// A string stands at `i` that can be the format of a date: it is plain, and
/// its widths are small.
pub open spec fn format_at(m: Seq<char>, i: int) -> bool {
    &&& 0 <= i < m.len()
    &&& is_quote(m[i])
    &&& plain(m.subrange(i + 1, to_quote(m, i + 1, m[i])))
    &&& !has_number(m.subrange(i + 1, to_quote(m, i + 1, m[i])), 5)
}

fn is_format(m: &Vec<char>, i: usize) -> (r: bool)
    requires
        i <= m.len(),
    ensures
        r == format_at(m@, i as int),
{
    if i >= m.len() || !(m[i] == '\'' || m[i] == '"') {
        return false;
    }
    let end = find_quote(m, i + 1, m[i]);
    let text = piece(m, i + 1, end);
    is_plain(&text) && !holds_number(&text, 5)
}

/// The bar at `k` is followed by a date filter whose format is not written out
/// or is none that a date can have.
pub open spec fn loose_date(m: Seq<char>, c: Seq<char>, k: int) -> bool {
    filter_at(c, k, "date"@) && !{
        let colon = past_blanks(c, past_blanks(c, k + 1) + "date"@.len());
        &&& colon < c.len()
        &&& c[colon] == ':'
        &&& format_at(m, past_blanks(c, colon + 1))
    }
}

fn is_loose_date(m: &Vec<char>, c: &Vec<char>, k: usize) -> (r: bool)
    requires
        k < c.len(),
        m.len() == c.len(),
    ensures
        r == loose_date(m@, c@, k as int),
{
    if !is_filter(c, k, "date") {
        return false;
    }
    let word = chars_of("date");
    let name = skip_blanks(c, k + 1);
    let colon = skip_blanks(c, name + word.len());
    if colon >= c.len() || c[colon] != ':' {
        return true;
    }
    !is_format(m, skip_blanks(c, colon + 1))
}

fn has_loose_date(m: &Vec<char>, c: &Vec<char>) -> (r: bool)
    requires
        m.len() == c.len(),
    ensures
        r == exists|k: int| #[trigger] loose_date(m@, c@, k),
{
    let mut k: usize = 0;
    while k < c.len()
        invariant
            k <= c.len(),
            m.len() == c.len(),
            forall|j: int| 0 <= j < k ==> !#[trigger] loose_date(m@, c@, j),
        decreases c.len() - k,
    {
        if is_loose_date(m, c, k) {
            return true;
        }
        k += 1;
    }
    false
}

/// The width of a table stands at `k` and is not written out, or begins with a
/// zero, or has more than nine digits.
pub open spec fn loose_width(c: Seq<char>, k: int) -> bool {
    occurs_at(c, "cols"@, k) && !{
        let colon = past_blanks(c, k + "cols"@.len());
        let width = past_blanks(c, colon + 1);
        &&& colon < c.len()
        &&& c[colon] == ':'
        &&& width < c.len()
        &&& is_digit(c[width])
        &&& c[width] != '0'
        &&& past_digits(c, width) - width <= 9
    }
}

fn has_loose_width(c: &Vec<char>) -> (r: bool)
    ensures
        r == exists|k: int| #[trigger] loose_width(c@, k),
{
    let word = chars_of("cols");
    proof {
        reveal_strlit("cols");
    }
    let mut k: usize = 0;
    while k < c.len()
        invariant
            k <= c.len(),
            word@ == "cols"@,
            "cols"@.len() == 4,
            forall|j: int| 0 <= j < k ==> !#[trigger] loose_width(c@, j),
        decreases c.len() - k,
    {
        if matches_at(c, &word, k) {
            let colon = skip_blanks(c, k + word.len());
            if colon >= c.len() || c[colon] != ':' {
                assert(loose_width(c@, k as int));
                return true;
            }
            let width = skip_blanks(c, colon + 1);
            if width >= c.len() || !digit(c[width]) || c[width] == '0' || skip_digits(c, width) - width
                > 9 {
                assert(loose_width(c@, k as int));
                return true;
            }
        }
        k += 1;
    }
    assert forall|j: int| !#[trigger] loose_width(c@, j) by {
        if loose_width(c@, j) {
            assert(0 <= j < k);
        }
    }
    false
}

// ---------------------------------------------------------------------------
// Lines that mix scripts
// ---------------------------------------------------------------------------

/// How much of what makes a line delicate stands on it before `i`.
#[derive(Debug, Clone, Copy, PartialEq, Eq, Structural)]
pub enum Line {
    Plain,
    /// A character beyond ASCII.
    Wide,
    /// Behind that a string in markup.
    Quoted,
}

/// How a line stands before the character at `i`.
pub open spec fn line(s: Seq<char>, i: int) -> Line
    decreases i,
{
    if i <= 0 || s[i - 1] == '\n' {
        Line::Plain
    } else {
        match line(s, i - 1) {
            Line::Plain => if s[i - 1] as u32 >= 128 {
                Line::Wide
            } else {
                Line::Plain
            },
            Line::Wide => if in_markup(s, i - 1) && is_quote(s[i - 1]) {
                Line::Quoted
            } else {
                Line::Wide
            },
            Line::Quoted => Line::Quoted,
        }
    }
}

/// The end of the names that stand at `i`, with the blanks behind each.
pub open spec fn past_words(s: Seq<char>, i: int) -> int
    decreases s.len() - i,
    via past_words_ends
{
    if 0 <= i < s.len() && is_letter(s[i]) {
        past_words(s, past_blanks(s, past_path(s, i)))
    } else {
        i
    }
}

#[via_fn]
proof fn past_words_ends(s: Seq<char>, i: int) {
    if 0 <= i < s.len() {
        lemma_past_path(s, i);
        lemma_past_blanks(s, past_path(s, i));
    }
}

/// The markup that opens at `k` holds nothing but names: a single one where
/// something is put out, and any number behind the name of a tag.
pub open spec fn only_names(s: Seq<char>, k: int) -> bool {
    let name = past_blanks(s, k + 2);
    &&& name < s.len()
    &&& is_letter(s[name])
    &&& if s[k + 1] == '{' {
        let close = past_blanks(s, past_path(s, name));
        !value_word_at(s, name) && close + 1 < s.len() && s[close] == '}' && s[close + 1] == '}'
    } else {
        let close = past_words(s, past_blanks(s, past_name(s, name)));
        close + 1 < s.len() && s[close] == '%' && s[close + 1] == '}'
    }
}

/// Markup of more than a name opens at `k` behind a string and a character
/// beyond ASCII on its line.
pub open spec fn delicate(s: Seq<char>, k: int) -> bool {
    opens_at(s, k) && place(s, k) == Place::Text && line(s, k) == Line::Quoted && !only_names(s, k)
}

fn skip_words(s: &Vec<char>, from: usize) -> (i: usize)
    requires
        from <= s.len(),
    ensures
        from <= i <= s.len(),
        i == past_words(s@, from as int),
{
    let mut i: usize = from;
    while i < s.len() && letter(s[i])
        invariant
            from <= i <= s.len(),
            past_words(s@, from as int) == past_words(s@, i as int),
        decreases s.len() - i,
    {
        proof {
            lemma_past_path(s@, i as int);
        }
        let end = skip_path(s, i);
        i = skip_blanks(s, end);
    }
    i
}

fn holds_only_names(s: &Vec<char>, k: usize) -> (r: bool)
    requires
        k + 1 < s.len(),
    ensures
        r == only_names(s@, k as int),
{
    let name = skip_blanks(s, k + 2);
    if name >= s.len() || !letter(s[name]) {
        return false;
    }
    if s[k + 1] == '{' {
        let close = skip_blanks(s, skip_path(s, name));
        !is_value_word(s, name) && s.len() - close > 1 && s[close] == '}' && s[close + 1] == '}'
    } else {
        let close = skip_words(s, skip_blanks(s, skip_name(s, name)));
        s.len() - close > 1 && s[close] == '%' && s[close + 1] == '}'
    }
}

fn has_delicate(s: &Vec<char>, places: &Vec<Place>) -> (r: bool)
    requires
        places@.len() == s@.len() + 1,
        forall|i: int| 0 <= i <= s@.len() ==> places@[i] == #[trigger] place(s@, i),
    ensures
        r == exists|k: int| #[trigger] delicate(s@, k),
{
    let mut mark = Line::Plain;
    let mut k: usize = 0;
    while k < s.len()
        invariant
            k <= s.len(),
            places@.len() == s@.len() + 1,
            forall|i: int| 0 <= i <= s@.len() ==> places@[i] == #[trigger] place(s@, i),
            mark == line(s@, k as int),
            forall|j: int| j < k ==> !#[trigger] delicate(s@, j),
        decreases s.len() - k,
    {
        proof {
            assert(places@[k as int] == place(s@, k as int));
            assert(places@[k + 1] == place(s@, k + 1));
        }
        if is_open(s, k) && places[k] == Place::Text && mark == Line::Quoted && !holds_only_names(s, k) {
            assert(delicate(s@, k as int));
            return true;
        }
        let c = s[k];
        let inside = places[k] != Place::Text || places[k + 1] != Place::Text;
        mark = if c == '\n' {
            Line::Plain
        } else {
            match mark {
                Line::Plain => if c as u32 >= 128 {
                    Line::Wide
                } else {
                    Line::Plain
                },
                Line::Wide => if inside && (c == '\'' || c == '"') {
                    Line::Quoted
                } else {
                    Line::Wide
                },
                Line::Quoted => Line::Quoted,
            }
        };
        k += 1;
    }
    false
}

// ---------------------------------------------------------------------------
// Numbers
// ---------------------------------------------------------------------------

/// The digits at `k` are those of a whole number that is written out.
pub open spec fn literal_at(c: Seq<char>, k: int) -> bool {
    let end = past_digits(c, k);
    &&& 0 <= k < c.len()
    &&& is_digit(c[k])
    &&& k > 0 ==> !is_letter(c[k - 1]) && !is_digit(c[k - 1])
    &&& k > 1 && c[k - 1] == '.' ==> c[k - 2] == '.'
    &&& end + 1 < c.len() && c[end] == '.' ==> !is_digit(c[end + 1])
}

/// A whole number beyond 64 bits is written out at `k`.
pub open spec fn big_literal(c: Seq<char>, k: int) -> bool {
    literal_at(c, k) && digits_value(c.subrange(k, past_digits(c, k))) > i64::MAX
}

fn is_big(c: &Vec<char>, from: usize, to: usize) -> (r: bool)
    requires
        from <= to <= c.len(),
        forall|k: int| from <= k < to ==> is_digit(#[trigger] c@[k]),
    ensures
        r == (digits_value(c@.subrange(from as int, to as int)) > i64::MAX),
{
    let ghost all = c@.subrange(from as int, to as int);
    let mut value: u64 = 0;
    let mut i: usize = from;
    while i < to
        invariant
            from <= i <= to <= c.len(),
            all == c@.subrange(from as int, to as int),
            forall|k: int| from <= k < to ==> is_digit(#[trigger] c@[k]),
            value == digits_value(all.subrange(0, i - from)),
            value <= i64::MAX,
        decreases to - i,
    {
        let d: u64 = (c[i] as u32 - '0' as u32) as u64;
        proof {
            let n: int = i - from;
            assert(all[n] == c@[i as int]);
            assert(all.subrange(0, n + 1).subrange(0, n) =~= all.subrange(0, n));
            lemma_digits_value_prefix(all, n + 1);
        }
        if value > (0x7fff_ffff_ffff_ffff - d) / 10 {
            assert(value * 10 + d > i64::MAX);
            return true;
        }
        value = value * 10 + d;
        i += 1;
    }
    assert(all.subrange(0, to - from) =~= all);
    false
}

fn has_big_literal(c: &Vec<char>) -> (r: bool)
    ensures
        r == exists|k: int| #[trigger] big_literal(c@, k),
{
    let mut k: usize = 0;
    while k < c.len()
        invariant
            k <= c.len(),
            forall|j: int| 0 <= j < k ==> !#[trigger] big_literal(c@, j),
        decreases c.len() - k,
    {
        if digit(c[k]) && (k == 0 || (!letter(c[k - 1]) && !digit(c[k - 1]))) && (k <= 1 || c[k - 1]
            != '.' || c[k - 2] == '.') {
            let end = skip_digits(c, k);
            let fraction = c.len() - end > 1 && c[end] == '.' && digit(c[end + 1]);
            if !fraction && is_big(c, k, end) {
                assert(big_literal(c@, k as int));
                return true;
            }
        }
        k += 1;
    }
    false
}

/// The text is no number of more than `n` signs, nor too long to be counted.
pub open spec fn small_number(t: Seq<char>, n: int) -> bool {
    &&& t.len() <= n || exists|i: int|
        0 <= i < t.len() && !(is_digit(#[trigger] t[i]) || t[i] == '+' || t[i] == '-')
    &&& t.len() < 1_000_000_000
}

pub open spec fn small_global(g: GlobalView, n: int) -> bool {
    match g {
        GlobalView::Missing => true,
        GlobalView::Text(t) => small_number(t, n),
        GlobalView::Texts(v) => v.len() < 1_000_000_000 && forall|i: int|
            0 <= i < v.len() ==> small_number(#[trigger] v[i], n),
    }
}

/// No variable is a number of more than `n` signs.
pub open spec fn small_globals(globals: Seq<(Seq<char>, GlobalView)>, n: int) -> bool {
    forall|i: int| 0 <= i < globals.len() ==> small_global((#[trigger] globals[i]).1, n)
}

fn is_small_number(t: &str, n: usize) -> (r: bool)
    ensures
        r == small_number(t@, n as int),
{
    let h = chars_of(t);
    if h.len() >= 1_000_000_000 {
        return false;
    }
    if h.len() <= n {
        return true;
    }
    let mut i: usize = 0;
    while i < h.len()
        invariant
            i <= h.len() < 1_000_000_000,
            h@ == t@,
            forall|k: int|
                0 <= k < i ==> (is_digit(#[trigger] t@[k]) || t@[k] == '+' || t@[k] == '-'),
        decreases h.len() - i,
    {
        let c = h[i];
        if !(digit(c) || c == '+' || c == '-') {
            return true;
        }
        i += 1;
    }
    false
}

fn is_small_global(g: &Global, n: usize) -> (r: bool)
    ensures
        r == small_global(g@, n as int),
{
    match g {
        Global::Missing => true,
        Global::Text(t) => is_small_number(t.as_str(), n),
        Global::Texts(v) => {
            if v.len() >= 1_000_000_000 {
                return false;
            }
            let mut i: usize = 0;
            while i < v.len()
                invariant
                    i <= v.len() < 1_000_000_000,
                    g@ == GlobalView::Texts(views(v@)),
                    forall|k: int| 0 <= k < i ==> small_number(#[trigger] views(v@)[k], n as int),
                decreases v.len() - i,
            {
                if !is_small_number(v[i].as_str(), n) {
                    proof {
                        let all = views(v@);
                        assert(0 <= i < all.len() && !small_number(all[i as int], n as int));
                        assert(g@->Texts_0 == all);
                    }
                    return false;
                }
                i += 1;
            }
            true
        },
    }
}

fn are_small(globals: &Vec<(String, Global)>, n: usize) -> (r: bool)
    ensures
        r == small_globals(global_views(globals@), n as int),
{
    let mut i: usize = 0;
    while i < globals.len()
        invariant
            i <= globals.len(),
            forall|k: int|
                0 <= k < i ==> small_global((#[trigger] global_views(globals@)[k]).1, n as int),
        decreases globals.len() - i,
    {
        if !is_small_global(&globals[i].1, n) {
            assert(!small_global(global_views(globals@)[i as int].1, n as int));
            return false;
        }
        i += 1;
    }
    true
}

/// How often `x` stands among the first `n` characters.
pub open spec fn tally(c: Seq<char>, n: int, x: char) -> int
    decreases n,
{
    if n <= 0 {
        0
    } else if c[n - 1] == x {
        tally(c, n - 1, x) + 1
    } else {
        tally(c, n - 1, x)
    }
}

fn count(c: &Vec<char>, x: char) -> (n: usize)
    ensures
        n == tally(c@, c@.len() as int, x),
        n <= c.len(),
{
    let mut n: usize = 0;
    let mut i: usize = 0;
    while i < c.len()
        invariant
            n <= i <= c.len(),
            n == tally(c@, i as int, x),
        decreases c.len() - i,
    {
        if c[i] == x {
            n += 1;
        }
        i += 1;
    }
    n
}

/// The template reckons with small numbers alone, and with none that it has
/// worked out itself.
pub open spec fn reckons_small(
    m: Seq<char>,
    c: Seq<char>,
    globals: Seq<(Seq<char>, GlobalView)>,
) -> bool {
    &&& !has_number(m, 5)
    &&& !has_text(c, "assign"@)
    &&& !has_text(c, "capture"@)
    &&& !reckons_in_chain(c)
    &&& small_globals(globals, 5)
}

/// The bar at `k` is followed by no filter that reckons on numbers alone.
pub open spec fn other_bar(c: Seq<char>, k: int) -> bool {
    0 <= k < c.len() && c[k] == '|' && (!reckons_at(c, k) || filter_at(c, k, "slice"@))
}

fn has_other_bar(c: &Vec<char>) -> (r: bool)
    ensures
        r == exists|k: int| #[trigger] other_bar(c@, k),
{
    let mut k: usize = 0;
    while k < c.len()
        invariant
            k <= c.len(),
            forall|j: int| 0 <= j < k ==> !#[trigger] other_bar(c@, j),
        decreases c.len() - k,
    {
        if is_other_bar(c, k) {
            return true;
        }
        k += 1;
    }
    false
}

/// The template reckons twice at most, outside loops and with small numbers: a
/// product of products still fits.
pub open spec fn reckons_briefly(
    m: Seq<char>,
    c: Seq<char>,
    globals: Seq<(Seq<char>, GlobalView)>,
) -> bool {
    &&& !has_number(m, 5)
    &&& tally(c, c.len() as int, '|') <= 2
    &&& !exists|k: int| #[trigger] other_bar(c, k)
    &&& !has_text(c, "for"@)
    &&& !has_text(c, "tablerow"@)
    &&& !has_text(c, "capture"@)
    &&& !has_text(m, "size"@)
    &&& small_globals(globals, 4)
}

/// The filter behind the bar at `k`, whose name is `word`, has a number written
/// out as its argument.
pub open spec fn numbered(c: Seq<char>, k: int, word: Seq<char>) -> bool {
    let colon = past_blanks(c, past_blanks(c, k + 1) + word.len());
    let operand = past_blanks(c, colon + 1);
    &&& filter_at(c, k, word)
    &&& colon < c.len()
    &&& c[colon] == ':'
    &&& operand < c.len()
    &&& is_digit(c[operand])
}

fn is_numbered(c: &Vec<char>, k: usize, word: &str) -> (r: bool)
    requires
        k < c.len(),
    ensures
        r == numbered(c@, k as int, word@),
{
    if !is_filter(c, k, word) {
        return false;
    }
    let w = chars_of(word);
    let colon = skip_blanks(c, skip_blanks(c, k + 1) + w.len());
    if colon >= c.len() || c[colon] != ':' {
        return false;
    }
    let operand = skip_blanks(c, colon + 1);
    operand < c.len() && digit(c[operand])
}

/// The filter behind the bar at `k` reckons, and does more than to add a number
/// that is written out or to lessen what it is given.
pub open spec fn hard_at(c: Seq<char>, k: int) -> bool {
    &&& reckons_at(c, k)
    &&& !filter_at(c, k, "abs"@)
    &&& !filter_at(c, k, "divided_by"@)
    &&& !filter_at(c, k, "modulo"@)
    &&& !numbered(c, k, "plus"@)
    &&& !numbered(c, k, "minus"@)
}

fn has_hard(c: &Vec<char>) -> (r: bool)
    ensures
        r == exists|k: int| #[trigger] hard_at(c@, k),
{
    let mut k: usize = 0;
    while k < c.len()
        invariant
            k <= c.len(),
            forall|j: int| 0 <= j < k ==> !#[trigger] hard_at(c@, j),
        decreases c.len() - k,
    {
        if is_reckoning(c, k) && !is_filter(c, k, "abs") && !is_filter(c, k, "divided_by")
            && !is_filter(c, k, "modulo") && !is_numbered(c, k, "plus") && !is_numbered(
            c,
            k,
            "minus",
        ) {
            assert(hard_at(c@, k as int));
            return true;
        }
        k += 1;
    }
    false
}

/// At `a` stands a filter that reckons, or the name of the tag that keeps a
/// value.
pub open spec fn keeps_number(c: Seq<char>, a: int) -> bool {
    reckons_at(c, a) || occurs_at(c, "assign"@, a)
}

/// Between the positions `j` and `k`, in this order or the other, no markup
/// closes; a number is kept or reckoned at the one, and at the other stands a
/// filter that may make a number of any size.
pub open spec fn mixed(c: Seq<char>, j: int, k: int) -> bool {
    &&& 0 <= j < k < c.len()
    &&& (keeps_number(c, j) && other_bar(c, k)) || (other_bar(c, j) && keeps_number(c, k))
    &&& forall|i: int| j < i < k ==> !#[trigger] closes_at(c, i)
}

fn is_keeping(c: &Vec<char>, assign: &Vec<char>, k: usize) -> (r: bool)
    requires
        k < c.len(),
        assign@ == "assign"@,
    ensures
        r == keeps_number(c@, k as int),
{
    is_reckoning(c, k) || matches_at(c, assign, k)
}

fn is_other_bar(c: &Vec<char>, k: usize) -> (r: bool)
    requires
        k < c.len(),
    ensures
        r == other_bar(c@, k as int),
{
    c[k] == '|' && (!is_reckoning(c, k) || is_filter(c, k, "slice"))
}

fn mixes_from(c: &Vec<char>, assign: &Vec<char>, j: usize) -> (r: bool)
    requires
        j < c.len(),
        assign@ == "assign"@,
    ensures
        r == exists|k: int| #[trigger] mixed(c@, j as int, k),
{
    let keeps = is_keeping(c, assign, j);
    let other = is_other_bar(c, j);
    if !keeps && !other {
        return false;
    }
    let mut k: usize = j + 1;
    while k < c.len()
        invariant
            j < k <= c.len(),
            assign@ == "assign"@,
            keeps == keeps_number(c@, j as int),
            other == other_bar(c@, j as int),
            forall|i: int| j < i < k ==> !#[trigger] closes_at(c@, i),
            forall|i: int| i < k ==> !#[trigger] mixed(c@, j as int, i),
        decreases c.len() - k,
    {
        if (keeps && is_other_bar(c, k)) || (other && is_keeping(c, assign, k)) {
            assert(mixed(c@, j as int, k as int));
            return true;
        }
        if is_close(c, k) {
            assert forall|i: int| !#[trigger] mixed(c@, j as int, i) by {
                if i > k {
                    assert(closes_at(c@, k as int));
                }
            }
            return false;
        }
        k += 1;
    }
    false
}

fn is_mixed(c: &Vec<char>) -> (r: bool)
    ensures
        r == exists|j: int, k: int| #[trigger] mixed(c@, j, k),
{
    let assign = chars_of("assign");
    let mut j: usize = 0;
    while j < c.len()
        invariant
            j <= c.len(),
            assign@ == "assign"@,
            forall|i: int, k: int| i < j ==> !#[trigger] mixed(c@, i, k),
        decreases c.len() - j,
    {
        if mixes_from(c, &assign, j) {
            return true;
        }
        j += 1;
    }
    false
}

/// What the template reckons grows by small steps alone: it adds numbers that
/// are written out, and nothing else makes the numbers that it keeps.
pub open spec fn reckons_gently(
    m: Seq<char>,
    c: Seq<char>,
    globals: Seq<(Seq<char>, GlobalView)>,
) -> bool {
    &&& !has_number(m, 5)
    &&& c.len() < 1_000_000_000
    &&& !has_text(c, "capture"@)
    &&& !filters(c, "slice"@)
    &&& !exists|k: int| #[trigger] hard_at(c, k)
    &&& !exists|j: int, k: int| #[trigger] mixed(c, j, k)
    &&& small_globals(globals, 5)
}

fn is_gentle(m: &Vec<char>, c: &Vec<char>, globals: &Vec<(String, Global)>) -> (r: bool)
    ensures
        r == reckons_gently(m@, c@, global_views(globals@)),
{
    !holds_number(m, 5) && c.len() < 1_000_000_000 && !has_word(c, "capture") && !uses_filter(
        c,
        "slice",
    ) && !has_hard(c) && !is_mixed(c) && are_small(globals, 5)
}

/// All that stands between `from` and `to` is digits and blanks.
pub open spec fn only_digits(c: Seq<char>, from: int, to: int) -> bool {
    forall|j: int| from <= j < to ==> is_digit(#[trigger] c[j]) || is_blank(c[j])
}

/// The range whose dots stand at `k` begins at `a` and ends at `b`, with
/// numbers that are written out.
pub open spec fn range_between(c: Seq<char>, k: int, a: int, b: int) -> bool {
    &&& 0 <= a < k
    &&& k + 2 <= b < c.len()
    &&& c[a] == '('
    &&& c[b] == ')'
    &&& only_digits(c, a + 1, k)
    &&& only_digits(c, k + 2, b)
}

/// The dots of a range stand at `k` whose ends are not both written out.
pub open spec fn loose_range(c: Seq<char>, k: int) -> bool {
    occurs_at(c, ".."@, k) && !exists|a: int, b: int| #[trigger] range_between(c, k, a, b)
}

fn is_loose_range(c: &Vec<char>, k: usize) -> (r: bool)
    requires
        k + 2 <= c.len(),
        occurs_at(c@, ".."@, k as int),
    ensures
        r == loose_range(c@, k as int),
{
    let mut a: usize = k;
    while a > 0 && (digit(c[a - 1]) || c[a - 1] == ' ' || c[a - 1] == '\n' || c[a - 1] == '\r')
        invariant
            a <= k,
            k + 2 <= c.len(),
            only_digits(c@, a as int, k as int),
        decreases a,
    {
        a -= 1;
    }
    let mut b: usize = k + 2;
    while b < c.len() && (digit(c[b]) || c[b] == ' ' || c[b] == '\n' || c[b] == '\r')
        invariant
            k + 2 <= b <= c.len(),
            only_digits(c@, k + 2, b as int),
        decreases c.len() - b,
    {
        b += 1;
    }
    if a == 0 || c[a - 1] != '(' || b >= c.len() || c[b] != ')' {
        proof {
            assert forall|x: int, y: int| !#[trigger] range_between(c@, k as int, x, y) by {
                if range_between(c@, k as int, x, y) {
                    assert(!(is_digit(c@[x]) || is_blank(c@[x])));
                    assert(!(is_digit(c@[y]) || is_blank(c@[y])));
                    if x < a - 1 {
                        assert(is_digit(c@[a - 1]) || is_blank(c@[a - 1]));
                    }
                    if x > a - 1 {
                        assert(a <= x < k);
                    }
                    if y > b {
                        assert(is_digit(c@[b as int]) || is_blank(c@[b as int]));
                    }
                    assert(x == a - 1);
                    assert(y == b);
                }
            }
        }
        return true;
    }
    assert(range_between(c@, k as int, a - 1, b as int));
    false
}

fn has_loose_range(c: &Vec<char>) -> (r: bool)
    ensures
        r == exists|k: int| #[trigger] loose_range(c@, k),
{
    proof {
        reveal_strlit("..");
    }
    let dots = chars_of("..");
    let mut k: usize = 0;
    while k < c.len()
        invariant
            k <= c.len(),
            dots@ == ".."@,
            ".."@.len() == 2,
            forall|j: int| 0 <= j < k ==> !#[trigger] loose_range(c@, j),
        decreases c.len() - k,
    {
        if matches_at(c, &dots, k) && is_loose_range(c, k) {
            return true;
        }
        k += 1;
    }
    assert forall|j: int| !#[trigger] loose_range(c@, j) by {
        if loose_range(c@, j) {
            assert(0 <= j < k);
        }
    }
    false
}

/// The ranges are short: their ends are small numbers, written out, out of the
/// variables or gently reckoned.
pub open spec fn ranges_small(
    m: Seq<char>,
    c: Seq<char>,
    globals: Seq<(Seq<char>, GlobalView)>,
) -> bool {
    &&& !has_number(c, 5)
    &&& (exists|k: int| #[trigger] loose_range(c, k)) ==> {
        ||| reckons_gently(m, c, globals)
        ||| !has_number(m, 5) && !has_text(c, "assign"@) && !has_text(c, "capture"@)
            && small_globals(globals, 5)
    }
}

// ---------------------------------------------------------------------------
// Helpers of loops
// ---------------------------------------------------------------------------

/// The helper of a loop stands at `k` without the name of one of its parts.
pub open spec fn bare_helper(c: Seq<char>, k: int) -> bool {
    occurs_at(c, "forloop"@, k) && !occurs_at(c, "forloop."@, k)
}

/// The tag that opens at `o` has its name at `k`.
pub open spec fn tag_named_at(c: Seq<char>, o: int, k: int) -> bool {
    opens_at(c, o) && c[o + 1] == '%' && past_blanks(c, inside(c, o)) == k
}

/// A tag has its name at `k`.
pub open spec fn names_tag(c: Seq<char>, k: int) -> bool {
    exists|o: int| #[trigger] tag_named_at(c, o, k)
}

/// The helper of a table stands at `k` without the name of one of its parts.
pub open spec fn bare_table(c: Seq<char>, k: int) -> bool {
    &&& occurs_at(c, "tablerow"@, k)
    &&& !occurs_at(c, "tablerow."@, k)
    &&& !names_tag(c, k)
    &&& !occurs_at(c, "end"@, k - 3)
}

/// The helper of a loop is taken as a whole.
pub open spec fn takes_helper(c: Seq<char>) -> bool {
    ||| exists|k: int| #[trigger] bare_helper(c, k)
    ||| exists|k: int| #[trigger] bare_table(c, k)
    ||| has_text(c, "parentloop"@)
}

fn is_tag_name(c: &Vec<char>, k: usize) -> (r: bool)
    requires
        k <= c.len(),
    ensures
        r == names_tag(c@, k as int),
{
    let mut o: usize = 0;
    while o < c.len()
        invariant
            o <= c.len(),
            forall|j: int| 0 <= j < o ==> !#[trigger] tag_named_at(c@, j, k as int),
        decreases c.len() - o,
    {
        if is_open(c, o) && c[o + 1] == '%' {
            let start = if c.len() - o > 2 && c[o + 2] == '-' {
                o + 3
            } else {
                o + 2
            };
            if skip_blanks(c, start) == k {
                assert(tag_named_at(c@, o as int, k as int));
                return true;
            }
        }
        o += 1;
    }
    false
}

fn has_helper(c: &Vec<char>) -> (r: bool)
    ensures
        r == takes_helper(c@),
{
    let forloop = chars_of("forloop");
    let forloop_part = chars_of("forloop.");
    let tablerow = chars_of("tablerow");
    let tablerow_part = chars_of("tablerow.");
    let end = chars_of("end");
    proof {
        reveal_strlit("forloop");
        reveal_strlit("tablerow");
    }
    let mut k: usize = 0;
    while k < c.len()
        invariant
            k <= c.len(),
            forloop@ == "forloop"@,
            forloop_part@ == "forloop."@,
            tablerow@ == "tablerow"@,
            tablerow_part@ == "tablerow."@,
            end@ == "end"@,
            forall|j: int| 0 <= j < k ==> !#[trigger] bare_helper(c@, j),
            forall|j: int| 0 <= j < k ==> !#[trigger] bare_table(c@, j),
        decreases c.len() - k,
    {
        if matches_at(c, &forloop, k) && !matches_at(c, &forloop_part, k) {
            assert(bare_helper(c@, k as int));
            return true;
        }
        if matches_at(c, &tablerow, k) && !matches_at(c, &tablerow_part, k) && !is_tag_name(c, k)
            && !(k >= 3 && matches_at(c, &end, k - 3)) {
            assert(bare_table(c@, k as int));
            return true;
        }
        k += 1;
    }
    assert forall|j: int| !#[trigger] bare_helper(c@, j) by {
        if bare_helper(c@, j) {
            assert(0 <= j < k);
        }
    }
    assert forall|j: int| !#[trigger] bare_table(c@, j) by {
        if bare_table(c@, j) {
            assert(0 <= j < k);
        }
    }
    has_word(c, "parentloop")
}

// ---------------------------------------------------------------------------
// Depth
// ---------------------------------------------------------------------------

/// The name of a tag that opens a block, or another branch of one, stands at
/// `k`.
pub open spec fn opens_block(c: Seq<char>, k: int) -> bool {
    ||| occurs_at(c, "if"@, k)
    ||| occurs_at(c, "unless"@, k)
    ||| occurs_at(c, "elsif"@, k)
    ||| occurs_at(c, "case"@, k)
    ||| occurs_at(c, "for"@, k)
    ||| occurs_at(c, "tablerow"@, k)
    ||| occurs_at(c, "capture"@, k)
    ||| occurs_at(c, "comment"@, k)
    ||| occurs_at(c, "raw"@, k)
}

fn is_block_opened(c: &Vec<char>, k: usize) -> (r: bool)
    requires
        k <= c.len(),
    ensures
        r == opens_block(c@, k as int),
{
    matches_at(c, &chars_of("if"), k) || matches_at(c, &chars_of("unless"), k) || matches_at(
        c,
        &chars_of("elsif"),
        k,
    ) || matches_at(c, &chars_of("case"), k) || matches_at(c, &chars_of("for"), k) || matches_at(
        c,
        &chars_of("tablerow"),
        k,
    ) || matches_at(c, &chars_of("capture"), k) || matches_at(c, &chars_of("comment"), k)
        || matches_at(c, &chars_of("raw"), k)
}

/// Some block takes what stands in it as it is, whether it closes a block or
/// not.
pub open spec fn keeps_text(c: Seq<char>) -> bool {
    has_text(c, "raw"@) || has_text(c, "comment"@)
}

/// How many blocks are open before `i`; where `keeps` holds, none counts as
/// closed.
pub open spec fn nesting(c: Seq<char>, keeps: bool, i: int) -> int
    decreases i,
{
    if i <= 0 {
        0
    } else {
        let before = nesting(c, keeps, i - 1);
        let name = past_blanks(c, inside(c, i - 1));
        if !(opens_at(c, i - 1) && c[i] == '%') {
            before
        } else if opens_block(c, name) {
            before + 1
        } else if !keeps && before > 0 && occurs_at(c, "end"@, name) {
            before - 1
        } else {
            before
        }
    }
}

/// More than a hundred blocks are open before `i`.
pub open spec fn deep_at(c: Seq<char>, i: int) -> bool {
    0 <= i <= c.len() && nesting(c, keeps_text(c), i) > 100
}

fn is_deep(c: &Vec<char>) -> (r: bool)
    ensures
        r == exists|i: int| #[trigger] deep_at(c@, i),
{
    let keeps = has_word(c, "raw") || has_word(c, "comment");
    let end = chars_of("end");
    let mut depth: usize = 0;
    let mut i: usize = 0;
    while i < c.len()
        invariant
            i <= c.len(),
            keeps == keeps_text(c@),
            end@ == "end"@,
            depth == nesting(c@, keeps, i as int),
            depth <= 100,
            forall|j: int| j <= i ==> !#[trigger] deep_at(c@, j),
        decreases c.len() - i,
    {
        if is_open(c, i) && c[i + 1] == '%' {
            let start = if c.len() - i > 2 && c[i + 2] == '-' {
                i + 3
            } else {
                i + 2
            };
            let name = skip_blanks(c, start);
            if is_block_opened(c, name) {
                depth += 1;
            } else if !keeps && depth > 0 && matches_at(c, &end, name) {
                depth -= 1;
            }
        }
        i += 1;
        if depth > 100 {
            assert(deep_at(c@, i as int));
            return true;
        }
        assert forall|j: int| j <= i implies !#[trigger] deep_at(c@, j) by {
            if j == i {
                assert(nesting(c@, keeps, i as int) <= 100);
            }
        }
    }
    false
}

/// A word that joins conditions stands at `k`.
pub open spec fn joins_at(c: Seq<char>, k: int) -> bool {
    name_at(c, "and"@, k) || name_at(c, "or"@, k)
}

/// How many conditions are joined among the first `n` characters.
pub open spec fn joints(c: Seq<char>, n: int) -> int
    decreases n,
{
    if n <= 0 {
        0
    } else if joins_at(c, n - 1) {
        joints(c, n - 1) + 1
    } else {
        joints(c, n - 1)
    }
}

fn count_joints(c: &Vec<char>) -> (n: usize)
    ensures
        n == joints(c@, c@.len() as int),
        n <= c.len(),
{
    proof {
        reveal_strlit("and");
        reveal_strlit("or");
    }
    let and = chars_of("and");
    let or = chars_of("or");
    let mut n: usize = 0;
    let mut i: usize = 0;
    while i < c.len()
        invariant
            n <= i <= c.len(),
            and@ == "and"@,
            or@ == "or"@,
            and@.len() == 3,
            or@.len() == 2,
            n == joints(c@, i as int),
        decreases c.len() - i,
    {
        if is_name(c, &and, i) || is_name(c, &or, i) {
            n += 1;
        }
        i += 1;
    }
    n
}

/// Nothing in the template is nested deeply: blocks, entries within entries,
/// and conditions behind one another.
pub open spec fn shallow(c: Seq<char>) -> bool {
    &&& !exists|i: int| #[trigger] deep_at(c, i)
    &&& tally(c, c.len() as int, '[') <= 100
    &&& joints(c, c.len() as int) <= 500
}

fn is_shallow(c: &Vec<char>) -> (r: bool)
    ensures
        r == shallow(c@),
{
    !is_deep(c) && count(c, '[') <= 100 && count_joints(c) <= 500
}

// ---------------------------------------------------------------------------
// What can be rendered
// ---------------------------------------------------------------------------

/// The `liquid` crate can read the markup, or can tell where it fails: the crate
/// reads the line of a faulty place a second time, by bytes, and stops where
/// that reading finds no fault. So either all markup surely can be read; or no
/// string in markup holds a delimiter, and a line with a character beyond ASCII
/// and a string in markup behind it goes on with names only.
pub open spec fn readable(template: Seq<char>) -> bool {
    ||| sure_from(template, 0)
    ||| place(template, template.len() as int) != Place::Lost && !exists|k: int| #[trigger]
        delicate(template, k)
}

/// Nothing in the template makes the `liquid` crate stop the process.
///
/// - The markup can be read, or is seen to be faulty.
/// - No number that is written out is beyond 64 bits.
/// - A cycle has something to go through, and a table that is given a width has
///   one that is not zero.
/// - A date has its format written out, in ASCII and with small widths.
/// - What is sorted is text alone: no helper of a loop is taken apart.
/// - What is reckoned stays small, and so do ranges.
/// - Nothing is nested deeply.
pub open spec fn harmless(template: Seq<char>, globals: Seq<(Seq<char>, GlobalView)>) -> bool {
    let m = markup(template);
    let c = code(template);
    &&& readable(template)
    &&& !exists|k: int| #[trigger] big_literal(c, k)
    &&& !exists|k: int| #[trigger] loose_colon(c, k)
    &&& has_text(c, "tablerow"@) ==> !exists|k: int| #[trigger] loose_width(c, k)
    &&& !exists|k: int| #[trigger] loose_date(m, c, k)
    &&& filters(c, "sort"@) ==> !takes_helper(c)
    &&& reckons(c) ==> {
        ||| reckons_small(m, c, globals)
        ||| reckons_briefly(m, c, globals)
        ||| reckons_gently(m, c, globals)
    }
    &&& has_text(c, ".."@) ==> ranges_small(m, c, globals)
    &&& shallow(c)
}

/// The template can be handed to the `liquid` crate: it has no markup, or none
/// that does harm.
pub open spec fn renderable(template: Seq<char>, globals: Seq<(Seq<char>, GlobalView)>) -> bool {
    no_markup(template) || harmless(template, globals)
}

fn is_readable(s: &Vec<char>, places: &Vec<Place>) -> (r: bool)
    requires
        places@.len() == s@.len() + 1,
        forall|i: int| 0 <= i <= s@.len() ==> places@[i] == #[trigger] place(s@, i),
    ensures
        r == readable(s@),
{
    if is_sure(s) {
        return true;
    }
    proof {
        assert(places@[s@.len() as int] == place(s@, s@.len() as int));
    }
    places[s.len()] != Place::Lost && !has_delicate(s, places)
}

fn is_brief(m: &Vec<char>, c: &Vec<char>, globals: &Vec<(String, Global)>) -> (r: bool)
    ensures
        r == reckons_briefly(m@, c@, global_views(globals@)),
{
    !holds_number(m, 5) && count(c, '|') <= 2 && !has_other_bar(c) && !has_word(c, "for")
        && !has_word(c, "tablerow") && !has_word(c, "capture") && !has_word(m, "size") && are_small(
        globals,
        4,
    )
}

fn stays_small(m: &Vec<char>, c: &Vec<char>, globals: &Vec<(String, Global)>) -> (r: bool)
    ensures
        r == {
            &&& reckons(c@) ==> {
                ||| reckons_small(m@, c@, global_views(globals@))
                ||| reckons_briefly(m@, c@, global_views(globals@))
                ||| reckons_gently(m@, c@, global_views(globals@))
            }
            &&& has_text(c@, ".."@) ==> ranges_small(m@, c@, global_views(globals@))
        },
{
    let bound = !has_word(c, "assign") && !has_word(c, "capture") && !holds_number(m, 5)
        && are_small(globals, 5);
    let gentle = is_gentle(m, c, globals);
    if is_reckoner(c) && !gentle && !(bound && !has_chain(c)) && !is_brief(m, c, globals) {
        return false;
    }
    !has_word(c, "..") || (!holds_number(c, 5) && (!has_loose_range(c) || gentle || bound))
}

/// Whether the template can be rendered with these variables.
pub fn can_render(template: &str, globals: &Vec<(String, Global)>) -> (r: bool)
    ensures
        r == renderable(template@, global_views(globals@)),
{
    let s = chars_of(template);
    if !has_word(&s, "{{") && !has_word(&s, "{%") {
        return true;
    }
    let places = places_of(&s);
    let m = markup_of(&s, &places);
    let c = code_of(&s, &places);
    is_readable(&s, &places) && !has_big_literal(&c) && !has_loose_colon(&c) && !(has_word(
        &c,
        "tablerow",
    ) && has_loose_width(&c)) && !has_loose_date(&m, &c) && !(uses_filter(&c, "sort") && has_helper(
        &c,
    )) && stays_small(&m, &c, globals) && is_shallow(&c)
}

/// Nothing in the template is markup.
pub open spec fn no_markup(template: Seq<char>) -> bool {
    !has_text(template, "{{"@) && !has_text(template, "{%"@)
}

/// A text without markup can be rendered, whatever the variables.
pub proof fn law_text_without_markup_can_be_rendered(
    template: Seq<char>,
    globals: Seq<(Seq<char>, GlobalView)>,
)
    requires
        no_markup(template),
    ensures
        renderable(template, globals),
{
}

/// The template picks or counts by numbers that the `liquid` crate takes for
/// ones of the machine's word size.
pub open spec fn counts_in_words(c: Seq<char>) -> bool {
    ||| filters(c, "slice"@)
    ||| filters(c, "truncate"@)
    ||| has_text(c, "["@)
    ||| has_text(c, ".-"@)
    ||| has_text(c, ".."@)
    ||| has_text(c, "limit"@)
    ||| has_text(c, "offset"@)
    ||| has_text(c, "tablerow"@)
}

/// The bar at `k` is followed by a filter that asks for the time, or that works
/// with fractions as the machine does.
pub open spec fn wavers_at(c: Seq<char>, k: int) -> bool {
    filter_at(c, k, "date"@) || filter_at(c, k, "round"@) || filter_at(c, k, "at_"@)
}

/// The bars at `j` and `k` stand in the same markup, and one of them wavers.
pub open spec fn wavers_beside(c: Seq<char>, j: int, k: int) -> bool {
    &&& 0 <= j < k < c.len()
    &&& c[j] == '|'
    &&& c[k] == '|'
    &&& wavers_at(c, j) || wavers_at(c, k)
    &&& forall|i: int| j < i < k ==> !#[trigger] closes_at(c, i)
}

/// No helper of a loop is taken as a whole, and what the template counts by
/// fits a machine's word of any size.
pub open spec fn counts_small(template: Seq<char>, globals: Seq<(Seq<char>, GlobalView)>) -> bool {
    let m = markup(template);
    let c = code(template);
    &&& !takes_helper(c)
    &&& counts_in_words(c) ==> {
        &&& !has_number(m, 10)
        &&& !has_text(c, "assign"@)
        &&& !has_text(c, "capture"@)
        &&& small_globals(globals, 9)
    }
}

/// What comes of the template is settled by the template and its variables: no
/// filter wavers, and what is counted is small.
pub open spec fn settled(template: Seq<char>, globals: Seq<(Seq<char>, GlobalView)>) -> bool {
    &&& counts_small(template, globals)
    &&& !exists|k: int| #[trigger] wavers_at(code(template), k)
}

/// Whether anything comes of the template is settled by the template and its
/// variables: what a filter gives that wavers is put out as it is, and nothing
/// else hangs on it.
pub open spec fn steady(template: Seq<char>, globals: Seq<(Seq<char>, GlobalView)>) -> bool {
    let c = code(template);
    &&& counts_small(template, globals)
    &&& (exists|k: int| #[trigger] wavers_at(c, k)) ==> {
        &&& !has_text(c, "assign"@)
        &&& !has_text(c, "capture"@)
        &&& !exists|j: int, k: int| #[trigger] wavers_beside(c, j, k)
    }
}

/// The position of the first markup, or the end.
pub open spec fn first_markup(s: Seq<char>, i: int) -> int
    decreases s.len() - i,
{
    if i < 0 || i >= s.len() || opens_at(s, i) {
        i
    } else {
        first_markup(s, i + 1)
    }
}

/// `out` begins with what stands before the first markup, unless that markup
/// asks for the blanks before it to go.
pub open spec fn begins_as(template: Seq<char>, out: Seq<char>) -> bool {
    let n = first_markup(template, 0);
    (n + 2 < template.len() && template[n + 2] == '-') || (n <= out.len() && out.subrange(0, n)
        == template.subrange(0, n))
}

// ---------------------------------------------------------------------------
// Names
// ---------------------------------------------------------------------------

/// The character can stand in a name.
pub open spec fn in_name(c: char) -> bool {
    is_letter(c) || is_digit(c) || c == '-'
}

/// The name `word` stands at `k`, and is not part of a longer one.
pub open spec fn name_at(m: Seq<char>, word: Seq<char>, k: int) -> bool {
    &&& occurs_at(m, word, k)
    &&& k == 0 || !in_name(m[k - 1])
    &&& k + word.len() == m.len() || !in_name(m[k + word.len()])
}

/// The markup of the template holds the name `word`.
pub open spec fn names(template: Seq<char>, word: Seq<char>) -> bool {
    exists|k: int| #[trigger] name_at(markup(template), word, k)
}

fn is_in_name(c: char) -> (r: bool)
    ensures
        r == in_name(c),
{
    ('a' <= c && c <= 'z') || ('A' <= c && c <= 'Z') || c == '_' || digit(c) || c == '-'
}

fn is_name(m: &Vec<char>, word: &Vec<char>, k: usize) -> (r: bool)
    requires
        k < m.len(),
        word.len() > 0,
    ensures
        r == name_at(m@, word@, k as int),
{
    matches_at(m, word, k) && (k == 0 || !is_in_name(m[k - 1])) && (k + word.len() == m.len()
        || !is_in_name(m[k + word.len()]))
}

/// Whether the markup of the template holds the name `word`.
pub fn has_name(template: &str, word: &str) -> (r: bool)
    requires
        word@.len() > 0,
    ensures
        r == names(template@, word@),
{
    let s = chars_of(template);
    let places = places_of(&s);
    let m = markup_of(&s, &places);
    let w = chars_of(word);
    let mut k: usize = 0;
    while k < m.len()
        invariant
            k <= m.len(),
            m@ == markup(template@),
            w@ == word@,
            w@.len() > 0,
            forall|j: int| 0 <= j < k ==> !#[trigger] name_at(m@, word@, j),
        decreases m.len() - k,
    {
        if is_name(&m, &w, k) {
            assert(name_at(m@, word@, k as int));
            return true;
        }
        k += 1;
    }
    false
}

proof fn lemma_in_text(s: Seq<char>, sure: bool, n: int, i: int)
    requires
        0 <= i <= n <= s.len(),
        forall|k: int| 0 <= k < n ==> !#[trigger] opens_at(s, k),
    ensures
        reached(s, sure, i) == Place::Text,
    decreases i,
{
    if i > 0 {
        lemma_in_text(s, sure, n, i - 1);
        assert(!opens_at(s, i - 1));
    }
}

proof fn lemma_in_code(s: Seq<char>, sure: bool, from: int, n: int, i: int)
    requires
        0 <= from <= i <= n <= s.len(),
        reached(s, sure, from) == Place::Markup,
        forall|k: int| from <= k < n ==> !closes_at(s, k) && !is_quote(#[trigger] s[k]),
    ensures
        reached(s, sure, i) == Place::Markup,
    decreases i,
{
    if i > from {
        lemma_in_code(s, sure, from, n, i - 1);
        assert(!is_quote(s[i - 1]));
    }
}

/// A template names a word where the word stands in its markup, with blanks
/// round it.
pub proof fn law_words_in_markup_are_named(a: Seq<char>, word: Seq<char>, b: Seq<char>)
    requires
        !a.contains('{'),
        word.len() > 0,
        forall|i: int|
            0 <= i < word.len() ==> {
                &&& #[trigger] word[i] != '}'
                &&& word[i] != '%'
                &&& word[i] != '\''
                &&& word[i] != '"'
            },
    ensures
        names(a + seq!['{', '{', ' '] + word + seq![' ', '}', '}'] + b, word),
{
    let s = a + seq!['{', '{', ' '] + word + seq![' ', '}', '}'] + b;
    let n = a.len() as int;
    let w = word.len() as int;
    let sure = sure_from(s, 0);
    assert(s[n] == '{' && s[n + 1] == '{' && s[n + 2] == ' ');
    assert forall|i: int| 0 <= i < w implies s[n + 3 + i] == #[trigger] word[i] by {}
    assert(s[n + 3 + w] == ' ' && s[n + 4 + w] == '}');
    assert forall|k: int| 0 <= k < n implies !#[trigger] opens_at(s, k) by {
        assert(s[k] == a[k]);
        assert(a.contains(a[k]));
    }
    lemma_in_text(s, sure, n, n);
    assert(opens_at(s, n));
    assert(reached(s, sure, n + 1) == Place::Opening);
    assert(reached(s, sure, n + 2) == Place::Markup);
    assert forall|k: int| n + 2 <= k < n + 4 + w implies !closes_at(s, k) && !is_quote(
        #[trigger] s[k],
    ) by {
        if n + 3 <= k < n + 3 + w {
            assert(s[k] == word[k - n - 3]);
        }
    }
    let m = markup(s);
    assert forall|k: int| n + 2 <= k < n + 4 + w implies #[trigger] m[k] == s[k] by {
        lemma_in_code(s, sure, n + 2, n + 4 + w, k);
    }
    assert(m.subrange(n + 3, n + 3 + w) =~= word) by {
        assert forall|i: int| 0 <= i < w implies m[n + 3 + i] == word[i] by {
            assert(m[n + 3 + i] == s[n + 3 + i]);
        }
    }
    assert(occurs_at(m, word, n + 3));
    assert(m[n + 2] == ' ' && m[n + 3 + w] == ' ');
    assert(!in_name(' '));
    assert(name_at(m, word, n + 3));
}

/// A template without markup names nothing.
pub proof fn law_plain_text_names_nothing(template: Seq<char>, word: Seq<char>)
    requires
        no_markup(template),
        word.len() > 0,
        word[0] != ' ',
    ensures
        !names(template, word),
{
    let s = template;
    let n = s.len() as int;
    let sure = sure_from(s, 0);
    reveal_strlit("{{");
    reveal_strlit("{%");
    assert forall|k: int| 0 <= k < n implies !#[trigger] opens_at(s, k) by {
        if opens_at(s, k) {
            if s[k + 1] == '{' {
                assert(s.subrange(k, k + 2) =~= "{{"@);
                assert(occurs_at(s, "{{"@, k));
            } else {
                assert(s.subrange(k, k + 2) =~= "{%"@);
                assert(occurs_at(s, "{%"@, k));
            }
        }
    }
    let m = markup(s);
    assert forall|k: int| 0 <= k < n implies #[trigger] m[k] == ' ' by {
        lemma_in_text(s, sure, n, k);
        lemma_in_text(s, sure, n, k + 1);
    }
    if names(s, word) {
        let k = choose|k: int| #[trigger] name_at(m, word, k);
        assert(m.subrange(k, k + word.len())[0] == word[0]);
        assert(m[k] == ' ');
    }
}

} // verus!
