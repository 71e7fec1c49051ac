//! The grammar of a template's markup, as far as a reader needs it to be sure
//! that the `liquid` crate can read the markup.
use vstd::prelude::*;

use crate::text::{chars_of, is_digit, matches_at, occurs_at};

verus! {

// ---------------------------------------------------------------------------
// Characters and names
// ---------------------------------------------------------------------------

/// Markup opens at `i`.
pub open spec fn opens_at(s: Seq<char>, i: int) -> bool {
    0 <= i && i + 1 < s.len() && s[i] == '{' && (s[i + 1] == '{' || s[i + 1] == '%')
}

/// Markup closes at `i`.
pub open spec fn closes_at(s: Seq<char>, i: int) -> bool {
    0 <= i && i + 1 < s.len() && (s[i] == '}' || s[i] == '%') && s[i + 1] == '}'
}

pub open spec fn is_quote(c: char) -> bool {
    c == '\'' || c == '"'
}

pub(crate) fn is_open(s: &Vec<char>, i: usize) -> (r: bool)
    requires
        i < s.len(),
    ensures
        r == opens_at(s@, i as int),
{
    s.len() - i > 1 && s[i] == '{' && (s[i + 1] == '{' || s[i + 1] == '%')
}

pub(crate) fn is_close(s: &Vec<char>, i: usize) -> (r: bool)
    requires
        i < s.len(),
    ensures
        r == closes_at(s@, i as int),
{
    s.len() - i > 1 && (s[i] == '}' || s[i] == '%') && s[i + 1] == '}'
}

pub(crate) fn digit(c: char) -> (r: bool)
    ensures
        r == is_digit(c),
{
    let n: u32 = c as u32;
    0x30 <= n && n <= 0x39
}

pub open spec fn is_blank(c: char) -> bool {
    c == ' ' || c == '\n' || c == '\r'
}

/// The first position from `i` on that holds no blank.
pub open spec fn past_blanks(m: Seq<char>, i: int) -> int
    decreases m.len() - i,
{
    if 0 <= i < m.len() && is_blank(m[i]) {
        past_blanks(m, i + 1)
    } else {
        i
    }
}

pub(crate) fn skip_blanks(m: &Vec<char>, from: usize) -> (i: usize)
    requires
        from <= m.len(),
    ensures
        from <= i <= m.len(),
        i == past_blanks(m@, from as int),
{
    let mut i: usize = from;
    while i < m.len() && (m[i] == ' ' || m[i] == '\n' || m[i] == '\r')
        invariant
            from <= i <= m.len(),
            past_blanks(m@, from as int) == past_blanks(m@, i as int),
        decreases m.len() - i,
    {
        i += 1;
    }
    i
}

pub open spec fn is_letter(c: char) -> bool {
    'a' <= c <= 'z' || 'A' <= c <= 'Z' || c == '_'
}

/// The end of the name that goes on at `i`.
pub open spec fn past_name(s: Seq<char>, i: int) -> int
    decreases s.len() - i,
{
    if 0 <= i < s.len() && (is_letter(s[i]) || is_digit(s[i])) {
        past_name(s, i + 1)
    } else {
        i
    }
}

pub(crate) proof fn lemma_past_name(s: Seq<char>, i: int)
    requires
        0 <= i <= s.len(),
    ensures
        i <= past_name(s, i) <= s.len(),
        i < s.len() && is_letter(s[i]) ==> i < past_name(s, i),
    decreases s.len() - i,
{
    if i < s.len() && (is_letter(s[i]) || is_digit(s[i])) {
        lemma_past_name(s, i + 1);
    }
}

/// The end of the name at `i` and of the names that dots join to it.
pub open spec fn past_path(s: Seq<char>, i: int) -> int
    decreases s.len() - i,
    via past_path_ends
{
    let end = past_name(s, i);
    if 0 <= i < s.len() && is_letter(s[i]) && end + 1 < s.len() && s[end] == '.' && is_letter(
        s[end + 1],
    ) {
        past_path(s, end + 1)
    } else {
        end
    }
}

#[via_fn]
proof fn past_path_ends(s: Seq<char>, i: int) {
    if 0 <= i < s.len() {
        lemma_past_name(s, i);
    }
}

pub(crate) proof fn lemma_past_path(s: Seq<char>, i: int)
    requires
        0 <= i <= s.len(),
    ensures
        i <= past_path(s, i) <= s.len(),
        i < s.len() && is_letter(s[i]) ==> i < past_path(s, i),
    decreases s.len() - i,
{
    lemma_past_name(s, i);
    let end = past_name(s, i);
    if i < s.len() && is_letter(s[i]) && end + 1 < s.len() && s[end] == '.' && is_letter(
        s[end + 1],
    ) {
        lemma_past_path(s, end + 1);
    }
}

pub(crate) proof fn lemma_past_blanks(s: Seq<char>, i: int)
    requires
        0 <= i <= s.len(),
    ensures
        i <= past_blanks(s, i) <= s.len(),
    decreases s.len() - i,
{
    if i < s.len() && is_blank(s[i]) {
        lemma_past_blanks(s, i + 1);
    }
}

/// A word for a value stands at `i`: it is no name, nor the start of one.
pub open spec fn value_word_at(s: Seq<char>, i: int) -> bool {
    ||| occurs_at(s, "nil"@, i)
    ||| occurs_at(s, "null"@, i)
    ||| occurs_at(s, "empty"@, i)
    ||| occurs_at(s, "blank"@, i)
    ||| occurs_at(s, "true"@, i)
    ||| occurs_at(s, "false"@, i)
}

pub(crate) fn letter(c: char) -> (r: bool)
    ensures
        r == is_letter(c),
{
    ('a' <= c && c <= 'z') || ('A' <= c && c <= 'Z') || c == '_'
}

pub(crate) fn skip_name(s: &Vec<char>, from: usize) -> (i: usize)
    requires
        from <= s.len(),
    ensures
        from <= i <= s.len(),
        i == past_name(s@, from as int),
{
    let mut i: usize = from;
    while i < s.len() && (letter(s[i]) || digit(s[i]))
        invariant
            from <= i <= s.len(),
            past_name(s@, from as int) == past_name(s@, i as int),
        decreases s.len() - i,
    {
        i += 1;
    }
    i
}

pub(crate) fn skip_path(s: &Vec<char>, from: usize) -> (i: usize)
    requires
        from <= s.len(),
    ensures
        from <= i <= s.len(),
        i == past_path(s@, from as int),
{
    let mut start: usize = from;
    let mut end: usize = skip_name(s, from);
    while start < s.len() && letter(s[start]) && end < s.len() - 1 && s[end] == '.' && letter(
        s[end + 1],
    )
        invariant
            from <= start <= end <= s.len(),
            end == past_name(s@, start as int),
            past_path(s@, from as int) == past_path(s@, start as int),
        decreases s.len() - start,
    {
        start = end + 1;
        end = skip_name(s, start);
    }
    end
}

pub(crate) fn is_value_word(s: &Vec<char>, i: usize) -> (r: bool)
    requires
        i <= s.len(),
    ensures
        r == value_word_at(s@, i as int),
{
    matches_at(s, &chars_of("nil"), i) || matches_at(s, &chars_of("null"), i) || matches_at(
        s,
        &chars_of("empty"),
        i,
    ) || matches_at(s, &chars_of("blank"), i) || matches_at(s, &chars_of("true"), i) || matches_at(
        s,
        &chars_of("false"),
        i,
    )
}

/// The end of the digits that stand at `i`.
pub open spec fn past_digits(s: Seq<char>, i: int) -> int
    decreases s.len() - i,
{
    if 0 <= i < s.len() && is_digit(s[i]) {
        past_digits(s, i + 1)
    } else {
        i
    }
}

pub(crate) fn skip_digits(s: &Vec<char>, from: usize) -> (i: usize)
    requires
        from <= s.len(),
    ensures
        from <= i <= s.len(),
        i == past_digits(s@, from as int),
        forall|k: int| from <= k < i ==> is_digit(#[trigger] s@[k]),
{
    let mut i: usize = from;
    while i < s.len() && digit(s[i])
        invariant
            from <= i <= s.len(),
            past_digits(s@, from as int) == past_digits(s@, i as int),
            forall|k: int| from <= k < i ==> is_digit(#[trigger] s@[k]),
        decreases s.len() - i,
    {
        i += 1;
    }
    i
}

/// The position of the first `q` from `i` on, or the end.
pub open spec fn to_quote(s: Seq<char>, i: int, q: char) -> int
    decreases s.len() - i,
{
    if 0 <= i < s.len() && s[i] != q {
        to_quote(s, i + 1, q)
    } else {
        i
    }
}

pub(crate) fn find_quote(s: &Vec<char>, from: usize, q: char) -> (i: usize)
    requires
        from <= s.len(),
    ensures
        from <= i <= s.len(),
        i == to_quote(s@, from as int, q),
{
    let mut i: usize = from;
    while i < s.len() && s[i] != q
        invariant
            from <= i <= s.len(),
            to_quote(s@, from as int, q) == to_quote(s@, i as int, q),
        decreases s.len() - i,
    {
        i += 1;
    }
    i
}

// ---------------------------------------------------------------------------
// Tokens
// ---------------------------------------------------------------------------

/// A piece of markup.
#[derive(Debug, Clone, Copy, PartialEq, Eq, Structural)]
pub enum Token {
    /// A name without dots.
    Name,
    /// Any other value: a path, a string, a number or a word for a value.
    Value,
    Bar,
    Colon,
    Comma,
    /// A sign that compares or assigns.
    Sign,
}

/// A name that ends at `end` is not carried on by what follows.
pub open spec fn ends_name(s: Seq<char>, end: int) -> bool {
    end >= s.len() || (s[end] != '.' && s[end] != '[' && (s[end] != '-' || closes_at(s, end + 1)))
}

/// The text is a word for a value.
pub open spec fn is_word_for_value(w: Seq<char>) -> bool {
    ||| w == "nil"@
    ||| w == "null"@
    ||| w == "empty"@
    ||| w == "blank"@
    ||| w == "true"@
    ||| w == "false"@
}

/// The name, path or word for a value at `i`, and where it ends.
pub open spec fn word_token(s: Seq<char>, i: int) -> Option<(Token, int)> {
    let end = past_path(s, i);
    if !ends_name(s, end) {
        None
    } else if value_word_at(s, i) {
        if is_word_for_value(s.subrange(i, end)) {
            Some((Token::Value, end))
        } else {
            None
        }
    } else if end == past_name(s, i) {
        Some((Token::Name, end))
    } else {
        Some((Token::Value, end))
    }
}

/// The end of the number whose digits stand at `i`; it is not carried on by a
/// dot.
pub open spec fn number_end(s: Seq<char>, i: int) -> Option<int> {
    let whole = past_digits(s, i);
    if whole + 1 < s.len() && s[whole] == '.' && is_digit(s[whole + 1]) {
        let all = past_digits(s, whole + 1);
        if all < s.len() && s[all] == '.' {
            None
        } else {
            Some(all)
        }
    } else if whole < s.len() && s[whole] == '.' {
        None
    } else {
        Some(whole)
    }
}

/// The token at `i`, and where it ends.
pub open spec fn token_at(s: Seq<char>, i: int) -> Option<(Token, int)> {
    if i < 0 || i >= s.len() {
        None
    } else if is_letter(s[i]) {
        word_token(s, i)
    } else if is_quote(s[i]) {
        let close = to_quote(s, i + 1, s[i]);
        if close < s.len() {
            Some((Token::Value, close + 1))
        } else {
            None
        }
    } else if is_digit(s[i]) || ((s[i] == '+' || s[i] == '-') && i + 1 < s.len() && is_digit(
        s[i + 1],
    )) {
        let start = if is_digit(s[i]) {
            i
        } else {
            i + 1
        };
        match number_end(s, start) {
            Some(end) => Some((Token::Value, end)),
            None => None,
        }
    } else if s[i] == '|' {
        Some((Token::Bar, i + 1))
    } else if s[i] == ':' {
        Some((Token::Colon, i + 1))
    } else if s[i] == ',' {
        Some((Token::Comma, i + 1))
    } else if s[i] == '=' || s[i] == '<' || s[i] == '>' {
        Some((Token::Sign, i + 1))
    } else if s[i] == '!' && i + 1 < s.len() && s[i + 1] == '=' {
        Some((Token::Sign, i + 2))
    } else {
        None
    }
}

pub open spec fn token_view(t: Option<(Token, usize)>) -> Option<(Token, int)> {
    match t {
        Some((t, end)) => Some((t, end as int)),
        None => None,
    }
}

fn is_value_name(s: &Vec<char>, from: usize, to: usize, word: &str) -> (r: bool)
    requires
        from <= to <= s.len(),
    ensures
        r == (s@.subrange(from as int, to as int) == word@),
{
    let w = chars_of(word);
    let r = w.len() == to - from && matches_at(s, &w, from);
    proof {
        if s@.subrange(from as int, to as int) == word@ {
            assert(w@.len() == to - from);
        }
    }
    r
}

fn read_word(s: &Vec<char>, i: usize) -> (t: Option<(Token, usize)>)
    requires
        i < s.len(),
    ensures
        token_view(t) == word_token(s@, i as int),
        t matches Some((_, end)) ==> end <= s.len(),
{
    let end = skip_path(s, i);
    let whole = end >= s.len() || (s[end] != '.' && s[end] != '[' && (s[end] != '-' || (end + 1
        < s.len() && is_close(s, end + 1))));
    if !whole {
        return None;
    }
    if is_value_word(s, i) {
        if is_value_name(s, i, end, "nil") || is_value_name(s, i, end, "null") || is_value_name(
            s,
            i,
            end,
            "empty",
        ) || is_value_name(s, i, end, "blank") || is_value_name(s, i, end, "true")
            || is_value_name(s, i, end, "false") {
            Some((Token::Value, end))
        } else {
            None
        }
    } else if end == skip_name(s, i) {
        Some((Token::Name, end))
    } else {
        Some((Token::Value, end))
    }
}

fn read_number(s: &Vec<char>, i: usize) -> (t: Option<(Token, usize)>)
    requires
        i < s.len(),
    ensures
        token_view(t) == match number_end(s@, i as int) {
            Some(end) => Some((Token::Value, end)),
            None => None,
        },
        t matches Some((_, end)) ==> end <= s.len(),
{
    let whole = skip_digits(s, i);
    if s.len() - whole > 1 && s[whole] == '.' && digit(s[whole + 1]) {
        let all = skip_digits(s, whole + 1);
        if all < s.len() && s[all] == '.' {
            None
        } else {
            Some((Token::Value, all))
        }
    } else if whole < s.len() && s[whole] == '.' {
        None
    } else {
        Some((Token::Value, whole))
    }
}

fn read_token(s: &Vec<char>, i: usize) -> (t: Option<(Token, usize)>)
    requires
        i <= s.len(),
    ensures
        token_view(t) == token_at(s@, i as int),
        t matches Some((_, end)) ==> end <= s.len(),
{
    if i >= s.len() {
        return None;
    }
    let c = s[i];
    if letter(c) {
        read_word(s, i)
    } else if c == '\'' || c == '"' {
        let close = find_quote(s, i + 1, c);
        if close < s.len() {
            Some((Token::Value, close + 1))
        } else {
            None
        }
    } else if digit(c) {
        read_number(s, i)
    } else if (c == '+' || c == '-') && s.len() - i > 1 && digit(s[i + 1]) {
        read_number(s, i + 1)
    } else if c == '|' {
        Some((Token::Bar, i + 1))
    } else if c == ':' {
        Some((Token::Colon, i + 1))
    } else if c == ',' {
        Some((Token::Comma, i + 1))
    } else if c == '=' || c == '<' || c == '>' {
        Some((Token::Sign, i + 1))
    } else if c == '!' && s.len() - i > 1 && s[i + 1] == '=' {
        Some((Token::Sign, i + 2))
    } else {
        None
    }
}

// ---------------------------------------------------------------------------
// What surely can be read
// ---------------------------------------------------------------------------

/// What a reader of markup waits for.
#[derive(Debug, Clone, Copy, PartialEq, Eq, Structural)]
pub enum Wait {
    /// The value that is put out.
    Value,
    /// A filter of it, or the end.
    Bar,
    /// The name of a filter.
    Filter,
    /// The arguments of a filter, another filter or the end.
    Colon,
    /// An argument.
    Argument,
    /// What follows an argument that may be the name of one.
    Key,
    /// The value of a named argument.
    Keyed,
    /// What follows an argument.
    Comma,
    /// The name of a tag.
    Tag,
    /// Anything in a tag but a filter, or the end.
    Piece,
    /// Anything in a tag, or the end.
    Chain,
    /// The name of a filter in a tag.
    TagFilter,
}

pub open spec fn in_tag(w: Wait) -> bool {
    w is Tag || w is Piece || w is Chain || w is TagFilter
}

pub open spec fn may_end(w: Wait) -> bool {
    w is Bar || w is Colon || w is Key || w is Comma || w is Piece || w is Chain
}

/// What a reader waits for behind a token, where the token may stand there.
pub open spec fn waits_after(w: Wait, t: Token) -> Option<Wait> {
    match (w, t) {
        (Wait::Value, Token::Name) => Some(Wait::Bar),
        (Wait::Value, Token::Value) => Some(Wait::Bar),
        (Wait::Bar, Token::Bar) => Some(Wait::Filter),
        (Wait::Filter, Token::Name) => Some(Wait::Colon),
        (Wait::Colon, Token::Colon) => Some(Wait::Argument),
        (Wait::Colon, Token::Bar) => Some(Wait::Filter),
        (Wait::Argument, Token::Name) => Some(Wait::Key),
        (Wait::Argument, Token::Value) => Some(Wait::Comma),
        (Wait::Key, Token::Colon) => Some(Wait::Keyed),
        (Wait::Key, Token::Comma) => Some(Wait::Argument),
        (Wait::Key, Token::Bar) => Some(Wait::Filter),
        (Wait::Keyed, Token::Name) => Some(Wait::Comma),
        (Wait::Keyed, Token::Value) => Some(Wait::Comma),
        (Wait::Comma, Token::Comma) => Some(Wait::Argument),
        (Wait::Comma, Token::Bar) => Some(Wait::Filter),
        (Wait::Tag, Token::Name) => Some(Wait::Piece),
        (Wait::Piece, Token::Name) => Some(Wait::Chain),
        (Wait::Piece, Token::Value) => Some(Wait::Chain),
        (Wait::Piece, Token::Bar) => None,
        (Wait::Piece, _) => Some(Wait::Piece),
        (Wait::Chain, Token::Name) => Some(Wait::Chain),
        (Wait::Chain, Token::Value) => Some(Wait::Chain),
        (Wait::Chain, Token::Bar) => Some(Wait::TagFilter),
        (Wait::Chain, _) => Some(Wait::Piece),
        (Wait::TagFilter, Token::Name) => Some(Wait::Chain),
        _ => None,
    }
}

/// The end of the markup that ends at `i`, where it may end there.
pub open spec fn ending(s: Seq<char>, i: int, w: Wait) -> Option<int> {
    let first = if in_tag(w) {
        '%'
    } else {
        '}'
    };
    if !may_end(w) || i < 0 {
        None
    } else if i + 1 < s.len() && s[i] == first && s[i + 1] == '}' {
        Some(i + 2)
    } else if i + 2 < s.len() && s[i] == '-' && s[i + 1] == first && s[i + 2] == '}' {
        Some(i + 3)
    } else {
        None
    }
}

/// The end of the markup that goes on at `i`, where it surely can be read.
pub open spec fn sure_end(s: Seq<char>, i: int, w: Wait) -> Option<int>
    decreases s.len() - i,
{
    let j = past_blanks(s, i);
    match ending(s, j, w) {
        Some(end) => Some(end),
        None => match token_at(s, j) {
            Some((t, end)) => match waits_after(w, t) {
                Some(next) => if i < end <= s.len() {
                    sure_end(s, end, next)
                } else {
                    None
                },
                None => None,
            },
            None => None,
        },
    }
}

/// Where the inside of the markup that opens at `i` begins.
pub open spec fn inside(s: Seq<char>, i: int) -> int {
    if i + 2 < s.len() && s[i + 2] == '-' {
        i + 3
    } else {
        i + 2
    }
}

pub open spec fn first_wait(s: Seq<char>, i: int) -> Wait {
    if s[i + 1] == '{' {
        Wait::Value
    } else {
        Wait::Tag
    }
}

/// From `i` on, all markup surely can be read.
pub open spec fn sure_from(s: Seq<char>, i: int) -> bool
    decreases s.len() - i,
{
    if i < 0 || i >= s.len() {
        true
    } else if opens_at(s, i) {
        match sure_end(s, inside(s, i), first_wait(s, i)) {
            Some(end) => i < end <= s.len() && sure_from(s, end),
            None => false,
        }
    } else {
        sure_from(s, i + 1)
    }
}

fn follow(w: Wait, t: Token) -> (next: Option<Wait>)
    ensures
        next == waits_after(w, t),
{
    match (w, t) {
        (Wait::Value, Token::Name) => Some(Wait::Bar),
        (Wait::Value, Token::Value) => Some(Wait::Bar),
        (Wait::Bar, Token::Bar) => Some(Wait::Filter),
        (Wait::Filter, Token::Name) => Some(Wait::Colon),
        (Wait::Colon, Token::Colon) => Some(Wait::Argument),
        (Wait::Colon, Token::Bar) => Some(Wait::Filter),
        (Wait::Argument, Token::Name) => Some(Wait::Key),
        (Wait::Argument, Token::Value) => Some(Wait::Comma),
        (Wait::Key, Token::Colon) => Some(Wait::Keyed),
        (Wait::Key, Token::Comma) => Some(Wait::Argument),
        (Wait::Key, Token::Bar) => Some(Wait::Filter),
        (Wait::Keyed, Token::Name) => Some(Wait::Comma),
        (Wait::Keyed, Token::Value) => Some(Wait::Comma),
        (Wait::Comma, Token::Comma) => Some(Wait::Argument),
        (Wait::Comma, Token::Bar) => Some(Wait::Filter),
        (Wait::Tag, Token::Name) => Some(Wait::Piece),
        (Wait::Piece, Token::Name) => Some(Wait::Chain),
        (Wait::Piece, Token::Value) => Some(Wait::Chain),
        (Wait::Piece, Token::Bar) => None,
        (Wait::Piece, _) => Some(Wait::Piece),
        (Wait::Chain, Token::Name) => Some(Wait::Chain),
        (Wait::Chain, Token::Value) => Some(Wait::Chain),
        (Wait::Chain, Token::Bar) => Some(Wait::TagFilter),
        (Wait::Chain, _) => Some(Wait::Piece),
        (Wait::TagFilter, Token::Name) => Some(Wait::Chain),
        _ => None,
    }
}

pub open spec fn end_view(e: Option<usize>) -> Option<int> {
    match e {
        Some(i) => Some(i as int),
        None => None,
    }
}

fn read_ending(s: &Vec<char>, i: usize, w: Wait) -> (e: Option<usize>)
    requires
        i <= s.len(),
    ensures
        end_view(e) == ending(s@, i as int, w),
{
    let tag = w == Wait::Tag || w == Wait::Piece || w == Wait::Chain || w == Wait::TagFilter;
    let first = if tag {
        '%'
    } else {
        '}'
    };
    if !(w == Wait::Bar || w == Wait::Colon || w == Wait::Key || w == Wait::Comma || w == Wait::Piece
        || w == Wait::Chain) {
        None
    } else if s.len() - i > 1 && s[i] == first && s[i + 1] == '}' {
        Some(i + 2)
    } else if s.len() - i > 2 && s[i] == '-' && s[i + 1] == first && s[i + 2] == '}' {
        Some(i + 3)
    } else {
        None
    }
}

fn read_markup(s: &Vec<char>, from: usize, wait: Wait) -> (e: Option<usize>)
    requires
        from <= s.len(),
    ensures
        end_view(e) == sure_end(s@, from as int, wait),
{
    let mut i: usize = from;
    let mut w = wait;
    loop
        invariant
            i <= s.len(),
            sure_end(s@, from as int, wait) == sure_end(s@, i as int, w),
        decreases s.len() - i,
    {
        let j = skip_blanks(s, i);
        if let Some(end) = read_ending(s, j, w) {
            return Some(end);
        }
        match read_token(s, j) {
            Some((t, end)) => match follow(w, t) {
                Some(next) => {
                    if end <= i {
                        return None;
                    }
                    i = end;
                    w = next;
                },
                None => {
                    return None;
                },
            },
            None => {
                return None;
            },
        }
    }
}

/// Whether all markup surely can be read.
pub(crate) fn is_sure(s: &Vec<char>) -> (r: bool)
    ensures
        r == sure_from(s@, 0),
{
    let mut i: usize = 0;
    while i < s.len()
        invariant
            i <= s.len(),
            sure_from(s@, 0) == sure_from(s@, i as int),
        decreases s.len() - i,
    {
        if is_open(s, i) {
            let start = if s.len() - i > 2 && s[i + 2] == '-' {
                i + 3
            } else {
                i + 2
            };
            let wait = if s[i + 1] == '{' {
                Wait::Value
            } else {
                Wait::Tag
            };
            match read_markup(s, start, wait) {
                Some(end) => {
                    if end <= i || end > s.len() {
                        return false;
                    }
                    i = end;
                },
                None => {
                    return false;
                },
            }
        } else {
            i += 1;
        }
    }
    true
}

} // verus!
