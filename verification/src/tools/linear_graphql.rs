//! The tool that forwards one GraphQL operation to the tracker.
//!
//! The token that authorizes the call never reaches the agent: every text that
//! leaves the tool has it masked.
use vstd::prelude::*;

use crate::json::{entries_view, items_view, Json, JsonView};
use crate::text::{begins_with, chars_of, has_text, matches_at, occurs_at, parse_u64, parsed_u64, replace_all, replaced, trim, trimmed};
use crate::tools::{RateLimited, ToolError};

verus! {

/// Where the tracker answers.
pub const DEFAULT_LINEAR_ENDPOINT: &'static str = "https://api.linear.app/graphql";

/// The agent's call, taken apart.
#[derive(Debug)]
pub struct ParsedInput {
    pub query: String,
    pub variables: Json,
}

// ---------------------------------------------------------------------------
// Counting operations
// ---------------------------------------------------------------------------

/// A character of a name.
pub open spec fn is_word_char(c: char) -> bool {
    ||| 'a' <= c <= 'z'
    ||| 'A' <= c <= 'Z'
    ||| '0' <= c <= '9'
    ||| c == '_'
}

/// The end of the line that `i` stands in.
pub open spec fn after_comment(s: Seq<char>, i: int) -> int
    decreases s.len() - i,
{
    if i < 0 || i >= s.len() || s[i] == '\n' {
        i
    } else {
        after_comment(s, i + 1)
    }
}

/// Three quotes stand at `i`.
pub open spec fn triple_at(s: Seq<char>, i: int) -> bool {
    &&& 0 <= i
    &&& i + 3 <= s.len()
    &&& s[i] == '"'
    &&& s[i + 1] == '"'
    &&& s[i + 2] == '"'
}

/// The position behind a block string whose text goes on at `i`.
pub open spec fn after_block(s: Seq<char>, i: int) -> int
    decreases s.len() - i,
{
    if i < 0 || i + 3 > s.len() {
        s.len() as int
    } else if triple_at(s, i) {
        i + 3
    } else {
        after_block(s, i + 1)
    }
}

/// The position behind a string whose text goes on at `i`. A backslash takes
/// the next character with it.
pub open spec fn after_string(s: Seq<char>, i: int) -> int
    decreases s.len() - i,
{
    if i < 0 || i >= s.len() {
        s.len() as int
    } else if s[i] == '\\' {
        if i + 2 <= s.len() {
            after_string(s, i + 2)
        } else {
            s.len() as int
        }
    } else if s[i] == '"' {
        i + 1
    } else {
        after_string(s, i + 1)
    }
}

/// `word` stands at `i` and is not the start of a longer name.
pub open spec fn word_at(s: Seq<char>, word: Seq<char>, i: int) -> bool {
    &&& occurs_at(s, word, i)
    &&& i + word.len() == s.len() || !is_word_char(s[i + word.len() as int])
}

/// The length of the operation keyword at `i`, or 0.
pub open spec fn keyword_len(s: Seq<char>, i: int) -> int {
    if word_at(s, "query"@, i) {
        "query"@.len() as int
    } else if word_at(s, "mutation"@, i) {
        "mutation"@.len() as int
    } else if word_at(s, "subscription"@, i) {
        "subscription"@.len() as int
    } else {
        0
    }
}

/// An operation keyword starts at `i`.
pub open spec fn keyword_starts(s: Seq<char>, i: int) -> bool {
    (i == 0 || !is_word_char(s[i - 1])) && keyword_len(s, i) > 0
}

/// A fragment definition starts at `i`.
pub open spec fn fragment_starts(s: Seq<char>, i: int) -> bool {
    (i == 0 || !is_word_char(s[i - 1])) && word_at(s, "fragment"@, i)
}

proof fn lemma_after(s: Seq<char>, i: int)
    requires
        0 <= i <= s.len(),
    ensures
        i <= after_comment(s, i) <= s.len(),
        i <= after_block(s, i) <= s.len(),
        i <= after_string(s, i) <= s.len(),
    decreases s.len() - i,
{
    if i < s.len() {
        lemma_after(s, i + 1);
        if i + 2 <= s.len() {
            lemma_after(s, i + 2);
        }
    }
}

/// The operations that start at `i` or behind it. `depth` counts the open
/// braces; `open` says that a definition has begun and not ended: an operation,
/// which counts, or a fragment, which does not.
pub open spec fn operations_from(s: Seq<char>, i: int, depth: nat, open: bool) -> nat
    decreases s.len() - i,
    via operations_from_ends
{
    if i < 0 || i >= s.len() {
        0
    } else if s[i] == '#' {
        operations_from(s, after_comment(s, i + 1), depth, open)
    } else if s[i] == '"' {
        if triple_at(s, i) {
            operations_from(s, after_block(s, i + 3), depth, open)
        } else {
            operations_from(s, after_string(s, i + 1), depth, open)
        }
    } else if s[i] == '{' {
        if depth == 0 && !open {
            1 + operations_from(s, i + 1, 1, true)
        } else {
            operations_from(s, i + 1, depth + 1, open)
        }
    } else if s[i] == '}' {
        if depth <= 1 {
            operations_from(s, i + 1, 0, false)
        } else {
            operations_from(s, i + 1, (depth - 1) as nat, open)
        }
    } else if depth == 0 && !open && keyword_starts(s, i) {
        1 + operations_from(s, i + keyword_len(s, i), 0, true)
    } else if depth == 0 && !open && fragment_starts(s, i) {
        operations_from(s, i + "fragment"@.len(), 0, true)
    } else {
        operations_from(s, i + 1, depth, open)
    }
}

#[via_fn]
proof fn operations_from_ends(s: Seq<char>, i: int, depth: nat, open: bool) {
    reveal_strlit("fragment");
    if 0 <= i < s.len() {
        lemma_after(s, i + 1);
        if i + 3 <= s.len() {
            lemma_after(s, i + 3);
        }
    }
}

/// How many operations a document holds at its top level. Comments and strings
/// do not count, nor what stands inside braces, nor fragment definitions; a
/// selection that no keyword announces is an operation of its own.
pub open spec fn operations(s: Seq<char>) -> nat {
    operations_from(s, 0, 0, false)
}

fn word_char(c: char) -> (r: bool)
    ensures
        r == is_word_char(c),
{
    ('a' <= c && c <= 'z') || ('A' <= c && c <= 'Z') || ('0' <= c && c <= '9') || c == '_'
}

/// The end of the line.
fn skip_comment(s: &Vec<char>, from: usize) -> (j: usize)
    requires
        from <= s.len(),
    ensures
        j == after_comment(s@, from as int),
        from <= j <= s.len(),
{
    let mut j: usize = from;
    while j < s.len() && s[j] != '\n'
        invariant
            from <= j <= s.len(),
            after_comment(s@, from as int) == after_comment(s@, j as int),
        decreases s.len() - j,
    {
        j += 1;
    }
    j
}

fn is_triple(s: &Vec<char>, i: usize) -> (r: bool)
    requires
        i <= s.len(),
    ensures
        r == triple_at(s@, i as int),
{
    s.len() - i >= 3 && s[i] == '"' && s[i + 1] == '"' && s[i + 2] == '"'
}

/// The position behind a block string.
fn skip_block(s: &Vec<char>, from: usize) -> (j: usize)
    requires
        from <= s.len(),
    ensures
        j == after_block(s@, from as int),
        from <= j <= s.len(),
{
    let mut j: usize = from;
    while s.len() - j >= 3
        invariant
            from <= j <= s.len(),
            after_block(s@, from as int) == after_block(s@, j as int),
        decreases s.len() - j,
    {
        if is_triple(s, j) {
            return j + 3;
        }
        j += 1;
    }
    s.len()
}

/// The position behind a string.
fn skip_string(s: &Vec<char>, from: usize) -> (j: usize)
    requires
        from <= s.len(),
    ensures
        j == after_string(s@, from as int),
        from <= j <= s.len(),
{
    let mut j: usize = from;
    while j < s.len()
        invariant
            from <= j <= s.len(),
            after_string(s@, from as int) == after_string(s@, j as int),
        decreases s.len() - j,
    {
        let c = s[j];
        if c == '"' {
            return j + 1;
        }
        if c == '\\' {
            if s.len() - j < 2 {
                return s.len();
            }
            j += 2;
        } else {
            j += 1;
        }
    }
    s.len()
}

fn is_word_at(s: &Vec<char>, word: &Vec<char>, i: usize) -> (r: bool)
    requires
        i <= s.len(),
    ensures
        r == word_at(s@, word@, i as int),
{
    if s.len() - i < word.len() || !matches_at(s, word, i) {
        return false;
    }
    let end: usize = i + word.len();
    end == s.len() || !word_char(s[end])
}

/// The length of the operation keyword at `i`.
fn keyword_at(s: &Vec<char>, i: usize) -> (n: usize)
    requires
        i <= s.len(),
    ensures
        n == keyword_len(s@, i as int),
        i + n <= s.len(),
{
    let query = chars_of("query");
    if is_word_at(s, &query, i) {
        return query.len();
    }
    let mutation = chars_of("mutation");
    if is_word_at(s, &mutation, i) {
        return mutation.len();
    }
    let subscription = chars_of("subscription");
    if is_word_at(s, &subscription, i) {
        return subscription.len();
    }
    0
}

/// The length of the operation keyword that starts at `i`, or 0.
fn keyword_start(s: &Vec<char>, i: usize) -> (n: usize)
    requires
        i < s.len(),
    ensures
        (n > 0) == keyword_starts(s@, i as int),
        n > 0 ==> n == keyword_len(s@, i as int) && i + n <= s.len(),
{
    if i > 0 && word_char(s[i - 1]) {
        return 0;
    }
    keyword_at(s, i)
}

/// The length of the word that starts a fragment definition at `i`, or 0.
fn fragment_start(s: &Vec<char>, i: usize) -> (n: usize)
    requires
        i < s.len(),
    ensures
        (n > 0) == fragment_starts(s@, i as int),
        n > 0 ==> n == "fragment"@.len() && i + n <= s.len(),
{
    proof {
        reveal_strlit("fragment");
    }
    let fragment = chars_of("fragment");
    if (i > 0 && word_char(s[i - 1])) || !is_word_at(s, &fragment, i) {
        return 0;
    }
    fragment.len()
}

/// Counts the operations at the top level of a document.
pub fn count_operations(query: &str) -> (n: usize)
    ensures
        n == operations(query@),
{
    let s = chars_of(query);
    let mut i: usize = 0;
    let mut depth: usize = 0;
    let mut open: bool = false;
    let mut count: usize = 0;
    while i < s.len()
        invariant
            i <= s.len(),
            depth <= i,
            count <= i,
            s@ == query@,
            count + operations_from(s@, i as int, depth as nat, open) == operations(query@),
        decreases s.len() - i,
    {
        let c = s[i];
        if c == '#' {
            i = skip_comment(&s, i + 1);
        } else if c == '"' {
            if is_triple(&s, i) {
                i = skip_block(&s, i + 3);
            } else {
                i = skip_string(&s, i + 1);
            }
        } else if c == '{' {
            if depth == 0 && !open {
                count += 1;
                open = true;
            }
            depth += 1;
            i += 1;
        } else if c == '}' {
            if depth <= 1 {
                depth = 0;
                open = false;
            } else {
                depth -= 1;
            }
            i += 1;
        } else if depth == 0 && !open {
            let n: usize = keyword_start(&s, i);
            if n > 0 {
                count += 1;
                open = true;
                i += n;
            } else {
                let m: usize = fragment_start(&s, i);
                if m > 0 {
                    open = true;
                    i += m;
                } else {
                    i += 1;
                }
            }
        } else {
            i += 1;
        }
    }
    count
}

/// A document without an opening brace and without an operation keyword holds
/// no operation, whatever else it holds.
pub proof fn law_no_brace_and_no_keyword_is_no_operation(s: Seq<char>)
    requires
        !s.contains('{'),
        forall|i: int| 0 <= i < s.len() ==> !#[trigger] keyword_starts(s, i),
    ensures
        operations(s) == 0,
{
    lemma_none_from(s, 0, 0);
}

proof fn lemma_none_from(s: Seq<char>, i: int, depth: nat)
    requires
        !s.contains('{'),
        forall|i: int| 0 <= i < s.len() ==> !#[trigger] keyword_starts(s, i),
        0 <= i <= s.len(),
    ensures
        operations_from(s, i, depth, false) == 0,
        operations_from(s, i, depth, true) == 0,
    decreases s.len() - i,
{
    if i < s.len() {
        assert(s[i] != '{') by {
            assert(s.contains(s[i]));
        }
        assert(!keyword_starts(s, i));
        lemma_after(s, i + 1);
        if s[i] == '#' {
            lemma_none_from(s, after_comment(s, i + 1), depth);
        } else if s[i] == '"' {
            if triple_at(s, i) {
                lemma_after(s, i + 3);
                lemma_none_from(s, after_block(s, i + 3), depth);
            } else {
                lemma_none_from(s, after_string(s, i + 1), depth);
            }
        } else if s[i] == '}' {
            if depth <= 1 {
                lemma_none_from(s, i + 1, 0);
            } else {
                lemma_none_from(s, i + 1, (depth - 1) as nat);
            }
        } else {
            lemma_none_from(s, i + 1, depth);
            if fragment_starts(s, i) {
                reveal_strlit("fragment");
                lemma_none_from(s, i + "fragment"@.len(), 0);
            }
        }
    }
}

// ---------------------------------------------------------------------------
// The request
// ---------------------------------------------------------------------------

/// What stands for the variables of a call that names none.
pub open spec fn variables_of(input: JsonView) -> JsonView {
    match input.field("variables"@) {
        Some(v) => v,
        None => JsonView::Object(Seq::empty()),
    }
}

/// Why an input is refused, if it is.
pub open spec fn input_fault(input: JsonView) -> Option<Seq<char>> {
    if !(input is Object) {
        Some("input must be a JSON object"@)
    } else if input.field_text("query"@) is None {
        Some("missing required field 'query'"@)
    } else if !(variables_of(input) is Object) {
        Some("'variables' must be an object"@)
    } else {
        None
    }
}

/// Takes the agent's input apart.
pub fn parse_input(input: &Json) -> (r: Result<ParsedInput, ToolError>)
    ensures
        r is Ok == input_fault(input@) is None,
        r matches Ok(p) ==> Some(p.query@) == input@.field_text("query"@) && p.variables@
            == variables_of(input@),
        r matches Err(e) ==> e matches ToolError::InvalidInput { reason } && Some(reason@)
            == input_fault(input@),
{
    if !matches!(input, Json::Object(_)) {
        return Err(ToolError::InvalidInput { reason: "input must be a JSON object".to_owned() });
    }
    let query = match input.get_str("query") {
        Some(q) => q.to_owned(),
        None => {
            return Err(
                ToolError::InvalidInput { reason: "missing required field 'query'".to_owned() },
            );
        },
    };
    let variables = match input.get("variables") {
        Some(v) => v.duplicate(),
        None => {
            let none: Vec<(String, Json)> = Vec::new();
            assert(entries_view(none@) =~= Seq::empty());
            Json::Object(none)
        },
    };
    if !matches!(variables, Json::Object(_)) {
        return Err(ToolError::InvalidInput { reason: "'variables' must be an object".to_owned() });
    }
    Ok(ParsedInput { query, variables })
}

/// What the tracker is sent.
pub open spec fn body_of(query: Seq<char>, variables: JsonView) -> JsonView {
    JsonView::Object(seq![("query"@, JsonView::Text(query)), ("variables"@, variables)])
}

/// Decides whether a call may be sent, and what is sent: the input must be
/// well-formed and hold exactly one operation.
pub fn prepare_call(input: &Json) -> (r: Result<Json, ToolError>)
    ensures
        r is Ok == (input_fault(input@) is None && operations(input@.field_text("query"@)->0) == 1),
        r matches Ok(body) ==> body@ == body_of(
            input@.field_text("query"@)->0,
            variables_of(input@),
        ),
        r matches Err(e) ==> match input_fault(input@) {
            Some(fault) => e matches ToolError::InvalidInput { reason } && reason@ == fault,
            None => if operations(input@.field_text("query"@)->0) == 0 {
                e matches ToolError::InvalidInput { reason } && reason@
                    == "query must contain at least one GraphQL operation"@
            } else {
                e is MultipleOperations
            },
        },
{
    let request = parse_input(input)?;
    let n: usize = count_operations(request.query.as_str());
    if n == 0 {
        return Err(
            ToolError::InvalidInput {
                reason: "query must contain at least one GraphQL operation".to_owned(),
            },
        );
    }
    if n >= 2 {
        return Err(ToolError::MultipleOperations);
    }
    let ghost query = request.query@;
    let ghost variables = request.variables@;
    let entries = vec![
        ("query".to_owned(), Json::Text(request.query)),
        ("variables".to_owned(), request.variables),
    ];
    proof {
        assert(entries_view(entries@) =~= seq![
            ("query"@, JsonView::Text(query)),
            ("variables"@, variables),
        ]);
    }
    Ok(Json::Object(entries))
}

/// The error for a call that the rate limit holds back.
pub fn deferred(limit: RateLimited) -> (e: ToolError)
    ensures
        e == (ToolError::RateLimited { retry_after_seconds: limit.retry_after_seconds }),
{
    ToolError::RateLimited { retry_after_seconds: limit.retry_after_seconds }
}

// ---------------------------------------------------------------------------
// The reply
// ---------------------------------------------------------------------------

/// The seconds of a `Retry-After` header.
pub fn parse_retry_after(value: Option<&str>) -> (r: Option<u64>)
    ensures
        r == match value {
            Some(v) => parsed_u64(trimmed(v@)),
            None => None,
        },
{
    match value {
        Some(v) => parse_u64(trim(v).as_str()),
        None => None,
    }
}

/// Masks every occurrence of `token`.
pub fn redact(text: &str, token: &str) -> (r: String)
    ensures
        r@ == replaced(text@, token@, "***"@),
{
    replace_all(text, token, "***")
}

/// `v` with the token masked in every text, names among them.
pub open spec fn scrubbed(v: JsonView, token: Seq<char>) -> JsonView
    decreases v,
{
    match v {
        JsonView::Text(s) => JsonView::Text(replaced(s, token, "***"@)),
        JsonView::Array(items) => JsonView::Array(
            Seq::new(
                items.len(),
                |i: int|
                    if 0 <= i < items.len() {
                        scrubbed(items[i], token)
                    } else {
                        JsonView::Null
                    },
            ),
        ),
        JsonView::Object(entries) => JsonView::Object(
            Seq::new(
                entries.len(),
                |i: int|
                    if 0 <= i < entries.len() {
                        (replaced(entries[i].0, token, "***"@), scrubbed(entries[i].1, token))
                    } else {
                        (Seq::empty(), JsonView::Null)
                    },
            ),
        ),
        _ => v,
    }
}

fn scrub(value: &Json, token: &str) -> (r: Json)
    ensures
        r@ == scrubbed(value@, token@),
    decreases value,
{
    match value {
        Json::Text(s) => Json::Text(redact(s.as_str(), token)),
        Json::Array(v) => {
            let mut out: Vec<Json> = Vec::new();
            let mut i: usize = 0;
            while i < v.len()
                invariant
                    i <= v.len(),
                    out.len() == i,
                    *value == Json::Array(*v),
                    forall|k: int|
                        0 <= k < i ==> (#[trigger] out@[k])@ == scrubbed(v@[k]@, token@),
                decreases v.len() - i,
            {
                proof {
                    assert(decreases_to!(*value => value->Array_0));
                    assert(decreases_to!(*v => v@));
                    assert(decreases_to!(v@ => v@[i as int]));
                }
                out.push(scrub(&v[i], token));
                i += 1;
            }
            proof {
                let all = items_view(v@);
                assert(items_view(out@) =~= scrubbed(JsonView::Array(all), token@)->Array_0);
            }
            Json::Array(out)
        },
        Json::Object(v) => {
            let mut out: Vec<(String, Json)> = Vec::new();
            let mut i: usize = 0;
            while i < v.len()
                invariant
                    i <= v.len(),
                    out.len() == i,
                    *value == Json::Object(*v),
                    forall|k: int|
                        0 <= k < i ==> (#[trigger] out@[k]).0@ == replaced(
                            v@[k].0@,
                            token@,
                            "***"@,
                        ) && out@[k].1@ == scrubbed(v@[k].1@, token@),
                decreases v.len() - i,
            {
                proof {
                    assert(decreases_to!(*value => value->Object_0));
                    assert(decreases_to!(*v => v@));
                    assert(decreases_to!(v@ => v@[i as int]));
                    assert(decreases_to!(v@[i as int] => v@[i as int].1));
                }
                out.push((redact(v[i].0.as_str(), token), scrub(&v[i].1, token)));
                i += 1;
            }
            proof {
                let all = entries_view(v@);
                assert(entries_view(out@) =~= scrubbed(JsonView::Object(all), token@)->Object_0);
            }
            Json::Object(out)
        },
        other => other.duplicate(),
    }
}

/// Masks the token in every text of a value, names among them.
pub fn scrub_value(value: Json, token: &str) -> (r: Json)
    ensures
        r@ == scrubbed(value@, token@),
{
    scrub(&value, token)
}

/// What a reply is turned into. `payload` is the body, or why it could not be
/// read.
pub fn settle_reply(
    status: u16,
    retry_after: Option<u64>,
    payload: Result<Json, String>,
    token: &str,
) -> (r: Result<Json, ToolError>)
    ensures
        status == 429 ==> r == Err::<Json, ToolError>(
            (ToolError::RateLimited { retry_after_seconds: retry_after }),
        ),
        status != 429 && !(200 <= status < 300) ==> r == Err::<Json, ToolError>(
            (ToolError::LinearHttpError { status }),
        ),
        200 <= status < 300 ==> match payload {
            Ok(v) => r matches Ok(out) && out@ == scrubbed(v@, token@),
            Err(m) => r matches Err(e) && e matches ToolError::Network { message } && message@
                == replaced(m@, token@, "***"@),
        },
{
    if status == 429 {
        return Err(ToolError::RateLimited { retry_after_seconds: retry_after });
    }
    if status < 200 || status >= 300 {
        return Err(ToolError::LinearHttpError { status });
    }
    match payload {
        Ok(v) => Ok(scrub_value(v, token)),
        Err(m) => Err(network_error(m.as_str(), token)),
    }
}

/// The error for a call that got no readable answer.
pub fn network_error(cause: &str, token: &str) -> (e: ToolError)
    ensures
        e matches ToolError::Network { message } && message@ == replaced(cause@, token@, "***"@),
{
    ToolError::Network { message: redact(cause, token) }
}

// ---------------------------------------------------------------------------
// No text that leaves the tool holds the token
// ---------------------------------------------------------------------------

/// A run at the start of a masked text that holds no star is a run at the start
/// of the text itself.
proof fn lemma_masked_start(s: Seq<char>, token: Seq<char>, m: int)
    requires
        0 <= m <= replaced(s, token, "***"@).len(),
        forall|i: int| 0 <= i < m ==> replaced(s, token, "***"@)[i] != '*',
        token.len() > 0,
    ensures
        m <= s.len(),
        forall|i: int| 0 <= i < m ==> s[i] == replaced(s, token, "***"@)[i],
    decreases s.len(),
{
    reveal_strlit("***");
    let mask = "***"@;
    let out = replaced(s, token, mask);
    if s.len() >= token.len() && m > 0 {
        if begins_with(s, token) {
            assert(out[0] == mask[0]);
        } else {
            let rest = s.subrange(1, s.len() as int);
            let tail = replaced(rest, token, mask);
            assert(out =~= seq![s[0]] + tail);
            assert forall|i: int| 0 <= i < m - 1 implies tail[i] != '*' by {
                assert(tail[i] == out[i + 1]);
            }
            lemma_masked_start(rest, token, m - 1);
            assert forall|i: int| 0 <= i < m implies s[i] == out[i] by {
                if i > 0 {
                    assert(s[i] == rest[i - 1]);
                    assert(out[i] == tail[i - 1]);
                }
            }
        }
    }
}

/// A masked text does not hold the token. A token with a star in it is left
/// out: the mask itself may then give rise to it.
pub proof fn law_redacted_text_has_no_token(s: Seq<char>, token: Seq<char>)
    requires
        token.len() > 0,
        !token.contains('*'),
    ensures
        !has_text(replaced(s, token, "***"@), token),
    decreases s.len(),
{
    reveal_strlit("***");
    let mask = "***"@;
    let out = replaced(s, token, mask);
    if has_text(out, token) {
        let i = choose|i: int| occurs_at(out, token, i);
        assert(out.subrange(i, i + token.len()) =~= token);
        assert forall|k: int| 0 <= k < token.len() implies out[i + k] == #[trigger] token[k]
            && out[i + k] != '*' by {
            assert(out.subrange(i, i + token.len())[k] == token[k]);
            assert(token.contains(token[k]));
        }
        if s.len() < token.len() {
        } else if begins_with(s, token) {
            let rest = s.subrange(token.len() as int, s.len() as int);
            let tail = replaced(rest, token, mask);
            assert(out =~= mask + tail);
            if i < 3 {
                assert(out[i] == mask[i]);
                assert(token[0] == out[i + 0]);
            } else {
                assert(tail.subrange(i - 3, i - 3 + token.len()) =~= out.subrange(
                    i,
                    i + token.len(),
                ));
                assert(occurs_at(tail, token, i - 3));
                law_redacted_text_has_no_token(rest, token);
            }
        } else {
            let rest = s.subrange(1, s.len() as int);
            let tail = replaced(rest, token, mask);
            assert(out =~= seq![s[0]] + tail);
            if i > 0 {
                assert(tail.subrange(i - 1, i - 1 + token.len()) =~= out.subrange(
                    i,
                    i + token.len(),
                ));
                assert(occurs_at(tail, token, i - 1));
                law_redacted_text_has_no_token(rest, token);
            } else {
                assert forall|k: int| 0 <= k < token.len() implies out[k] != '*' by {
                    assert(out[i + k] == token[k]);
                }
                lemma_masked_start(s, token, token.len() as int);
                assert(s.subrange(0, token.len() as int) =~= token);
            }
        }
    }
}

/// A text somewhere in the value holds the token, a name or another.
pub open spec fn mentions(v: JsonView, token: Seq<char>) -> bool
    decreases v,
{
    match v {
        JsonView::Text(s) => has_text(s, token),
        JsonView::Array(items) => exists|i: int|
            0 <= i < items.len() && mentions(#[trigger] items[i], token),
        JsonView::Object(entries) => exists|i: int|
            0 <= i < entries.len() && (has_text((#[trigger] entries[i]).0, token) || mentions(
                entries[i].1,
                token,
            )),
        _ => false,
    }
}

/// No text of a scrubbed value holds the token, neither a name nor another, for
/// a token without a star.
pub proof fn law_scrubbed_value_has_no_token(v: JsonView, token: Seq<char>)
    requires
        token.len() > 0,
        !token.contains('*'),
    ensures
        !mentions(scrubbed(v, token), token),
    decreases v,
{
    match v {
        JsonView::Text(s) => {
            law_redacted_text_has_no_token(s, token);
            assert(scrubbed(v, token) == JsonView::Text(replaced(s, token, "***"@)));
        },
        JsonView::Array(items) => {
            let out = scrubbed(v, token)->Array_0;
            assert forall|i: int| 0 <= i < out.len() implies !mentions(
                #[trigger] out[i],
                token,
            ) by {
                law_scrubbed_value_has_no_token(items[i], token);
            }
            assert(scrubbed(v, token) == JsonView::Array(out));
            assert(!mentions(JsonView::Array(out), token));
        },
        JsonView::Object(entries) => {
            let out = scrubbed(v, token)->Object_0;
            assert forall|i: int| 0 <= i < out.len() implies !has_text(
                (#[trigger] out[i]).0,
                token,
            ) && !mentions(out[i].1, token) by {
                law_scrubbed_value_has_no_token(entries[i].1, token);
                law_redacted_text_has_no_token(entries[i].0, token);
            }
            assert(scrubbed(v, token) == JsonView::Object(out));
            assert(!mentions(JsonView::Object(out), token));
        },
        _ => {
            assert(scrubbed(v, token) == v);
            assert(!mentions(v, token));
        },
    }
}

// ---------------------------------------------------------------------------
// Documents
// ---------------------------------------------------------------------------

/// None of the characters that open or close anything.
pub open spec fn is_plain(s: Seq<char>) -> bool {
    forall|i: int|
        0 <= i < s.len() ==> #[trigger] s[i] != '{' && s[i] != '}' && s[i] != '"' && s[i] != '#'
}

/// How many braces are open behind the first `k` characters.
pub open spec fn level(s: Seq<char>, k: int) -> int
    decreases k,
{
    if k <= 0 {
        0
    } else if s[k - 1] == '{' {
        level(s, k - 1) + 1
    } else if s[k - 1] == '}' {
        level(s, k - 1) - 1
    } else {
        level(s, k - 1)
    }
}

/// Every brace of `s` is closed within it, and it holds no strings or comments.
pub open spec fn is_balanced(s: Seq<char>) -> bool {
    &&& forall|i: int| 0 <= i < s.len() ==> #[trigger] s[i] != '"' && s[i] != '#'
    &&& forall|k: int| 0 <= k <= s.len() ==> #[trigger] level(s, k) >= 0
    &&& level(s, s.len() as int) == 0
}

proof fn lemma_skips_shift(a: Seq<char>, s: Seq<char>, i: int)
    requires
        0 <= i <= s.len(),
    ensures
        after_comment(a + s, a.len() + i) == a.len() + after_comment(s, i),
        after_block(a + s, a.len() + i) == a.len() + after_block(s, i),
        after_string(a + s, a.len() + i) == a.len() + after_string(s, i),
        triple_at(a + s, a.len() + i) == triple_at(s, i),
    decreases s.len() - i,
{
    let t = a + s;
    if i < s.len() {
        assert(t[a.len() + i] == s[i]);
        lemma_skips_shift(a, s, i + 1);
        if i + 3 <= s.len() {
            assert(t[a.len() + i + 1] == s[i + 1]);
            assert(t[a.len() + i + 2] == s[i + 2]);
        }
        if i + 2 <= s.len() {
            lemma_skips_shift(a, s, i + 2);
        }
    }
}

proof fn lemma_word_shift(a: Seq<char>, s: Seq<char>, word: Seq<char>, i: int)
    requires
        0 <= i <= s.len(),
    ensures
        word_at(a + s, word, a.len() + i) == word_at(s, word, i),
{
    let t = a + s;
    if i + word.len() <= s.len() {
        assert(t.subrange(a.len() + i, a.len() + i + word.len()) =~= s.subrange(
            i,
            i + word.len(),
        ));
        if i + word.len() < s.len() {
            assert(t[a.len() + i + word.len()] == s[i + word.len()]);
        }
    }
}

/// What stands before does not count, as long as no name reaches from it into
/// what follows.
proof fn lemma_operations_shift(a: Seq<char>, s: Seq<char>, i: int, depth: nat, open: bool)
    requires
        0 <= i <= s.len(),
        a.len() == 0 || !is_word_char(a[a.len() - 1]),
    ensures
        operations_from(a + s, a.len() + i, depth, open) == operations_from(s, i, depth, open),
    decreases s.len() - i,
{
    let t = a + s;
    let n = a.len() as int;
    if i < s.len() {
        assert(t[n + i] == s[i]);
        lemma_after(s, i + 1);
        lemma_skips_shift(a, s, i);
        lemma_skips_shift(a, s, i + 1);
        lemma_word_shift(a, s, "query"@, i);
        lemma_word_shift(a, s, "mutation"@, i);
        lemma_word_shift(a, s, "subscription"@, i);
        lemma_word_shift(a, s, "fragment"@, i);
        if i > 0 {
            assert(t[n + i - 1] == s[i - 1]);
        } else if n > 0 {
            assert(t[n - 1] == a[n - 1]);
        }
        assert(keyword_starts(t, n + i) == keyword_starts(s, i));
        assert(fragment_starts(t, n + i) == fragment_starts(s, i));
        assert(keyword_len(t, n + i) == keyword_len(s, i));
        reveal_strlit("fragment");
        reveal_strlit("query");
        reveal_strlit("mutation");
        reveal_strlit("subscription");
        if s[i] == '#' {
            lemma_operations_shift(a, s, after_comment(s, i + 1), depth, open);
        } else if s[i] == '"' {
            if triple_at(s, i) {
                lemma_after(s, i + 3);
                lemma_skips_shift(a, s, i + 3);
                lemma_operations_shift(a, s, after_block(s, i + 3), depth, open);
            } else {
                lemma_operations_shift(a, s, after_string(s, i + 1), depth, open);
            }
        } else if s[i] == '{' {
            lemma_operations_shift(a, s, i + 1, 1, true);
            lemma_operations_shift(a, s, i + 1, depth + 1, open);
        } else if s[i] == '}' {
            if depth <= 1 {
                lemma_operations_shift(a, s, i + 1, 0, false);
            } else {
                lemma_operations_shift(a, s, i + 1, (depth - 1) as nat, open);
            }
        } else if depth == 0 && !open && keyword_starts(s, i) {
            lemma_operations_shift(a, s, i + keyword_len(s, i), 0, true);
        } else if depth == 0 && !open && fragment_starts(s, i) {
            lemma_operations_shift(a, s, i + "fragment"@.len(), 0, true);
        } else {
            lemma_operations_shift(a, s, i + 1, depth, open);
        }
    }
}

/// Inside braces, what is balanced does not count.
proof fn lemma_balanced(s: Seq<char>, b: Seq<char>, at: int, k: int)
    requires
        is_balanced(b),
        0 <= at,
        at + b.len() <= s.len(),
        s.subrange(at, at + b.len()) == b,
        0 <= k <= b.len(),
    ensures
        operations_from(s, at + k, (1 + level(b, k)) as nat, true) == operations_from(
            s,
            at + b.len(),
            1,
            true,
        ),
    decreases b.len() - k,
{
    if k < b.len() {
        assert(s.subrange(at, at + b.len())[k] == s[at + k]);
        assert(b[k] == s[at + k]);
        assert(level(b, k) >= 0 && level(b, k + 1) >= 0);
        lemma_balanced(s, b, at, k + 1);
    }
}

/// Behind the head of a definition, what is plain does not count.
proof fn lemma_plain(s: Seq<char>, h: Seq<char>, at: int, k: int)
    requires
        is_plain(h),
        0 <= at,
        at + h.len() <= s.len(),
        s.subrange(at, at + h.len()) == h,
        0 <= k <= h.len(),
    ensures
        operations_from(s, at + k, 0, true) == operations_from(s, at + h.len(), 0, true),
    decreases h.len() - k,
{
    if k < h.len() {
        assert(s.subrange(at, at + h.len())[k] == s[at + k]);
        assert(h[k] == s[at + k]);
        lemma_plain(s, h, at, k + 1);
    }
}

/// A selection that nothing announces is one operation, whatever names stand in
/// it; what follows is counted on its own.
pub proof fn law_bare_selection_is_an_operation(body: Seq<char>, rest: Seq<char>)
    requires
        is_balanced(body),
    ensures
        operations(seq!['{'] + body + seq!['}'] + rest) == 1 + operations(rest),
{
    let s = seq!['{'] + body + seq!['}'] + rest;
    let n = body.len() as int;
    assert(s[0] == '{');
    assert(s.subrange(1, 1 + n) =~= body);
    lemma_balanced(s, body, 1, 0);
    assert(s[1 + n] == '}');
    let a = seq!['{'] + body + seq!['}'];
    assert(s =~= a + rest);
    assert(a[a.len() - 1] == '}');
    lemma_operations_shift(a, rest, 0, 0, false);
    assert(a.len() == n + 2);
    assert(operations_from(s, 1 + n, 1, true) == operations_from(s, 2 + n, 0, false));
}

/// A definition with a keyword before its selection is one operation where the
/// keyword is `query`, `mutation` or `subscription`, and none where it is
/// `fragment`; what follows is counted on its own.
pub proof fn law_announced_selection_is_at_most_one_operation(
    word: Seq<char>,
    head: Seq<char>,
    body: Seq<char>,
    rest: Seq<char>,
)
    requires
        word == "query"@ || word == "mutation"@ || word == "subscription"@ || word == "fragment"@,
        is_plain(head),
        head.len() > 0 ==> !is_word_char(head[0]),
        is_balanced(body),
    ensures
        operations(word + head + seq!['{'] + body + seq!['}'] + rest) == (if word == "fragment"@ {
            0nat
        } else {
            1nat
        }) + operations(rest),
{
    reveal_strlit("query");
    reveal_strlit("mutation");
    reveal_strlit("subscription");
    reveal_strlit("fragment");
    let s = word + head + seq!['{'] + body + seq!['}'] + rest;
    let w = word.len() as int;
    let h = head.len() as int;
    let n = body.len() as int;
    assert(s[0] == word[0]);
    assert(s.subrange(0, w) =~= word);
    if h > 0 {
        assert(s[w] == head[0]);
    } else {
        assert(s[w] == '{');
    }
    assert(!is_word_char('{'));
    assert(word_at(s, word, 0));
    if word != "query"@ {
        assert(!word_at(s, "query"@, 0)) by {
            if word_at(s, "query"@, 0) {
                assert(s.subrange(0, 5)[0] == 'q');
            }
        }
    }
    if word == "subscription"@ || word == "fragment"@ {
        assert(!word_at(s, "mutation"@, 0)) by {
            if word_at(s, "mutation"@, 0) {
                assert(s.subrange(0, 8)[0] == 'm');
            }
        }
    }
    if word == "fragment"@ {
        assert(!word_at(s, "subscription"@, 0)) by {
            if word_at(s, "subscription"@, 0) {
                assert(s.subrange(0, 12)[0] == 's');
            }
        }
        assert(fragment_starts(s, 0) && !keyword_starts(s, 0));
    } else {
        assert(keyword_starts(s, 0) && keyword_len(s, 0) == w);
    }
    assert(s.subrange(w, w + h) =~= head);
    lemma_plain(s, head, w, 0);
    assert(s[w + h] == '{');
    assert(operations_from(s, w + h, 0, true) == operations_from(s, w + h + 1, 1, true));
    assert(s.subrange(w + h + 1, w + h + 1 + n) =~= body);
    lemma_balanced(s, body, w + h + 1, 0);
    assert(s[w + h + 1 + n] == '}');
    let a = word + head + seq!['{'] + body + seq!['}'];
    assert(s =~= a + rest);
    assert(a[a.len() - 1] == '}');
    lemma_operations_shift(a, rest, 0, 0, false);
    assert(operations_from(s, w + h + 1 + n, 1, true) == operations_from(
        s,
        w + h + 2 + n,
        0,
        false,
    ));
}

proof fn lemma_comment(s: Seq<char>, i: int, j: int)
    requires
        0 <= i <= j < s.len(),
        forall|k: int| i <= k < j ==> #[trigger] s[k] != '\n',
        s[j] == '\n',
    ensures
        after_comment(s, i) == j,
    decreases j - i,
{
    if i < j {
        assert(s[i] != '\n');
        lemma_comment(s, i + 1, j);
    }
}

proof fn lemma_string(s: Seq<char>, i: int, j: int)
    requires
        0 <= i <= j < s.len(),
        forall|k: int| i <= k < j ==> #[trigger] s[k] != '"' && s[k] != '\\',
        s[j] == '"',
    ensures
        after_string(s, i) == j + 1,
    decreases j - i,
{
    if i < j {
        assert(s[i] != '"');
        lemma_string(s, i + 1, j);
    }
}

/// Comments, strings and white space between definitions do not count, whatever
/// they hold.
pub proof fn law_comments_and_strings_do_not_count(text: Seq<char>, rest: Seq<char>, c: char)
    ensures
        (forall|k: int| 0 <= k < text.len() ==> #[trigger] text[k] != '\n') ==> operations(
            seq!['#'] + text + seq!['\n'] + rest,
        ) == operations(rest),
        text.len() > 0 && (forall|k: int|
            0 <= k < text.len() ==> #[trigger] text[k] != '"' && text[k] != '\\') ==> operations(
            seq!['"'] + text + seq!['"'] + rest,
        ) == operations(rest),
        c == ' ' || c == '\n' || c == '\t' || c == ',' ==> operations(seq![c] + rest) == operations(
            rest,
        ),
{
    let n = text.len() as int;
    reveal_strlit("query");
    reveal_strlit("mutation");
    reveal_strlit("subscription");
    reveal_strlit("fragment");
    if forall|k: int| 0 <= k < text.len() ==> #[trigger] text[k] != '\n' {
        let s = seq!['#'] + text + seq!['\n'] + rest;
        assert(s[0] == '#');
        assert forall|k: int| 1 <= k < 1 + n implies #[trigger] s[k] != '\n' by {
            assert(s[k] == text[k - 1]);
        }
        assert(s[1 + n] == '\n');
        lemma_comment(s, 1, 1 + n);
        lemma_blank(s, 1 + n);
        let a = seq!['#'] + text + seq!['\n'];
        assert(s =~= a + rest);
        assert(a[a.len() - 1] == '\n');
        lemma_operations_shift(a, rest, 0, 0, false);
    }
    if text.len() > 0 && (forall|k: int|
        0 <= k < text.len() ==> #[trigger] text[k] != '"' && text[k] != '\\') {
        let s = seq!['"'] + text + seq!['"'] + rest;
        assert(s[0] == '"');
        assert(s[1] == text[0]);
        assert forall|k: int| 1 <= k < 1 + n implies #[trigger] s[k] != '"' && s[k] != '\\' by {
            assert(s[k] == text[k - 1]);
        }
        assert(s[1 + n] == '"');
        lemma_string(s, 1, 1 + n);
        assert(!triple_at(s, 0));
        let a = seq!['"'] + text + seq!['"'];
        assert(s =~= a + rest);
        assert(a[a.len() - 1] == '"');
        lemma_operations_shift(a, rest, 0, 0, false);
    }
    if c == ' ' || c == '\n' || c == '\t' || c == ',' {
        let s = seq![c] + rest;
        assert(s[0] == c);
        lemma_blank(s, 0);
        lemma_operations_shift(seq![c], rest, 0, 0, false);
    }
}

proof fn lemma_blank(s: Seq<char>, i: int)
    requires
        0 <= i < s.len(),
        s[i] == ' ' || s[i] == '\n' || s[i] == '\t' || s[i] == ',',
    ensures
        operations_from(s, i, 0, false) == operations_from(s, i + 1, 0, false),
{
    reveal_strlit("query");
    reveal_strlit("mutation");
    reveal_strlit("subscription");
    reveal_strlit("fragment");
    assert(!word_at(s, "query"@, i)) by {
        if word_at(s, "query"@, i) {
            assert(s.subrange(i, i + 5)[0] == 'q');
        }
    }
    assert(!word_at(s, "mutation"@, i)) by {
        if word_at(s, "mutation"@, i) {
            assert(s.subrange(i, i + 8)[0] == 'm');
        }
    }
    assert(!word_at(s, "subscription"@, i)) by {
        if word_at(s, "subscription"@, i) {
            assert(s.subrange(i, i + 12)[0] == 's');
        }
    }
    assert(!word_at(s, "fragment"@, i)) by {
        if word_at(s, "fragment"@, i) {
            assert(s.subrange(i, i + 8)[0] == 'f');
        }
    }
}

/// An empty document holds no operation.
pub proof fn law_empty_document_holds_nothing(s: Seq<char>)
    requires
        s.len() == 0,
    ensures
        operations(s) == 0,
{
}

/// What is sent is the text under `query` and what stands under `variables`, or
/// no variables where nothing does; an input that is no object, has no such
/// text, or has variables of another shape is refused.
pub proof fn law_inputs_are_taken_apart(input: JsonView)
    ensures
        input_fault(input) is None <==> input is Object && (input.field("query"@) matches Some(
            JsonView::Text(_),
        )) && (input.field("variables"@) matches Some(v) ==> v is Object),
        input.field("variables"@) matches Some(v) ==> variables_of(input) == v,
        input.field("variables"@) is None ==> (variables_of(input) matches JsonView::Object(e)
            && e.len() == 0),
{
}

/// A value that does not hold the token comes out as it is.
pub proof fn law_scrubbing_keeps_the_rest(v: JsonView, token: Seq<char>)
    requires
        token.len() > 0,
        !mentions(v, token),
    ensures
        scrubbed(v, token) == v,
    decreases v,
{
    match v {
        JsonView::Text(s) => {
            crate::text::law_replacing_keeps_other_text(s, token, "***"@);
        },
        JsonView::Array(items) => {
            assert forall|i: int| 0 <= i < items.len() implies scrubbed(#[trigger] items[i], token)
                == items[i] by {
                assert(!mentions(items[i], token));
                law_scrubbing_keeps_the_rest(items[i], token);
            }
            assert(scrubbed(v, token)->Array_0 =~= items);
        },
        JsonView::Object(entries) => {
            assert forall|i: int| 0 <= i < entries.len() implies scrubbed(
                (#[trigger] entries[i]).1,
                token,
            ) == entries[i].1 && replaced(entries[i].0, token, "***"@) == entries[i].0 by {
                assert(!has_text(entries[i].0, token) && !mentions(entries[i].1, token));
                law_scrubbing_keeps_the_rest(entries[i].1, token);
                crate::text::law_replacing_keeps_other_text(entries[i].0, token, "***"@);
            }
            assert(scrubbed(v, token)->Object_0 =~= entries);
        },
        _ => {},
    }
}

/// A value keeps its shape when it is scrubbed: a list its items and an object
/// its entries, each in its place, and a text only loses the token.
pub proof fn law_scrubbing_keeps_the_shape(v: JsonView, token: Seq<char>, i: int)
    requires
        token.len() > 0,
    ensures
        v matches JsonView::Text(s) ==> scrubbed(v, token) == JsonView::Text(
            replaced(s, token, "***"@),
        ),
        v matches JsonView::Array(items) ==> (scrubbed(v, token) matches JsonView::Array(x) && x.len()
            == items.len() && (0 <= i < items.len() ==> x[i] == scrubbed(items[i], token))),
        v matches JsonView::Object(entries) ==> (scrubbed(v, token) matches JsonView::Object(x)
            && x.len() == entries.len() && (0 <= i < entries.len() ==> x[i].1 == scrubbed(
            entries[i].1,
            token,
        ) && x[i].0 == replaced(entries[i].0, token, "***"@))),
        !(v is Text) && !(v is Array) && !(v is Object) ==> scrubbed(v, token) == v,
{
}

} // verus!
