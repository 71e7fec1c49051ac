//! Whose issues are taken: the configured selector, resolved to a user.
use vstd::prelude::*;

use crate::json::{entries_view, Json, JsonView};
use crate::text::{chars_of, decimal, decimal_text, join2, join3, str_eq, trim, trimmed};
use crate::tools::shown_seconds;
use crate::tools::RateLimited;
use crate::tracker::model::NormalizedIssue;

verus! {

/// Who asks.
pub const VIEWER_QUERY: &'static str = "query RokiViewer { viewer { id name email } }";

/// The users that a selector names.
pub const USER_SEARCH_QUERY: &'static str =
    "query RokiAssigneeSearch($selector: String!) {\n  users(filter: { or: [\n    { id: { eq: $selector } },\n    { email: { eq: $selector } },\n    { name: { eq: $selector } }\n  ] }, first: 2) {\n    nodes { id name email }\n  }\n}";

#[derive(Debug, Clone, PartialEq, Eq)]
pub enum AssigneeResolveError {
    EmptySelector,
    NotFound { selector: String },
    Ambiguous { selector: String, count: usize },
    RateLimited { retry_after_seconds: Option<u64> },
    HttpStatus(u16),
    Transport(String),
    Decode(String),
}

impl AssigneeResolveError {
    pub open spec fn text(&self) -> Seq<char> {
        match self {
            AssigneeResolveError::EmptySelector =>
                "config field `linear.assignee` is invalid: must not be empty"@,
            AssigneeResolveError::NotFound { selector } => "Linear assignee selector `"@ + selector@
                + "` did not resolve to a user"@,
            AssigneeResolveError::Ambiguous { selector, count } => "Linear assignee selector `"@
                + selector@ + "` resolved to "@ + decimal(*count as nat) + " users"@,
            AssigneeResolveError::RateLimited { retry_after_seconds } =>
                "Linear assignee resolution rate limited; retry_after_seconds="@ + shown_seconds(
                    *retry_after_seconds,
                ),
            AssigneeResolveError::HttpStatus(status) =>
                "Linear assignee resolution returned HTTP status "@ + decimal(*status as nat),
            AssigneeResolveError::Transport(cause) =>
                "Linear assignee resolution transport error: "@ + cause@,
            AssigneeResolveError::Decode(cause) => "Linear assignee resolution decode error: "@
                + cause@,
        }
    }

    /// The error in words.
    pub fn message(&self) -> (s: String)
        ensures
            s@ == self.text(),
    {
        match self {
            AssigneeResolveError::EmptySelector =>
                "config field `linear.assignee` is invalid: must not be empty".to_owned(),
            AssigneeResolveError::NotFound { selector } => join3(
                "Linear assignee selector `",
                selector.as_str(),
                "` did not resolve to a user",
            ),
            AssigneeResolveError::Ambiguous { selector, count } => {
                let head = join3("Linear assignee selector `", selector.as_str(), "` resolved to ");
                join3(head.as_str(), decimal_text(*count as u64).as_str(), " users")
            },
            AssigneeResolveError::RateLimited { retry_after_seconds } => {
                let shown = match retry_after_seconds {
                    Some(n) => join3("Some(", decimal_text(*n).as_str(), ")"),
                    None => "None".to_owned(),
                };
                join2(
                    "Linear assignee resolution rate limited; retry_after_seconds=",
                    shown.as_str(),
                )
            },
            AssigneeResolveError::HttpStatus(status) => join2(
                "Linear assignee resolution returned HTTP status ",
                decimal_text(*status as u64).as_str(),
            ),
            AssigneeResolveError::Transport(cause) => join2(
                "Linear assignee resolution transport error: ",
                cause.as_str(),
            ),
            AssigneeResolveError::Decode(cause) => join2(
                "Linear assignee resolution decode error: ",
                cause.as_str(),
            ),
        }
    }
}

/// The user whose issues are taken.
#[derive(Debug, Clone, PartialEq, Eq)]
pub struct AssigneeAdmission {
    user_id: String,
}

impl View for AssigneeAdmission {
    type V = Seq<char>;

    closed spec fn view(&self) -> Seq<char> {
        self.user_id@
    }
}

impl AssigneeAdmission {
    /// A user, who must have an identifier that is not blank.
    pub fn new(user_id: String) -> (r: Result<AssigneeAdmission, AssigneeResolveError>)
        ensures
            r is Ok == (trimmed(user_id@).len() > 0),
            r matches Ok(a) ==> a@ == user_id@,
            r matches Err(e) ==> e is EmptySelector,
    {
        if chars_of(trim(user_id.as_str()).as_str()).len() == 0 {
            return Err(AssigneeResolveError::EmptySelector);
        }
        Ok(AssigneeAdmission { user_id })
    }

    pub fn user_id(&self) -> (s: &str)
        ensures
            s@ == self@,
    {
        self.user_id.as_str()
    }

    /// Whether the issue is assigned to the user.
    pub fn matches_issue(&self, issue: &NormalizedIssue) -> (r: bool)
        ensures
            r == (issue@.assignee == Some(self@)),
    {
        match &issue.assignee {
            Some(u) => str_eq(u.as_str(), self.user_id.as_str()),
            None => false,
        }
    }
}

/// What is asked of the tracker for a selector: who asks, for `me`, and the
/// users of that name for any other.
pub open spec fn request_of(selector: Seq<char>) -> JsonView {
    if trimmed(selector) == "me"@ {
        JsonView::Object(
            seq![
                ("query"@, JsonView::Text(VIEWER_QUERY@)),
                ("variables"@, JsonView::Object(Seq::empty())),
            ],
        )
    } else {
        JsonView::Object(
            seq![
                ("query"@, JsonView::Text(USER_SEARCH_QUERY@)),
                (
                    "variables"@,
                    JsonView::Object(seq![("selector"@, JsonView::Text(trimmed(selector)))]),
                ),
            ],
        )
    }
}

/// The request that resolves a selector. A blank one resolves to nobody.
pub fn assignee_request(selector: &str) -> (r: Result<Json, AssigneeResolveError>)
    ensures
        r is Ok == (trimmed(selector@).len() > 0),
        r matches Ok(body) ==> body@ == request_of(selector@),
        r matches Err(e) ==> e is EmptySelector,
{
    let selector = trim(selector);
    if chars_of(selector.as_str()).len() == 0 {
        return Err(AssigneeResolveError::EmptySelector);
    }
    if str_eq(selector.as_str(), "me") {
        let none: Vec<(String, Json)> = Vec::new();
        assert(entries_view(none@) =~= Seq::empty());
        let entries = vec![
            ("query".to_owned(), Json::Text(VIEWER_QUERY.to_owned())),
            ("variables".to_owned(), Json::Object(none)),
        ];
        assert(entries_view(entries@) =~= seq![
            ("query"@, JsonView::Text(VIEWER_QUERY@)),
            ("variables"@, JsonView::Object(Seq::empty())),
        ]);
        return Ok(Json::Object(entries));
    }
    let ghost text = selector@;
    let variables = vec![("selector".to_owned(), Json::Text(selector))];
    assert(entries_view(variables@) =~= seq![("selector"@, JsonView::Text(text))]);
    let entries = vec![
        ("query".to_owned(), Json::Text(USER_SEARCH_QUERY.to_owned())),
        ("variables".to_owned(), Json::Object(variables)),
    ];
    assert(entries_view(entries@) =~= seq![
        ("query"@, JsonView::Text(USER_SEARCH_QUERY@)),
        ("variables"@, JsonView::Object(seq![("selector"@, JsonView::Text(text))])),
    ]);
    Ok(Json::Object(entries))
}

/// The error for a request that the rate limit holds back.
pub fn deferred(limit: RateLimited) -> (e: AssigneeResolveError)
    ensures
        e == (AssigneeResolveError::RateLimited { retry_after_seconds: limit.retry_after_seconds }),
{
    AssigneeResolveError::RateLimited { retry_after_seconds: limit.retry_after_seconds }
}

/// Whether the status lets the body be read.
pub fn check_status(status: u16, retry_after: Option<u64>) -> (r: Result<(), AssigneeResolveError>)
    ensures
        r == if status == 429 {
            Err::<(), AssigneeResolveError>(
                (AssigneeResolveError::RateLimited { retry_after_seconds: retry_after }),
            )
        } else if status < 200 || status >= 300 {
            Err(AssigneeResolveError::HttpStatus(status))
        } else {
            Ok(())
        },
{
    if status == 429 {
        return Err(AssigneeResolveError::RateLimited { retry_after_seconds: retry_after });
    }
    if status < 200 || status >= 300 {
        return Err(AssigneeResolveError::HttpStatus(status));
    }
    Ok(())
}

/// Resolves a selector by what the tracker answered: `viewer` is who asks,
/// `users` are those that the selector names, each by identifier. Anything but
/// one user is refused.
pub fn resolve_linear_assignee(selector: &str, viewer: Option<String>, users: Vec<String>) -> (r:
    Result<AssigneeAdmission, AssigneeResolveError>)
    ensures
        ({
            let s = trimmed(selector@);
            let found = if s == "me"@ {
                viewer
            } else if users.len() == 1 {
                Some(users@[0])
            } else {
                None
            };
            if s.len() == 0 {
                r matches Err(AssigneeResolveError::EmptySelector)
            } else {
                match found {
                    Some(id) => if trimmed(id@).len() > 0 {
                        r matches Ok(a) && a@ == id@
                    } else {
                        r matches Err(AssigneeResolveError::EmptySelector)
                    },
                    None => if s == "me"@ || users.len() == 0 {
                        r matches Err(AssigneeResolveError::NotFound { selector: x }) && x@ == s
                    } else {
                        r matches Err(AssigneeResolveError::Ambiguous { selector: x, count }) && x@
                            == s && count == users.len()
                    },
                }
            }
        }),
{
    let selector = trim(selector);
    if chars_of(selector.as_str()).len() == 0 {
        return Err(AssigneeResolveError::EmptySelector);
    }
    if str_eq(selector.as_str(), "me") {
        return match viewer {
            Some(id) => AssigneeAdmission::new(id),
            None => Err(AssigneeResolveError::NotFound { selector }),
        };
    }
    if users.len() == 0 {
        return Err(AssigneeResolveError::NotFound { selector });
    }
    if users.len() == 1 {
        return AssigneeAdmission::new(users[0].clone());
    }
    Err(AssigneeResolveError::Ambiguous { selector, count: users.len() })
}

/// Who `me` is, is asked by whoever holds the token, with no variables; any other
/// selector is searched for, as it is written but for the white space around it.
pub proof fn law_selectors_are_asked_for(selector: Seq<char>, a: Seq<char>, b: Seq<char>)
    requires
        forall|i: int| 0 <= i < a.len() ==> crate::text::is_space(#[trigger] a[i]),
        forall|i: int| 0 <= i < b.len() ==> crate::text::is_space(#[trigger] b[i]),
        selector.len() > 0,
        !crate::text::is_space(selector[0]),
        !crate::text::is_space(selector[selector.len() - 1]),
    ensures
        ({
            let r = request_of(a + selector + b);
            &&& r matches JsonView::Object(e)
            &&& e.len() == 2
            &&& e[0].0 == "query"@ && e[1].0 == "variables"@
            &&& selector == "me"@ ==> e[0].1 == JsonView::Text(VIEWER_QUERY@) && (e[1].1
                matches JsonView::Object(v) && v.len() == 0)
            &&& selector != "me"@ ==> e[0].1 == JsonView::Text(USER_SEARCH_QUERY@) && (e[1].1
                matches JsonView::Object(v) && v.len() == 1 && v[0] == (
                "selector"@,
                JsonView::Text(selector),
            ))
        }),
{
    crate::text::law_margins_are_trimmed(a, selector, b);
}

} // verus!
