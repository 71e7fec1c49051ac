//! The prompts of sessions and phases.
//!
//! A prompt is a Liquid template with a few variables. What the orchestrator
//! adds for a phase stands in the prompt between two markers, whether or not
//! the template asks for it.
use vstd::prelude::*;
use vstd::string::StringExecFns;

use crate::orchestrator::state::{IssueId, Mode};
use crate::text::{clone_list, contains, ends_with, finishes_with, has_text, join2, join3, occurs_at, views};
pub use crate::workflow::template::{Global, GlobalView};
use crate::workflow::template::{begins_as, can_render, global_views, has_name, law_text_without_markup_can_be_rendered, names, no_markup, renderable, settled, steady};

verus! {

/// Stands before what the orchestrator adds.
pub const ADDITIONAL_CONTEXT_BEGIN: &'static str = "<!-- ROKI:ADDITIONAL_CONTEXT BEGIN -->";

/// Stands behind what the orchestrator adds.
pub const ADDITIONAL_CONTEXT_END: &'static str = "<!-- ROKI:ADDITIONAL_CONTEXT END -->";

#[derive(Debug, Clone, PartialEq, Eq)]
pub enum RenderError {
    /// The template cannot be parsed or rendered.
    Liquid(String),
}

impl RenderError {
    /// The error in words.
    pub fn message(&self) -> (s: String)
        ensures
            s@ == "Liquid render error: "@ + self->Liquid_0@,
    {
        match self {
            RenderError::Liquid(m) => join2("Liquid render error: ", m.as_str()),
        }
    }
}

/// What the prompt of a session is made of.
#[derive(Debug)]
pub struct OrchestratorRenderContext {
    pub issue: IssueId,
    pub title: String,
    pub body: String,
    pub labels: Vec<String>,
    pub mode: Mode,
    pub bucketed_state: String,
}

/// What the prompt of a phase is made of.
#[derive(Debug)]
pub struct PhaseRenderContext {
    pub issue: IssueId,
    pub target_spec: Option<String>,
    pub worktree_path: Option<String>,
    pub mode: Mode,
    pub additional_context: Option<String>,
}

/// What `Template::render` of the `liquid` crate gives for a template that can
/// be rendered and is settled; for one that is only steady, whether it gives a
/// text or an error.
pub uninterp spec fn liquid_text(template: Seq<char>, globals: Seq<(Seq<char>, GlobalView)>) -> Result<
    Seq<char>,
    Seq<char>,
>;

/// What came out, or the error in words.
pub open spec fn text_result(r: Result<String, String>) -> Result<Seq<char>, Seq<char>> {
    match r {
        Ok(s) => Ok(s@),
        Err(m) => Err(m@),
    }
}

/// Calls `Template::render` of the `liquid` crate on the template, parsed with
/// the standard library of tags and filters. Whatever comes out begins with
/// what stands before the first markup; a template without markup comes out as
/// it is. What comes of a settled template depends on the template and the
/// variables alone, and so does whether a text comes of a steady one. Of the
/// others no more is claimed: one filter asks for the time, a few work with
/// fractions as the machine does, large numbers are cut to the machine's word
/// size, and the helper of a loop as a whole comes in the order of a hash table.
#[verifier::external_body]
fn liquid_render(template: &str, globals: &Vec<(String, Global)>) -> (r: Result<String, String>)
    requires
        renderable(template@, global_views(globals@)),
    ensures
        no_markup(template@) ==> r is Ok && text_result(r)->Ok_0 == template@,
        r matches Ok(s) ==> begins_as(template@, s@),
        settled(template@, global_views(globals@)) ==> text_result(r) == liquid_text(
            template@,
            global_views(globals@),
        ),
        steady(template@, global_views(globals@)) ==> (r is Ok) == (liquid_text(
            template@,
            global_views(globals@),
        ) is Ok),
{
    let parser = liquid::ParserBuilder::with_stdlib().build().map_err(|e| e.to_string())?;
    let parsed = parser.parse(template).map_err(|e| e.to_string())?;
    let object: liquid::Object = globals.iter().map(|(name, value)| (name.clone().into(), match value {
        Global::Missing => liquid::model::Value::Nil,
        Global::Text(s) => liquid::model::Value::scalar(s.clone()),
        Global::Texts(v) => liquid::model::Value::Array(
            v.iter().map(|s| liquid::model::Value::scalar(s.clone())).collect(),
        ),
    })).collect();
    parsed.render(&object).map_err(|e| e.to_string())
}

/// The mode, as a prompt names it.
pub open spec fn mode_name(mode: Mode) -> Seq<char> {
    match mode {
        Mode::SpecDriven => "SPEC_DRIVEN"@,
        Mode::NeedsClassify => "NEEDS_CLASSIFY"@,
    }
}

pub fn mode_token(mode: Mode) -> (s: &'static str)
    ensures
        s@ == mode_name(mode),
{
    match mode {
        Mode::SpecDriven => "SPEC_DRIVEN",
        Mode::NeedsClassify => "NEEDS_CLASSIFY",
    }
}

/// The variables of a session's template.
pub open spec fn session_vars(ctx: OrchestratorRenderContext) -> Seq<(Seq<char>, GlobalView)> {
    seq![
        ("issue"@, GlobalView::Text(ctx.issue@)),
        ("title"@, GlobalView::Text(ctx.title@)),
        ("body"@, GlobalView::Text(ctx.body@)),
        ("labels"@, GlobalView::Texts(views(ctx.labels@))),
        ("mode"@, GlobalView::Text(mode_name(ctx.mode))),
        ("bucketed_state"@, GlobalView::Text(ctx.bucketed_state@)),
    ]
}

/// The variables of a session's template.
pub fn orchestrator_globals(ctx: &OrchestratorRenderContext) -> (v: Vec<(String, Global)>)
    ensures
        global_views(v@) == session_vars(*ctx),
{
    let v = vec![
        ("issue".to_owned(), Global::Text(ctx.issue.to_string())),
        ("title".to_owned(), Global::Text(ctx.title.clone())),
        ("body".to_owned(), Global::Text(ctx.body.clone())),
        ("labels".to_owned(), Global::Texts(clone_list(&ctx.labels))),
        ("mode".to_owned(), Global::Text(mode_token(ctx.mode).to_owned())),
        ("bucketed_state".to_owned(), Global::Text(ctx.bucketed_state.clone())),
    ];
    assert(global_views(v@) =~= session_vars(*ctx));
    v
}

/// A rendered prompt, or the error in words.
pub open spec fn prompt_result(r: Result<String, RenderError>) -> Result<Seq<char>, Seq<char>> {
    match r {
        Ok(s) => Ok(s@),
        Err(RenderError::Liquid(m)) => Err(m@),
    }
}

/// Renders the prompt of a session. [`fallback_orchestrator_prompt`] is for when
/// the template fails, and [`session_prompt`] takes any template.
pub fn render_orchestrator_prompt(template: &str, ctx: &OrchestratorRenderContext) -> (r: Result<
    String,
    RenderError,
>)
    requires
        renderable(template@, session_vars(*ctx)),
    ensures
        no_markup(template@) ==> prompt_result(r) == Ok::<Seq<char>, Seq<char>>(template@),
        settled(template@, session_vars(*ctx)) ==> prompt_result(r) == liquid_text(
            template@,
            session_vars(*ctx),
        ),
        steady(template@, session_vars(*ctx)) ==> (r is Ok) == (liquid_text(
            template@,
            session_vars(*ctx),
        ) is Ok),
        r matches Ok(s) ==> begins_as(template@, s@),
{
    let globals = orchestrator_globals(ctx);
    match liquid_render(template, &globals) {
        Ok(s) => Ok(s),
        Err(m) => Err(RenderError::Liquid(m)),
    }
}

/// The prompt of a session whose template fails.
pub open spec fn fallback_text(
    issue: Seq<char>,
    title: Seq<char>,
    body: Seq<char>,
    mode: Mode,
) -> Seq<char> {
    "Roki orchestrator session (fallback prompt — operator template render failed).\n\nIssue: "@
        + issue + "\nTitle: "@ + title + "\nMode: "@ + mode_name(mode) + "\n\nBody:\n"@ + body
        + "\n"@
}

/// The prompt of a session whose template fails: it names the issue, its title,
/// its mode and its body.
pub fn fallback_orchestrator_prompt(ctx: &OrchestratorRenderContext) -> (s: String)
    ensures
        s@ == fallback_text(ctx.issue@, ctx.title@, ctx.body@, ctx.mode),
{
    let head = join3(
        "Roki orchestrator session (fallback prompt — operator template render failed).\n\nIssue: ",
        ctx.issue.as_str(),
        "\nTitle: ",
    );
    let titled = join3(head.as_str(), ctx.title.as_str(), "\nMode: ");
    let moded = join3(titled.as_str(), mode_token(ctx.mode), "\n\nBody:\n");
    join3(moded.as_str(), ctx.body.as_str(), "\n")
}

/// The prompt of a session whose template gave `outcome`.
pub fn settle_session_prompt(
    outcome: Option<Result<String, RenderError>>,
    ctx: &OrchestratorRenderContext,
) -> (s: String)
    ensures
        s@ == match outcome {
            Some(Ok(rendered)) => rendered@,
            _ => fallback_text(ctx.issue@, ctx.title@, ctx.body@, ctx.mode),
        },
{
    match outcome {
        Some(Ok(rendered)) => rendered,
        _ => fallback_orchestrator_prompt(ctx),
    }
}

/// The prompt of a session, whatever its template: where that fails or cannot
/// be rendered, the fallback.
pub fn session_prompt(template: &str, ctx: &OrchestratorRenderContext) -> (s: String)
    ensures
        !renderable(template@, session_vars(*ctx)) ==> s@ == fallback_text(
            ctx.issue@,
            ctx.title@,
            ctx.body@,
            ctx.mode,
        ),
        renderable(template@, session_vars(*ctx)) ==> {
            ||| s@ == fallback_text(ctx.issue@, ctx.title@, ctx.body@, ctx.mode)
            ||| begins_as(template@, s@)
        },
        no_markup(template@) ==> s@ == template@,
        renderable(template@, session_vars(*ctx)) && settled(template@, session_vars(*ctx)) ==> s@
            == match liquid_text(
            template@,
            session_vars(*ctx),
        ) {
            Ok(t) => t,
            Err(_) => fallback_text(ctx.issue@, ctx.title@, ctx.body@, ctx.mode),
        },
        renderable(template@, session_vars(*ctx)) && steady(template@, session_vars(*ctx)) ==> {
            if liquid_text(template@, session_vars(*ctx)) is Ok {
                begins_as(template@, s@)
            } else {
                s@ == fallback_text(ctx.issue@, ctx.title@, ctx.body@, ctx.mode)
            }
        },
{
    let globals = orchestrator_globals(ctx);
    proof {
        if no_markup(template@) {
            law_text_without_markup_can_be_rendered(template@, session_vars(*ctx));
        }
    }
    if !can_render(template, &globals) {
        return settle_session_prompt(None, ctx);
    }
    let outcome = render_orchestrator_prompt(template, ctx);
    settle_session_prompt(Some(outcome), ctx)
}

/// What the orchestrator adds, between the markers.
pub open spec fn wrapped(raw: Seq<char>) -> Seq<char> {
    ADDITIONAL_CONTEXT_BEGIN@ + "\n"@ + raw + "\n"@ + ADDITIONAL_CONTEXT_END@
}

/// What the orchestrator adds, between the markers.
pub open spec fn wrapped_context(ctx: PhaseRenderContext) -> Option<Seq<char>> {
    match ctx.additional_context {
        Some(raw) => Some(wrapped(raw@)),
        None => None,
    }
}

pub open spec fn opt_global(o: Option<Seq<char>>) -> GlobalView {
    match o {
        Some(s) => GlobalView::Text(s),
        None => GlobalView::Missing,
    }
}

fn global_of(o: &Option<String>) -> (g: Global)
    ensures
        g@ == opt_global(crate::text::opt_view(*o)),
{
    match o {
        Some(s) => Global::Text(s.clone()),
        None => Global::Missing,
    }
}

fn wrap(ctx: &PhaseRenderContext) -> (r: Option<String>)
    ensures
        crate::text::opt_view(r) == wrapped_context(*ctx),
{
    match &ctx.additional_context {
        Some(raw) => {
            let head = join3(ADDITIONAL_CONTEXT_BEGIN, "\n", raw.as_str());
            Some(join3(head.as_str(), "\n", ADDITIONAL_CONTEXT_END))
        },
        None => None,
    }
}

/// The variables of a phase's template.
pub open spec fn phase_vars(ctx: PhaseRenderContext) -> Seq<(Seq<char>, GlobalView)> {
    seq![
        ("issue"@, GlobalView::Text(ctx.issue@)),
        ("mode"@, GlobalView::Text(mode_name(ctx.mode))),
        ("target_spec"@, opt_global(crate::text::opt_view(ctx.target_spec))),
        ("worktree_path"@, opt_global(crate::text::opt_view(ctx.worktree_path))),
        ("additional_context"@, opt_global(wrapped_context(ctx))),
    ]
}

/// The variables of a phase's template.
pub fn phase_globals(ctx: &PhaseRenderContext) -> (v: Vec<(String, Global)>)
    ensures
        global_views(v@) == phase_vars(*ctx),
{
    let context = wrap(ctx);
    let v = vec![
        ("issue".to_owned(), Global::Text(ctx.issue.to_string())),
        ("mode".to_owned(), Global::Text(mode_token(ctx.mode).to_owned())),
        ("target_spec".to_owned(), global_of(&ctx.target_spec)),
        ("worktree_path".to_owned(), global_of(&ctx.worktree_path)),
        ("additional_context".to_owned(), global_of(&context)),
    ];
    assert(global_views(v@) =~= phase_vars(*ctx));
    v
}

/// The variable that holds what the orchestrator adds.
pub const CONTEXT_VARIABLE: &'static str = "additional_context";

/// The prompt of a phase whose template gave `rendered`: what the orchestrator
/// adds comes last, on lines of its own, unless the template names it and it
/// stands in the text already.
pub open spec fn finished(named: bool, rendered: Seq<char>, context: Option<Seq<char>>) -> Seq<char> {
    match context {
        Some(w) => if named && has_text(rendered, w) {
            rendered
        } else if finishes_with(rendered, "\n"@) {
            rendered + w + "\n"@
        } else {
            rendered + "\n"@ + w + "\n"@
        },
        None => rendered,
    }
}

/// Ends the prompt of a phase whose template gave `rendered`; `named` says
/// whether the template names what the orchestrator adds.
pub fn finish_phase_prompt(named: bool, rendered: String, ctx: &PhaseRenderContext) -> (s: String)
    ensures
        s@ == finished(named, rendered@, wrapped_context(*ctx)),
{
    let mut out = rendered;
    if let Some(context) = wrap(ctx) {
        let present = named && contains(out.as_str(), context.as_str());
        if !present {
            if !ends_with(out.as_str(), "\n") {
                out.append("\n");
            }
            out.append(context.as_str());
            out.append("\n");
        }
    }
    out
}

/// The template of a phase names what the orchestrator adds.
pub open spec fn names_context(template: Seq<char>) -> bool {
    names(template, CONTEXT_VARIABLE@)
}

/// Renders the prompt of a phase. Whatever the template gives, what the
/// orchestrator adds stands in the prompt word for word, between the markers:
/// where the template names it, or else at the end. [`phase_prompt`] takes any
/// template.
pub fn render_phase_prompt(template: &str, ctx: &PhaseRenderContext) -> (r: Result<
    String,
    RenderError,
>)
    requires
        renderable(template@, phase_vars(*ctx)),
    ensures
        no_markup(template@) ==> prompt_result(r) == Ok::<Seq<char>, Seq<char>>(
            finished(names_context(template@), template@, wrapped_context(*ctx)),
        ),
        settled(template@, phase_vars(*ctx)) ==> prompt_result(r) == match liquid_text(
            template@,
            phase_vars(*ctx),
        ) {
            Ok(t) => Ok(finished(names_context(template@), t, wrapped_context(*ctx))),
            Err(m) => Err(m),
        },
        steady(template@, phase_vars(*ctx)) ==> (r is Ok) == (liquid_text(
            template@,
            phase_vars(*ctx),
        ) is Ok),
        r matches Ok(s) ==> exists|t: Seq<char>| #[trigger]
            begins_as(template@, t) && s@ == finished(
                names_context(template@),
                t,
                wrapped_context(*ctx),
            ),
        r matches Ok(s) ==> (ctx.additional_context matches Some(raw) ==> has_text(
            s@,
            wrapped(raw@),
        ) && (!names_context(template@) ==> finishes_with(s@, wrapped(raw@) + "\n"@))),
{
    let globals = phase_globals(ctx);
    let named = names_its_context(template);
    match liquid_render(template, &globals) {
        Ok(rendered) => {
            let ghost t = rendered@;
            let s = finish_phase_prompt(named, rendered, ctx);
            proof {
                assert(begins_as(template@, t));
                if ctx.additional_context is Some {
                    law_context_is_kept_word_for_word(named, t, ctx.additional_context->0@);
                }
            }
            Ok(s)
        },
        Err(m) => Err(RenderError::Liquid(m)),
    }
}

fn names_its_context(template: &str) -> (r: bool)
    ensures
        r == names_context(template@),
{
    proof {
        reveal_strlit("additional_context");
    }
    has_name(template, CONTEXT_VARIABLE)
}

/// Renders the prompt of a phase, whatever its template: one that cannot be
/// rendered is an error.
pub fn phase_prompt(template: &str, ctx: &PhaseRenderContext) -> (r: Result<String, RenderError>)
    ensures
        !renderable(template@, phase_vars(*ctx)) ==> prompt_result(r) == Err::<Seq<char>, Seq<char>>(
            "the template cannot be rendered safely"@,
        ),
        no_markup(template@) ==> prompt_result(r) == Ok::<Seq<char>, Seq<char>>(
            finished(names_context(template@), template@, wrapped_context(*ctx)),
        ),
        renderable(template@, phase_vars(*ctx)) && settled(template@, phase_vars(*ctx))
            ==> prompt_result(r)
            == match liquid_text(template@, phase_vars(*ctx)) {
            Ok(t) => Ok(finished(names_context(template@), t, wrapped_context(*ctx))),
            Err(m) => Err(m),
        },
        renderable(template@, phase_vars(*ctx)) && steady(template@, phase_vars(*ctx)) ==> (r is Ok)
            == (liquid_text(template@, phase_vars(*ctx)) is Ok),
        r matches Ok(s) ==> exists|t: Seq<char>| #[trigger]
            begins_as(template@, t) && s@ == finished(
                names_context(template@),
                t,
                wrapped_context(*ctx),
            ),
        r matches Ok(s) ==> (ctx.additional_context matches Some(raw) ==> has_text(
            s@,
            wrapped(raw@),
        ) && (!names_context(template@) ==> finishes_with(s@, wrapped(raw@) + "\n"@))),
{
    let globals = phase_globals(ctx);
    proof {
        if no_markup(template@) {
            law_text_without_markup_can_be_rendered(template@, phase_vars(*ctx));
        }
    }
    if !can_render(template, &globals) {
        return Err(RenderError::Liquid("the template cannot be rendered safely".to_owned()));
    }
    render_phase_prompt(template, ctx)
}

proof fn lemma_has_text_within(a: Seq<char>, b: Seq<char>, c: Seq<char>)
    ensures
        has_text(a + b + c, b),
{
    let all = a + b + c;
    assert(all.subrange(a.len() as int, a.len() as int + b.len()) =~= b);
    assert(occurs_at(all, b, a.len() as int));
}

/// No prompt loses what the orchestrator adds: it stands there word for word,
/// between the markers, and at the end where the template does not name it.
pub proof fn law_context_is_kept_word_for_word(named: bool, rendered: Seq<char>, raw: Seq<char>)
    ensures
        has_text(finished(named, rendered, Some(wrapped(raw))), wrapped(raw)),
        !named ==> finishes_with(finished(named, rendered, Some(wrapped(raw))), wrapped(raw) + "\n"@),
{
    let w = wrapped(raw);
    if !(named && has_text(rendered, w)) {
        let head = if finishes_with(rendered, "\n"@) {
            rendered
        } else {
            rendered + "\n"@
        };
        lemma_has_text_within(head, w, "\n"@);
        let all = finished(named, rendered, Some(w));
        assert(all =~= head + (w + "\n"@));
        assert(all.subrange(head.len() as int, all.len() as int) =~= w + "\n"@);
    }
}

/// What the orchestrator adds can be found between its markers: where a prompt
/// holds it, both markers stand in the prompt, the one directly before it and
/// the other directly behind.
pub proof fn law_context_is_marked(prompt: Seq<char>, raw: Seq<char>)
    requires
        has_text(prompt, wrapped(raw)),
    ensures
        exists|i: int|
            #![trigger occurs_at(prompt, ADDITIONAL_CONTEXT_BEGIN@ + "\n"@, i)]
            occurs_at(prompt, ADDITIONAL_CONTEXT_BEGIN@ + "\n"@, i) && occurs_at(
                prompt,
                raw + "\n"@ + ADDITIONAL_CONTEXT_END@,
                i + ADDITIONAL_CONTEXT_BEGIN@.len() + "\n"@.len(),
            ),
{
    let i = choose|i: int| occurs_at(prompt, wrapped(raw), i);
    let head = ADDITIONAL_CONTEXT_BEGIN@ + "\n"@;
    let tail = raw + "\n"@ + ADDITIONAL_CONTEXT_END@;
    let w = wrapped(raw);
    assert(w =~= head + tail);
    let text = prompt.subrange(i, i + w.len());
    assert(prompt.subrange(i, i + head.len()) =~= text.subrange(0, head.len() as int));
    assert(text.subrange(0, head.len() as int) =~= head);
    assert(prompt.subrange(i + head.len(), i + head.len() + tail.len()) =~= text.subrange(
        head.len() as int,
        w.len() as int,
    ));
    assert(text.subrange(head.len() as int, w.len() as int) =~= tail);
    assert(occurs_at(prompt, head, i));
}

/// The fallback prompt names everything that a session needs.
pub proof fn law_fallback_names_everything(
    issue: Seq<char>,
    title: Seq<char>,
    body: Seq<char>,
    mode: Mode,
)
    ensures
        has_text(fallback_text(issue, title, body, mode), issue),
        has_text(fallback_text(issue, title, body, mode), title),
        has_text(fallback_text(issue, title, body, mode), body),
        has_text(fallback_text(issue, title, body, mode), mode_name(mode)),
{
    let all = fallback_text(issue, title, body, mode);
    let a =
        "Roki orchestrator session (fallback prompt — operator template render failed).\n\nIssue: "@;
    let b = "\nTitle: "@;
    let c = "\nMode: "@;
    let d = "\n\nBody:\n"@;
    let m = mode_name(mode);
    lemma_has_text_within(a, issue, b + title + c + m + d + body + "\n"@);
    assert(a + issue + (b + title + c + m + d + body + "\n"@) =~= all);
    lemma_has_text_within(a + issue + b, title, c + m + d + body + "\n"@);
    assert(a + issue + b + title + (c + m + d + body + "\n"@) =~= all);
    lemma_has_text_within(a + issue + b + title + c, m, d + body + "\n"@);
    assert(a + issue + b + title + c + m + (d + body + "\n"@) =~= all);
    lemma_has_text_within(a + issue + b + title + c + m + d, body, "\n"@);
    assert(a + issue + b + title + c + m + d + body + "\n"@ =~= all);
}

/// The fallback prompt names each thing behind its own word.
pub proof fn law_fallback_names_each_thing_by_its_word(
    issue: Seq<char>,
    title: Seq<char>,
    body: Seq<char>,
    mode: Mode,
)
    ensures
        has_text(fallback_text(issue, title, body, mode), issue + "\nTitle: "@),
        has_text(fallback_text(issue, title, body, mode), "\nTitle: "@ + title + "\nMode: "@),
        mode is SpecDriven ==> has_text(
            fallback_text(issue, title, body, mode),
            "\nMode: "@ + "SPEC_DRIVEN"@ + "\n\nBody:\n"@,
        ),
        mode is NeedsClassify ==> has_text(
            fallback_text(issue, title, body, mode),
            "\nMode: "@ + "NEEDS_CLASSIFY"@ + "\n\nBody:\n"@,
        ),
        finishes_with(
            fallback_text(issue, title, body, mode),
            "\n\nBody:\n"@ + body + "\n"@,
        ),
{
    let all = fallback_text(issue, title, body, mode);
    let a =
        "Roki orchestrator session (fallback prompt — operator template render failed).\n\nIssue: "@;
    let b = "\nTitle: "@;
    let c = "\nMode: "@;
    let d = "\n\nBody:\n"@;
    let m = mode_name(mode);
    lemma_has_text_within(a, issue + b, title + c + m + d + body + "\n"@);
    assert(a + (issue + b) + (title + c + m + d + body + "\n"@) =~= all);
    lemma_has_text_within(a + issue, b + title + c, m + d + body + "\n"@);
    assert(a + issue + (b + title + c) + (m + d + body + "\n"@) =~= all);
    lemma_has_text_within(a + issue + b + title, c + m + d, body + "\n"@);
    assert(a + issue + b + title + (c + m + d) + (body + "\n"@) =~= all);
    let head = a + issue + b + title + c + m;
    let tail = d + body + "\n"@;
    assert(all =~= head + tail);
    assert(all.subrange(head.len() as int, all.len() as int) =~= tail);
}

/// A prompt is what the template gave, and behind it at most what the
/// orchestrator adds, on lines of its own: nothing where it adds nothing, or where
/// the template names it and it stands there already.
pub proof fn law_prompt_is_what_the_template_gave(named: bool, rendered: Seq<char>, raw: Seq<char>)
    ensures
        finished(named, rendered, None) == rendered,
        named && has_text(rendered, wrapped(raw)) ==> finished(named, rendered, Some(wrapped(raw)))
            == rendered,
        !(named && has_text(rendered, wrapped(raw))) ==> finished(
            named,
            rendered,
            Some(wrapped(raw)),
        ) == (if rendered.len() > 0 && rendered[rendered.len() - 1] == '\n' {
            rendered
        } else {
            rendered.push('\n')
        }) + (ADDITIONAL_CONTEXT_BEGIN@ + "\n"@ + raw + "\n"@ + ADDITIONAL_CONTEXT_END@).push('\n'),
{
    reveal_strlit("\n");
    let nl = "\n"@;
    assert(nl.len() == 1 && nl[0] == '\n');
    let w = wrapped(raw);
    let n = rendered.len() as int;
    if n > 0 && rendered[n - 1] == '\n' {
        assert(rendered.subrange(n - 1, n) =~= nl);
        assert(finishes_with(rendered, nl));
        assert(rendered + w + nl =~= rendered + w.push('\n'));
    } else {
        if finishes_with(rendered, nl) {
            assert(rendered.subrange(n - 1, n)[0] == nl[0]);
        }
        assert(rendered + nl + w + nl =~= rendered.push('\n') + w.push('\n'));
    }
}

/// The value that the variables give `name`, where they name it once.
pub open spec fn gives(vars: Seq<(Seq<char>, GlobalView)>, name: Seq<char>, v: GlobalView) -> bool {
    exists|i: int| 0 <= i < vars.len() && #[trigger] vars[i] == (name, v)
}

/// A phase's template is given what the phase runs on, each thing under its own
/// name; what is not there is missing, and what the orchestrator adds stands
/// between its markers.
pub proof fn law_phase_templates_are_given_their_variables(ctx: PhaseRenderContext)
    ensures
        phase_vars(ctx).len() == 5,
        gives(phase_vars(ctx), "issue"@, GlobalView::Text(ctx.issue@)),
        ctx.mode is SpecDriven ==> gives(
            phase_vars(ctx),
            "mode"@,
            GlobalView::Text("SPEC_DRIVEN"@),
        ),
        ctx.mode is NeedsClassify ==> gives(
            phase_vars(ctx),
            "mode"@,
            GlobalView::Text("NEEDS_CLASSIFY"@),
        ),
        gives(
            phase_vars(ctx),
            "target_spec"@,
            match ctx.target_spec {
                Some(s) => GlobalView::Text(s@),
                None => GlobalView::Missing,
            },
        ),
        gives(
            phase_vars(ctx),
            "worktree_path"@,
            match ctx.worktree_path {
                Some(s) => GlobalView::Text(s@),
                None => GlobalView::Missing,
            },
        ),
        gives(
            phase_vars(ctx),
            "additional_context"@,
            match ctx.additional_context {
                Some(s) => GlobalView::Text(
                    ADDITIONAL_CONTEXT_BEGIN@ + "\n"@ + s@ + "\n"@ + ADDITIONAL_CONTEXT_END@,
                ),
                None => GlobalView::Missing,
            },
        ),
{
    let v = phase_vars(ctx);
    assert(v[0].0 == "issue"@ && v[1].0 == "mode"@ && v[2].0 == "target_spec"@ && v[3].0
        == "worktree_path"@ && v[4].0 == "additional_context"@);
}

/// A session's template is given the issue, each part of it under its own name.
pub proof fn law_session_templates_are_given_their_variables(ctx: OrchestratorRenderContext)
    ensures
        session_vars(ctx).len() == 6,
        gives(session_vars(ctx), "issue"@, GlobalView::Text(ctx.issue@)),
        gives(session_vars(ctx), "title"@, GlobalView::Text(ctx.title@)),
        gives(session_vars(ctx), "body"@, GlobalView::Text(ctx.body@)),
        gives(session_vars(ctx), "labels"@, GlobalView::Texts(views(ctx.labels@))),
        ctx.mode is SpecDriven ==> gives(
            session_vars(ctx),
            "mode"@,
            GlobalView::Text("SPEC_DRIVEN"@),
        ),
        ctx.mode is NeedsClassify ==> gives(
            session_vars(ctx),
            "mode"@,
            GlobalView::Text("NEEDS_CLASSIFY"@),
        ),
        gives(session_vars(ctx), "bucketed_state"@, GlobalView::Text(ctx.bucketed_state@)),
{
    let v = session_vars(ctx);
    assert(v[0].0 == "issue"@ && v[1].0 == "title"@ && v[2].0 == "body"@ && v[3].0 == "labels"@
        && v[4].0 == "mode"@ && v[5].0 == "bucketed_state"@);
}

} // verus!
