use roki_daemon::orchestrator::state::{IssueId, Mode};
use roki_daemon::workflow::render::{
    fallback_orchestrator_prompt, finish_phase_prompt, mode_token, orchestrator_globals,
    phase_globals, phase_prompt, render_orchestrator_prompt, render_phase_prompt, session_prompt,
    settle_session_prompt, Global,
    OrchestratorRenderContext, PhaseRenderContext, RenderError, ADDITIONAL_CONTEXT_BEGIN,
    ADDITIONAL_CONTEXT_END,
};
use roki_daemon::workflow::template::{can_render, has_name};

fn orch_ctx() -> OrchestratorRenderContext {
    OrchestratorRenderContext {
        issue: IssueId::from("ENG-42"),
        title: "Implement widget".to_owned(),
        body: "Acceptance: must do widget things.".to_owned(),
        labels: vec!["roki:ready".to_owned()],
        mode: Mode::SpecDriven,
        bucketed_state: "Pending".to_owned(),
    }
}

fn phase_ctx(issue: &str, additional_context: Option<&str>) -> PhaseRenderContext {
    PhaseRenderContext {
        issue: IssueId::from(issue),
        target_spec: None,
        worktree_path: None,
        mode: Mode::SpecDriven,
        additional_context: additional_context.map(|s| s.to_owned()),
    }
}

#[test]
fn orchestrator_render_substitutes_mode() {
    let template = "issue {{ issue }} mode={{ mode }} state={{ bucketed_state }}";
    let rendered = render_orchestrator_prompt(template, &orch_ctx()).unwrap();
    assert!(rendered.contains("ENG-42"), "issue id missing: {rendered}");
    assert!(rendered.contains("SPEC_DRIVEN"), "mode missing: {rendered}");
    assert!(rendered.contains("Pending"));
    assert_eq!(rendered, "issue ENG-42 mode=SPEC_DRIVEN state=Pending");
}

#[test]
fn orchestrator_render_failure_falls_back_with_required_context() {
    let bad_template = "{% if true %}unterminated";
    let err = render_orchestrator_prompt(bad_template, &orch_ctx()).unwrap_err();
    assert!(matches!(err, RenderError::Liquid(_)));

    let fallback = fallback_orchestrator_prompt(&orch_ctx());
    assert!(fallback.contains("ENG-42"), "fallback missing issue: {fallback}");
    assert!(fallback.contains("Implement widget"), "fallback missing title: {fallback}");
    assert!(
        fallback.contains("Acceptance: must do widget things."),
        "fallback missing body: {fallback}",
    );
    assert!(fallback.contains("SPEC_DRIVEN"), "fallback missing mode: {fallback}");
}

#[test]
fn phase_render_passes_additional_context_through_documented_delimiters() {
    let template = "Phase prompt for {{ issue }}\n";
    let ctx = PhaseRenderContext {
        issue: IssueId::from("ENG-9"),
        target_spec: Some("foo-spec".to_owned()),
        worktree_path: Some("/tmp/wt".to_owned()),
        mode: Mode::NeedsClassify,
        additional_context: Some("retry: review found XYZ".to_owned()),
    };
    let rendered = render_phase_prompt(template, &ctx).unwrap();

    let begin_idx = rendered.find(ADDITIONAL_CONTEXT_BEGIN).expect("begin marker must appear");
    let end_idx = rendered.find(ADDITIONAL_CONTEXT_END).expect("end marker must appear");
    assert!(begin_idx < end_idx, "begin must precede end");
    let between = &rendered[begin_idx + ADDITIONAL_CONTEXT_BEGIN.len()..end_idx];
    assert!(
        between.contains("retry: review found XYZ"),
        "additional_context body missing between markers: {between:?}",
    );
}

#[test]
fn phase_render_template_can_place_additional_context_explicitly() {
    let template = "header\n{{ additional_context }}\nfooter\n";
    let rendered = render_phase_prompt(template, &phase_ctx("ENG-1", Some("hello"))).unwrap();
    let begin_count = rendered.matches(ADDITIONAL_CONTEXT_BEGIN).count();
    let end_count = rendered.matches(ADDITIONAL_CONTEXT_END).count();
    assert_eq!(begin_count, 1, "delimiters must not be duplicated");
    assert_eq!(end_count, 1);
    assert!(rendered.contains("hello"));
}

#[test]
fn phase_render_without_additional_context_omits_delimiters() {
    let template = "issue={{ issue }} mode={{ mode }}";
    let rendered = render_phase_prompt(template, &phase_ctx("ENG-7", None)).unwrap();
    assert!(!rendered.contains(ADDITIONAL_CONTEXT_BEGIN));
    assert!(rendered.contains("ENG-7"));
    assert!(rendered.contains("SPEC_DRIVEN"));
}

#[test]
fn labels_can_be_walked() {
    let mut ctx = orch_ctx();
    ctx.labels = vec!["a".to_owned(), "b".to_owned()];
    let rendered =
        render_orchestrator_prompt("{% for l in labels %}[{{ l }}]{% endfor %}", &ctx).unwrap();
    assert_eq!(rendered, "[a][b]");
}

#[test]
fn globals_are_those_of_the_context() {
    let globals = orchestrator_globals(&orch_ctx());
    assert!(globals.contains(&("mode".to_owned(), Global::Text("SPEC_DRIVEN".to_owned()))));
    assert!(globals
        .contains(&("labels".to_owned(), Global::Texts(vec!["roki:ready".to_owned()]))));
    let globals = phase_globals(&phase_ctx("ENG-7", None));
    assert!(globals.contains(&("issue".to_owned(), Global::Text("ENG-7".to_owned()))));
    assert!(globals.contains(&("worktree_path".to_owned(), Global::Missing)));
}

#[test]
fn context_is_appended_word_for_word() {
    let out = finish_phase_prompt(false, "prompt".to_owned(), &phase_ctx("ENG-1", Some("more\n")));
    assert!(out.starts_with("prompt"));
    assert!(out.contains("more\n"));
    assert!(out.contains(ADDITIONAL_CONTEXT_BEGIN));
    let same = finish_phase_prompt(false, "prompt".to_owned(), &phase_ctx("ENG-1", None));
    assert_eq!(same, "prompt");
}

#[test]
fn mode_tokens() {
    assert_eq!(mode_token(Mode::SpecDriven), "SPEC_DRIVEN");
    assert_eq!(mode_token(Mode::NeedsClassify), "NEEDS_CLASSIFY");
}

#[test]
fn text_without_markup_comes_out_as_it_is() {
    let plain = "Do { this } now %} }} | date [x] 12345678901234567890\n\n  - done";
    assert_eq!(render_orchestrator_prompt(plain, &orch_ctx()), Ok(plain.to_owned()));
    assert_eq!(render_orchestrator_prompt("", &orch_ctx()), Ok(String::new()));
    assert_eq!(render_phase_prompt(plain, &phase_ctx("ENG-1", None)), Ok(plain.to_owned()));
    assert_eq!(
        render_phase_prompt("end", &phase_ctx("ENG-1", Some("more"))),
        Ok(format!("end\n{ADDITIONAL_CONTEXT_BEGIN}\nmore\n{ADDITIONAL_CONTEXT_END}\n")),
    );
}

#[test]
fn every_variable_of_a_session_can_be_named() {
    let ctx = OrchestratorRenderContext {
        issue: IssueId::from("ENG-9"),
        title: "A title".to_owned(),
        body: "A body".to_owned(),
        labels: vec!["x".to_owned(), "y".to_owned()],
        mode: Mode::SpecDriven,
        bucketed_state: "started".to_owned(),
    };
    let template = "{{ issue }}/{{ title }}/{{ body }}/{{ labels }}/{{ mode }}/{{ bucketed_state }}";
    assert_eq!(
        render_orchestrator_prompt(template, &ctx),
        Ok("ENG-9/A title/A body/xy/SPEC_DRIVEN/started".to_owned()),
    );
}

#[test]
fn every_variable_of_a_phase_can_be_named() {
    let ctx = PhaseRenderContext {
        issue: IssueId::from("ENG-9"),
        target_spec: Some("spec".to_owned()),
        worktree_path: None,
        mode: Mode::NeedsClassify,
        additional_context: None,
    };
    let template = "{{ issue }}/{{ mode }}/{{ target_spec }}/{{ worktree_path }}/{{ additional_context }}/";
    assert_eq!(
        render_phase_prompt(template, &ctx),
        Ok("ENG-9/NEEDS_CLASSIFY/spec///".to_owned()),
    );
}

fn renders(template: &str) -> bool {
    can_render(template, &orchestrator_globals(&orch_ctx()))
}

/// The prompt of a template that can be rendered.
fn rendered(template: &str) -> String {
    assert!(renders(template), "{template}");
    render_orchestrator_prompt(template, &orch_ctx()).unwrap()
}

#[test]
fn numbers_that_do_not_fit_are_refused() {
    assert!(!renders("{{ 99999999999999999999 }}"));
    assert!(!renders("{% if mode == 9999999999999999999 %}x{% endif %}"));
    assert!(!renders("{{ 9223372036854775808 }}"));
    assert!(renders("{{ 999999999999999999 }}"));
    assert!(renders("ticket 99999999999999999999 of {{ issue }}"));
    assert_eq!(session_prompt("{{ 999999999999999999 }}", &orch_ctx()), "999999999999999999");
    assert_eq!(rendered("{{ 9223372036854775807 }}"), "9223372036854775807");
    assert_eq!(rendered("{{ 0000000000000000000000007 }}"), "7");
    assert_eq!(rendered("{{ '99999999999999999999' }}"), "99999999999999999999");
    assert!(renders("{{ 1.00000000000000000000 }}"));
}

#[test]
fn reckoning_stays_small() {
    assert!(!renders("{{ -9223372036854775808 | divided_by: -1 }}"));
    assert!(!renders("{{ 999999999 | times: 999999999 }}"));
    assert!(!renders("{{ 9 | times: 9 | times: 9 | times: 9 }}"));
    assert!(!renders("{% assign x = 1 %}{% for l in labels %}{% assign x = x | times: 9 %}{% endfor %}"));
    assert_eq!(rendered("{{ 9 | times: 9 | plus: 1 }}"), "82");
    assert_eq!(rendered("{% assign x = 1 %}{{ x | plus: 1 }}"), "2");
    assert_eq!(
        rendered("{% assign x = 9999 | times: 9999 %}{{ x | times: x }}"),
        "9996000599960001",
    );
    assert!(renders("{{ 7 | plus: 1 }} {{ labels | join: ',' }}"));
    assert_eq!(session_prompt("{{ 7 | plus: 1 }}", &orch_ctx()), "8");
    assert!(renders("{% for i in (1..3) %}{{ i }}{% endfor %}"));
    assert_eq!(session_prompt("{% for i in (1..3) %}{{ i }}{% endfor %}", &orch_ctx()), "123");
    assert_eq!(rendered("{% assign x = title | upcase %}{% for i in ( 1..2 ) %}{{ i }}{% endfor %}"), "12");
    assert!(!renders("{% assign x = title | upcase %}{% for i in (1..x) %}{{ i }}{% endfor %}"));
    assert_eq!(
        rendered("{% assign n = 0 %}{% for l in labels %}{% assign n = n | plus: 1 %}{% endfor %}{{ n }}"),
        "1",
    );
    assert_eq!(
        rendered("{% assign n = labels.size | minus: 1 %}{% for i in (0..n) %}{{ i }}{% endfor %}{{ labels | join: '-' }}"),
        "0roki:ready",
    );
    assert!(!renders("{% assign n = '99' | append: '99' %}{{ n | plus: 1 }}"));
    assert!(!renders("{% assign n = 1 %}{% for l in labels %}{% assign n = n | plus: n %}{% endfor %}"));
    assert!(!renders("{% for i in (1..99999) %}{{ i }}{% endfor %}"));
    let mut ctx = orch_ctx();
    ctx.title = "9223372036854775807".to_owned();
    assert!(!can_render("{{ title | plus: 1 }}", &orchestrator_globals(&ctx)));
    assert!(!can_render("{% for i in (1..title) %}{% endfor %}", &orchestrator_globals(&ctx)));
    assert!(can_render("{{ title }}", &orchestrator_globals(&ctx)));
    ctx.title = "99999".to_owned();
    assert!(can_render("{{ title | times: title }}", &orchestrator_globals(&ctx)));
    assert!(!can_render(
        "{% assign x = title | times: title %}{{ x | times: x }}",
        &orchestrator_globals(&ctx),
    ));
}

#[test]
fn empty_cycles_and_tables_of_no_width_are_refused() {
    assert!(!renders("{% cycle a: %}"));
    assert!(!renders("{% cycle a: -%}"));
    assert!(renders("{% cycle a: 'x', 'y' %}"));
    assert_eq!(session_prompt("{% cycle a: 'x', 'y' %}", &orch_ctx()), "x");
    assert!(!renders("{% tablerow l in labels cols:0 %}{{ l }}{% endtablerow %}"));
    assert!(!renders("{% tablerow l in labels cols:title %}{{ l }}{% endtablerow %}"));
    assert!(!renders("{% tablerow l in labels cols:4294967296 %}{{ l }}{% endtablerow %}"));
    assert!(renders("cols: {% tablerow l in labels %}{{ l }}{% endtablerow %}"));
    let out = rendered("{% tablerow i in (1..3) cols:2 %}{{ i }}{% endtablerow %}");
    assert_eq!(out.matches("</tr>").count(), 2);
    assert_eq!(out.matches("</td>").count(), 3);
}

#[test]
fn dates_need_a_plain_format() {
    assert!(renders("{{ 'now' | date: '%Y-%m-%d' }}"));
    assert!(renders("{{ 'now' |date : \"%Y\" | append: 'x' }}"));
    assert!(!renders("{{ 'now' | date: title }}"));
    assert!(!renders("{{ 'now' | date: '%99999N' }}"));
    assert!(!renders("{{ 'now' | date: '%é' }}"));
    let out = session_prompt("on {{ '2020-02-03 04:05:06' | date: '%Y' }}", &orch_ctx());
    assert_eq!(out, "on 2020");
    assert_eq!(
        rendered("{{ 'é 12345' }} {{ '2020-02-03 04:05:06' | date: '%m' }}"),
        "é 12345 02",
    );
}

#[test]
fn delimiters_in_strings_can_be_read() {
    assert_eq!(rendered("{{ '}}' }}"), "}}");
    assert_eq!(rendered("{{ \"a %} b\" | append: '{{' }} it's"), "a %} b{{ it's");
    assert_eq!(rendered("{% if mode == '{% x' %}y{% endif %}z"), "z");
    assert!(renders("it's {{ title | append: '!' }} isn't it"));
    assert!(!renders("{{ a b '}}' }}"));
    assert!(!renders("{{ '}} }}"));
    assert!(!renders("{{ nilable | append: '{{' }}"));
}

#[test]
fn lines_beyond_ascii_can_be_read() {
    assert!(renders("é {{ title | append: '!' }} {{ issue | upcase }}"));
    assert!(!renders("é {{ title | append: '!' }} {{ nilable }}"));
    assert!(!renders("é {{ title | append: '!' }} {{ a b }}"));
    assert!(renders("é {{ title | append: '!' }} {{ labels.first }} {% if mode %}x{% endif %}"));
    assert!(renders("é {{ title | append: '!' }}{% for l in labels %}{{ l }}{% endfor %}"));
    assert!(renders("é {{ title | append: '!' }} {{ issue }}"));
    assert!(renders("é {{ title | append: '!' }}\n{{ title | append: '!' }}"));
    assert!(renders("{{ title | append: '!' }} é {{ title | append: '!' }}"));
}

#[test]
fn helpers_of_loops_are_not_sorted() {
    assert!(!renders(
        "{% for a in labels %}{% for x in forloop %}{{x|concat:labels|sort|join}}{% endfor %}{% endfor %}",
    ));
    assert!(!renders("{% tablerow a in labels %}{{ tablerow | sort }}{% endtablerow %}"));
    assert!(renders("{% for a in labels %}{{ forloop.index }}{{ labels | sort | join }}{% endfor %}"));
    assert!(renders("{% tablerow a in labels %}{{ tablerow.col }}{{ labels | sort }}{% endtablerow %}"));
    assert_eq!(rendered("{{ 'b,c,a' | split: ',' | concat: labels | sort | first }}"), "a");
}

#[test]
fn deep_nesting_is_refused() {
    let nested = |n: usize| format!("{}x{}", "{% if mode %}".repeat(n), "{% endif %}".repeat(n));
    assert_eq!(rendered(&nested(100)), "x");
    assert!(!renders(&nested(101)));
    assert_eq!(rendered(&"{% if mode %}x{% endif %}".repeat(300)), "x".repeat(300));
    let raw = "{% if mode %}{% raw %}{% endif %}{% endraw %}".repeat(101);
    assert!(!renders(&raw));
    assert!(!renders(&format!("{{{{ labels{}{} }}}}", "[labels".repeat(101), "]".repeat(101))));
    assert!(!renders(&format!("{{% if mode{} %}}x{{% endif %}}", " or mode".repeat(501))));
    assert_eq!(rendered(&format!("{{% if mode{} %}}x{{% endif %}}", " or mode".repeat(500))), "x");
}

#[test]
fn markup_of_many_forms_can_be_read() {
    assert_eq!(rendered("é'{{'a'}}'{{- 'b' -}} {{-1}}"), "é'a'b1");
    assert_eq!(rendered("é {{ 'a' | append: \"{{\" | upcase }}"), "é A{{");
    assert_eq!(rendered("é {{ '%}' | replace: '%', \"'\" }}"), "é '}");
    assert_eq!(rendered("é{% if 1.5 <= 2 and mode != nil %}{{ '}}' }}{% endif %}"), "é}}");
    assert_eq!(rendered("é{% assign q = '}}' | append: 'x' %}{{ q }}"), "é}}x");
    assert_eq!(rendered("é{% case mode -%}\n{% when 'x', '%}' %}y{% else %}n{% endcase %}"), "én");
    assert_eq!(rendered("{{ body | truncate: 4, '}}' }}").chars().count(), 4);
}

#[test]
fn template_that_cannot_be_rendered_falls_back() {
    let bad = "start {{ 99999999999999999999 }}";
    assert_eq!(session_prompt(bad, &orch_ctx()), fallback_orchestrator_prompt(&orch_ctx()));
    assert_eq!(
        session_prompt("{% if true %}unterminated", &orch_ctx()),
        fallback_orchestrator_prompt(&orch_ctx()),
    );
    assert_eq!(
        phase_prompt(bad, &phase_ctx("ENG-1", None)),
        Err(RenderError::Liquid("the template cannot be rendered safely".to_owned())),
    );
    assert_eq!(phase_prompt("go", &phase_ctx("ENG-1", None)), Ok("go".to_owned()));
    assert_eq!(settle_session_prompt(Some(Ok("x".to_owned())), &orch_ctx()), "x");
    assert_eq!(
        settle_session_prompt(None, &orch_ctx()),
        fallback_orchestrator_prompt(&orch_ctx()),
    );
}

#[test]
fn prompt_begins_as_its_template() {
    let out = session_prompt("Take {{ issue | downcase }} on.", &orch_ctx());
    assert_eq!(out, "Take eng-42 on.");
    let out = session_prompt("  {{- issue }}", &orch_ctx());
    assert_eq!(out, "ENG-42");
}

#[test]
fn context_is_not_lost_where_the_markers_stand_already() {
    let template =
        format!("{ADDITIONAL_CONTEXT_BEGIN}\nold\n{ADDITIONAL_CONTEXT_END}\nfor {{{{ issue }}}}");
    let out = render_phase_prompt(&template, &phase_ctx("ENG-1", Some("new"))).unwrap();
    assert_eq!(
        out,
        format!(
            "{ADDITIONAL_CONTEXT_BEGIN}\nold\n{ADDITIONAL_CONTEXT_END}\nfor ENG-1\n\
             {ADDITIONAL_CONTEXT_BEGIN}\nnew\n{ADDITIONAL_CONTEXT_END}\n",
        ),
    );
    let named = "{% if mode == 'x' %}{{ additional_context }}{% endif %}end";
    let out = render_phase_prompt(named, &phase_ctx("ENG-1", Some("new"))).unwrap();
    assert!(out.ends_with(&format!("\nnew\n{ADDITIONAL_CONTEXT_END}\n")));
    let placed = "{{ additional_context }} end";
    let out = render_phase_prompt(placed, &phase_ctx("ENG-1", Some("new"))).unwrap();
    assert!(out.ends_with(" end"));
}

#[test]
fn names_are_found_in_markup_only() {
    assert!(has_name("a {{ x | y }}", "x"));
    assert!(!has_name("x {{ xx }} x-y", "x"));
    assert!(has_name("{% if x %}{% endif %}", "x"));
}
