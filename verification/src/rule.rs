//! First-match evaluation of rules against an admitted ticket.
use vstd::prelude::*;

use crate::strmap::StrSet;
use crate::text::{begins_with, contains, has_text, list_contains, listed, occurs_at, starts_with, str_eq, views};
use crate::workflow::canonical::{opt_when_view, LabelsMatcher, LabelsView, RuleEntry, RuleView, ScalarMatcher, ScalarView, TextMatcher, TextView, WhenClause, WhenView};

verus! {

/// A ticket as the tracker reports it.
#[derive(Debug, Clone, PartialEq, Eq)]
pub struct NormalizedTicket {
    pub id: String,
    pub assignee_id: Option<String>,
    pub status: String,
    pub labels: Vec<String>,
    pub title: String,
    pub body: String,
}

impl NormalizedTicket {
    pub fn new(
        id: String,
        assignee_id: Option<String>,
        status: String,
        labels: Vec<String>,
        title: String,
        body: String,
    ) -> (t: NormalizedTicket)
        ensures
            t == (NormalizedTicket { id, assignee_id, status, labels, title, body }),
    {
        NormalizedTicket { id, assignee_id, status, labels, title, body }
    }
}

/// A ticket and the repository that it was admitted for.
#[derive(Debug, Clone, PartialEq, Eq)]
pub struct AdmittedTicket {
    pub ticket: NormalizedTicket,
    pub ghq: String,
}

/// The matcher accepts `candidate`.
pub open spec fn scalar_accepts(m: ScalarView, candidate: Seq<char>) -> bool {
    match m {
        ScalarView::Eq(s) => s == candidate,
        ScalarView::Not(s) => s != candidate,
        ScalarView::In(items) => items.contains(candidate),
    }
}

/// The matcher accepts a ticket with the labels `labels`.
pub open spec fn labels_accept(m: LabelsView, labels: Seq<String>) -> bool {
    &&& m.has_all matches Some(all) ==> forall|i: int|
        0 <= i < all.len() ==> listed(labels, #[trigger] all[i])
    &&& m.has_any matches Some(any) ==> exists|i: int|
        0 <= i < any.len() && listed(labels, #[trigger] any[i])
    &&& m.has_none matches Some(none) ==> forall|i: int|
        0 <= i < none.len() ==> !listed(labels, #[trigger] none[i])
}

/// The matcher accepts the text `candidate`; a pattern is taken as a text to
/// find.
pub open spec fn text_accepts(m: TextView, candidate: Seq<char>) -> bool {
    match m {
        TextView::StartsWith(s) => begins_with(candidate, s),
        TextView::Contains(s) => has_text(candidate, s),
        TextView::Regex(s) => has_text(candidate, s),
    }
}

/// The text of an optional text, or the empty one.
pub open spec fn text_or_empty(o: Option<String>) -> Seq<char> {
    match o {
        Some(s) => s@,
        None => Seq::empty(),
    }
}

/// The clause accepts the ticket: every condition that it declares on the
/// ticket holds. What it says of `kind` and `phase` is not about tickets.
pub open spec fn accepts(w: WhenView, t: AdmittedTicket) -> bool {
    &&& w.status matches Some(m) ==> scalar_accepts(m, t.ticket.status@)
    &&& w.labels matches Some(m) ==> labels_accept(m, t.ticket.labels@)
    &&& w.assignee matches Some(m) ==> scalar_accepts(m, text_or_empty(t.ticket.assignee_id))
    &&& w.repo matches Some(r) ==> r == t.ghq@
    &&& w.title matches Some(m) ==> text_accepts(m, t.ticket.title@)
    &&& w.body matches Some(m) ==> text_accepts(m, t.ticket.body@)
}

/// The rule accepts the ticket; one without a clause accepts every ticket.
pub open spec fn rule_accepts(r: RuleEntry, t: AdmittedTicket) -> bool {
    opt_when_view(r.when) matches Some(w) ==> accepts(w, t)
}

/// `i` is the first rule that accepts the ticket.
pub open spec fn first_at(rules: Seq<RuleEntry>, t: AdmittedTicket, i: int) -> bool {
    &&& 0 <= i < rules.len()
    &&& rule_accepts(rules[i], t)
    &&& forall|j: int| 0 <= j < i ==> !rule_accepts(#[trigger] rules[j], t)
}

fn scalar_matches(m: &ScalarMatcher, candidate: &str) -> (r: bool)
    ensures
        r == scalar_accepts(m@, candidate@),
{
    match m {
        ScalarMatcher::Eq(s) => str_eq(s.as_str(), candidate),
        ScalarMatcher::Not(s) => !str_eq(s.as_str(), candidate),
        ScalarMatcher::In(items) => {
            let r = list_contains(items, candidate);
            proof {
                lemma_listed_views(items@, candidate@);
            }
            r
        },
    }
}

proof fn lemma_listed_views(items: Seq<String>, x: Seq<char>)
    ensures
        views(items).contains(x) == listed(items, x),
{
    if views(items).contains(x) {
        let i = choose|i: int| 0 <= i < views(items).len() && views(items)[i] == x;
        assert(items[i]@ == x);
    }
    if listed(items, x) {
        let i = choose|i: int| 0 <= i < items.len() && items[i]@ == x;
        assert(views(items)[i] == x);
    }
}

/// Whether all of `wanted` are among `labels`.
fn all_listed(wanted: &Vec<String>, labels: &Vec<String>) -> (r: bool)
    ensures
        r == (forall|i: int|
            0 <= i < wanted.len() ==> listed(labels@, #[trigger] views(wanted@)[i])),
{
    let mut i: usize = 0;
    while i < wanted.len()
        invariant
            i <= wanted.len(),
            forall|k: int| 0 <= k < i ==> listed(labels@, #[trigger] views(wanted@)[k]),
        decreases wanted.len() - i,
    {
        if !list_contains(labels, wanted[i].as_str()) {
            assert(!listed(labels@, views(wanted@)[i as int]));
            return false;
        }
        i += 1;
    }
    true
}

/// Whether one of `wanted` is among `labels`.
fn any_listed(wanted: &Vec<String>, labels: &Vec<String>) -> (r: bool)
    ensures
        r == (exists|i: int| 0 <= i < wanted.len() && listed(labels@, #[trigger] views(wanted@)[i])),
{
    let mut i: usize = 0;
    while i < wanted.len()
        invariant
            i <= wanted.len(),
            forall|k: int| 0 <= k < i ==> !listed(labels@, #[trigger] views(wanted@)[k]),
        decreases wanted.len() - i,
    {
        if list_contains(labels, wanted[i].as_str()) {
            assert(listed(labels@, views(wanted@)[i as int]));
            return true;
        }
        i += 1;
    }
    false
}

fn labels_match(m: &LabelsMatcher, ticket_labels: &Vec<String>) -> (r: bool)
    ensures
        r == labels_accept(m@, ticket_labels@),
{
    if let Some(all) = &m.has_all {
        assert(m@.has_all == Some(views(all@)));
        if !all_listed(all, ticket_labels) {
            proof {
                let i = choose|i: int|
                    0 <= i < all.len() && !listed(ticket_labels@, #[trigger] views(all@)[i]);
                assert(!listed(ticket_labels@, m@.has_all->0[i]));
            }
            return false;
        }
    }
    if let Some(any) = &m.has_any {
        assert(m@.has_any == Some(views(any@)));
        if !any_listed(any, ticket_labels) {
            return false;
        }
    }
    if let Some(none) = &m.has_none {
        assert(m@.has_none == Some(views(none@)));
        if any_listed(none, ticket_labels) {
            proof {
                let i = choose|i: int|
                    0 <= i < none.len() && listed(ticket_labels@, #[trigger] views(none@)[i]);
                assert(listed(ticket_labels@, m@.has_none->0[i]));
            }
            return false;
        }
    }
    true
}

fn text_matches(m: &TextMatcher, candidate: &str) -> (r: bool)
    ensures
        r == text_accepts(m@, candidate@),
{
    match m {
        TextMatcher::StartsWith(s) => starts_with(candidate, s.as_str()),
        TextMatcher::Contains(s) => contains(candidate, s.as_str()),
        TextMatcher::Regex(s) => contains(candidate, s.as_str()),
    }
}

/// Whether an optional clause accepts the ticket.
pub fn matches_when(when: &Option<WhenClause>, admitted: &AdmittedTicket) -> (r: bool)
    ensures
        r == (opt_when_view(*when) matches Some(w) ==> accepts(w, *admitted)),
{
    let w = match when {
        Some(w) => w,
        None => {
            return true;
        },
    };
    if let Some(m) = &w.status {
        if !scalar_matches(m, admitted.ticket.status.as_str()) {
            return false;
        }
    }
    if let Some(m) = &w.labels {
        if !labels_match(m, &admitted.ticket.labels) {
            return false;
        }
    }
    if let Some(m) = &w.assignee {
        let matched = match &admitted.ticket.assignee_id {
            Some(id) => scalar_matches(m, id.as_str()),
            None => {
                proof {
                    reveal_strlit("");
                    assert(""@ =~= Seq::<char>::empty());
                }
                scalar_matches(m, "")
            },
        };
        if !matched {
            return false;
        }
    }
    if let Some(repo) = &w.repo {
        if !str_eq(repo.as_str(), admitted.ghq.as_str()) {
            return false;
        }
    }
    if let Some(m) = &w.title {
        if !text_matches(m, admitted.ticket.title.as_str()) {
            return false;
        }
    }
    if let Some(m) = &w.body {
        if !text_matches(m, admitted.ticket.body.as_str()) {
            return false;
        }
    }
    true
}

/// The first rule that accepts the ticket.
pub fn first_match<'a>(admitted: &AdmittedTicket, rules: &'a [RuleEntry]) -> (r: Option<
    &'a RuleEntry,
>)
    ensures
        r is Some == (exists|i: int| first_at(rules@, *admitted, i)),
        r matches Some(e) ==> exists|i: int| first_at(rules@, *admitted, i) && *e == rules@[i],
{
    let mut i: usize = 0;
    while i < rules.len()
        invariant
            i <= rules.len(),
            forall|j: int| 0 <= j < i ==> !rule_accepts(#[trigger] rules@[j], *admitted),
        decreases rules.len() - i,
    {
        if matches_when(&rules[i].when, admitted) {
            assert(first_at(rules@, *admitted, i as int));
            return Some(&rules[i]);
        }
        i += 1;
    }
    None
}

/// The first cleanup row that accepts the ticket.
pub fn first_cleanup_match<'a>(admitted: &AdmittedTicket, cleanups: &'a [RuleEntry]) -> (r:
    Option<&'a RuleEntry>)
    ensures
        r is Some == (exists|i: int| first_at(cleanups@, *admitted, i)),
        r matches Some(e) ==> exists|i: int|
            first_at(cleanups@, *admitted, i) && *e == cleanups@[i],
{
    first_match(admitted, cleanups)
}

/// The rule deletes at once: it has no states and starts at `__success__`.
pub open spec fn is_shorthand(r: RuleView) -> bool {
    r.machine.states.dom() =~= Set::empty() && r.machine.start == "__success__"@
}

/// Whether a row is the shorthand for immediate deletion.
pub fn is_shorthand_cleanup(entry: &RuleEntry) -> (r: bool)
    ensures
        r == is_shorthand(entry@),
{
    let none = entry.state_machine.states.is_empty();
    proof {
        let dom = entry@.machine.states.dom();
        assert(dom =~= entry.state_machine.states@.dom());
        if dom =~= Set::empty() {
            assert(entry.state_machine.states@ =~= Map::empty());
        }
    }
    none && str_eq(entry.state_machine.start.as_str(), "__success__")
}

/// The statuses that the clause names.
pub open spec fn seeds(r: RuleEntry, s: Seq<char>) -> bool {
    match opt_when_view(r.when) {
        Some(w) => match w.status {
            Some(ScalarView::Eq(v)) => v == s,
            Some(ScalarView::In(items)) => items.contains(s),
            _ => false,
        },
        None => false,
    }
}

/// Some of the first `n` rules names the status `s`.
pub open spec fn some_seeds(rules: Seq<RuleEntry>, s: Seq<char>, n: int) -> bool {
    exists|i: int| 0 <= i < n && seeds(#[trigger] rules[i], s)
}

fn seed_section(seed: &mut StrSet, rules: &[RuleEntry])
    ensures
        forall|s: Seq<char>| #[trigger]
            final(seed)@.contains(s) == (old(seed)@.contains(s) || some_seeds(
                rules@,
                s,
                rules.len() as int,
            )),
{
    let ghost base = seed@;
    let mut i: usize = 0;
    while i < rules.len()
        invariant
            i <= rules.len(),
            forall|s: Seq<char>| #[trigger]
                seed@.contains(s) == (base.contains(s) || some_seeds(rules@, s, i as int)),
        decreases rules.len() - i,
    {
        let ghost before = seed@;
        let rule = &rules[i];
        if let Some(w) = &rule.when {
            if let Some(m) = &w.status {
                match m {
                    ScalarMatcher::Eq(v) => {
                        seed.insert(v.clone());
                    },
                    ScalarMatcher::In(items) => {
                        let mut k: usize = 0;
                        while k < items.len()
                            invariant
                                k <= items.len(),
                                forall|s: Seq<char>| #[trigger]
                                    seed@.contains(s) == (before.contains(s) || views(
                                        items@,
                                    ).take(k as int).contains(s)),
                            decreases items.len() - k,
                        {
                            let ghost mid = seed@;
                            seed.insert(items[k].clone());
                            proof {
                                let a = views(items@).take(k as int);
                                let b = views(items@).take(k + 1);
                                assert(b =~= a.push(items@[k as int]@));
                                assert forall|s: Seq<char>| #[trigger] seed@.contains(s) == (
                                before.contains(s) || b.contains(s)) by {
                                    if a.contains(s) {
                                        let x = choose|x: int| 0 <= x < a.len() && a[x] == s;
                                        assert(b[x] == s);
                                    }
                                    if b.contains(s) {
                                        let x = choose|x: int| 0 <= x < b.len() && b[x] == s;
                                        if x < k {
                                            assert(a[x] == s);
                                        }
                                    }
                                    if s == items@[k as int]@ {
                                        assert(b[k as int] == s);
                                    }
                                }
                            }
                            k += 1;
                        }
                        assert(views(items@).take(k as int) =~= views(items@));
                    },
                    ScalarMatcher::Not(_) => {},
                }
            }
        }
        proof {
            assert forall|s: Seq<char>| #[trigger] seed@.contains(s) == (base.contains(s)
                || some_seeds(rules@, s, i + 1)) by {
                assert(seed@.contains(s) == (before.contains(s) || seeds(rules@[i as int], s)));
                if some_seeds(rules@, s, i + 1) {
                    let x = choose|x: int| 0 <= x < i + 1 && seeds(#[trigger] rules@[x], s);
                    if x < i {
                        assert(some_seeds(rules@, s, i as int));
                    }
                }
                if some_seeds(rules@, s, i as int) {
                    let x = choose|x: int| 0 <= x < i && seeds(#[trigger] rules@[x], s);
                    assert(0 <= x < i + 1 && seeds(rules@[x], s));
                }
            }
        }
        i += 1;
    }
}

/// The statuses that the rules and cleanup rows name.
pub fn status_seed(rules: &[RuleEntry], cleanups: &[RuleEntry]) -> (seed: StrSet)
    ensures
        forall|s: Seq<char>| #[trigger]
            seed@.contains(s) == (some_seeds(rules@, s, rules.len() as int) || some_seeds(
                cleanups@,
                s,
                cleanups.len() as int,
            )),
{
    let mut seed = StrSet::new();
    seed_section(&mut seed, rules);
    seed_section(&mut seed, cleanups);
    seed
}

/// The rule that is found does not depend on the rules behind it.
pub proof fn law_later_rules_do_not_matter(
    rules: Seq<RuleEntry>,
    more: Seq<RuleEntry>,
    t: AdmittedTicket,
    i: int,
)
    requires
        first_at(rules, t, i),
    ensures
        first_at(rules + more, t, i),
        forall|j: int| first_at(rules + more, t, j) ==> j == i,
{
    let all = rules + more;
    assert(all[i] == rules[i]);
    assert forall|j: int| 0 <= j < i implies !rule_accepts(#[trigger] all[j], t) by {
        assert(all[j] == rules[j]);
    }
    assert forall|j: int| first_at(all, t, j) implies j == i by {
        if j < i {
            assert(!rule_accepts(all[j], t));
        }
        if i < j {
            assert(!rule_accepts(all[i], t));
        }
    }
}

/// A ticket whose status no `status:` condition of the rules excludes by an
/// exception, and that some rule with a positive status condition accepts, has
/// a status among the seeds.
pub proof fn law_seed_covers_accepted_statuses(r: RuleEntry, t: AdmittedTicket)
    requires
        rule_accepts(r, t),
        opt_when_view(r.when) is Some,
        opt_when_view(r.when)->0.status is Some,
        !(opt_when_view(r.when)->0.status->0 is Not),
    ensures
        seeds(r, t.ticket.status@),
{
}

proof fn lemma_text_parts(all: Seq<char>, s: Seq<char>)
    ensures
        has_text(all, s) <==> exists|a: Seq<char>, b: Seq<char>| all == #[trigger] a.add(s).add(b),
        begins_with(all, s) <==> exists|b: Seq<char>| all == #[trigger] s.add(b),
{
    if has_text(all, s) {
        let k = choose|k: int| occurs_at(all, s, k);
        let a = all.subrange(0, k);
        let b = all.subrange(k + s.len(), all.len() as int);
        assert(all.subrange(k, k + s.len()) == s);
        assert forall|i: int| 0 <= i < all.len() implies all[i] == a.add(s).add(b)[i] by {
            if k <= i < k + s.len() {
                assert(all.subrange(k, k + s.len())[i - k] == s[i - k]);
            }
        }
        assert(all =~= a.add(s).add(b));
    }
    if exists|a: Seq<char>, b: Seq<char>| all == #[trigger] a.add(s).add(b) {
        let (a, b) = choose|a: Seq<char>, b: Seq<char>| all == #[trigger] a.add(s).add(b);
        let k = a.len() as int;
        assert(all.subrange(k, k + s.len()) =~= s);
        assert(occurs_at(all, s, k));
    }
    if begins_with(all, s) {
        let b = all.subrange(s.len() as int, all.len() as int);
        assert(all.subrange(0, s.len() as int) == s);
        assert forall|i: int| 0 <= i < all.len() implies all[i] == s.add(b)[i] by {
            if i < s.len() {
                assert(all.subrange(0, s.len() as int)[i] == s[i]);
            }
        }
        assert(all =~= s.add(b));
    }
    if exists|b: Seq<char>| all == #[trigger] s.add(b) {
        let b = choose|b: Seq<char>| all == #[trigger] s.add(b);
        assert(all.subrange(0, s.len() as int) =~= s);
    }
}

/// A rule is found only for a ticket that meets each condition of its clause,
/// whatever else the clause says: on the status, on who has the ticket (nobody
/// counting as the empty name), on the repository, on the title and the body,
/// and on the labels that must all be there, of which one must be there, or of
/// which none may.
pub proof fn law_found_rule_meets_each_condition(
    rules: Seq<RuleEntry>,
    t: AdmittedTicket,
    i: int,
    w: WhenClause,
    who: Seq<char>,
    labels: Seq<Seq<char>>,
)
    requires
        first_at(rules, t, i),
        rules[i].when == Some(w),
        who == match t.ticket.assignee_id {
            Some(id) => id@,
            None => Seq::empty(),
        },
        labels == views(t.ticket.labels@),
    ensures
        w.status matches Some(ScalarMatcher::Eq(s)) ==> t.ticket.status@ == s@,
        w.status matches Some(ScalarMatcher::Not(s)) ==> t.ticket.status@ != s@,
        w.status matches Some(ScalarMatcher::In(v)) ==> exists|k: int|
            0 <= k < v@.len() && (#[trigger] v@[k])@ == t.ticket.status@,
        w.assignee matches Some(ScalarMatcher::Eq(s)) ==> who == s@,
        w.assignee matches Some(ScalarMatcher::Not(s)) ==> who != s@,
        w.assignee matches Some(ScalarMatcher::In(v)) ==> exists|k: int|
            0 <= k < v@.len() && (#[trigger] v@[k])@ == who,
        w.repo matches Some(r) ==> t.ghq@ == r@,
        w.title matches Some(TextMatcher::StartsWith(s)) ==> exists|b: Seq<char>|
            t.ticket.title@ == #[trigger] s@.add(b),
        w.title matches Some(TextMatcher::Contains(s)) ==> exists|a: Seq<char>, b: Seq<char>|
            t.ticket.title@ == #[trigger] a.add(s@).add(b),
        w.title matches Some(TextMatcher::Regex(s)) ==> exists|a: Seq<char>, b: Seq<char>|
            t.ticket.title@ == #[trigger] a.add(s@).add(b),
        w.body matches Some(TextMatcher::StartsWith(s)) ==> exists|b: Seq<char>|
            t.ticket.body@ == #[trigger] s@.add(b),
        w.body matches Some(TextMatcher::Contains(s)) ==> exists|a: Seq<char>, b: Seq<char>|
            t.ticket.body@ == #[trigger] a.add(s@).add(b),
        w.body matches Some(TextMatcher::Regex(s)) ==> exists|a: Seq<char>, b: Seq<char>|
            t.ticket.body@ == #[trigger] a.add(s@).add(b),
        w.labels matches Some(l) ==> (l.has_all matches Some(v) ==> forall|k: int|
            0 <= k < v@.len() ==> labels.contains((#[trigger] v@[k])@)),
        w.labels matches Some(l) ==> (l.has_any matches Some(v) ==> exists|k: int|
            0 <= k < v@.len() && labels.contains((#[trigger] v@[k])@)),
        w.labels matches Some(l) ==> (l.has_none matches Some(v) ==> forall|k: int|
            0 <= k < v@.len() ==> !labels.contains((#[trigger] v@[k])@)),
{
    let v = w@;
    assert(accepts(v, t));
    if let Some(ScalarMatcher::In(items)) = w.status {
        lemma_in(items, t.ticket.status@);
    }
    if let Some(ScalarMatcher::In(items)) = w.assignee {
        lemma_in(items, who);
    }
    if let Some(m) = w.title {
        lemma_text_parts(t.ticket.title@, matcher_text(m));
    }
    if let Some(m) = w.body {
        lemma_text_parts(t.ticket.body@, matcher_text(m));
    }
    if let Some(l) = w.labels {
        lemma_labels(l, t.ticket.labels@);
    }
}

/// Where a ticket meets every condition of a rule, or the rule declares none,
/// that rule is found, or one before it.
pub proof fn law_rule_with_all_conditions_met_is_found(
    rules: Seq<RuleEntry>,
    t: AdmittedTicket,
    i: int,
    w: WhenClause,
    who: Seq<char>,
    labels: Seq<Seq<char>>,
)
    requires
        0 <= i < rules.len(),
        rules[i].when is None || rules[i].when == Some(w),
        who == match t.ticket.assignee_id {
            Some(id) => id@,
            None => Seq::empty(),
        },
        labels == views(t.ticket.labels@),
        w.status matches Some(ScalarMatcher::Eq(s)) ==> t.ticket.status@ == s@,
        w.status matches Some(ScalarMatcher::Not(s)) ==> t.ticket.status@ != s@,
        w.status matches Some(ScalarMatcher::In(v)) ==> exists|k: int|
            0 <= k < v@.len() && (#[trigger] v@[k])@ == t.ticket.status@,
        w.assignee matches Some(ScalarMatcher::Eq(s)) ==> who == s@,
        w.assignee matches Some(ScalarMatcher::Not(s)) ==> who != s@,
        w.assignee matches Some(ScalarMatcher::In(v)) ==> exists|k: int|
            0 <= k < v@.len() && (#[trigger] v@[k])@ == who,
        w.repo matches Some(r) ==> t.ghq@ == r@,
        w.title matches Some(TextMatcher::StartsWith(s)) ==> exists|b: Seq<char>|
            t.ticket.title@ == #[trigger] s@.add(b),
        w.title matches Some(TextMatcher::Contains(s)) ==> exists|a: Seq<char>, b: Seq<char>|
            t.ticket.title@ == #[trigger] a.add(s@).add(b),
        w.title matches Some(TextMatcher::Regex(s)) ==> exists|a: Seq<char>, b: Seq<char>|
            t.ticket.title@ == #[trigger] a.add(s@).add(b),
        w.body matches Some(TextMatcher::StartsWith(s)) ==> exists|b: Seq<char>|
            t.ticket.body@ == #[trigger] s@.add(b),
        w.body matches Some(TextMatcher::Contains(s)) ==> exists|a: Seq<char>, b: Seq<char>|
            t.ticket.body@ == #[trigger] a.add(s@).add(b),
        w.body matches Some(TextMatcher::Regex(s)) ==> exists|a: Seq<char>, b: Seq<char>|
            t.ticket.body@ == #[trigger] a.add(s@).add(b),
        w.labels matches Some(l) ==> (l.has_all matches Some(v) ==> forall|k: int|
            0 <= k < v@.len() ==> labels.contains((#[trigger] v@[k])@)),
        w.labels matches Some(l) ==> (l.has_any matches Some(v) ==> exists|k: int|
            0 <= k < v@.len() && labels.contains((#[trigger] v@[k])@)),
        w.labels matches Some(l) ==> (l.has_none matches Some(v) ==> forall|k: int|
            0 <= k < v@.len() ==> !labels.contains((#[trigger] v@[k])@)),
    ensures
        exists|j: int| 0 <= j <= i && first_at(rules, t, j),
{
    if rules[i].when is Some {
        if let Some(ScalarMatcher::In(items)) = w.status {
            lemma_in(items, t.ticket.status@);
        }
        if let Some(ScalarMatcher::In(items)) = w.assignee {
            lemma_in(items, who);
        }
        if let Some(m) = w.title {
            lemma_text_parts(t.ticket.title@, matcher_text(m));
        }
        if let Some(m) = w.body {
            lemma_text_parts(t.ticket.body@, matcher_text(m));
        }
        if let Some(l) = w.labels {
            lemma_labels(l, t.ticket.labels@);
        }
        assert(accepts(w@, t));
    }
    assert(rule_accepts(rules[i], t));
    lemma_first(rules, t, i);
}

proof fn lemma_in(items: Vec<String>, x: Seq<char>)
    ensures
        views(items@).contains(x) <==> exists|k: int|
            0 <= k < items@.len() && (#[trigger] items@[k])@ == x,
{
    lemma_listed_views(items@, x);
}

spec fn matcher_text(m: TextMatcher) -> Seq<char> {
    match m {
        TextMatcher::Regex(s) => s@,
        TextMatcher::StartsWith(s) => s@,
        TextMatcher::Contains(s) => s@,
    }
}

proof fn lemma_labels(l: LabelsMatcher, labels: Seq<String>)
    ensures
        labels_accept(l@, labels) <==> {
            &&& l.has_all matches Some(v) ==> forall|k: int|
                0 <= k < v@.len() ==> views(labels).contains((#[trigger] v@[k])@)
            &&& l.has_any matches Some(v) ==> exists|k: int|
                0 <= k < v@.len() && views(labels).contains((#[trigger] v@[k])@)
            &&& l.has_none matches Some(v) ==> forall|k: int|
                0 <= k < v@.len() ==> !views(labels).contains((#[trigger] v@[k])@)
        },
{
    let m = l@;
    assert forall|x: Seq<char>| #[trigger] views(labels).contains(x) == listed(labels, x) by {
        lemma_listed_views(labels, x);
    }
    if l.has_all is Some {
        let v = l.has_all->0;
        let x = m.has_all->0;
        assert(x =~= views(v@));
        if labels_accept(m, labels) {
            assert forall|k: int| 0 <= k < v@.len() implies views(labels).contains(
                (#[trigger] v@[k])@,
            ) by {
                assert(listed(labels, x[k]));
            }
        }
        if forall|k: int| 0 <= k < v@.len() ==> views(labels).contains((#[trigger] v@[k])@) {
            assert forall|i: int| 0 <= i < x.len() implies listed(labels, #[trigger] x[i]) by {
                assert(views(labels).contains(v@[i]@));
            }
        }
    }
    if l.has_any is Some {
        let v = l.has_any->0;
        let x = m.has_any->0;
        assert(x =~= views(v@));
        if labels_accept(m, labels) {
            let i = choose|i: int| 0 <= i < x.len() && listed(labels, #[trigger] x[i]);
            assert(views(labels).contains(v@[i]@));
        }
        if exists|k: int| 0 <= k < v@.len() && views(labels).contains((#[trigger] v@[k])@) {
            let k = choose|k: int|
                0 <= k < v@.len() && views(labels).contains((#[trigger] v@[k])@);
            assert(listed(labels, x[k]));
        }
    }
    if l.has_none is Some {
        let v = l.has_none->0;
        let x = m.has_none->0;
        assert(x =~= views(v@));
        if labels_accept(m, labels) {
            assert forall|k: int| 0 <= k < v@.len() implies !views(labels).contains(
                (#[trigger] v@[k])@,
            ) by {
                assert(!listed(labels, x[k]));
            }
        }
        if forall|k: int| 0 <= k < v@.len() ==> !views(labels).contains((#[trigger] v@[k])@) {
            assert forall|i: int| 0 <= i < x.len() implies !listed(labels, #[trigger] x[i]) by {
                assert(!views(labels).contains(v@[i]@));
            }
        }
    }
}

proof fn lemma_first(rules: Seq<RuleEntry>, t: AdmittedTicket, i: int)
    requires
        0 <= i < rules.len(),
        rule_accepts(rules[i], t),
    ensures
        exists|j: int| 0 <= j <= i && first_at(rules, t, j),
    decreases i,
{
    if exists|j: int| 0 <= j < i && rule_accepts(#[trigger] rules[j], t) {
        let j = choose|j: int| 0 <= j < i && rule_accepts(#[trigger] rules[j], t);
        lemma_first(rules, t, j);
        let k = choose|k: int| 0 <= k <= j && first_at(rules, t, k);
        assert(0 <= k <= i && first_at(rules, t, k));
    } else {
        assert(first_at(rules, t, i));
    }
}

/// The rule that is found is the first of those that would be found alone: no
/// rule before it is found when it stands by itself.
pub proof fn law_first_rule_wins(rules: Seq<RuleEntry>, t: AdmittedTicket, i: int, j: int)
    requires
        first_at(rules, t, i),
        0 <= j < i,
    ensures
        first_at(seq![rules[i]], t, 0),
        !first_at(seq![rules[j]], t, 0),
{
    assert(seq![rules[i]][0] == rules[i]);
    assert(seq![rules[j]][0] == rules[j]);
}

/// A status is seeded exactly where the clause of some rule asks for it, alone
/// or among others; one that a clause rules out is not.
pub proof fn law_seeds_are_the_statuses_asked_for(rules: Seq<RuleEntry>, s: Seq<char>)
    ensures
        some_seeds(rules, s, rules.len() as int) <==> exists|i: int|
            0 <= i < rules.len() && ((#[trigger] rules[i]).when matches Some(w) && (
            w.status matches Some(m) && match m {
                ScalarMatcher::Eq(x) => x@ == s,
                ScalarMatcher::In(v) => exists|k: int|
                    0 <= k < v@.len() && (#[trigger] v@[k])@ == s,
                ScalarMatcher::Not(_) => false,
            })),
{
    assert forall|i: int| 0 <= i < rules.len() implies seeds(#[trigger] rules[i], s) == (
    rules[i].when matches Some(w) && (w.status matches Some(m) && match m {
        ScalarMatcher::Eq(x) => x@ == s,
        ScalarMatcher::In(v) => exists|k: int| 0 <= k < v@.len() && (#[trigger] v@[k])@ == s,
        ScalarMatcher::Not(_) => false,
    })) by {
        if let Some(w) = rules[i].when {
            if let Some(ScalarMatcher::In(v)) = w.status {
                lemma_in(v, s);
            }
        }
    }
}

/// A row deletes at once exactly where it has no states and starts at success.
pub proof fn law_rows_that_delete_at_once(r: RuleView)
    ensures
        is_shorthand(r) <==> r.machine.start == "__success__"@ && forall|id: Seq<char>|
            !#[trigger] r.machine.states.contains_key(id),
{
    if forall|id: Seq<char>| !#[trigger] r.machine.states.contains_key(id) {
        assert forall|id: Seq<char>| !r.machine.states.dom().contains(id) by {
            assert(!r.machine.states.contains_key(id));
        }
        assert(r.machine.states.dom() =~= Set::empty());
    }
    if is_shorthand(r) {
        assert forall|id: Seq<char>| !#[trigger] r.machine.states.contains_key(id) by {
            assert(!r.machine.states.dom().contains(id));
        }
    }
}

} // verus!
