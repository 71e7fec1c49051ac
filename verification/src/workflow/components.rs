//! Strongly connected components of a state machine's transition graph.
use vstd::prelude::*;

use crate::strmap::{ascending, key_at, lemma_ascending_unique, lemma_least, lemma_map_of, lemma_sortable, lists_sorted, sorted_keys, strictly_ascending};
use crate::text::{lemma_lex_irreflexive, lex_lt, listed, str_eq, views};
use crate::workflow::canonical::{edge, lemma_reaches_closed, lemma_reaches_ends, lemma_reaches_self, lemma_reaches_step, lemma_reaches_transitive, mutual, points_to, reaches, EdgeTarget, EdgeView, MachineView, State, StateMachine};

verus! {

/// Whether `t` leads to the state `b`.
pub fn leads_to_state(t: &EdgeTarget, b: &str) -> (r: bool)
    ensures
        r == (t@ == EdgeView::State(b@)),
{
    match t {
        EdgeTarget::State(id) => str_eq(id.as_str(), b),
        EdgeTarget::Terminal(_) => false,
    }
}

/// Whether some edge of `s` leads to the state `b`.
pub fn state_points_to(s: &State, b: &str) -> (r: bool)
    ensures
        r == points_to(s@, b@),
{
    if leads_to_state(&s.on_done, b) || leads_to_state(&s.on_fail, b) {
        return true;
    }
    let n: usize = s.directives.len();
    let mut i: usize = 0;
    while i < n
        invariant
            i <= n == s.directives.pairs().len(),
            ascending(s.directives.pairs()),
            forall|k: int| 0 <= k < i ==> (#[trigger] s.directives.pairs()[k]).1@ != EdgeView::State(b@),
        decreases n - i,
    {
        if leads_to_state(s.directives.value(i), b) {
            proof {
                let d = s.directives.pairs()[i as int].0@;
                lemma_map_of(s.directives.pairs(), i as int);
                assert(s@.directives[d] == EdgeView::State(b@));
            }
            return true;
        }
        i += 1;
    }
    proof {
        assert forall|d: Seq<char>| s@.directives.dom().contains(d) implies #[trigger] s@.directives[d]
            != EdgeView::State(b@) by {
            let k = choose|k: int| key_at(s.directives.pairs(), d, k);
            lemma_map_of(s.directives.pairs(), k);
        }
    }
    false
}

/// The key of state `i`.
pub open spec fn state_key(sm: StateMachine, i: int) -> Seq<char> {
    sm.states.pairs()[i].0@
}

/// `adj` is the edge relation over the positions of the states.
pub open spec fn adjacency_of(sm: StateMachine, adj: Seq<Vec<bool>>) -> bool {
    let n = sm.states.pairs().len();
    &&& ascending(sm.states.pairs())
    &&& adj.len() == n
    &&& forall|i: int| 0 <= i < n ==> (#[trigger] adj[i]).len() == n
    &&& forall|i: int, j: int|
        0 <= i < n && 0 <= j < n ==> #[trigger] adj[i]@[j] == edge(
            sm@,
            state_key(sm, i),
            state_key(sm, j),
        )
}

fn adjacency(sm: &StateMachine) -> (adj: Vec<Vec<bool>>)
    ensures
        adjacency_of(*sm, adj@),
{
    let n: usize = sm.states.len();
    let mut adj: Vec<Vec<bool>> = Vec::new();
    let mut i: usize = 0;
    while i < n
        invariant
            i <= n == sm.states.pairs().len(),
            ascending(sm.states.pairs()),
            adj.len() == i,
            forall|x: int| 0 <= x < i ==> (#[trigger] adj@[x]).len() == n,
            forall|x: int, y: int|
                0 <= x < i && 0 <= y < n ==> #[trigger] adj@[x]@[y] == edge(
                    sm@,
                    state_key(*sm, x),
                    state_key(*sm, y),
                ),
        decreases n - i,
    {
        let mut row: Vec<bool> = Vec::new();
        let mut j: usize = 0;
        while j < n
            invariant
                i < n,
                j <= n == sm.states.pairs().len(),
                ascending(sm.states.pairs()),
                row.len() == j,
                forall|y: int|
                    0 <= y < j ==> #[trigger] row@[y] == edge(
                        sm@,
                        state_key(*sm, i as int),
                        state_key(*sm, y),
                    ),
            decreases n - j,
        {
            let b = state_points_to(sm.states.value(i), sm.states.key(j).as_str());
            proof {
                lemma_map_of(sm.states.pairs(), i as int);
                lemma_map_of(sm.states.pairs(), j as int);
            }
            row.push(b);
            j += 1;
        }
        adj.push(row);
        i += 1;
    }
    adj
}

proof fn lemma_distinct_below(order: Seq<usize>, n: nat)
    requires
        order.no_duplicates(),
        forall|k: int| 0 <= k < order.len() ==> (#[trigger] order[k]) < n,
    ensures
        order.len() <= n,
{
    let ints = order.map_values(|x: usize| x as int);
    let range = vstd::set_lib::set_int_range(0, n as int);
    assert(ints.no_duplicates()) by {
        assert forall|i: int, j: int| 0 <= i < j < ints.len() implies ints[i] != ints[j] by {
            assert(order[i] != order[j]);
        }
    }
    ints.unique_seq_to_set();
    vstd::set_lib::lemma_int_range(0, n as int);
    assert forall|x: int| ints.to_set().contains(x) implies range.contains(x) by {
        let k = choose|k: int| 0 <= k < ints.len() && ints[k] == x;
        assert(order[k] < n);
    }
    vstd::set_lib::lemma_len_subset(ints.to_set(), range);
}

/// Which states can be reached from state `s`.
fn reach_row(sm: &StateMachine, adj: &Vec<Vec<bool>>, s: usize) -> (seen: Vec<bool>)
    requires
        adjacency_of(*sm, adj@),
        s < sm.states.pairs().len(),
    ensures
        seen.len() == sm.states.pairs().len(),
        forall|j: int|
            0 <= j < seen.len() ==> #[trigger] seen@[j] == reaches(
                sm@,
                state_key(*sm, s as int),
                state_key(*sm, j),
            ),
{
    let n: usize = adj.len();
    let ghost m = sm@;
    let ghost a = state_key(*sm, s as int);
    let mut seen: Vec<bool> = Vec::new();
    let mut i: usize = 0;
    while i < n
        invariant
            i <= n,
            seen.len() == i,
            forall|k: int| 0 <= k < i ==> seen@[k] == false,
        decreases n - i,
    {
        seen.push(false);
        i += 1;
    }
    seen.set(s, true);
    let mut order: Vec<usize> = Vec::new();
    order.push(s);
    let mut head: usize = 0;
    proof {
        lemma_map_of(sm.states.pairs(), s as int);
        lemma_reaches_self(m, a);
        assert(order@[0] == s);
    }
    while head < order.len()
        invariant
            adjacency_of(*sm, adj@),
            m == sm@,
            a == state_key(*sm, s as int),
            s < n == adj.len() == sm.states.pairs().len() == seen.len(),
            head <= order.len() <= n,
            order.len() >= 1,
            order@.no_duplicates(),
            forall|k: int| 0 <= k < order.len() ==> (#[trigger] order@[k]) < n,
            forall|k: int| 0 <= k < order.len() ==> seen@[(#[trigger] order@[k]) as int],
            forall|j: int| 0 <= j < n && #[trigger] seen@[j] ==> order@.contains(j as usize),
            seen@[s as int],
            forall|j: int| 0 <= j < n && #[trigger] seen@[j] ==> reaches(m, a, state_key(*sm, j)),
            forall|k: int, j: int|
                #![trigger order@[k], seen@[j]]
                0 <= k < head && 0 <= j < n && adj@[order@[k] as int]@[j] ==> seen@[j],
        decreases n - head,
    {
        let x: usize = order[head];
        let mut j: usize = 0;
        while j < n
            invariant
                adjacency_of(*sm, adj@),
                m == sm@,
                a == state_key(*sm, s as int),
                s < n == adj.len() == sm.states.pairs().len() == seen.len(),
                j <= n,
                head < order.len(),
                x == order@[head as int],
                x < n,
                order.len() <= n,
                order@.no_duplicates(),
                forall|k: int| 0 <= k < order.len() ==> (#[trigger] order@[k]) < n,
                forall|k: int| 0 <= k < order.len() ==> seen@[(#[trigger] order@[k]) as int],
                forall|q: int| 0 <= q < n && #[trigger] seen@[q] ==> order@.contains(q as usize),
                seen@[s as int],
                forall|q: int|
                    0 <= q < n && #[trigger] seen@[q] ==> reaches(m, a, state_key(*sm, q)),
                forall|k: int, q: int|
                    #![trigger order@[k], seen@[q]]
                    0 <= k < head && 0 <= q < n && adj@[order@[k] as int]@[q] ==> seen@[q],
                forall|q: int| 0 <= q < j && adj@[x as int]@[q] ==> #[trigger] seen@[q],
            decreases n - j,
        {
            if adj[x][j] && !seen[j] {
                let ghost old_order = order@;
                let ghost old_seen = seen@;
                proof {
                    assert(seen@[x as int]);
                    assert(adj@[x as int]@[j as int]);
                    lemma_reaches_step(m, a, state_key(*sm, x as int), state_key(*sm, j as int));
                    if old_order.contains(j) {
                        let k = choose|k: int| 0 <= k < old_order.len() && old_order[k] == j;
                        assert(seen@[old_order[k] as int]);
                    }
                }
                seen.set(j, true);
                order.push(j);
                proof {
                    assert forall|q: int| 0 <= q < n && #[trigger] seen@[q] implies order@.contains(
                        q as usize,
                    ) by {
                        if q == j {
                            assert(order@[order.len() - 1] == j);
                        } else {
                            assert(old_seen[q]);
                            let k = choose|k: int|
                                0 <= k < old_order.len() && old_order[k] == q as usize;
                            assert(order@[k] == q as usize);
                        }
                    }
                    assert forall|k: int, q: int|
                        #![trigger order@[k], seen@[q]]
                        0 <= k < head && 0 <= q < n && adj@[order@[k] as int]@[q] implies seen@[q] by {
                        assert(order@[k] == old_order[k]);
                        assert(old_seen[q]);
                    }
                    lemma_distinct_below(order@, n as nat);
                }
            }
            j += 1;
        }
        head += 1;
    }
    proof {
        let closed = Set::new(
            |y: Seq<char>| exists|q: int| 0 <= q < n && #[trigger] seen@[q] && state_key(*sm, q) == y,
        );
        assert(seen@[s as int] && state_key(*sm, s as int) == a);
        assert forall|y: Seq<char>, z: Seq<char>|
            closed.contains(y) && #[trigger] edge(m, y, z) implies closed.contains(z) by {
            let q = choose|q: int| 0 <= q < n && #[trigger] seen@[q] && state_key(*sm, q) == y;
            let r = choose|r: int| key_at(sm.states.pairs(), z, r);
            assert(order@.contains(q as usize));
            let k = choose|k: int| 0 <= k < order.len() && order@[k] == q as usize;
            assert(adj@[q]@[r] == edge(m, y, z));
            assert(seen@[r]);
            assert(state_key(*sm, r) == z);
        }
        assert forall|j: int| 0 <= j < seen.len() implies #[trigger] seen@[j] == reaches(
            m,
            a,
            state_key(*sm, j),
        ) by {
            let b = state_key(*sm, j);
            if reaches(m, a, b) {
                lemma_reaches_closed(m, closed, a, b);
                let q = choose|q: int| 0 <= q < n && #[trigger] seen@[q] && state_key(*sm, q) == b;
                lemma_same_key(sm.states.pairs(), q, j);
            }
        }
    }
    seen
}

/// Equal keys stand at equal positions.
pub proof fn lemma_same_key<V>(pairs: Seq<(String, V)>, i: int, j: int)
    requires
        ascending(pairs),
        0 <= i < pairs.len(),
        0 <= j < pairs.len(),
        pairs[i].0@ == pairs[j].0@,
    ensures
        i == j,
{
    lemma_lex_irreflexive(pairs[i].0@);
    if i < j {
        assert(lex_lt(pairs[i].0@, pairs[j].0@));
    } else if j < i {
        assert(lex_lt(pairs[j].0@, pairs[i].0@));
    }
}

/// `comps` lists the strongly connected components of `m`: each one ascending,
/// and the components ascending by their first member.
pub open spec fn components_of(m: MachineView, comps: Seq<Vec<String>>) -> bool {
    &&& forall|c: int| 0 <= c < comps.len() ==> (#[trigger] comps[c]).len() > 0
    &&& forall|c: int, i: int|
        0 <= c < comps.len() && 0 <= i < comps[c].len() ==> m.states.dom().contains(
            #[trigger] comps[c]@[i]@,
        )
    &&& forall|c: int, i: int, j: int|
        0 <= c < comps.len() && 0 <= i < j < comps[c].len() ==> lex_lt(
            #[trigger] comps[c]@[i]@,
            #[trigger] comps[c]@[j]@,
        )
    &&& forall|c: int, d: int|
        0 <= c < d < comps.len() ==> lex_lt(
            (#[trigger] comps[c])@[0]@,
            (#[trigger] comps[d])@[0]@,
        )
    &&& forall|id: Seq<char>|
        m.states.dom().contains(id) ==> exists|c: int|
            0 <= c < comps.len() && listed(#[trigger] comps[c]@, id)
    &&& forall|c: int, a: Seq<char>, b: Seq<char>|
        0 <= c < comps.len() && #[trigger] listed(comps[c]@, a) ==> (#[trigger] listed(
            comps[c]@,
            b,
        ) == mutual(m, a, b))
}

/// The components of `m` as views, listed as [`components_of`] lists them.
pub open spec fn lists_components(m: MachineView, l: Seq<Seq<Seq<char>>>) -> bool {
    &&& forall|c: int| 0 <= c < l.len() ==> (#[trigger] l[c]).len() > 0 && strictly_ascending(l[c])
    &&& forall|c: int, d: int|
        0 <= c < d < l.len() ==> lex_lt((#[trigger] l[c])[0], (#[trigger] l[d])[0])
    &&& forall|id: Seq<char>|
        m.states.dom().contains(id) ==> exists|c: int|
            0 <= c < l.len() && #[trigger] l[c].contains(id)
    &&& forall|c: int, x: Seq<char>|
        0 <= c < l.len() && #[trigger] l[c].contains(x) ==> m.states.dom().contains(x)
    &&& forall|c: int, a: Seq<char>, b: Seq<char>|
        0 <= c < l.len() && #[trigger] l[c].contains(a) ==> (#[trigger] l[c].contains(b) == mutual(
            m,
            a,
            b,
        ))
}

/// The strongly connected components of `m`.
pub open spec fn components(m: MachineView) -> Seq<Seq<Seq<char>>> {
    choose|l: Seq<Seq<Seq<char>>>| lists_components(m, l)
}

/// The views of a list of components.
pub open spec fn component_views(comps: Seq<Vec<String>>) -> Seq<Seq<Seq<char>>> {
    comps.map_values(|c: Vec<String>| views(c@))
}

proof fn lemma_views_listed(c: Vec<String>, x: Seq<char>)
    ensures
        views(c@).contains(x) == listed(c@, x),
{
    if views(c@).contains(x) {
        let i = choose|i: int| 0 <= i < views(c@).len() && views(c@)[i] == x;
        assert(c@[i]@ == x);
    }
    if listed(c@, x) {
        let i = choose|i: int| 0 <= i < c@.len() && c@[i]@ == x;
        assert(views(c@)[i] == x);
    }
}

/// The heads of a component list.
spec fn heads(l: Seq<Seq<Seq<char>>>) -> Seq<Seq<char>> {
    l.map_values(|c: Seq<Seq<char>>| c[0])
}

proof fn lemma_head_shared(
    m: MachineView,
    l: Seq<Seq<Seq<char>>>,
    k: Seq<Seq<Seq<char>>>,
    c: int,
)
    requires
        lists_components(m, l),
        lists_components(m, k),
        0 <= c < l.len(),
    ensures
        heads(k).contains(l[c][0]),
{
    let x = l[c][0];
    assert(l[c].contains(x));
    let d = choose|d: int| 0 <= d < k.len() && #[trigger] k[d].contains(x);
    let y = k[d][0];
    assert(k[d].contains(y));
    assert(mutual(m, x, y));
    assert(l[c].contains(y));
    let i = choose|i: int| 0 <= i < l[c].len() && l[c][i] == y;
    let j = choose|j: int| 0 <= j < k[d].len() && k[d][j] == x;
    if i > 0 {
        assert(lex_lt(l[c][0], l[c][i]));
        if j > 0 {
            assert(lex_lt(k[d][0], k[d][j]));
            crate::text::lemma_lex_transitive(x, y, x);
        }
        lemma_lex_irreflexive(x);
    }
    assert(heads(k)[d] == x);
}

/// There is only one way to list the components.
pub proof fn lemma_components_unique(
    m: MachineView,
    l: Seq<Seq<Seq<char>>>,
    k: Seq<Seq<Seq<char>>>,
)
    requires
        lists_components(m, l),
        lists_components(m, k),
    ensures
        l == k,
{
    assert forall|x: Seq<char>| #[trigger] heads(l).contains(x) == heads(k).contains(x) by {
        if heads(l).contains(x) {
            let c = choose|c: int| 0 <= c < heads(l).len() && heads(l)[c] == x;
            lemma_head_shared(m, l, k, c);
        }
        if heads(k).contains(x) {
            let c = choose|c: int| 0 <= c < heads(k).len() && heads(k)[c] == x;
            lemma_head_shared(m, k, l, c);
        }
    }
    assert forall|i: int, j: int| 0 <= i < j < heads(l).len() implies lex_lt(
        #[trigger] heads(l)[i],
        #[trigger] heads(l)[j],
    ) by {
        assert(lex_lt(l[i][0], l[j][0]));
    }
    assert forall|i: int, j: int| 0 <= i < j < heads(k).len() implies lex_lt(
        #[trigger] heads(k)[i],
        #[trigger] heads(k)[j],
    ) by {
        assert(lex_lt(k[i][0], k[j][0]));
    }
    lemma_ascending_unique(heads(l), heads(k));
    assert(heads(l).len() == l.len());
    assert(heads(k).len() == k.len());
    assert forall|c: int| 0 <= c < l.len() implies l[c] == k[c] by {
        assert(heads(l)[c] == heads(k)[c]);
        let x = l[c][0];
        assert(l[c].contains(x));
        assert(k[c].contains(x));
        assert forall|y: Seq<char>| #[trigger] l[c].contains(y) == k[c].contains(y) by {}
        lemma_ascending_unique(l[c], k[c]);
    }
    assert(l =~= k);
}

/// The states that are mutually reachable with `k`.
spec fn class_of(m: MachineView, k: Seq<char>) -> Set<Seq<char>> {
    m.states.dom().filter(|x: Seq<char>| mutual(m, k, x))
}

/// The components of a machine with finitely many states can be listed.
pub proof fn lemma_components_listed(m: MachineView)
    requires
        m.states.dom().finite(),
    ensures
        lists_components(m, components(m)),
{
    let dom = m.states.dom();
    let reps = dom.filter(
        |k: Seq<char>| forall|x: Seq<char>| mutual(m, k, x) ==> !#[trigger] lex_lt(x, k),
    );
    dom.lemma_len_filter(
        |k: Seq<char>| forall|x: Seq<char>| mutual(m, k, x) ==> !#[trigger] lex_lt(x, k),
    );
    lemma_sortable(reps);
    let r = sorted_keys(reps);
    let l = r.map_values(|k: Seq<char>| sorted_keys(class_of(m, k)));
    assert forall|k: Seq<char>| dom.contains(k) implies #[trigger] class_of(m, k).finite()
        && class_of(m, k).contains(k) && lists_sorted(sorted_keys(class_of(m, k)), class_of(m, k)) by {
        dom.lemma_len_filter(|x: Seq<char>| mutual(m, k, x));
        lemma_reaches_self(m, k);
        lemma_sortable(class_of(m, k));
    }
    assert forall|c: int| 0 <= c < l.len() implies (#[trigger] l[c]).len() > 0 && l[c][0] == r[c]
        && lists_sorted(l[c], class_of(m, r[c])) by {
        let k = r[c];
        assert(r.contains(k));
        assert(reps.contains(k));
        assert(dom.contains(k));
        assert(class_of(m, k).finite());
        assert(l[c].contains(k));
        let i = choose|i: int| 0 <= i < l[c].len() && l[c][i] == k;
        if i > 0 {
            assert(lex_lt(l[c][0], l[c][i]));
            assert(l[c].contains(l[c][0]));
            assert(mutual(m, k, l[c][0]));
        }
    }
    assert forall|c: int, d: int| 0 <= c < d < l.len() implies lex_lt(
        (#[trigger] l[c])[0],
        (#[trigger] l[d])[0],
    ) by {
        assert(lex_lt(r[c], r[d]));
    }
    assert forall|c: int, x: Seq<char>| 0 <= c < l.len() && #[trigger] l[c].contains(x) implies dom.contains(
        x,
    ) by {
        assert(lists_sorted(l[c], class_of(m, r[c])));
        assert(class_of(m, r[c]).contains(x));
    }
    assert forall|id: Seq<char>| dom.contains(id) implies exists|c: int|
        0 <= c < l.len() && #[trigger] l[c].contains(id) by {
        assert(class_of(m, id).finite());
        assert(class_of(m, id).contains(id));
        let k = lemma_least(class_of(m, id));
        assert(mutual(m, id, k));
        assert forall|x: Seq<char>| mutual(m, k, x) implies !#[trigger] lex_lt(x, k) by {
            lemma_reaches_transitive(m, id, k, x);
            lemma_reaches_transitive(m, x, k, id);
            lemma_reaches_ends(m, id, x);
            assert(class_of(m, id).contains(x));
        }
        assert(reps.contains(k));
        assert(r.contains(k));
        let c = choose|c: int| 0 <= c < r.len() && r[c] == k;
        assert(class_of(m, k).finite());
        assert(lists_sorted(l[c], class_of(m, k)));
        assert(class_of(m, k).contains(id));
        assert(l[c].contains(id));
    }
    assert forall|c: int, a: Seq<char>, b: Seq<char>|
        0 <= c < l.len() && #[trigger] l[c].contains(a) implies (#[trigger] l[c].contains(b)
        == mutual(m, a, b)) by {
        let k = r[c];
        assert(lists_sorted(l[c], class_of(m, k)));
        assert(class_of(m, k).contains(a));
        if l[c].contains(b) {
            assert(class_of(m, k).contains(b));
            lemma_reaches_transitive(m, a, k, b);
            lemma_reaches_transitive(m, b, k, a);
        }
        if mutual(m, a, b) {
            lemma_reaches_transitive(m, k, a, b);
            lemma_reaches_transitive(m, b, a, k);
            lemma_reaches_ends(m, a, b);
            assert(class_of(m, k).contains(b));
        }
    }
    assert forall|c: int| 0 <= c < l.len() implies (#[trigger] l[c]).len() > 0 && strictly_ascending(
        l[c],
    ) by {
        assert(lists_sorted(l[c], class_of(m, r[c])));
    }
    assert(lists_components(m, l));
}

/// A list of components is what [`components`] names.
pub proof fn lemma_components(m: MachineView, comps: Seq<Vec<String>>)
    requires
        components_of(m, comps),
    ensures
        lists_components(m, component_views(comps)),
        component_views(comps) == components(m),
{
    let l = component_views(comps);
    assert forall|c: int| 0 <= c < l.len() implies (#[trigger] l[c]).len() > 0 && strictly_ascending(
        l[c],
    ) by {
        assert(comps[c].len() > 0);
        assert forall|i: int, j: int| 0 <= i < j < l[c].len() implies lex_lt(
            #[trigger] l[c][i],
            #[trigger] l[c][j],
        ) by {
            assert(lex_lt(comps[c]@[i]@, comps[c]@[j]@));
        }
    }
    assert forall|c: int, d: int| 0 <= c < d < l.len() implies lex_lt(
        (#[trigger] l[c])[0],
        (#[trigger] l[d])[0],
    ) by {
        assert(comps[c].len() > 0);
        assert(comps[d].len() > 0);
        assert(lex_lt(comps[c]@[0]@, comps[d]@[0]@));
    }
    assert forall|id: Seq<char>| m.states.dom().contains(id) implies exists|c: int|
        0 <= c < l.len() && #[trigger] l[c].contains(id) by {
        let c = choose|c: int| 0 <= c < comps.len() && listed(#[trigger] comps[c]@, id);
        lemma_views_listed(comps[c], id);
        assert(l[c].contains(id));
    }
    assert forall|c: int, x: Seq<char>| 0 <= c < l.len() && #[trigger] l[c].contains(x) implies m.states.dom().contains(
        x,
    ) by {
        let i = choose|i: int| 0 <= i < l[c].len() && l[c][i] == x;
        assert(m.states.dom().contains(comps[c]@[i]@));
    }
    assert forall|c: int, a: Seq<char>, b: Seq<char>|
        0 <= c < l.len() && #[trigger] l[c].contains(a) implies (#[trigger] l[c].contains(b)
        == mutual(m, a, b)) by {
        lemma_views_listed(comps[c], a);
        lemma_views_listed(comps[c], b);
        assert(listed(comps[c]@, a));
    }
    assert(lists_components(m, l));
    lemma_components_unique(m, components(m), l);
}

/// The states that are mutually reachable with state `i`, from position `i` on.
fn component_from(sm: &StateMachine, reach: &Vec<Vec<bool>>, i: usize) -> (comp: Vec<String>)
    requires
        ascending(sm.states.pairs()),
        i < reach.len() == sm.states.pairs().len(),
        forall|x: int| 0 <= x < reach.len() ==> (#[trigger] reach@[x]).len() == reach.len(),
        forall|x: int, y: int|
            0 <= x < reach.len() && 0 <= y < reach.len() ==> #[trigger] reach@[x]@[y] == reaches(
                sm@,
                state_key(*sm, x),
                state_key(*sm, y),
            ),
    ensures
        comp.len() > 0,
        comp@[0]@ == state_key(*sm, i as int),
        forall|x: int, y: int|
            0 <= x < y < comp.len() ==> lex_lt(#[trigger] comp@[x]@, #[trigger] comp@[y]@),
        forall|q: int|
            i <= q < reach.len() ==> listed(comp@, #[trigger] state_key(*sm, q)) == mutual(
                sm@,
                state_key(*sm, i as int),
                state_key(*sm, q),
            ),
        forall|x: int|
            0 <= x < comp.len() ==> exists|q: int|
                i <= q < reach.len() && (#[trigger] comp@[x])@ == #[trigger] state_key(*sm, q),
{
    let n: usize = reach.len();
    let ghost a = state_key(*sm, i as int);
    let mut comp: Vec<String> = Vec::new();
    let mut j: usize = i;
    while j < n
        invariant
            ascending(sm.states.pairs()),
            i <= j <= n == reach.len() == sm.states.pairs().len(),
            a == state_key(*sm, i as int),
            forall|x: int| 0 <= x < n ==> (#[trigger] reach@[x]).len() == n,
            forall|x: int, y: int|
                0 <= x < n && 0 <= y < n ==> #[trigger] reach@[x]@[y] == reaches(
                    sm@,
                    state_key(*sm, x),
                    state_key(*sm, y),
                ),
            j > i ==> comp.len() > 0 && comp@[0]@ == a,
            j == i ==> comp.len() == 0,
            forall|x: int, y: int|
                0 <= x < y < comp.len() ==> lex_lt(#[trigger] comp@[x]@, #[trigger] comp@[y]@),
            forall|q: int|
                i <= q < j ==> listed(comp@, #[trigger] state_key(*sm, q)) == mutual(
                    sm@,
                    a,
                    state_key(*sm, q),
                ),
            forall|x: int|
                0 <= x < comp.len() ==> exists|q: int|
                    i <= q < j && (#[trigger] comp@[x])@ == #[trigger] state_key(*sm, q),
        decreases n - j,
    {
        let ghost before = comp@;
        let ghost b = state_key(*sm, j as int);
        let hit = reach[i][j] && reach[j][i];
        proof {
            assert(hit == mutual(sm@, a, b));
            if j == i {
                lemma_map_of(sm.states.pairs(), i as int);
                lemma_reaches_self(sm@, a);
            }
            if listed(before, b) {
                let x = choose|x: int| 0 <= x < before.len() && before[x]@ == b;
                let q = choose|q: int|
                    i <= q < j && (#[trigger] before[x])@ == #[trigger] state_key(*sm, q);
                lemma_same_key(sm.states.pairs(), q, j as int);
            }
        }
        if hit {
            comp.push(sm.states.key(j).clone());
            proof {
                assert(comp@[before.len() as int]@ == b);
                assert forall|x: int, y: int| 0 <= x < y < comp.len() implies lex_lt(
                    #[trigger] comp@[x]@,
                    #[trigger] comp@[y]@,
                ) by {
                    assert(comp@[x] == before[x]);
                    if y == before.len() {
                        let q = choose|q: int|
                            i <= q < j && (#[trigger] before[x])@ == #[trigger] state_key(*sm, q);
                        assert(lex_lt(sm.states.pairs()[q].0@, sm.states.pairs()[j as int].0@));
                    } else {
                        assert(comp@[y] == before[y]);
                    }
                }
                assert forall|q: int| i <= q < j + 1 implies listed(
                    comp@,
                    #[trigger] state_key(*sm, q),
                ) == mutual(sm@, a, state_key(*sm, q)) by {
                    let k = state_key(*sm, q);
                    if listed(before, k) {
                        let x = choose|x: int| 0 <= x < before.len() && before[x]@ == k;
                        assert(comp@[x]@ == k);
                    }
                    if listed(comp@, k) {
                        let x = choose|x: int| 0 <= x < comp@.len() && comp@[x]@ == k;
                        if x < before.len() {
                            assert(before[x]@ == k);
                        } else {
                            lemma_same_key(sm.states.pairs(), q, j as int);
                        }
                    }
                    if q == j {
                        assert(listed(comp@, k));
                    }
                }
                assert forall|x: int| 0 <= x < comp.len() implies exists|q: int|
                    i <= q < j + 1 && (#[trigger] comp@[x])@ == #[trigger] state_key(*sm, q) by {
                    if x < before.len() {
                        assert(comp@[x] == before[x]);
                        let q = choose|q: int|
                            i <= q < j && (#[trigger] before[x])@ == #[trigger] state_key(*sm, q);
                        assert(comp@[x]@ == state_key(*sm, q));
                    } else {
                        assert(comp@[x]@ == state_key(*sm, j as int));
                    }
                }
            }
        }
        j += 1;
    }
    comp
}

/// The strongly connected components of the machine's states.
pub fn strong_components(sm: &StateMachine) -> (comps: Vec<Vec<String>>)
    ensures
        components_of(sm@, comps@),
        lists_components(sm@, component_views(comps@)),
        component_views(comps@) == components(sm@),
{
    let n: usize = sm.states.len();
    let adj = adjacency(sm);
    let mut reach: Vec<Vec<bool>> = Vec::new();
    let mut i: usize = 0;
    while i < n
        invariant
            adjacency_of(*sm, adj@),
            i <= n == sm.states.pairs().len(),
            reach.len() == i,
            forall|x: int| 0 <= x < i ==> (#[trigger] reach@[x]).len() == n,
            forall|x: int, y: int|
                0 <= x < i && 0 <= y < n ==> #[trigger] reach@[x]@[y] == reaches(
                    sm@,
                    state_key(*sm, x),
                    state_key(*sm, y),
                ),
        decreases n - i,
    {
        reach.push(reach_row(sm, &adj, i));
        i += 1;
    }
    let mut comps: Vec<Vec<String>> = Vec::new();
    i = 0;
    while i < n
        invariant
            ascending(sm.states.pairs()),
            i <= n == sm.states.pairs().len() == reach.len(),
            forall|x: int| 0 <= x < n ==> (#[trigger] reach@[x]).len() == n,
            forall|x: int, y: int|
                0 <= x < n && 0 <= y < n ==> #[trigger] reach@[x]@[y] == reaches(
                    sm@,
                    state_key(*sm, x),
                    state_key(*sm, y),
                ),
            partial_components(*sm, comps@, i as int),
        decreases n - i,
    {
        let ghost before = comps@;
        if !in_some(&comps, sm.states.key(i).as_str()) {
            let comp = component_from(sm, &reach, i);
            comps.push(comp);
            proof {
                lemma_add_component(*sm, before, comp, i as int);
                assert(comps@ =~= before.push(comp));
            }
        } else {
            proof {
                lemma_skip_component(*sm, before, i as int);
            }
        }
        i += 1;
    }
    proof {
        let m = sm@;
        assert forall|id: Seq<char>| m.states.dom().contains(id) implies exists|c: int|
            0 <= c < comps@.len() && listed(#[trigger] comps@[c]@, id) by {
            let k = choose|k: int| key_at(sm.states.pairs(), id, k);
            assert(state_key(*sm, k) == id);
        }
        lemma_components(m, comps@);
    }
    comps
}

/// Whether `id` is a member of one of `comps`.
fn in_some(comps: &Vec<Vec<String>>, id: &str) -> (r: bool)
    ensures
        r == (exists|c: int| 0 <= c < comps.len() && listed(#[trigger] comps@[c]@, id@)),
{
    let mut c: usize = 0;
    while c < comps.len()
        invariant
            c <= comps.len(),
            forall|k: int| 0 <= k < c ==> !listed(#[trigger] comps@[k]@, id@),
        decreases comps.len() - c,
    {
        if crate::text::list_contains(&comps[c], id) {
            return true;
        }
        c += 1;
    }
    false
}

/// `comps` are the components that hold one of the states before position `i`.
spec fn partial_components(sm: StateMachine, comps: Seq<Vec<String>>, i: int) -> bool {
    let m = sm@;
    &&& forall|c: int| 0 <= c < comps.len() ==> (#[trigger] comps[c]).len() > 0
    &&& forall|c: int, x: int|
        0 <= c < comps.len() && 0 <= x < comps[c].len() ==> m.states.dom().contains(
            #[trigger] comps[c]@[x]@,
        )
    &&& forall|c: int, x: int, y: int|
        0 <= c < comps.len() && 0 <= x < y < comps[c].len() ==> lex_lt(
            #[trigger] comps[c]@[x]@,
            #[trigger] comps[c]@[y]@,
        )
    &&& forall|c: int, d: int|
        0 <= c < d < comps.len() ==> lex_lt(
            (#[trigger] comps[c])@[0]@,
            (#[trigger] comps[d])@[0]@,
        )
    &&& forall|c: int, q: int|
        0 <= c < comps.len() && i <= q < sm.states.pairs().len() ==> lex_lt(
            (#[trigger] comps[c])@[0]@,
            #[trigger] state_key(sm, q),
        )
    &&& forall|q: int|
        0 <= q < i ==> exists|c: int|
            0 <= c < comps.len() && listed(#[trigger] comps[c]@, #[trigger] state_key(sm, q))
    &&& forall|c: int, a: Seq<char>, b: Seq<char>|
        0 <= c < comps.len() && #[trigger] listed(comps[c]@, a) ==> (#[trigger] listed(
            comps[c]@,
            b,
        ) == mutual(m, a, b))
}

proof fn lemma_skip_component(sm: StateMachine, comps: Seq<Vec<String>>, i: int)
    requires
        ascending(sm.states.pairs()),
        0 <= i < sm.states.pairs().len(),
        partial_components(sm, comps, i),
        exists|c: int| 0 <= c < comps.len() && listed(#[trigger] comps[c]@, state_key(sm, i)),
    ensures
        partial_components(sm, comps, i + 1),
{
    assert forall|q: int| 0 <= q < i + 1 implies exists|c: int|
        0 <= c < comps.len() && listed(#[trigger] comps[c]@, #[trigger] state_key(sm, q)) by {
        if q == i {
            let c = choose|c: int| 0 <= c < comps.len() && listed(#[trigger] comps[c]@, state_key(sm, i));
            assert(listed(comps[c]@, state_key(sm, q)));
        }
    }
}

proof fn lemma_add_component(sm: StateMachine, comps: Seq<Vec<String>>, comp: Vec<String>, i: int)
    requires
        ascending(sm.states.pairs()),
        0 <= i < sm.states.pairs().len(),
        partial_components(sm, comps, i),
        !exists|c: int| 0 <= c < comps.len() && listed(#[trigger] comps[c]@, state_key(sm, i)),
        comp.len() > 0,
        comp@[0]@ == state_key(sm, i),
        forall|x: int, y: int|
            0 <= x < y < comp.len() ==> lex_lt(#[trigger] comp@[x]@, #[trigger] comp@[y]@),
        forall|q: int|
            i <= q < sm.states.pairs().len() ==> listed(comp@, #[trigger] state_key(sm, q))
                == mutual(sm@, state_key(sm, i), state_key(sm, q)),
        forall|x: int|
            0 <= x < comp.len() ==> exists|q: int|
                i <= q < sm.states.pairs().len() && (#[trigger] comp@[x])@ == #[trigger] state_key(
                    sm,
                    q,
                ),
    ensures
        partial_components(sm, comps.push(comp), i + 1),
{
    let m = sm@;
    let a = state_key(sm, i);
    let next = comps.push(comp);
    let last = comps.len() as int;
    // A state before position `i` is not mutual with `a`: its component would hold `a`.
    assert forall|q: int| 0 <= q < i implies !mutual(m, a, #[trigger] state_key(sm, q)) by {
        let b = state_key(sm, q);
        let c = choose|c: int| 0 <= c < comps.len() && listed(#[trigger] comps[c]@, #[trigger] state_key(sm, q));
        if mutual(m, a, b) {
            assert(listed(comps[c]@, b));
            assert(mutual(m, b, a));
            assert(listed(comps[c]@, a));
        }
    }
    // So `comp` is the whole class of `a`.
    assert forall|b: Seq<char>| listed(comp@, b) == mutual(m, a, b) by {
        if listed(comp@, b) {
            let x = choose|x: int| 0 <= x < comp@.len() && comp@[x]@ == b;
            let q = choose|q: int|
                i <= q < sm.states.pairs().len() && (#[trigger] comp@[x])@ == #[trigger] state_key(
                    sm,
                    q,
                );
        }
        if mutual(m, a, b) {
            lemma_reaches_ends(m, a, b);
            let q = choose|q: int| key_at(sm.states.pairs(), b, q);
            assert(state_key(sm, q) == b);
        }
    }
    assert forall|c: int, x: Seq<char>, y: Seq<char>|
        0 <= c < next.len() && #[trigger] listed(next[c]@, x) implies (#[trigger] listed(
        next[c]@,
        y,
    ) == mutual(m, x, y)) by {
        if c == last {
            assert(mutual(m, a, x));
            if mutual(m, a, y) {
                lemma_reaches_transitive(m, x, a, y);
                lemma_reaches_transitive(m, y, a, x);
            }
            if mutual(m, x, y) {
                lemma_reaches_transitive(m, a, x, y);
                lemma_reaches_transitive(m, y, x, a);
            }
        } else {
            assert(next[c] == comps[c]);
        }
    }
    assert forall|c: int, q: int|
        0 <= c < next.len() && i + 1 <= q < sm.states.pairs().len() implies lex_lt(
        (#[trigger] next[c])@[0]@,
        #[trigger] state_key(sm, q),
    ) by {
        if c < last {
            assert(next[c] == comps[c]);
        } else {
            assert(lex_lt(sm.states.pairs()[i].0@, sm.states.pairs()[q].0@));
        }
    }
    assert forall|q: int| 0 <= q < i + 1 implies exists|c: int|
        0 <= c < next.len() && listed(#[trigger] next[c]@, #[trigger] state_key(sm, q)) by {
        if q == i {
            assert(comp@[0]@ == state_key(sm, q));
            assert(listed(next[last]@, state_key(sm, q)));
        } else {
            let c = choose|c: int| 0 <= c < comps.len() && listed(#[trigger] comps[c]@, #[trigger] state_key(sm, q));
            assert(next[c] == comps[c]);
            assert(listed(next[c]@, state_key(sm, q)));
        }
    }
    assert forall|c: int, d: int| 0 <= c < d < next.len() implies lex_lt(
        (#[trigger] next[c])@[0]@,
        (#[trigger] next[d])@[0]@,
    ) by {
        assert(next[c] == comps[c]);
        if d == last {
            assert(lex_lt(comps[c]@[0]@, state_key(sm, i)));
        } else {
            assert(next[d] == comps[d]);
        }
    }
    assert forall|c: int, x: int|
        0 <= c < next.len() && 0 <= x < next[c].len() implies m.states.dom().contains(
        #[trigger] next[c]@[x]@,
    ) by {
        if c == last {
            let q = choose|q: int|
                i <= q < sm.states.pairs().len() && (#[trigger] comp@[x])@ == #[trigger] state_key(
                    sm,
                    q,
                );
            lemma_map_of(sm.states.pairs(), q);
        } else {
            assert(next[c] == comps[c]);
        }
    }
    assert forall|c: int, x: int, y: int|
        0 <= c < next.len() && 0 <= x < y < next[c].len() implies lex_lt(
        #[trigger] next[c]@[x]@,
        #[trigger] next[c]@[y]@,
    ) by {
        if c < last {
            assert(next[c] == comps[c]);
        }
    }
}

} // verus!
