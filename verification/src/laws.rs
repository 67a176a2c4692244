use vstd::prelude::*;
use crate::ast::ValidatedProgramView;
use crate::semantics::{
    Config, Event, Phase, RunResultView, done, entering, lemma_run_to_prefix, run_to,
};

verus! {

broadcast use crate::semantics::lemma_run_to_push;

// ---------------------------------------------------------------------------
// Laws of the execution semantics. Each law quantifies over every legal
// trace, so it holds of every run of the engine against every host.
// ---------------------------------------------------------------------------

/// A terminal configuration admits no further event: whatever position of a
/// legal trace reaches `Done` is the end of that trace.
pub proof fn lemma_done_is_last(p: ValidatedProgramView, t: Seq<Event>, k: int)
    requires
        run_to(p, t) is Some,
        0 <= k <= t.len(),
        run_to(p, t.take(k))->Some_0.phase is Done,
        run_to(p, t.take(k)) is Some,
    ensures
        k == t.len(),
        run_to(p, t) == run_to(p, t.take(k)),
{
    if k < t.len() {
        lemma_run_to_prefix(p, t, k + 1);
        assert(t.take(k + 1).drop_last() =~= t.take(k));
        assert(t.take(k + 1).last() == t[k]);
        assert(run_to(p, t.take(k + 1)) is None);
    }
    assert(t.take(k) =~= t);
}

/// A return action ends the entire run on the spot: the event is the last of
/// the trace, wherever inside a rule body it stands, and the run's result is
/// the returned value.
pub proof fn lemma_return_halts(p: ValidatedProgramView, t: Seq<Event>, k: int, s: usize, r: usize)
    requires
        run_to(p, t) is Some,
        0 <= k < t.len(),
        t[k] == (Event::Ret { state: s, rule: r }),
    ensures
        k + 1 == t.len(),
        exists|v: Option<Seq<char>>|
            run_to(p, t) == Some(done(RunResultView::Returned { value: v })),
{
    lemma_run_to_prefix(p, t, k + 1);
    lemma_run_to_prefix(p, t, k);
    assert(t.take(k + 1).drop_last() =~= t.take(k));
    assert(t.take(k + 1).last() == t[k]);
    let c = run_to(p, t.take(k))->Some_0;
    let d = run_to(p, t.take(k + 1))->Some_0;
    assert(d.phase is Done);
    lemma_done_is_last(p, t, k + 1);
    assert(run_to(p, t) == Some(d));
    assert(exists|v: Option<Seq<char>>| d == done(RunResultView::Returned { value: v }));
}

/// A transition abandons the rest of its pass at once: the very next event,
/// if the trace goes on, is the entry of the target state, and the target is
/// entered with a fresh first-pass flag, whether or not it was visited
/// before.
pub proof fn lemma_transition_short_circuit(
    p: ValidatedProgramView,
    t: Seq<Event>,
    k: int,
    s: usize,
    r: usize,
    target: usize,
)
    requires
        run_to(p, t) is Some,
        0 <= k < t.len(),
        t[k] == (Event::Jump { state: s, rule: r, target }),
    ensures
        run_to(p, t.take(k + 1)) == Some(entering(target as int)),
        k + 1 < t.len() ==> t[k + 1] == (Event::Enter { state: target }),
        k + 1 < t.len() ==> run_to(p, t.take(k + 2)) == Some(
            Config {
                state: target as int,
                first_pass: true,
                fired: false,
                phase: Phase::AtRule { cursor: 0 },
            },
        ),
{
    lemma_run_to_prefix(p, t, k + 1);
    lemma_run_to_prefix(p, t, k);
    assert(t.take(k + 1).drop_last() =~= t.take(k));
    assert(t.take(k + 1).last() == t[k]);
    assert(run_to(p, t.take(k + 1)) == Some(entering(target as int)));
    if k + 1 < t.len() {
        lemma_run_to_prefix(p, t, k + 2);
        assert(t.take(k + 2).drop_last() =~= t.take(k + 1));
        assert(t.take(k + 2).last() == t[k + 1]);
    }
}

/// A full pass in which no rule interacted is the fixed point: directly
/// after it, control either enters the next state (the very next event, if
/// any, is its entry) or, after the last state, the run ends exhausted.
pub proof fn lemma_quiet_pass_advances(
    p: ValidatedProgramView,
    t: Seq<Event>,
    k: int,
    s: usize,
)
    requires
        run_to(p, t) is Some,
        0 <= k < t.len(),
        t[k] == (Event::PassEnd { state: s, fired: false }),
    ensures
        s as int + 1 < p.states.len() ==> run_to(p, t.take(k + 1)) == Some(entering(s as int + 1)),
        s as int + 1 < p.states.len() && k + 1 < t.len() ==> (t[k + 1] matches Event::Enter {
            state: st,
        } && st as int == s as int + 1),
        s as int + 1 >= p.states.len() ==> run_to(p, t) == Some(done(RunResultView::Exhausted))
            && k + 1 == t.len(),
{
    lemma_run_to_prefix(p, t, k + 1);
    lemma_run_to_prefix(p, t, k);
    assert(t.take(k + 1).drop_last() =~= t.take(k));
    assert(t.take(k + 1).last() == t[k]);
    let c = run_to(p, t.take(k))->Some_0;
    assert(c.state == s as int);
    if s as int + 1 < p.states.len() {
        if k + 1 < t.len() {
            lemma_run_to_prefix(p, t, k + 2);
            assert(t.take(k + 2).drop_last() =~= t.take(k + 1));
            assert(t.take(k + 2).last() == t[k + 1]);
        }
    } else {
        lemma_done_is_last(p, t, k + 1);
    }
}

/// A run can only end exhausted by settling: when a completed trace ends
/// with the exhausted result, either the program has no states at all, or
/// the trace's last event is a quiet pass over the final state.
pub proof fn lemma_exhausted_means_settled(p: ValidatedProgramView, t: Seq<Event>)
    requires
        run_to(p, t) == Some(done(RunResultView::Exhausted)),
    ensures
        t.len() == 0 ==> p.states.len() == 0,
        t.len() > 0 ==> (t.last() matches Event::PassEnd { state, fired } && !fired && state as int
            + 1 == p.states.len()),
{
    if t.len() > 0 {
        assert(run_to(p, t.drop_last()) is Some);
    }
}

/// Event `e` fires some rule of state `s`.
pub open spec fn is_fire_for(e: Event, s: int) -> bool {
    e matches Event::Fire { state, .. } && state as int == s
}

/// Event `j` of the trace fires rule `r` of state `s`.
pub open spec fn fire_at(t: Seq<Event>, j: int, s: usize, r: int) -> bool {
    t[j] matches Event::Fire { state, rule } && state == s && (rule as int) == r
}

/// Some event strictly inside `(i, k)` fires rule `r` of state `s`.
pub open spec fn fired_in(t: Seq<Event>, i: int, k: int, s: usize, r: int) -> bool {
    exists|j: int| i < j < k && #[trigger] fire_at(t, j, s, r)
}

proof fn lemma_fired_in_mono(t: Seq<Event>, i: int, k1: int, k2: int, s: usize, r: int)
    requires
        fired_in(t, i, k1, s, r),
        k1 <= k2,
    ensures
        fired_in(t, i, k2, s, r),
{
    let j = choose|j: int| i < j < k1 && #[trigger] fire_at(t, j, s, r);
    assert(i < j < k2 && fire_at(t, j, s, r));
}

/// When the configuration's interaction flag stands, some rule of the
/// current state fired earlier in the current pass: a `Fire` event lies
/// behind it with no pass boundary in between.
proof fn lemma_fired_has_fire(p: ValidatedProgramView, t: Seq<Event>, k: int)
    requires
        run_to(p, t) is Some,
        0 <= k <= t.len(),
        run_to(p, t.take(k)) is Some,
        run_to(p, t.take(k))->Some_0.fired,
    ensures
        exists|j: int|
            0 <= j < k && is_fire_for(#[trigger] t[j], run_to(p, t.take(k))->Some_0.state) && (
            forall|m: int| j < m < k ==> !((#[trigger] t[m]) is PassEnd) && !(t[m] is Enter)),
    decreases k,
{
    let c = run_to(p, t.take(k))->Some_0;
    if k == 0 {
        assert(t.take(0) =~= Seq::<Event>::empty());
        assert(false);
    } else {
        assert(t.take(k).drop_last() =~= t.take(k - 1));
        assert(t.take(k).last() == t[k - 1]);
        let c0 = run_to(p, t.take(k - 1))->Some_0;
        if t[k - 1] is Fire {
            assert(is_fire_for(t[k - 1], c.state));
            assert(forall|m: int| k - 1 < m < k ==> !((#[trigger] t[m]) is PassEnd));
        } else {
            assert(c0.fired && c0.state == c.state && !(t[k - 1] is PassEnd) && !(t[k - 1]
                is Enter));
            lemma_fired_has_fire(p, t, k - 1);
            let j = choose|j: int|
                0 <= j < k - 1 && is_fire_for(#[trigger] t[j], c0.state) && (forall|m: int|
                    j < m < k - 1 ==> !((#[trigger] t[m]) is PassEnd) && !(t[m] is Enter));
            assert(is_fire_for(t[j], c.state));
            assert(forall|m: int| j < m < k ==> !((#[trigger] t[m]) is PassEnd) && !(t[m]
                is Enter));
        }
    }
}

/// A pass that ends with the interaction flag set really did fire a rule of
/// its state during that pass.
pub proof fn lemma_interaction_has_fire(
    p: ValidatedProgramView,
    t: Seq<Event>,
    k: int,
    s: usize,
)
    requires
        run_to(p, t) is Some,
        0 <= k < t.len(),
        t[k] == (Event::PassEnd { state: s, fired: true }),
    ensures
        exists|j: int|
            0 <= j < k && is_fire_for(#[trigger] t[j], s as int) && (forall|m: int|
                j < m < k ==> !((#[trigger] t[m]) is PassEnd) && !(t[m] is Enter)),
{
    lemma_run_to_prefix(p, t, k + 1);
    lemma_run_to_prefix(p, t, k);
    assert(t.take(k + 1).drop_last() =~= t.take(k));
    assert(t.take(k + 1).last() == t[k]);
    let c = run_to(p, t.take(k))->Some_0;
    assert(c.fired && c.state == s as int);
    lemma_fired_has_fire(p, t, k);
}

/// After a conditionless rule fires, no configuration reachable without
/// re-entering its state lets it fire again: the first-pass flag only comes
/// back with an `Enter` of that state.
spec fn locked(p: ValidatedProgramView, c: Config, s: usize, r: usize) -> bool {
    c.state == s as int ==> match c.phase {
        Phase::AtRule { cursor } => cursor > r as int || !c.first_pass,
        Phase::InBody { rule, .. } => rule >= r as int || !c.first_pass,
        Phase::Entering { .. } => true,
        Phase::Done { .. } => true,
    }
}

proof fn lemma_conditionless_locked(
    p: ValidatedProgramView,
    t: Seq<Event>,
    s: usize,
    r: usize,
    i: int,
    k: int,
)
    requires
        run_to(p, t) is Some,
        0 <= (s as int) < p.states.len(),
        0 <= (r as int) < p.states[s as int].rules.len(),
        p.states[s as int].rules[r as int].condition is None,
        0 <= i < k <= t.len(),
        t[i] == (Event::Fire { state: s, rule: r }),
        forall|m: int| i < m < k ==> (#[trigger] t[m]) != (Event::Enter { state: s }),
    ensures
        run_to(p, t.take(k)) is Some,
        locked(p, run_to(p, t.take(k))->Some_0, s, r),
    decreases k - i,
{
    lemma_run_to_prefix(p, t, k);
    if k == i + 1 {
        lemma_run_to_prefix(p, t, i);
        assert(t.take(i + 1).drop_last() =~= t.take(i));
        assert(t.take(i + 1).last() == t[i]);
    } else {
        lemma_conditionless_locked(p, t, s, r, i, k - 1);
        assert(t.take(k).drop_last() =~= t.take(k - 1));
        assert(t.take(k).last() == t[k - 1]);
        let c0 = run_to(p, t.take(k - 1))->Some_0;
        let c = run_to(p, t.take(k))->Some_0;
        if c0.phase is Entering {
            // The only legal event from here enters some state; entering
            // `s` is excluded, so control moves to another state.
            assert(t[k - 1] != (Event::Enter { state: s }));
            assert(locked(p, c, s, r));
        } else {
            assert(locked(p, c, s, r));
        }
    }
}

/// A conditionless rule fires at most once per state entry: two firings of
/// the same conditionless rule always have an entry of its state between
/// them, however many passes the state runs.
pub proof fn lemma_conditionless_at_most_once(
    p: ValidatedProgramView,
    t: Seq<Event>,
    s: usize,
    r: usize,
    i: int,
    j: int,
)
    requires
        run_to(p, t) is Some,
        0 <= (s as int) < p.states.len(),
        0 <= (r as int) < p.states[s as int].rules.len(),
        p.states[s as int].rules[r as int].condition is None,
        0 <= i < j < t.len(),
        t[i] == (Event::Fire { state: s, rule: r }),
        t[j] == (Event::Fire { state: s, rule: r }),
    ensures
        exists|m: int| i < m < j && t[m] == (Event::Enter { state: s }),
{
    if !(exists|m: int| i < m < j && t[m] == (Event::Enter { state: s })) {
        assert(forall|m: int| i < m < j ==> (#[trigger] t[m]) != (Event::Enter { state: s }));
        lemma_conditionless_locked(p, t, s, r, i, j);
        let c = run_to(p, t.take(j))->Some_0;
        lemma_run_to_prefix(p, t, j + 1);
        assert(t.take(j + 1).drop_last() =~= t.take(j));
        assert(t.take(j + 1).last() == t[j]);
        assert(false);
    }
}

/// The shape of the configuration while the first pass after `Enter` at `i`
/// is still underway: still in that state, first-pass flag up, and every
/// conditionless rule the pass cursor already moved past has fired.
spec fn first_pass_good(
    p: ValidatedProgramView,
    t: Seq<Event>,
    s: usize,
    i: int,
    pos: int,
    c: Config,
) -> bool {
    let rules = p.states[s as int].rules;
    &&& c.state == s as int
    &&& c.first_pass
    &&& match c.phase {
        Phase::AtRule { cursor } => 0 <= cursor <= rules.len() && (forall|r: int|
            0 <= r < cursor && rules[r].condition is None ==> #[trigger] fired_in(
                t,
                i,
                pos,
                s,
                r,
            )),
        Phase::InBody { rule, .. } => 0 <= rule < rules.len() && (forall|r: int|
            0 <= r <= rule && rules[r].condition is None ==> #[trigger] fired_in(t, i, pos, s, r)),
        Phase::Entering { .. } => false,
        Phase::Done { .. } => false,
    }
}

proof fn lemma_first_pass_inv(p: ValidatedProgramView, t: Seq<Event>, s: usize, i: int, pos: int)
    requires
        run_to(p, t) is Some,
        0 <= (s as int) < p.states.len(),
        0 <= i < pos <= t.len(),
        t[i] == (Event::Enter { state: s }),
        forall|m: int| i < m < pos ==> !((#[trigger] t[m]) is Enter) && !(t[m] is PassEnd),
    ensures
        run_to(p, t.take(pos)) is Some,
        first_pass_good(p, t, s, i, pos, run_to(p, t.take(pos))->Some_0) || run_to(
            p,
            t.take(pos),
        )->Some_0.phase is Entering || run_to(p, t.take(pos))->Some_0.phase is Done,
    decreases pos - i,
{
    lemma_run_to_prefix(p, t, pos);
    if pos == i + 1 {
        lemma_run_to_prefix(p, t, i);
        assert(t.take(i + 1).drop_last() =~= t.take(i));
        assert(t.take(i + 1).last() == t[i]);
    } else {
        lemma_first_pass_inv(p, t, s, i, pos - 1);
        assert(t.take(pos).drop_last() =~= t.take(pos - 1));
        assert(t.take(pos).last() == t[pos - 1]);
        let c0 = run_to(p, t.take(pos - 1))->Some_0;
        let c = run_to(p, t.take(pos))->Some_0;
        let rules = p.states[s as int].rules;
        if first_pass_good(p, t, s, i, pos - 1, c0) {
            match c0.phase {
                Phase::AtRule { cursor } => {
                    assert forall|r: int|
                        0 <= r < cursor && rules[r].condition is None implies #[trigger] fired_in(
                        t,
                        i,
                        pos,
                        s,
                        r,
                    ) by {
                        lemma_fired_in_mono(t, i, pos - 1, pos, s, r);
                    }
                    if cursor < rules.len() && rules[cursor].condition is None {
                        // On the first pass a conditionless rule can only fire.
                        assert(t[pos - 1] == (Event::Fire {
                            state: s,
                            rule: cursor as usize,
                        }));
                        assert(fire_at(t, pos - 1, s, cursor));
                        assert(fired_in(t, i, pos, s, cursor));
                    }
                },
                Phase::InBody { rule, .. } => {
                    assert forall|r: int|
                        0 <= r <= rule && rules[r].condition is None implies #[trigger] fired_in(
                        t,
                        i,
                        pos,
                        s,
                        r,
                    ) by {
                        lemma_fired_in_mono(t, i, pos - 1, pos, s, r);
                    }
                },
                _ => {},
            }
        }
    }
}

/// On the first pass after a state entry, every conditionless rule the pass
/// reaches fires: if the pass runs to its end unbroken, each conditionless
/// rule of the state fired exactly within it.
pub proof fn lemma_conditionless_fires_on_first_pass(
    p: ValidatedProgramView,
    t: Seq<Event>,
    s: usize,
    i: int,
    k: int,
)
    requires
        run_to(p, t) is Some,
        0 <= i < k < t.len(),
        t[i] == (Event::Enter { state: s }),
        t[k] matches Event::PassEnd { state, .. } && state == s,
        forall|m: int| i < m < k ==> !((#[trigger] t[m]) is Enter) && !(t[m] is PassEnd),
    ensures
        forall|r: int|
            0 <= r < p.states[s as int].rules.len() && p.states[s as int].rules[r].condition
                is None ==> #[trigger] fired_in(t, i, k, s, r),
{
    lemma_run_to_prefix(p, t, i + 1);
    lemma_run_to_prefix(p, t, i);
    assert(t.take(i + 1).drop_last() =~= t.take(i));
    assert(t.take(i + 1).last() == t[i]);
    assert(0 <= (s as int) < p.states.len());
    lemma_first_pass_inv(p, t, s, i, k);
    lemma_run_to_prefix(p, t, k + 1);
    assert(t.take(k + 1).drop_last() =~= t.take(k));
    assert(t.take(k + 1).last() == t[k]);
}

/// A conditioned rule that carries an else body is never skipped: on every
/// pass over its state it either fires or runs its else body, no matter how
/// many passes the state takes.
pub proof fn lemma_else_reevaluated(
    p: ValidatedProgramView,
    t: Seq<Event>,
    s: usize,
    r: usize,
)
    requires
        run_to(p, t) is Some,
        0 <= (s as int) < p.states.len(),
        0 <= (r as int) < p.states[s as int].rules.len(),
        p.states[s as int].rules[r as int].condition is Some,
        p.states[s as int].rules[r as int].else_body is Some,
    ensures
        forall|k: int| 0 <= k < t.len() ==> t[k] != (Event::Skip { state: s, rule: r }),
{
    assert forall|k: int| 0 <= k < t.len() implies t[k] != (Event::Skip { state: s, rule: r }) by {
        if t[k] == (Event::Skip { state: s, rule: r }) {
            lemma_run_to_prefix(p, t, k + 1);
            lemma_run_to_prefix(p, t, k);
            assert(t.take(k + 1).drop_last() =~= t.take(k));
            assert(t.take(k + 1).last() == t[k]);
        }
    }
}

} // verus!
