//! Mathematical model of the adaptive subdivision: a small-step recursion
//! over the stack of pending cubic sub-segments and the shared iteration
//! counter, together with the laws proved about it (finiteness, endpoint
//! continuity, the degenerate fast path, monotonicity in the error bound).

use vstd::prelude::*;
use crate::geometry::{
    CubicV, QuadV, cubic_bounded, quad_of_v, seg_within_bound, split_l_v, split_r_v,
    lemma_split_bounded,
};

verus! {

/// Hard cap on the total number of subdivision checks one approximator
/// instance may perform, shared across all of its sub-segments.
pub const MAX_APPROXIMATION_ITERATIONS: u8 = 32;

/// Remaining checking budget at counter value `it`.
pub open spec fn cap_left(it: int) -> int {
    if it < MAX_APPROXIMATION_ITERATIONS as int {
        MAX_APPROXIMATION_ITERATIONS as int - it
    } else {
        0
    }
}

/// One emission step of the approximator: starting from the popped
/// sub-segment `c`, repeatedly check and split until the segment is
/// within bound or the counter reaches the cap. Returns the sub-segment
/// to emit, the stack of still-pending sub-segments, and the counter.
pub open spec fn refine(c: CubicV, stack: Seq<CubicV>, it: int, eb: int) -> (CubicV, Seq<CubicV>, int)
    decreases cap_left(it),
{
    if it >= MAX_APPROXIMATION_ITERATIONS as int {
        (c, stack, it)
    } else if seg_within_bound(c, eb) {
        (c, stack, it + 1)
    } else {
        refine(split_l_v(c), stack.push(split_r_v(c)), it + 1, eb)
    }
}

/// Every quadratic the approximator will emit from the given state,
/// first emission first.
pub open spec fn emit_all(stack: Seq<CubicV>, it: int, eb: int) -> Seq<QuadV>
    decreases cap_left(it), stack.len(),
{
    if stack.len() == 0 {
        Seq::<QuadV>::empty()
    } else {
        let c = stack.last();
        let rest = stack.drop_last();
        if it >= MAX_APPROXIMATION_ITERATIONS as int {
            seq![quad_of_v(c)] + emit_all(rest, it, eb)
        } else if seg_within_bound(c, eb) {
            seq![quad_of_v(c)] + emit_all(rest, it + 1, eb)
        } else {
            emit_all(rest.push(split_r_v(c)).push(split_l_v(c)), it + 1, eb)
        }
    }
}

/// The counter value after the whole given state has been drained.
pub open spec fn run_iter(stack: Seq<CubicV>, it: int, eb: int) -> int
    decreases cap_left(it), stack.len(),
{
    if stack.len() == 0 {
        it
    } else {
        let c = stack.last();
        let rest = stack.drop_last();
        if it >= MAX_APPROXIMATION_ITERATIONS as int {
            run_iter(rest, it, eb)
        } else if seg_within_bound(c, eb) {
            run_iter(rest, it + 1, eb)
        } else {
            run_iter(rest.push(split_r_v(c)).push(split_l_v(c)), it + 1, eb)
        }
    }
}

/// Whether draining the given state never runs against the iteration
/// cap: every emission ends with a successful error check.
pub open spec fn converges(stack: Seq<CubicV>, it: int, eb: int) -> bool
    decreases cap_left(it), stack.len(),
{
    if stack.len() == 0 {
        true
    } else {
        let c = stack.last();
        let rest = stack.drop_last();
        if it >= MAX_APPROXIMATION_ITERATIONS as int {
            false
        } else if seg_within_bound(c, eb) {
            converges(rest, it + 1, eb)
        } else {
            converges(rest.push(split_r_v(c)).push(split_l_v(c)), it + 1, eb)
        }
    }
}

pub open spec fn stack_bounded(stack: Seq<CubicV>, m: int) -> bool {
    forall|i: int| 0 <= i < stack.len() ==> cubic_bounded(#[trigger] stack[i], m)
}

/// Adjacent pending sub-segments meet end to end: the one popped later
/// (the lower index) starts where the one popped before it ends.
pub open spec fn stack_chained(stack: Seq<CubicV>) -> bool {
    forall|i: int| 0 <= i < stack.len() - 1 ==> (#[trigger] stack[i]).from == stack[i + 1].to
}

/// Consecutive emitted quadratics meet end to end.
pub open spec fn quads_chained(qs: Seq<QuadV>) -> bool {
    forall|i: int| 0 <= i < qs.len() - 1 ==> (#[trigger] qs[i]).to == qs[i + 1].from
}

/// The per-emission loop keeps the popped segment's start point, keeps
/// every already-pending segment, spends at least as many checks as it
/// pushes segments, and never drives the counter past the cap.
pub proof fn lemma_refine_props(c: CubicV, stack: Seq<CubicV>, it: int, eb: int)
    requires
        0 <= it <= MAX_APPROXIMATION_ITERATIONS as int,
    ensures
        ({
            let (c2, stack2, it2) = refine(c, stack, it, eb);
            &&& it <= it2 <= MAX_APPROXIMATION_ITERATIONS as int
            &&& stack2.len() >= stack.len()
            &&& stack2.len() + cap_left(it2) <= stack.len() + cap_left(it)
            &&& c2.from == c.from
            &&& forall|i: int| 0 <= i < stack.len() ==> stack2[i] == stack[i]
        }),
    decreases cap_left(it),
{
    if it >= MAX_APPROXIMATION_ITERATIONS as int {
    } else if seg_within_bound(c, eb) {
    } else {
        lemma_refine_props(split_l_v(c), stack.push(split_r_v(c)), it + 1, eb);
    }
}

/// Acceptance invariant: a sub-segment is only ever emitted because it
/// passed the error check, or because the counter reached the cap.
pub proof fn lemma_refine_accepted(c: CubicV, stack: Seq<CubicV>, it: int, eb: int)
    requires
        0 <= it <= MAX_APPROXIMATION_ITERATIONS as int,
    ensures
        ({
            let (c2, stack2, it2) = refine(c, stack, it, eb);
            seg_within_bound(c2, eb) || it2 == MAX_APPROXIMATION_ITERATIONS as int
        }),
    decreases cap_left(it),
{
    if it >= MAX_APPROXIMATION_ITERATIONS as int {
    } else if seg_within_bound(c, eb) {
    } else {
        lemma_refine_accepted(split_l_v(c), stack.push(split_r_v(c)), it + 1, eb);
    }
}

/// Refinement preserves coordinate bounds.
pub proof fn lemma_refine_bounded(c: CubicV, stack: Seq<CubicV>, it: int, eb: int, m: int)
    requires
        0 <= it,
        0 <= m,
        cubic_bounded(c, m),
        stack_bounded(stack, m),
    ensures
        ({
            let (c2, stack2, it2) = refine(c, stack, it, eb);
            &&& cubic_bounded(c2, m)
            &&& stack_bounded(stack2, m)
        }),
    decreases cap_left(it),
{
    if it >= MAX_APPROXIMATION_ITERATIONS as int {
    } else if seg_within_bound(c, eb) {
    } else {
        lemma_split_bounded(c, m);
        let stack1 = stack.push(split_r_v(c));
        assert(stack_bounded(stack1, m)) by {
            assert(forall|i: int| 0 <= i < stack.len() ==> stack1[i] == stack[i]);
        }
        lemma_refine_bounded(split_l_v(c), stack1, it + 1, eb, m);
    }
}

/// Aligns one exec emission (pop, then the check-and-split loop) with
/// the small-step model: the stream from a state whose top is `c` is
/// the refined quadratic followed by the stream from the rest.
pub proof fn lemma_refine_emit(c: CubicV, stack: Seq<CubicV>, it: int, eb: int)
    requires
        0 <= it,
    ensures
        ({
            let (c2, stack2, it2) = refine(c, stack, it, eb);
            emit_all(stack.push(c), it, eb) == seq![quad_of_v(c2)] + emit_all(stack2, it2, eb)
        }),
    decreases cap_left(it),
{
    assert(stack.push(c).drop_last() =~= stack);
    assert(stack.push(c).last() == c);
    if it >= MAX_APPROXIMATION_ITERATIONS as int {
    } else if seg_within_bound(c, eb) {
    } else {
        let stack1 = stack.push(split_r_v(c));
        assert(stack.push(c).drop_last().push(split_r_v(c)).push(split_l_v(c))
            =~= stack1.push(split_l_v(c)));
        lemma_refine_emit(split_l_v(c), stack1, it + 1, eb);
    }
}

/// Finiteness: a state with `n` pending sub-segments and `k` remaining
/// checks emits at least `n` and at most `n + k` quadratics.
pub proof fn lemma_emit_len(stack: Seq<CubicV>, it: int, eb: int)
    ensures
        stack.len() <= emit_all(stack, it, eb).len() <= stack.len() + cap_left(it),
    decreases cap_left(it), stack.len(),
{
    if stack.len() == 0 {
    } else {
        let c = stack.last();
        let rest = stack.drop_last();
        if it >= MAX_APPROXIMATION_ITERATIONS as int {
            lemma_emit_len(rest, it, eb);
        } else if seg_within_bound(c, eb) {
            lemma_emit_len(rest, it + 1, eb);
        } else {
            lemma_emit_len(rest.push(split_r_v(c)).push(split_l_v(c)), it + 1, eb);
        }
    }
}

/// Continuity: from a chained stack, the emitted quadratics are chained,
/// the first starts at the top segment's start, and the last ends at the
/// bottom segment's end.
pub proof fn lemma_emit_continuity(stack: Seq<CubicV>, it: int, eb: int)
    requires
        stack.len() >= 1,
        stack_chained(stack),
    ensures
        ({
            let out = emit_all(stack, it, eb);
            &&& out.len() >= 1
            &&& quads_chained(out)
            &&& out.first().from == stack.last().from
            &&& out.last().to == stack.first().to
        }),
    decreases cap_left(it), stack.len(),
{
    lemma_emit_len(stack, it, eb);
    let c = stack.last();
    let rest = stack.drop_last();
    if it >= MAX_APPROXIMATION_ITERATIONS as int || seg_within_bound(c, eb) {
        let it2: int = if it >= MAX_APPROXIMATION_ITERATIONS as int { it } else { it + 1 };
        let out = emit_all(stack, it, eb);
        let tail = emit_all(rest, it2, eb);
        assert(out == seq![quad_of_v(c)] + tail);
        if rest.len() == 0 {
            assert(out.len() == 1);
            assert(stack.first() == c);
        } else {
            assert(stack_chained(rest)) by {
                assert(forall|i: int| 0 <= i < rest.len() ==> rest[i] == stack[i]);
            }
            lemma_emit_continuity(rest, it2, eb);
            lemma_emit_len(rest, it2, eb);
            // the junction: the emitted quadratic ends where the next
            // pending segment (the new top) starts
            assert(stack[rest.len() - 1].from == stack[rest.len() as int].to);
            assert(rest.last().from == c.to);
            assert(tail.first().from == c.to);
            assert(quads_chained(out)) by {
                assert(forall|i: int| 1 <= i < out.len() ==> out[i] == tail[i - 1]);
            }
            assert(out.last() == tail.last());
            assert(rest.first() == stack.first());
        }
    } else {
        let l = split_l_v(c);
        let r = split_r_v(c);
        let stack1 = rest.push(r).push(l);
        assert(l.from == c.from);
        assert(l.to == r.from);
        assert(r.to == c.to);
        assert(stack_chained(stack1)) by {
            assert(forall|i: int| 0 <= i < rest.len() ==> stack1[i] == stack[i]);
            assert(stack1[stack1.len() - 1] == l);
            assert(stack1[stack1.len() - 2] == r);
            if rest.len() > 0 {
                assert(stack[rest.len() - 1].from == stack[rest.len() as int].to);
            }
        }
        lemma_emit_continuity(stack1, it + 1, eb);
        assert(stack1.last() == l);
        if rest.len() == 0 {
            assert(stack1.first() == r);
        } else {
            assert(stack1.first() == rest.first());
            assert(rest.first() == stack.first());
        }
        assert(emit_all(stack, it, eb) == emit_all(stack1, it + 1, eb));
    }
}

/// The degenerate fast path: a sub-segment with both deviation vectors
/// zero passes the error check at once, for any positive bound.
pub proof fn lemma_zero_deviation_within(c: CubicV, eb: int)
    requires
        1 <= eb,
        crate::geometry::sq_len_v(crate::geometry::dev0_v(c)) == 0,
        crate::geometry::sq_len_v(crate::geometry::dev1_v(c)) == 0,
    ensures
        seg_within_bound(c, eb),
{
    assert(36 * eb * eb >= 36) by (nonlinear_arith)
        requires 1 <= eb;
}

/// If every pending sub-segment is already within bound and the budget
/// covers them, each yields exactly one quadratic: the output count
/// equals the stack size, with no further subdivision.
pub proof fn lemma_all_within_emit_count(stack: Seq<CubicV>, it: int, eb: int)
    requires
        forall|i: int| 0 <= i < stack.len() ==> seg_within_bound(#[trigger] stack[i], eb),
        stack.len() <= cap_left(it),
    ensures
        emit_all(stack, it, eb).len() == stack.len(),
        emit_all(stack, it, eb) == stack.reverse().map_values(|c: CubicV| quad_of_v(c)),
    decreases stack.len(),
{
    if stack.len() == 0 {
        assert(emit_all(stack, it, eb) =~= stack.reverse().map_values(|c: CubicV| quad_of_v(c)));
    } else {
        let c = stack.last();
        let rest = stack.drop_last();
        assert(seg_within_bound(c, eb));
        assert(forall|i: int| 0 <= i < rest.len() ==> rest[i] == stack[i]);
        lemma_all_within_emit_count(rest, it + 1, eb);
        assert(emit_all(stack, it, eb) =~= stack.reverse().map_values(|c: CubicV| quad_of_v(c))) by {
            let lhs = seq![quad_of_v(c)] + emit_all(rest, it + 1, eb);
            let rhs = stack.reverse().map_values(|c0: CubicV| quad_of_v(c0));
            assert(emit_all(stack, it, eb) == lhs);
            assert(forall|i: int| 0 <= i < rhs.len() ==> rhs[i] == quad_of_v(stack[stack.len() - 1 - i]));
            assert(forall|i: int| 1 <= i < lhs.len() ==> lhs[i]
                == rest.reverse().map_values(|c0: CubicV| quad_of_v(c0))[i - 1]);
        }
    }
}


/// The pending stack right after construction from one cubic: the two
/// halves, the first half on top.
pub open spec fn initial_stack(c: CubicV) -> Seq<CubicV> {
    seq![split_r_v(c), split_l_v(c)]
}

/// Finiteness and continuity law for one approximated cubic: the
/// emitted quadratics are at least two and at most two more than the
/// iteration cap (so in particular far below two to the power of the
/// cap), consecutive ones meet end to end, the first starts at the
/// cubic's start, and the last ends at the cubic's end.
pub proof fn lemma_cubic_output_law(c: CubicV, eb: int)
    ensures
        ({
            let out = emit_all(initial_stack(c), 0, eb);
            &&& 2 <= out.len() <= 2 + MAX_APPROXIMATION_ITERATIONS as int
            &&& out.len() < 0x100000000
            &&& quads_chained(out)
            &&& out.first().from == c.from
            &&& out.last().to == c.to
        }),
{
    let st = initial_stack(c);
    assert(st.len() == 2);
    assert(st[0] == split_r_v(c));
    assert(st[1] == split_l_v(c));
    assert(stack_chained(st));
    lemma_emit_len(st, 0, eb);
    lemma_emit_continuity(st, 0, eb);
}

/// Fast-path law: when both halves of the cubic are already within the
/// bound (as they are for a degenerate cubic with zero deviation
/// vectors), the approximator yields exactly the two of them, fitted,
/// with no further subdivision.
pub proof fn lemma_fast_path(c: CubicV, eb: int)
    requires
        seg_within_bound(split_l_v(c), eb),
        seg_within_bound(split_r_v(c), eb),
    ensures
        emit_all(initial_stack(c), 0, eb).len() == 2,
        emit_all(initial_stack(c), 0, eb)
            == seq![quad_of_v(split_l_v(c)), quad_of_v(split_r_v(c))],
{
    let st = initial_stack(c);
    assert(forall|i: int| 0 <= i < st.len() ==> seg_within_bound(#[trigger] st[i], eb));
    lemma_all_within_emit_count(st, 0, eb);
    assert(st.reverse().map_values(|c0: CubicV| quad_of_v(c0))
        =~= seq![quad_of_v(split_l_v(c)), quad_of_v(split_r_v(c))]);
}

/// A segment within a bound is within every larger bound.
pub proof fn lemma_within_monotone(c: CubicV, eb1: int, eb2: int)
    requires
        0 <= eb1 <= eb2,
        seg_within_bound(c, eb1),
    ensures
        seg_within_bound(c, eb2),
{
    assert(36 * eb1 * eb1 <= 36 * eb2 * eb2) by (nonlinear_arith)
        requires 0 <= eb1 <= eb2;
}

/// The counter never moves backward.
pub proof fn lemma_run_iter_ge(stack: Seq<CubicV>, it: int, eb: int)
    ensures
        run_iter(stack, it, eb) >= it,
    decreases cap_left(it), stack.len(),
{
    if stack.len() == 0 {
    } else {
        let c = stack.last();
        let rest = stack.drop_last();
        if it >= MAX_APPROXIMATION_ITERATIONS as int {
            lemma_run_iter_ge(rest, it, eb);
        } else if seg_within_bound(c, eb) {
            lemma_run_iter_ge(rest, it + 1, eb);
        } else {
            lemma_run_iter_ge(rest.push(split_r_v(c)).push(split_l_v(c)), it + 1, eb);
        }
    }
}

/// Frame law: segments pushed on top of a base stack are drained first,
/// exactly as if they were alone, and the base is then drained from the
/// counter value they left behind.
pub proof fn lemma_emit_frame(base: Seq<CubicV>, ext: Seq<CubicV>, it: int, eb: int)
    ensures
        emit_all(base + ext, it, eb)
            == emit_all(ext, it, eb) + emit_all(base, run_iter(ext, it, eb), eb),
        converges(base + ext, it, eb)
            == (converges(ext, it, eb) && converges(base, run_iter(ext, it, eb), eb)),
        run_iter(base + ext, it, eb) == run_iter(base, run_iter(ext, it, eb), eb),
    decreases cap_left(it), ext.len(),
{
    if ext.len() == 0 {
        assert(base + ext =~= base);
        assert(emit_all(ext, it, eb) + emit_all(base, it, eb) =~= emit_all(base, it, eb));
    } else {
        let whole = base + ext;
        let c = ext.last();
        assert(whole.last() == c);
        assert(whole.drop_last() =~= base + ext.drop_last());
        if it >= MAX_APPROXIMATION_ITERATIONS as int {
            lemma_emit_frame(base, ext.drop_last(), it, eb);
            assert(emit_all(whole, it, eb)
                =~= emit_all(ext, it, eb) + emit_all(base, run_iter(ext, it, eb), eb));
        } else if seg_within_bound(c, eb) {
            lemma_emit_frame(base, ext.drop_last(), it + 1, eb);
            assert(emit_all(whole, it, eb)
                =~= emit_all(ext, it, eb) + emit_all(base, run_iter(ext, it, eb), eb));
        } else {
            let ext1 = ext.drop_last().push(split_r_v(c)).push(split_l_v(c));
            assert(whole.drop_last().push(split_r_v(c)).push(split_l_v(c)) =~= base + ext1);
            lemma_emit_frame(base, ext1, it + 1, eb);
            assert(ext1.last() == split_l_v(c));
            assert(ext1.drop_last() =~= ext.drop_last().push(split_r_v(c)));
        }
    }
}

/// Budget-shift law: a draining that converges from some counter value
/// makes exactly the same emissions from any smaller counter value, and
/// still converges.
pub proof fn lemma_emit_shift(stack: Seq<CubicV>, it1: int, it2: int, eb: int)
    requires
        it1 <= it2,
        converges(stack, it2, eb),
    ensures
        converges(stack, it1, eb),
        emit_all(stack, it1, eb) == emit_all(stack, it2, eb),
        run_iter(stack, it1, eb) == run_iter(stack, it2, eb) - (it2 - it1),
    decreases cap_left(it2), stack.len(),
{
    if stack.len() == 0 {
    } else {
        let c = stack.last();
        let rest = stack.drop_last();
        assert(it2 < MAX_APPROXIMATION_ITERATIONS as int);
        if seg_within_bound(c, eb) {
            lemma_emit_shift(rest, it1 + 1, it2 + 1, eb);
        } else {
            lemma_emit_shift(rest.push(split_r_v(c)).push(split_l_v(c)), it1 + 1, it2 + 1, eb);
        }
    }
}

/// Monotonicity law: as long as the run with the smaller error bound
/// never runs against the iteration cap, raising the error bound never
/// increases the number of emitted segments. (When the cap cuts a run
/// short, budget spent early on a tame region can starve a wild one, and
/// the count comparison can go either way.)
pub proof fn lemma_emit_monotone(stack: Seq<CubicV>, it: int, eb1: int, eb2: int)
    requires
        0 <= eb1 <= eb2,
        converges(stack, it, eb1),
    ensures
        emit_all(stack, it, eb2).len() <= emit_all(stack, it, eb1).len(),
    decreases cap_left(it), stack.len(),
{
    if stack.len() == 0 {
    } else {
        let c = stack.last();
        let rest = stack.drop_last();
        assert(it < MAX_APPROXIMATION_ITERATIONS as int);
        if seg_within_bound(c, eb1) {
            lemma_within_monotone(c, eb1, eb2);
            lemma_emit_monotone(rest, it + 1, eb1, eb2);
        } else if !seg_within_bound(c, eb2) {
            lemma_emit_monotone(rest.push(split_r_v(c)).push(split_l_v(c)), it + 1, eb1, eb2);
        } else {
            // the raised bound accepts the segment, the smaller bound
            // still splits it
            let ext = seq![split_r_v(c), split_l_v(c)];
            assert(rest.push(split_r_v(c)).push(split_l_v(c)) =~= rest + ext);
            lemma_emit_frame(rest, ext, it + 1, eb1);
            let j = run_iter(ext, it + 1, eb1);
            lemma_run_iter_ge(ext, it + 1, eb1);
            lemma_emit_len(ext, it + 1, eb1);
            lemma_emit_shift(rest, it + 1, j, eb1);
            lemma_emit_monotone(rest, it + 1, eb1, eb2);
            assert(emit_all(stack, it, eb1).len()
                == emit_all(ext, it + 1, eb1).len() + emit_all(rest, j, eb1).len());
            assert(emit_all(stack, it, eb2).len() == 1 + emit_all(rest, it + 1, eb2).len());
        }
    }
}

/// Monotonicity law at the constructor, for one cubic.
pub proof fn lemma_cubic_monotonicity(c: CubicV, eb1: int, eb2: int)
    requires
        0 <= eb1 <= eb2,
        converges(initial_stack(c), 0, eb1),
    ensures
        emit_all(initial_stack(c), 0, eb2).len() <= emit_all(initial_stack(c), 0, eb1).len(),
{
    lemma_emit_monotone(initial_stack(c), 0, eb1, eb2);
}

} // verus!
