//! The stack of active layers.
//!
//! The base layer, layer 0, is the bottom of the stack and never leaves it.
//! A layer that becomes active is put on top; no layer is on the stack twice.

use vstd::prelude::*;
use crate::action::Effect;

verus! {

/// `stack` with every entry equal to `layer` taken out, the rest in order.
pub open spec fn without(stack: Seq<usize>, layer: usize) -> Seq<usize>
    decreases stack.len(),
{
    if stack.len() == 0 {
        stack
    } else if stack.last() == layer {
        without(stack.drop_last(), layer)
    } else {
        without(stack.drop_last(), layer).push(stack.last())
    }
}

/// `stack` with `layer` on top, unless it is on the stack already.
pub open spec fn activate(stack: Seq<usize>, layer: usize) -> Seq<usize> {
    if stack.contains(layer) {
        stack
    } else {
        stack.push(layer)
    }
}

/// `stack` without `layer`; the base layer stays.
pub open spec fn deactivate(stack: Seq<usize>, layer: usize) -> Seq<usize> {
    if layer == 0 {
        stack
    } else {
        without(stack, layer)
    }
}

/// `stack` with `layer` taken out if it was there and put on top if it was
/// not; the base layer stays.
pub open spec fn toggle(stack: Seq<usize>, layer: usize) -> Seq<usize> {
    if layer == 0 {
        stack
    } else if stack.contains(layer) {
        without(stack, layer)
    } else {
        stack.push(layer)
    }
}

/// The stack once `effect` has begun.
pub open spec fn engage(stack: Seq<usize>, effect: Effect) -> Seq<usize> {
    match effect {
        Effect::Momentary(layer) => activate(stack, layer),
        Effect::Toggle(layer) => toggle(stack, layer),
        _ => stack,
    }
}

/// The stack once `effect` has ended. A toggled layer stays as it is.
pub open spec fn disengage(stack: Seq<usize>, effect: Effect) -> Seq<usize> {
    match effect {
        Effect::Momentary(layer) => deactivate(stack, layer),
        _ => stack,
    }
}

/// The base layer is at the bottom, every entry is one of the first `depth`
/// layers, and no layer is there twice.
pub open spec fn stack_ok(stack: Seq<usize>, depth: nat) -> bool {
    &&& stack.len() > 0
    &&& stack[0] == 0
    &&& forall|i: int| 0 <= i < stack.len() ==> #[trigger] stack[i] < depth
    &&& forall|i: int, j: int|
        0 <= i < stack.len() && 0 <= j < stack.len() && #[trigger] stack[i] == #[trigger] stack[j]
            ==> i == j
}

/// What `without` keeps: exactly the entries other than `layer`, each once
/// if it was there once, and the bottom entry at the bottom.
pub proof fn without_keeps(stack: Seq<usize>, layer: usize)
    ensures
        forall|x: usize| #[trigger] without(stack, layer).contains(x) <==> stack.contains(x) && x != layer,
        without(stack, layer).len() <= stack.len(),
        stack.len() > 0 && stack[0] != layer ==> without(stack, layer).len() > 0 && without(
            stack,
            layer,
        )[0] == stack[0],
        (forall|i: int, j: int|
            0 <= i < stack.len() && 0 <= j < stack.len() && #[trigger] stack[i]
                == #[trigger] stack[j] ==> i == j) ==> (forall|i: int, j: int|
            0 <= i < without(stack, layer).len() && 0 <= j < without(stack, layer).len()
                && #[trigger] without(stack, layer)[i] == #[trigger] without(stack, layer)[j] ==> i
                == j),
    decreases stack.len(),
{
    let out = without(stack, layer);
    if stack.len() > 0 {
        let rest = stack.drop_last();
        let last = stack.last();
        let kept = without(rest, layer);
        without_keeps(rest, layer);
        assert forall|x: usize| #[trigger] out.contains(x) <==> stack.contains(x) && x
            != layer by {
            if out.contains(x) {
                let k = choose|k: int| 0 <= k < out.len() && out[k] == x;
                if last != layer && k == kept.len() {
                    assert(stack[stack.len() - 1] == x);
                } else {
                    assert(kept[k] == x);
                    assert(kept.contains(x));
                    let m = choose|m: int| 0 <= m < rest.len() && rest[m] == x;
                    assert(stack[m] == x);
                }
            }
            if stack.contains(x) && x != layer {
                let m = choose|m: int| 0 <= m < stack.len() && stack[m] == x;
                if m == stack.len() - 1 {
                    assert(out[kept.len() as int] == x);
                } else {
                    assert(rest[m] == x);
                    assert(rest.contains(x));
                    assert(kept.contains(x));
                    let k = choose|k: int| 0 <= k < kept.len() && kept[k] == x;
                    assert(out[k] == x);
                }
            }
        }
        if stack[0] != layer {
            if rest.len() > 0 {
                assert(rest[0] == stack[0]);
            }
        }
        if forall|i: int, j: int|
            0 <= i < stack.len() && 0 <= j < stack.len() && #[trigger] stack[i]
                == #[trigger] stack[j] ==> i == j {
            assert forall|i: int, j: int|
                0 <= i < rest.len() && 0 <= j < rest.len() && #[trigger] rest[i]
                    == #[trigger] rest[j] implies i == j by {
                assert(stack[i] == stack[j]);
            }
            assert forall|i: int, j: int|
                0 <= i < out.len() && 0 <= j < out.len() && #[trigger] out[i]
                    == #[trigger] out[j] implies i == j by {
                if last != layer {
                    if i == kept.len() && j < kept.len() {
                        assert(kept[j] == last);
                        assert(kept.contains(last));
                        let m = choose|m: int| 0 <= m < rest.len() && rest[m] == last;
                        assert(stack[m] == stack[stack.len() - 1]);
                    } else if j == kept.len() && i < kept.len() {
                        assert(kept[i] == last);
                        assert(kept.contains(last));
                        let m = choose|m: int| 0 <= m < rest.len() && rest[m] == last;
                        assert(stack[m] == stack[stack.len() - 1]);
                    } else if i < kept.len() && j < kept.len() {
                        assert(kept[i] == kept[j]);
                    }
                } else {
                    assert(kept[i] == kept[j]);
                }
            }
        }
    }
}

/// A stack that is in order stays in order when an effect that names only
/// existing layers begins.
pub proof fn engage_keeps_order(stack: Seq<usize>, effect: Effect, depth: nat)
    requires
        stack_ok(stack, depth),
        effect.within(depth),
    ensures
        stack_ok(engage(stack, effect), depth),
{
    match effect {
        Effect::Momentary(layer) => {
            if !stack.contains(layer) {
                push_keeps_order(stack, layer, depth);
            }
        },
        Effect::Toggle(layer) => {
            if layer != 0 {
                if stack.contains(layer) {
                    without_keeps_order(stack, layer, depth);
                } else {
                    push_keeps_order(stack, layer, depth);
                }
            }
        },
        _ => {},
    }
}

/// A stack that is in order stays in order when an effect ends.
pub proof fn disengage_keeps_order(stack: Seq<usize>, effect: Effect, depth: nat)
    requires
        stack_ok(stack, depth),
    ensures
        stack_ok(disengage(stack, effect), depth),
{
    match effect {
        Effect::Momentary(layer) => {
            if layer != 0 {
                without_keeps_order(stack, layer, depth);
            }
        },
        _ => {},
    }
}

proof fn push_keeps_order(stack: Seq<usize>, layer: usize, depth: nat)
    requires
        stack_ok(stack, depth),
        layer < depth,
        !stack.contains(layer),
    ensures
        stack_ok(stack.push(layer), depth),
{
    let out = stack.push(layer);
    assert forall|i: int, j: int|
        0 <= i < out.len() && 0 <= j < out.len() && #[trigger] out[i] == #[trigger] out[j] implies i
        == j by {
        if i < stack.len() && j < stack.len() {
            assert(stack[i] == stack[j]);
        } else if i < stack.len() {
            assert(stack[i] == layer);
            assert(stack.contains(layer));
        } else if j < stack.len() {
            assert(stack[j] == layer);
            assert(stack.contains(layer));
        }
    }
}

proof fn without_keeps_order(stack: Seq<usize>, layer: usize, depth: nat)
    requires
        stack_ok(stack, depth),
        layer != 0,
    ensures
        stack_ok(without(stack, layer), depth),
{
    let out = without(stack, layer);
    without_keeps(stack, layer);
    assert forall|i: int| 0 <= i < out.len() implies #[trigger] out[i] < depth by {
        assert(out.contains(out[i]));
        let m = choose|m: int| 0 <= m < stack.len() && stack[m] == out[i];
        assert(stack[m] < depth);
    }
}

/// Whether `layer` is on the stack.
pub fn is_active(stack: &Vec<usize>, layer: usize) -> (yes: bool)
    ensures
        yes == stack@.contains(layer),
{
    let mut i: usize = 0;
    while i < stack.len()
        invariant
            i <= stack@.len(),
            forall|k: int| 0 <= k < i ==> stack@[k] != layer,
        decreases stack@.len() - i,
    {
        if stack[i] == layer {
            return true;
        }
        i += 1;
    }
    false
}

/// Takes `layer` off the stack.
pub fn take_out(stack: &mut Vec<usize>, layer: usize)
    ensures
        final(stack)@ == without(old(stack)@, layer),
{
    let mut kept: Vec<usize> = Vec::new();
    let mut i: usize = 0;
    while i < stack.len()
        invariant
            i <= stack@.len(),
            stack@ == old(stack)@,
            kept@ == without(stack@.take(i as int), layer),
        decreases stack@.len() - i,
    {
        let entry: usize = stack[i];
        proof {
            let longer = stack@.take(i as int + 1);
            assert(longer.drop_last() =~= stack@.take(i as int));
            assert(longer.last() == entry);
        }
        if entry != layer {
            kept.push(entry);
        }
        i += 1;
    }
    assert(stack@.take(stack@.len() as int) =~= stack@);
    *stack = kept;
}

/// Changes the stack as the beginning of `effect` asks.
pub fn begin(stack: &mut Vec<usize>, effect: Effect)
    ensures
        final(stack)@ == engage(old(stack)@, effect),
{
    match effect {
        Effect::Momentary(layer) => {
            if !is_active(stack, layer) {
                stack.push(layer);
            }
        },
        Effect::Toggle(layer) => {
            if layer != 0 {
                if is_active(stack, layer) {
                    take_out(stack, layer);
                } else {
                    stack.push(layer);
                }
            }
        },
        _ => {},
    }
}

/// Changes the stack as the end of `effect` asks.
pub fn end(stack: &mut Vec<usize>, effect: Effect)
    ensures
        final(stack)@ == disengage(old(stack)@, effect),
{
    match effect {
        Effect::Momentary(layer) => {
            if layer != 0 {
                take_out(stack, layer);
            }
        },
        _ => {},
    }
}

} // verus!
