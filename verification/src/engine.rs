//! The action engine: from press and release events to the keys that are
//! reported.
//!
//! A switch is idle, or its key is down. A key that is down is in one of
//! three phases. If the action found for it at the press is a plain one, its
//! effect begins at once and the key is held. If the action is a tap-or-hold,
//! the key is pending: every tick is counted, and when the count reaches the
//! hold time the hold effect begins and the key is held with it. If a pending
//! key is released first, the tap effect begins at the release, lasts for one
//! report, and the switch is idle again.

use vstd::prelude::*;
use crate::action::{Action, Effect, Layout, LayoutView};
use crate::event::Event;
use crate::stack::{begin, disengage, disengage_keeps_order, end, engage, engage_keeps_order, stack_ok};

verus! {

/// How far a key that is down has come.
#[derive(Clone, Copy, Debug, PartialEq, Eq)]
pub enum Phase {
    /// A tap-or-hold key that has been down for `elapsed` ticks and is not
    /// decided yet.
    Pending { tap: Effect, hold: Effect, elapsed: u16 },
    /// The effect is in force until the key is released.
    Held(Effect),
    /// The key was tapped and is up again. The effect is in force for one
    /// report: `fresh` until the tick that precedes that report, gone at the
    /// tick after it.
    Tapped { effect: Effect, fresh: bool },
}

/// A key that is not idle.
#[derive(Clone, Copy, Debug, PartialEq, Eq)]
pub struct Key {
    pub row: usize,
    pub col: usize,
    pub phase: Phase,
}

impl Phase {
    /// The key codes that a key in this phase reports.
    pub open spec fn codes(self) -> Seq<u8> {
        match self {
            Phase::Pending { .. } => Seq::empty(),
            Phase::Held(effect) => effect.codes(),
            Phase::Tapped { effect, .. } => effect.codes(),
        }
    }

    /// Whether the next tick decides a pending key or ends a tap.
    pub open spec fn due(self, hold_ticks: nat) -> bool {
        match self {
            Phase::Pending { elapsed, .. } => elapsed + 1 >= hold_ticks,
            Phase::Held(_) => false,
            Phase::Tapped { fresh, .. } => !fresh,
        }
    }

    /// Whether the next tick changes the key codes that the key reports: it
    /// does when it decides a pending key for a hold effect that reports
    /// some, or ends a tap that reported some.
    pub open spec fn alters_codes(self, hold_ticks: nat) -> bool {
        match self {
            Phase::Pending { hold, elapsed, .. } => elapsed + 1 >= hold_ticks && hold.codes().len()
                > 0,
            Phase::Held(_) => false,
            Phase::Tapped { effect, fresh } => !fresh && effect.codes().len() > 0,
        }
    }

    /// The phase after a tick, or `None` where the tick makes the switch
    /// idle.
    pub open spec fn after_tick(self, hold_ticks: nat) -> Option<Phase> {
        match self {
            Phase::Pending { tap, hold, elapsed } => if elapsed + 1 >= hold_ticks {
                Some(Phase::Held(hold))
            } else {
                Some(Phase::Pending { tap, hold, elapsed: (elapsed + 1) as u16 })
            },
            Phase::Held(effect) => Some(Phase::Held(effect)),
            Phase::Tapped { effect, fresh } => if fresh {
                Some(Phase::Tapped { effect, fresh: false })
            } else {
                None
            },
        }
    }

    /// The stack of active layers after a tick has dealt with a key in this
    /// phase.
    pub open spec fn stack_after_tick(self, stack: Seq<usize>, hold_ticks: nat) -> Seq<usize> {
        match self {
            Phase::Pending { hold, elapsed, .. } => if elapsed + 1 >= hold_ticks {
                engage(stack, hold)
            } else {
                stack
            },
            Phase::Held(_) => stack,
            Phase::Tapped { effect, fresh } => if fresh {
                stack
            } else {
                disengage(stack, effect)
            },
        }
    }

    /// The effects of the phase name only layers among the first `depth`,
    /// and a pending key has not reached the hold time.
    pub open spec fn sound(self, depth: nat, hold_ticks: nat) -> bool {
        match self {
            Phase::Pending { tap, hold, elapsed } => tap.within(depth) && hold.within(depth) && (
            elapsed == 0 || elapsed < hold_ticks),
            Phase::Held(effect) => effect.within(depth),
            Phase::Tapped { effect, .. } => effect.within(depth),
        }
    }
}

/// The phase of the key at `(r, c)` among `keys`, or `None` if the switch is
/// idle.
pub open spec fn phase_in(keys: Seq<Key>, r: usize, c: usize) -> Option<Phase>
    decreases keys.len(),
{
    if keys.len() == 0 {
        None
    } else if keys.last().row == r && keys.last().col == c {
        Some(keys.last().phase)
    } else {
        phase_in(keys.drop_last(), r, c)
    }
}

/// The place of the key at `(r, c)` among `keys`, or `None` if the switch is
/// idle.
pub open spec fn index_in(keys: Seq<Key>, r: usize, c: usize) -> Option<int>
    decreases keys.len(),
{
    if keys.len() == 0 {
        None
    } else if keys.last().row == r && keys.last().col == c {
        Some(keys.len() - 1)
    } else {
        index_in(keys.drop_last(), r, c)
    }
}

/// No switch has two keys.
pub open spec fn distinct(keys: Seq<Key>) -> bool
    decreases keys.len(),
{
    keys.len() == 0 || (distinct(keys.drop_last()) && phase_in(
        keys.drop_last(),
        keys.last().row,
        keys.last().col,
    ) is None)
}

/// The key codes that `keys` report, in the order of the keys.
pub open spec fn codes_of(keys: Seq<Key>) -> Seq<u8>
    decreases keys.len(),
{
    if keys.len() == 0 {
        Seq::empty()
    } else {
        codes_of(keys.drop_last()) + keys.last().phase.codes()
    }
}

/// What an [`Engine`] stands for.
pub struct EngineView {
    /// The layers.
    pub layout: LayoutView,
    /// The number of ticks after which a pending key is held.
    pub hold_ticks: nat,
    /// The active layers, the base layer first and the topmost last.
    pub stack: Seq<usize>,
    /// The keys that are down or tapped, in the order in which they were
    /// pressed.
    pub keys: Seq<Key>,
}

impl EngineView {
    /// The layers are valid, the stack is in order, and the keys are keys of
    /// distinct switches of the matrix, each in a sound phase.
    pub open spec fn valid(self) -> bool {
        &&& self.layout.valid()
        &&& self.hold_ticks <= u16::MAX
        &&& stack_ok(self.stack, self.layout.depth())
        &&& distinct(self.keys)
        &&& forall|i: int|
            0 <= i < self.keys.len() ==> self.layout.contains(
                (#[trigger] self.keys[i]).row as int,
                self.keys[i].col as int,
            ) && self.keys[i].phase.sound(self.layout.depth(), self.hold_ticks)
    }

    /// The phase of the key at `(r, c)`, or `None` if the switch is idle.
    pub open spec fn phase_at(self, r: usize, c: usize) -> Option<Phase> {
        phase_in(self.keys, r, c)
    }

    /// The key codes that are reported now.
    pub open spec fn codes(self) -> Seq<u8> {
        codes_of(self.keys)
    }

    /// The state after the switch at `(r, c)` was pressed. A press of a
    /// switch that is not idle, or not a switch of the matrix, changes
    /// nothing.
    pub open spec fn press(self, r: usize, c: usize) -> EngineView {
        if !self.layout.contains(r as int, c as int) || phase_in(self.keys, r, c) is Some {
            self
        } else {
            match self.layout.lookup(self.stack, r as int, c as int) {
                Action::TapHold { tap, hold } => EngineView {
                    keys: self.keys.push(
                        Key { row: r, col: c, phase: Phase::Pending { tap, hold, elapsed: 0 } },
                    ),
                    ..self
                },
                Action::Plain(effect) => EngineView {
                    keys: self.keys.push(Key { row: r, col: c, phase: Phase::Held(effect) }),
                    stack: engage(self.stack, effect),
                    ..self
                },
                Action::Transparent => EngineView {
                    keys: self.keys.push(Key { row: r, col: c, phase: Phase::Held(Effect::Nothing) }),
                    ..self
                },
            }
        }
    }

    /// The state after the switch at `(r, c)` was released. The release of a
    /// switch that is idle, or whose tap is still being reported, changes
    /// nothing.
    pub open spec fn release(self, r: usize, c: usize) -> EngineView {
        match index_in(self.keys, r, c) {
            None => self,
            Some(i) => match self.keys[i].phase {
                Phase::Pending { tap, .. } => EngineView {
                    keys: self.keys.update(
                        i,
                        Key { row: r, col: c, phase: Phase::Tapped { effect: tap, fresh: true } },
                    ),
                    stack: engage(self.stack, tap),
                    ..self
                },
                Phase::Held(effect) => EngineView {
                    keys: self.keys.remove(i),
                    stack: disengage(self.stack, effect),
                    ..self
                },
                Phase::Tapped { .. } => self,
            },
        }
    }

    /// The state after an event.
    pub open spec fn event(self, event: Event) -> EngineView {
        match event {
            Event::Press(r, c) => self.press(r, c),
            Event::Release(r, c) => self.release(r, c),
        }
    }

    /// The state after the events `events`, in order.
    pub open spec fn feed(self, events: Seq<Event>) -> EngineView
        decreases events.len(),
    {
        if events.len() == 0 {
            self
        } else {
            self.feed(events.drop_last()).event(events.last())
        }
    }

    /// The stack and the keys after a tick has dealt with the first `n`
    /// keys, oldest first.
    pub open spec fn tick_upto(self, n: int) -> (Seq<usize>, Seq<Key>)
        decreases n,
    {
        if n <= 0 {
            (self.stack, Seq::empty())
        } else {
            let (stack, keys) = self.tick_upto(n - 1);
            let key = self.keys[n - 1];
            (
                key.phase.stack_after_tick(stack, self.hold_ticks),
                match key.phase.after_tick(self.hold_ticks) {
                    Some(phase) => keys.push(Key { phase, ..key }),
                    None => keys,
                },
            )
        }
    }

    /// The state after a tick.
    pub open spec fn tick(self) -> EngineView {
        EngineView {
            stack: self.tick_upto(self.keys.len() as int).0,
            keys: self.tick_upto(self.keys.len() as int).1,
            ..self
        }
    }

    /// The state after `n` ticks.
    pub open spec fn ticks(self, n: nat) -> EngineView
        decreases n,
    {
        if n == 0 {
            self
        } else {
            self.ticks((n - 1) as nat).tick()
        }
    }

    /// No key is decided or ended by the next tick.
    pub open spec fn quiet(self) -> bool {
        forall|i: int| 0 <= i < self.keys.len() ==> !(#[trigger] self.keys[i]).phase.due(self.hold_ticks)
    }

    /// No key reports other key codes after the next tick than before it.
    pub open spec fn steady(self) -> bool {
        forall|i: int|
            0 <= i < self.keys.len() ==> !(#[trigger] self.keys[i]).phase.alters_codes(
                self.hold_ticks,
            )
    }
}

/// A key that is not among `keys` is not among them after one is taken out.
pub proof fn absent_after_remove(keys: Seq<Key>, i: int, r: usize, c: usize)
    requires
        0 <= i < keys.len(),
        phase_in(keys, r, c) is None,
    ensures
        phase_in(keys.remove(i), r, c) is None,
    decreases keys.len(),
{
    if i < keys.len() - 1 {
        assert(keys.remove(i).drop_last() =~= keys.drop_last().remove(i));
        assert(keys.remove(i).last() == keys.last());
        absent_after_remove(keys.drop_last(), i, r, c);
    } else {
        assert(keys.remove(i) =~= keys.drop_last());
    }
}

/// Taking a key out leaves distinct keys distinct.
pub proof fn distinct_after_remove(keys: Seq<Key>, i: int)
    requires
        0 <= i < keys.len(),
        distinct(keys),
    ensures
        distinct(keys.remove(i)),
    decreases keys.len(),
{
    if i < keys.len() - 1 {
        assert(keys.remove(i).drop_last() =~= keys.drop_last().remove(i));
        assert(keys.remove(i).last() == keys.last());
        distinct_after_remove(keys.drop_last(), i);
        absent_after_remove(keys.drop_last(), i, keys.last().row, keys.last().col);
    } else {
        assert(keys.remove(i) =~= keys.drop_last());
    }
}

/// Where `index_in` finds a key, that key is at the coordinate asked for and
/// has the phase that `phase_in` gives; where it finds none, neither does
/// `phase_in`.
pub proof fn index_finds(keys: Seq<Key>, r: usize, c: usize)
    ensures
        index_in(keys, r, c) is None <==> phase_in(keys, r, c) is None,
        index_in(keys, r, c) matches Some(i) ==> 0 <= i < keys.len() && keys[i].row == r
            && keys[i].col == c && phase_in(keys, r, c) == Some(keys[i].phase),
    decreases keys.len(),
{
    if keys.len() > 0 {
        index_finds(keys.drop_last(), r, c);
    }
}

/// Among distinct keys, the key that `index_in` finds is the only one at its
/// coordinate: once it is taken out the switch is idle, and no other switch
/// is touched.
pub proof fn remove_found(keys: Seq<Key>, r: usize, c: usize, x: usize, y: usize)
    requires
        distinct(keys),
        index_in(keys, r, c) is Some,
    ensures
        phase_in(keys.remove(index_in(keys, r, c)->0), x, y) == (if x == r && y == c {
            None
        } else {
            phase_in(keys, x, y)
        }),
    decreases keys.len(),
{
    index_finds(keys, r, c);
    let i = index_in(keys, r, c)->0;
    if i < keys.len() - 1 {
        assert(keys.remove(i).drop_last() =~= keys.drop_last().remove(i));
        assert(keys.remove(i).last() == keys.last());
        remove_found(keys.drop_last(), r, c, x, y);
    } else {
        assert(keys.remove(i) =~= keys.drop_last());
    }
}

/// Changing the phase of the key that `index_in` finds changes the phase at
/// its coordinate and at no other, and leaves the keys distinct.
pub proof fn update_found(keys: Seq<Key>, r: usize, c: usize, phase: Phase, x: usize, y: usize)
    requires
        index_in(keys, r, c) is Some,
    ensures
        phase_in(keys.update(index_in(keys, r, c)->0, Key { row: r, col: c, phase }), x, y) == (if x
            == r && y == c {
            Some(phase)
        } else {
            phase_in(keys, x, y)
        }),
        distinct(keys) ==> distinct(
            keys.update(index_in(keys, r, c)->0, Key { row: r, col: c, phase }),
        ),
    decreases keys.len(),
{
    index_finds(keys, r, c);
    let i = index_in(keys, r, c)->0;
    let changed = keys.update(i, Key { row: r, col: c, phase });
    if i < keys.len() - 1 {
        assert(changed.drop_last() =~= keys.drop_last().update(i, Key { row: r, col: c, phase }));
        assert(changed.last() == keys.last());
        update_found(keys.drop_last(), r, c, phase, x, y);
        update_found(keys.drop_last(), r, c, phase, keys.last().row, keys.last().col);
    } else {
        assert(changed.drop_last() =~= keys.drop_last());
    }
}

impl EngineView {
    /// A press leaves a valid state valid.
    pub proof fn press_keeps_valid(self, r: usize, c: usize)
        requires
            self.valid(),
        ensures
            self.press(r, c).valid(),
    {
        if self.layout.contains(r as int, c as int) && phase_in(self.keys, r, c) is None {
            self.layout.lookup_is_assigned(self.stack, r as int, c as int);
            let after = self.press(r, c);
            assert(after.keys.drop_last() =~= self.keys);
            match self.layout.lookup(self.stack, r as int, c as int) {
                Action::Plain(effect) => {
                    engage_keeps_order(self.stack, effect, self.layout.depth());
                },
                _ => {},
            }
        }
    }

    /// A release leaves a valid state valid.
    pub proof fn release_keeps_valid(self, r: usize, c: usize)
        requires
            self.valid(),
        ensures
            self.release(r, c).valid(),
    {
        index_finds(self.keys, r, c);
        match index_in(self.keys, r, c) {
            None => {},
            Some(i) => {
                match self.keys[i].phase {
                    Phase::Pending { tap, .. } => {
                        update_found(
                            self.keys,
                            r,
                            c,
                            Phase::Tapped { effect: tap, fresh: true },
                            r,
                            c,
                        );
                        engage_keeps_order(self.stack, tap, self.layout.depth());
                    },
                    Phase::Held(effect) => {
                        distinct_after_remove(self.keys, i);
                        disengage_keeps_order(self.stack, effect, self.layout.depth());
                    },
                    Phase::Tapped { .. } => {},
                }
            },
        }
    }

    /// An event leaves a valid state valid.
    pub proof fn event_keeps_valid(self, event: Event)
        requires
            self.valid(),
        ensures
            self.event(event).valid(),
    {
        match event {
            Event::Press(r, c) => self.press_keeps_valid(r, c),
            Event::Release(r, c) => self.release_keeps_valid(r, c),
        }
    }

    /// Any events leave a valid state valid.
    pub proof fn feed_keeps_valid(self, events: Seq<Event>)
        requires
            self.valid(),
        ensures
            self.feed(events).valid(),
            self.feed(events).layout == self.layout,
            self.feed(events).hold_ticks == self.hold_ticks,
        decreases events.len(),
    {
        if events.len() > 0 {
            self.feed_keeps_valid(events.drop_last());
            self.feed(events.drop_last()).event_keeps_valid(events.last());
        }
    }

    /// What a tick has done once it has dealt with the first `n` keys: the
    /// stack is in order, the keys it has kept are sound keys of the matrix,
    /// and at every coordinate the phase is the one that the tick gives to
    /// the phase that was there.
    pub proof fn tick_upto_tracks(self, n: int)
        requires
            self.valid(),
            0 <= n <= self.keys.len(),
        ensures
            stack_ok(self.tick_upto(n).0, self.layout.depth()),
            distinct(self.tick_upto(n).1),
            self.tick_upto(n).1.len() <= n,
            forall|i: int|
                0 <= i < self.tick_upto(n).1.len() ==> self.layout.contains(
                    (#[trigger] self.tick_upto(n).1[i]).row as int,
                    self.tick_upto(n).1[i].col as int,
                ) && self.tick_upto(n).1[i].phase.sound(self.layout.depth(), self.hold_ticks),
            forall|r: usize, c: usize|
                #[trigger] phase_in(self.tick_upto(n).1, r, c) == (match phase_in(
                    self.keys.take(n),
                    r,
                    c,
                ) {
                    Some(phase) => phase.after_tick(self.hold_ticks),
                    None => None,
                }),
        decreases n,
    {
        let out = self.tick_upto(n).1;
        if n > 0 {
            self.tick_upto_tracks(n - 1);
            self.prefix_distinct(n);
            let (stack, kept) = self.tick_upto(n - 1);
            let key = self.keys[n - 1];
            let depth = self.layout.depth();
            assert(self.keys.take(n).drop_last() =~= self.keys.take(n - 1));
            assert(self.keys.take(n).last() == key);
            assert(key.phase.sound(depth, self.hold_ticks));
            match key.phase {
                Phase::Pending { hold, elapsed, .. } => {
                    if elapsed + 1 >= self.hold_ticks {
                        engage_keeps_order(stack, hold, depth);
                    }
                },
                Phase::Held(_) => {},
                Phase::Tapped { effect, fresh } => {
                    if !fresh {
                        disengage_keeps_order(stack, effect, depth);
                    }
                },
            }
            assert(phase_in(self.keys.take(n - 1), key.row, key.col) is None);
            assert(phase_in(kept, key.row, key.col) is None);
            match key.phase.after_tick(self.hold_ticks) {
                Some(phase) => {
                    assert(out == kept.push(Key { phase, ..key }));
                    assert(out.drop_last() =~= kept);
                    assert(out.last() == Key { phase, ..key });
                },
                None => {
                    assert(out == kept);
                },
            }
            assert forall|r: usize, c: usize|
                #[trigger] phase_in(out, r, c) == (match phase_in(self.keys.take(n), r, c) {
                    Some(phase) => phase.after_tick(self.hold_ticks),
                    None => None,
                }) by {
                let before = phase_in(kept, r, c);
                assert(before == (match phase_in(self.keys.take(n - 1), r, c) {
                    Some(phase) => phase.after_tick(self.hold_ticks),
                    None => None,
                }));
            }
        } else {
            assert(self.keys.take(0) =~= Seq::<Key>::empty());
            assert(out =~= Seq::<Key>::empty());
        }
    }

    /// The first `n` of distinct keys are distinct.
    pub proof fn prefix_distinct(self, n: int)
        requires
            distinct(self.keys),
            0 <= n <= self.keys.len(),
        ensures
            distinct(self.keys.take(n)),
        decreases self.keys.len() - n,
    {
        if n < self.keys.len() {
            self.prefix_distinct(n + 1);
            assert(self.keys.take(n + 1).drop_last() =~= self.keys.take(n));
        } else {
            assert(self.keys.take(n) =~= self.keys);
        }
    }

    /// A tick leaves a valid state valid, and gives every key the phase that
    /// follows its own; an idle switch stays idle.
    pub proof fn tick_keeps_valid(self)
        requires
            self.valid(),
        ensures
            self.tick().valid(),
            forall|r: usize, c: usize|
                #[trigger] self.tick().phase_at(r, c) == (match self.phase_at(r, c) {
                    Some(phase) => phase.after_tick(self.hold_ticks),
                    None => None,
                }),
    {
        self.tick_upto_tracks(self.keys.len() as int);
        assert(self.keys.take(self.keys.len() as int) =~= self.keys);
    }

    /// Any number of ticks leave a valid state valid.
    pub proof fn ticks_keep_valid(self, n: nat)
        requires
            self.valid(),
        ensures
            self.ticks(n).valid(),
            self.ticks(n).hold_ticks == self.hold_ticks,
            self.ticks(n).layout == self.layout,
        decreases n,
    {
        if n > 0 {
            self.ticks_keep_valid((n - 1) as nat);
            self.ticks((n - 1) as nat).tick_keeps_valid();
        }
    }

    /// While no key is due, a tick takes no key away and leaves the stack as
    /// it is.
    pub proof fn quiet_tick_upto(self, n: int)
        requires
            self.quiet(),
            0 <= n <= self.keys.len(),
        ensures
            self.tick_upto(n).0 == self.stack,
            self.tick_upto(n).1.len() == n,
        decreases n,
    {
        if n > 0 {
            self.quiet_tick_upto(n - 1);
            assert(!self.keys[n - 1].phase.due(self.hold_ticks));
        }
    }

    /// While every key reports after the tick what it reported before, so do
    /// they all together.
    pub proof fn steady_tick_upto(self, n: int)
        requires
            self.steady(),
            0 <= n <= self.keys.len(),
        ensures
            codes_of(self.tick_upto(n).1) == codes_of(self.keys.take(n)),
        decreases n,
    {
        if n > 0 {
            self.steady_tick_upto(n - 1);
            let kept = self.tick_upto(n - 1).1;
            let key = self.keys[n - 1];
            assert(!key.phase.alters_codes(self.hold_ticks));
            assert(self.keys.take(n).drop_last() =~= self.keys.take(n - 1));
            assert(self.keys.take(n).last() == key);
            match key.phase.after_tick(self.hold_ticks) {
                Some(phase) => {
                    assert(phase.codes() =~= key.phase.codes());
                    assert(kept.push(Key { phase, ..key }).drop_last() =~= kept);
                },
                None => {
                    assert(codes_of(kept) + key.phase.codes() =~= codes_of(kept));
                },
            }
        } else {
            assert(self.keys.take(0) =~= Seq::<Key>::empty());
        }
    }

    /// A tick never makes an idle switch anything but idle. While no key
    /// is decided for a hold that reports key codes and no tap that reported
    /// some ends, a tick does not change the key codes that are reported, and
    /// so not the report. While no key is decided or ended at all, it does
    /// not change the active layers either.
    pub proof fn tick_without_events(self, r: usize, c: usize)
        requires
            self.valid(),
        ensures
            self.phase_at(r, c) is None ==> self.tick().phase_at(r, c) is None,
            self.steady() ==> self.tick().codes() == self.codes(),
            self.quiet() ==> self.tick().stack == self.stack,
    {
        self.tick_keeps_valid();
        assert(self.keys.take(self.keys.len() as int) =~= self.keys);
        if self.steady() {
            self.steady_tick_upto(self.keys.len() as int);
        }
        if self.quiet() {
            self.quiet_tick_upto(self.keys.len() as int);
        }
    }

    /// A key that stays down is pending for as long as the ticks since its
    /// press are fewer than the hold time, and counts them.
    pub proof fn pending_counts_ticks(self, r: usize, c: usize, tap: Effect, hold: Effect, n: nat)
        requires
            self.valid(),
            self.phase_at(r, c) == Some(Phase::Pending { tap, hold, elapsed: 0 }),
            n < self.hold_ticks,
        ensures
            self.ticks(n).phase_at(r, c) == Some(Phase::Pending { tap, hold, elapsed: n as u16 }),
        decreases n,
    {
        if n > 0 {
            self.pending_counts_ticks(r, c, tap, hold, (n - 1) as nat);
            self.ticks_keep_valid((n - 1) as nat);
            let earlier = self.ticks((n - 1) as nat);
            earlier.tick_keeps_valid();
            earlier.at_found(r, c);
            assert(earlier.tick().phase_at(r, c) == (Phase::Pending {
                tap,
                hold,
                elapsed: (n - 1) as u16,
            }).after_tick(self.hold_ticks));
        }
    }

    /// The phase found at a coordinate is the phase of one of the keys.
    pub proof fn at_found(self, r: usize, c: usize)
        requires
            self.valid(),
            self.phase_at(r, c) is Some,
        ensures
            self.phase_at(r, c)->0.sound(self.layout.depth(), self.hold_ticks),
    {
        index_finds(self.keys, r, c);
    }

    /// A tap-or-hold key that is released when one tick fewer than the hold
    /// time has passed since its press is a tap: the tap effect begins at
    /// the release.
    pub proof fn release_before_hold_time_taps(self, r: usize, c: usize, tap: Effect, hold: Effect)
        requires
            self.valid(),
            self.layout.contains(r as int, c as int),
            self.phase_at(r, c) is None,
            self.layout.lookup(self.stack, r as int, c as int) == (Action::TapHold { tap, hold }),
            self.hold_ticks >= 1,
        ensures
            self.press(r, c).ticks((self.hold_ticks - 1) as nat).release(r, c).phase_at(r, c)
                == Some(Phase::Tapped { effect: tap, fresh: true }),
            self.press(r, c).ticks((self.hold_ticks - 1) as nat).release(r, c).stack == engage(
                self.press(r, c).ticks((self.hold_ticks - 1) as nat).stack,
                tap,
            ),
    {
        let pressed = self.press(r, c);
        self.press_keeps_valid(r, c);
        assert(pressed.keys.drop_last() =~= self.keys);
        let n = (self.hold_ticks - 1) as nat;
        pressed.pending_counts_ticks(r, c, tap, hold, n);
        pressed.ticks_keep_valid(n);
        let waited = pressed.ticks(n);
        index_finds(waited.keys, r, c);
        update_found(waited.keys, r, c, Phase::Tapped { effect: tap, fresh: true }, r, c);
    }

    /// A tap-or-hold key that is still down when as many ticks as the hold
    /// time have passed since its press is held, with the hold effect.
    pub proof fn down_for_hold_time_holds(self, r: usize, c: usize, tap: Effect, hold: Effect)
        requires
            self.valid(),
            self.layout.contains(r as int, c as int),
            self.phase_at(r, c) is None,
            self.layout.lookup(self.stack, r as int, c as int) == (Action::TapHold { tap, hold }),
            self.hold_ticks >= 1,
        ensures
            self.press(r, c).ticks(self.hold_ticks).phase_at(r, c) == Some(Phase::Held(hold)),
            self.press(r, c).ticks(self.hold_ticks).release(r, c).phase_at(r, c) is None,
    {
        let pressed = self.press(r, c);
        self.press_keeps_valid(r, c);
        assert(pressed.keys.drop_last() =~= self.keys);
        let n = (self.hold_ticks - 1) as nat;
        pressed.pending_counts_ticks(r, c, tap, hold, n);
        pressed.ticks_keep_valid(n);
        let waited = pressed.ticks(n);
        waited.tick_keeps_valid();
        let held = pressed.ticks(self.hold_ticks);
        assert(held == waited.tick());
        index_finds(held.keys, r, c);
        remove_found(held.keys, r, c, r, c);
    }
}

/// The action engine of one keyboard.
#[derive(Debug)]
pub struct Engine {
    layout: Layout,
    hold_ticks: u16,
    stack: Vec<usize>,
    keys: Vec<Key>,
}

impl View for Engine {
    type V = EngineView;

    closed spec fn view(&self) -> EngineView {
        EngineView {
            layout: self.layout@,
            hold_ticks: self.hold_ticks as nat,
            stack: self.stack@,
            keys: self.keys@,
        }
    }
}

/// Appends the key codes that `effect` reports.
fn push_codes(codes: &mut Vec<u8>, effect: Effect)
    ensures
        final(codes)@ == old(codes)@ + effect.codes(),
{
    match effect {
        Effect::Key(code) => {
            codes.push(code);
            assert(codes@ =~= old(codes)@ + effect.codes());
        },
        Effect::Chord(chord) => {
            let mut j: usize = 0;
            while j < 4
                invariant
                    j <= 4,
                    chord@.len() == 4,
                    codes@ == old(codes)@ + chord@.take(j as int),
                decreases 4 - j,
            {
                codes.push(chord[j]);
                j += 1;
                assert(codes@ =~= old(codes)@ + chord@.take(j as int));
            }
            assert(chord@.take(4) =~= chord@);
        },
        _ => {
            assert(codes@ =~= old(codes)@ + effect.codes());
        },
    }
}

impl Engine {
    /// The state is a valid one.
    pub open spec fn wf(&self) -> bool {
        self@.valid()
    }

    /// An engine over `layout` in which a pending key is held once it has
    /// been down for `hold_ticks` ticks. Only the base layer is active and
    /// every switch is idle.
    pub fn new(layout: Layout, hold_ticks: u16) -> (engine: Engine)
        requires
            layout.wf(),
        ensures
            engine.wf(),
            engine@ == (EngineView {
                layout: layout@,
                hold_ticks: hold_ticks as nat,
                stack: seq![0usize],
                keys: Seq::empty(),
            }),
    {
        let mut stack: Vec<usize> = Vec::new();
        stack.push(0);
        assert(stack@ =~= seq![0usize]);
        Engine { layout, hold_ticks, stack, keys: Vec::new() }
    }

    /// The place of the key at `(row, col)` among the keys, if the switch is
    /// not idle.
    fn find(&self, row: usize, col: usize) -> (found: Option<usize>)
        ensures
            found matches Some(i) ==> index_in(self.keys@, row, col) == Some(i as int),
            found is None ==> index_in(self.keys@, row, col) is None,
    {
        let mut i: usize = self.keys.len();
        assert(self.keys@.take(i as int) =~= self.keys@);
        while i > 0
            invariant
                i <= self.keys@.len(),
                index_in(self.keys@, row, col) == index_in(self.keys@.take(i as int), row, col),
            decreases i,
        {
            proof {
                let upto = self.keys@.take(i as int);
                assert(upto.drop_last() =~= self.keys@.take(i - 1));
                assert(upto.last() == self.keys@[i - 1]);
            }
            i -= 1;
            if self.keys[i].row == row && self.keys[i].col == col {
                return Some(i);
            }
        }
        assert(self.keys@.take(0).len() == 0);
        None
    }

    /// The action that the active layers assign to the switch at
    /// `(row, col)`.
    fn lookup(&self, row: usize, col: usize) -> (found: Action)
        requires
            self.wf(),
            self@.layout.contains(row as int, col as int),
        ensures
            found == self@.layout.lookup(self@.stack, row as int, col as int),
    {
        let ghost view = self@.layout;
        let mut i: usize = self.stack.len();
        assert(self.stack@.take(i as int) =~= self.stack@);
        while i > 0
            invariant
                i <= self.stack@.len(),
                self.wf(),
                view == self.layout@,
                view.contains(row as int, col as int),
                view.lookup(self.stack@, row as int, col as int) == view.lookup(
                    self.stack@.take(i as int),
                    row as int,
                    col as int,
                ),
            decreases i,
        {
            proof {
                let upto = self.stack@.take(i as int);
                assert(upto.drop_last() =~= self.stack@.take(i - 1));
                assert(upto.last() == self.stack@[i - 1]);
            }
            i -= 1;
            let found: Action = self.layout.action(self.stack[i], row, col);
            match found {
                Action::Transparent => {},
                _ => {
                    return found;
                },
            }
        }
        assert(self.stack@.take(0).len() == 0);
        Action::Plain(Effect::Nothing)
    }

    /// Takes a press or a release.
    ///
    /// A press of an idle switch looks the switch up on the active layers,
    /// topmost first, passing over the layers on which it is transparent. A
    /// tap-or-hold action makes the key pending, with no tick counted; any
    /// other takes effect at once. A release of a pending key begins its tap
    /// effect, which lasts for one report; a release of a held key ends its
    /// effect and makes the switch idle. Any other event changes nothing.
    pub fn event(&mut self, event: Event)
        requires
            old(self).wf(),
        ensures
            final(self).wf(),
            final(self)@ == old(self)@.event(event),
    {
        proof {
            old(self)@.event_keeps_valid(event);
        }
        match event {
            Event::Press(row, col) => {
                if row >= self.layout.rows() || col >= self.layout.cols() {
                    return ;
                }
                proof {
                    index_finds(self.keys@, row, col);
                }
                if self.find(row, col).is_some() {
                    return ;
                }
                match self.lookup(row, col) {
                    Action::TapHold { tap, hold } => {
                        self.keys.push(
                            Key { row, col, phase: Phase::Pending { tap, hold, elapsed: 0 } },
                        );
                    },
                    Action::Plain(effect) => {
                        self.keys.push(Key { row, col, phase: Phase::Held(effect) });
                        begin(&mut self.stack, effect);
                    },
                    Action::Transparent => {
                        self.keys.push(Key { row, col, phase: Phase::Held(Effect::Nothing) });
                    },
                }
            },
            Event::Release(row, col) => {
                proof {
                    index_finds(self.keys@, row, col);
                }
                match self.find(row, col) {
                    None => {},
                    Some(i) => {
                        let key: Key = self.keys[i];
                        match key.phase {
                            Phase::Pending { tap, .. } => {
                                self.keys[i] = Key {
                                    row,
                                    col,
                                    phase: Phase::Tapped { effect: tap, fresh: true },
                                };
                                begin(&mut self.stack, tap);
                            },
                            Phase::Held(effect) => {
                                self.keys.remove(i);
                                end(&mut self.stack, effect);
                            },
                            Phase::Tapped { .. } => {},
                        }
                    },
                }
            },
        }
    }

    /// Takes the events of one scan, in order.
    pub fn feed(&mut self, events: &Vec<Event>)
        requires
            old(self).wf(),
        ensures
            final(self).wf(),
            final(self)@ == old(self)@.feed(events@),
    {
        let mut i: usize = 0;
        while i < events.len()
            invariant
                i <= events@.len(),
                self.wf(),
                self@ == old(self)@.feed(events@.take(i as int)),
            decreases events@.len() - i,
        {
            proof {
                let upto = events@.take(i + 1);
                assert(upto.drop_last() =~= events@.take(i as int));
                assert(upto.last() == events@[i as int]);
            }
            self.event(events[i]);
            i += 1;
        }
        assert(events@.take(events@.len() as int) =~= events@);
    }

    /// Lets one tick pass.
    ///
    /// The keys are dealt with oldest first. A pending key counts the tick,
    /// and is held, with its hold effect begun, if that makes as many ticks
    /// as the hold time. A tap that has been reported ends. Held keys and
    /// idle switches stay as they are.
    pub fn tick(&mut self)
        requires
            old(self).wf(),
        ensures
            final(self).wf(),
            final(self)@ == old(self)@.tick(),
    {
        let ghost before = self@;
        proof {
            before.tick_keeps_valid();
        }
        let mut kept: Vec<Key> = Vec::new();
        let mut i: usize = 0;
        while i < self.keys.len()
            invariant
                i <= self.keys@.len(),
                before.valid(),
                before == old(self)@,
                self.keys@ == before.keys,
                self.layout@ == before.layout,
                self.hold_ticks == before.hold_ticks,
                (self.stack@, kept@) == before.tick_upto(i as int),
            decreases self.keys@.len() - i,
        {
            let key: Key = self.keys[i];
            assert(key.phase.sound(before.layout.depth(), before.hold_ticks));
            match key.phase {
                Phase::Pending { tap, hold, elapsed } => {
                    if elapsed + 1 >= self.hold_ticks {
                        begin(&mut self.stack, hold);
                        kept.push(Key { row: key.row, col: key.col, phase: Phase::Held(hold) });
                    } else {
                        kept.push(
                            Key {
                                row: key.row,
                                col: key.col,
                                phase: Phase::Pending { tap, hold, elapsed: elapsed + 1 },
                            },
                        );
                    }
                },
                Phase::Held(_) => {
                    kept.push(key);
                },
                Phase::Tapped { effect, fresh } => {
                    if fresh {
                        kept.push(
                            Key {
                                row: key.row,
                                col: key.col,
                                phase: Phase::Tapped { effect, fresh: false },
                            },
                        );
                    } else {
                        end(&mut self.stack, effect);
                    }
                },
            }
            i += 1;
        }
        self.keys = kept;
    }

    /// The key codes that are reported now: those of the held keys and of
    /// the taps, oldest key first.
    pub fn keycodes(&self) -> (codes: Vec<u8>)
        ensures
            codes@ == self@.codes(),
    {
        let mut codes: Vec<u8> = Vec::new();
        let mut i: usize = 0;
        while i < self.keys.len()
            invariant
                i <= self.keys@.len(),
                codes@ == codes_of(self.keys@.take(i as int)),
            decreases self.keys@.len() - i,
        {
            proof {
                let upto = self.keys@.take(i + 1);
                assert(upto.drop_last() =~= self.keys@.take(i as int));
                assert(upto.last() == self.keys@[i as int]);
            }
            match self.keys[i].phase {
                Phase::Pending { .. } => {
                    assert(codes@ =~= codes@ + Seq::<u8>::empty());
                },
                Phase::Held(effect) => {
                    push_codes(&mut codes, effect);
                },
                Phase::Tapped { effect, .. } => {
                    push_codes(&mut codes, effect);
                },
            }
            i += 1;
        }
        assert(self.keys@.take(self.keys@.len() as int) =~= self.keys@);
        codes
    }

    /// The number of ticks after which a pending key is held.
    pub fn hold_ticks(&self) -> (n: u16)
        ensures
            n == self@.hold_ticks,
    {
        self.hold_ticks
    }

    /// The phase of the key at `(row, col)`, or `None` if the switch is idle.
    pub fn phase(&self, row: usize, col: usize) -> (found: Option<Phase>)
        ensures
            found == self@.phase_at(row, col),
    {
        proof {
            index_finds(self.keys@, row, col);
        }
        match self.find(row, col) {
            Some(i) => Some(self.keys[i].phase),
            None => None,
        }
    }

    /// The active layers, the base layer first and the topmost last.
    pub fn layers(&self) -> (stack: Vec<usize>)
        ensures
            stack@ == self@.stack,
    {
        let mut stack: Vec<usize> = Vec::new();
        let mut i: usize = 0;
        while i < self.stack.len()
            invariant
                i <= self.stack@.len(),
                stack@ == self.stack@.take(i as int),
            decreases self.stack@.len() - i,
        {
            stack.push(self.stack[i]);
            i += 1;
            assert(stack@ =~= self.stack@.take(i as int));
        }
        assert(self.stack@.take(self.stack@.len() as int) =~= self.stack@);
        stack
    }
}

} // verus!
