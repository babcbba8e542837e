//! The debounce filter.
//!
//! Every switch has a counter of its own. A scan that reads the switch as the
//! filter believes it to be sets the counter back to zero; a scan that reads
//! it otherwise counts one up. When the counter reaches the threshold the
//! belief is changed, a press or release is reported, and the counter starts
//! again from zero. A switch that bounces without ever staying put for a
//! threshold's worth of scans is never reported.
//!
//! The counting itself is done by `keyberon::debounce::Debouncer`, one per
//! switch, each filtering a single `bool`.

use vstd::prelude::*;
use keyberon::debounce::Debouncer;
use crate::event::Event;
use crate::grid::{cells, rectangular};

verus! {

/// `keyberon::debounce::Debouncer`, so that the filter can hold one per
/// switch. What is inside one is told by [`debouncer_fields`] alone.
#[verifier::external_type_specification]
#[verifier::external_body]
#[verifier::reject_recursive_types(T)]
pub struct ExDebouncer<T>(Debouncer<T>);

/// The four fields of a `Debouncer<bool>`.
pub struct Bounce {
    /// The state that the debouncer holds to be the true one (its `cur`).
    pub current: bool,
    /// The state that the debouncer is counting towards (its `new`).
    pub candidate: bool,
    /// How many updates in a row have been counted (its `since`).
    pub since: u16,
    /// The count that must be exceeded before `current` changes (its
    /// `nb_bounce`).
    pub limit: u16,
}

/// The fields of a `Debouncer<bool>`. No verified code can read them; what
/// is known of them is what [`debouncer_new`], [`debouncer_update`] and
/// [`debouncer_get`] say.
pub uninterp spec fn debouncer_fields(d: Debouncer<bool>) -> Bounce;

impl Bounce {
    /// Whether an update with `raw` changes `current`.
    pub open spec fn flips(self, raw: bool) -> bool {
        raw != self.current && self.counted(raw) > self.limit
    }

    /// The count after an update that reads `raw`, which differs from
    /// `current`, and before it is compared with the limit.
    pub open spec fn counted(self, raw: bool) -> int {
        if self.candidate != raw {
            1
        } else {
            self.since + 1
        }
    }

    /// The fields after an update with `raw`.
    pub open spec fn updated(self, raw: bool) -> Bounce {
        if raw == self.current {
            Bounce { since: 0, ..self }
        } else if self.counted(raw) > self.limit {
            Bounce { current: raw, candidate: self.current, since: 0, limit: self.limit }
        } else {
            Bounce { candidate: raw, since: self.counted(raw) as u16, ..self }
        }
    }
}

/// Calls `Debouncer::new` with both states equal to `initial`. Believed, not
/// proved: the debouncer made holds `initial`, counts towards `initial`, has
/// counted nothing, and has `limit` as the count to exceed.
#[verifier::external_body]
fn debouncer_new(initial: bool, limit: u16) -> (d: Debouncer<bool>)
    ensures
        debouncer_fields(d) == (Bounce { current: initial, candidate: initial, since: 0, limit }),
{
    Debouncer::new(initial, initial, limit)
}

/// Calls `Debouncer::update`. Believed, not proved: a reading equal to the
/// current state clears the count and changes nothing else; any other
/// reading becomes the candidate and is counted, from one if it was not the
/// candidate before; and once the count exceeds the limit, the reading
/// becomes the current state, the former current state the candidate, and
/// the count is cleared. The result tells whether the current state changed.
/// The count must have room for one more, since the update adds to it
/// unchecked.
#[verifier::external_body]
fn debouncer_update(d: &mut Debouncer<bool>, raw: bool) -> (flipped: bool)
    requires
        debouncer_fields(*old(d)).since < u16::MAX,
    ensures
        debouncer_fields(*final(d)) == debouncer_fields(*old(d)).updated(raw),
        flipped == debouncer_fields(*old(d)).flips(raw),
{
    d.update(raw)
}

/// Calls `Debouncer::get`. Believed, not proved: the result is the current
/// state.
#[verifier::external_body]
fn debouncer_get(d: &Debouncer<bool>) -> (current: bool)
    ensures
        current == debouncer_fields(*d).current,
{
    *d.get()
}

/// What the filter knows of one switch.
pub struct Cell {
    /// Whether the filter holds the switch to be closed.
    pub closed: bool,
    /// How many scans in a row have read the switch otherwise.
    pub count: nat,
}

impl Cell {
    /// Whether a scan that reads `raw` changes the filter's belief.
    pub open spec fn fires(self, raw: bool, threshold: nat) -> bool {
        raw != self.closed && self.count + 1 >= threshold
    }

    /// The cell after a scan that reads `raw`.
    pub open spec fn step(self, raw: bool, threshold: nat) -> Cell {
        if raw == self.closed {
            Cell { closed: self.closed, count: 0 }
        } else if self.count + 1 >= threshold {
            Cell { closed: raw, count: 0 }
        } else {
            Cell { closed: self.closed, count: self.count + 1 }
        }
    }

    /// The cell after the scans `raws`, oldest first.
    pub open spec fn run(self, raws: Seq<bool>, threshold: nat) -> Cell
        decreases raws.len(),
    {
        if raws.len() == 0 {
            self
        } else {
            self.run(raws.drop_last(), threshold).step(raws.last(), threshold)
        }
    }

    /// How many of the scans `raws` changed the filter's belief, and so
    /// reported an event.
    pub open spec fn reports(self, raws: Seq<bool>, threshold: nat) -> nat
        decreases raws.len(),
    {
        if raws.len() == 0 {
            0
        } else {
            let earlier = self.reports(raws.drop_last(), threshold);
            if self.run(raws.drop_last(), threshold).fires(raws.last(), threshold) {
                earlier + 1
            } else {
                earlier
            }
        }
    }

    /// While the count and the scans together stay below the threshold, no
    /// scan reports anything and the belief stays as it was, whatever the
    /// scans read.
    pub proof fn quiet_below_threshold(self, raws: Seq<bool>, threshold: nat)
        requires
            self.count + raws.len() < threshold,
        ensures
            self.reports(raws, threshold) == 0,
            self.run(raws, threshold).closed == self.closed,
            self.run(raws, threshold).count <= self.count + raws.len(),
        decreases raws.len(),
    {
        if raws.len() > 0 {
            self.quiet_below_threshold(raws.drop_last(), threshold);
        }
    }

    /// The count is below the number of scans that the threshold asks for:
    /// a count that reaches it is cleared at once.
    pub open spec fn sound(self, threshold: nat) -> bool {
        self.count < scans_needed(threshold)
    }

    /// A step leaves a sound cell sound.
    pub proof fn step_keeps_sound(self, raw: bool, threshold: nat)
        ensures
            self.step(raw, threshold).sound(threshold),
    {
    }

    /// A reading that is held against the filter's belief until the count
    /// has reached what the threshold asks for, or longer, is reported
    /// exactly once, and the belief changes to it and stays.
    pub proof fn steady_reading_reports_once(self, raws: Seq<bool>, threshold: nat)
        requires
            self.sound(threshold),
            self.count + raws.len() >= scans_needed(threshold),
            forall|i: int| 0 <= i < raws.len() ==> #[trigger] raws[i] != self.closed,
        ensures
            self.reports(raws, threshold) == 1,
            self.run(raws, threshold).closed != self.closed,
            self.run(raws, threshold).count == 0,
        decreases raws.len(),
    {
        let earlier = raws.drop_last();
        if self.count + earlier.len() >= scans_needed(threshold) {
            self.steady_reading_reports_once(earlier, threshold);
        } else {
            self.counts_while_held(earlier, threshold);
        }
    }

    /// A reading held against the filter's belief is counted scan by scan,
    /// and not reported, for as long as the count stays below what the
    /// threshold asks for.
    pub proof fn counts_while_held(self, raws: Seq<bool>, threshold: nat)
        requires
            self.count + raws.len() < scans_needed(threshold),
            forall|i: int| 0 <= i < raws.len() ==> #[trigger] raws[i] != self.closed,
        ensures
            self.reports(raws, threshold) == 0,
            self.run(raws, threshold) == (Cell {
                closed: self.closed,
                count: self.count + raws.len(),
            }),
        decreases raws.len(),
    {
        if raws.len() > 0 {
            self.counts_while_held(raws.drop_last(), threshold);
        }
    }

    /// Of the scans of a reading that is held against the filter's belief,
    /// the one that is reported is the one with which the count reaches
    /// what the threshold asks for, and no other.
    pub proof fn held_reading_reported_at(self, raws: Seq<bool>, threshold: nat, i: int)
        requires
            self.sound(threshold),
            0 <= i < raws.len(),
            forall|k: int| 0 <= k < raws.len() ==> #[trigger] raws[k] != self.closed,
        ensures
            self.run(raws.take(i), threshold).fires(raws[i], threshold) <==> self.count + i + 1
                == scans_needed(threshold),
    {
        let earlier = raws.take(i);
        assert forall|k: int| 0 <= k < earlier.len() implies #[trigger] earlier[k]
            != self.closed by {
            assert(earlier[k] == raws[k]);
        }
        if self.count + i < scans_needed(threshold) {
            self.counts_while_held(earlier, threshold);
        } else {
            self.steady_reading_reports_once(earlier, threshold);
        }
    }
}

/// The number of scans in a row that a threshold asks for: a threshold of 0
/// asks for one, like a threshold of 1.
pub open spec fn scans_needed(threshold: nat) -> nat {
    if threshold == 0 {
        1
    } else {
        threshold
    }
}

/// What a [`Debounce`] stands for: the threshold and one [`Cell`] per switch.
pub struct DebounceView {
    pub rows: nat,
    pub cols: nat,
    pub threshold: nat,
    pub cells: Seq<Seq<Cell>>,
}

/// The event that reports a change of the switch at `(r, c)` to `closed`.
pub open spec fn change(r: int, c: int, closed: bool) -> Event {
    if closed {
        Event::Press(r as usize, c as usize)
    } else {
        Event::Release(r as usize, c as usize)
    }
}

impl DebounceView {
    /// There is one cell per switch, and every cell is sound.
    pub open spec fn wf(self) -> bool {
        &&& rectangular(self.cells, self.rows as int, self.cols as int)
        &&& forall|r: int, c: int|
            0 <= r < self.rows && 0 <= c < self.cols ==> (#[trigger] self.cells[r][c]).sound(
                self.threshold,
            )
    }

    /// A scan leaves a filter in order.
    pub proof fn step_keeps_wf(self, raw: Seq<Seq<bool>>)
        requires
            self.wf(),
        ensures
            self.step(raw).wf(),
    {
        assert forall|r: int, c: int| 0 <= r < self.rows && 0 <= c < self.cols implies (
        #[trigger] self.step(raw).cells[r][c]).sound(self.threshold) by {
            self.cells[r][c].step_keeps_sound(raw[r][c], self.threshold);
        }
    }

    /// The filter after a scan that read `raw`: every cell has taken its own
    /// step.
    pub open spec fn step(self, raw: Seq<Seq<bool>>) -> DebounceView {
        DebounceView {
            cells: Seq::new(
                self.rows,
                |r: int| Seq::new(self.cols, |c: int| self.cells[r][c].step(raw[r][c], self.threshold)),
            ),
            ..self
        }
    }

    /// The events of row `r` for the columns before `upto`, by column.
    pub open spec fn row_events(self, raw: Seq<Seq<bool>>, r: int, upto: int) -> Seq<Event>
        decreases upto,
    {
        if upto <= 0 {
            Seq::empty()
        } else {
            let c = upto - 1;
            let before = self.row_events(raw, r, c);
            if self.cells[r][c].fires(raw[r][c], self.threshold) {
                before.push(change(r, c, raw[r][c]))
            } else {
                before
            }
        }
    }

    /// The events of the rows before `upto`, by row.
    pub open spec fn events_before(self, raw: Seq<Seq<bool>>, upto: int) -> Seq<Event>
        decreases upto,
    {
        if upto <= 0 {
            Seq::empty()
        } else {
            self.events_before(raw, upto - 1) + self.row_events(raw, upto - 1, self.cols as int)
        }
    }

    /// The events that a scan which read `raw` reports: one for every switch
    /// whose cell fires, by row and within a row by column.
    pub open spec fn events(self, raw: Seq<Seq<bool>>) -> Seq<Event> {
        self.events_before(raw, self.rows as int)
    }

    /// The events of one row are about that row and the columns asked for,
    /// and a coordinate is reported if and only if its cell fires.
    pub proof fn row_events_exact(self, raw: Seq<Seq<bool>>, r: int, upto: int, e: Event)
        requires
            0 <= r <= usize::MAX,
            0 <= upto <= usize::MAX,
        ensures
            self.row_events(raw, r, upto).contains(e) <==> e.position().0 == r && e.position().1
                < upto && self.cells[r][e.position().1 as int].fires(
                raw[r][e.position().1 as int],
                self.threshold,
            ) && e == change(r, e.position().1 as int, raw[r][e.position().1 as int]),
        decreases upto,
    {
        if upto > 0 {
            let c = upto - 1;
            let before = self.row_events(raw, r, c);
            self.row_events_exact(raw, r, c, e);
            if self.cells[r][c].fires(raw[r][c], self.threshold) {
                let added = change(r, c, raw[r][c]);
                assert(before.push(added).last() == added);
                assert forall|k: int| 0 <= k < before.len() implies before.push(added)[k]
                    == before[k] by {}
                if before.push(added).contains(e) {
                    let k = choose|k: int| 0 <= k < before.push(added).len() && before.push(
                        added,
                    )[k] == e;
                    if k < before.len() {
                        assert(before[k] == e);
                    }
                }
                if before.contains(e) {
                    let k = choose|k: int| 0 <= k < before.len() && before[k] == e;
                    assert(before.push(added)[k] == e);
                }
                if e == added {
                    assert(before.push(added)[before.len() as int] == e);
                }
            }
        }
    }

    /// A scan reports an event if and only if it is the change of a switch
    /// whose cell fires.
    pub proof fn events_exact(self, raw: Seq<Seq<bool>>, e: Event)
        requires
            self.rows <= usize::MAX,
            self.cols <= usize::MAX,
        ensures
            self.events(raw).contains(e) <==> e.position().0 < self.rows && e.position().1
                < self.cols && self.cells[e.position().0 as int][e.position().1 as int].fires(
                raw[e.position().0 as int][e.position().1 as int],
                self.threshold,
            ) && e == change(
                e.position().0 as int,
                e.position().1 as int,
                raw[e.position().0 as int][e.position().1 as int],
            ),
    {
        self.events_before_exact(raw, self.rows as int, e);
    }

    /// A scan reports at most one event for each switch.
    pub proof fn events_bounded(self, raw: Seq<Seq<bool>>)
        ensures
            self.events(raw).len() <= self.rows * self.cols,
    {
        self.events_before_bounded(raw, self.rows as int);
    }

    proof fn events_before_bounded(self, raw: Seq<Seq<bool>>, upto: int)
        requires
            0 <= upto,
        ensures
            self.events_before(raw, upto).len() <= upto * self.cols,
        decreases upto,
    {
        if upto > 0 {
            self.events_before_bounded(raw, upto - 1);
            self.row_events_bounded(raw, upto - 1, self.cols as int);
            assert(upto * self.cols == (upto - 1) * self.cols + self.cols) by (nonlinear_arith);
        } else {
            assert(upto * self.cols == 0) by (nonlinear_arith)
                requires
                    upto == 0,
            ;
        }
    }

    proof fn row_events_bounded(self, raw: Seq<Seq<bool>>, r: int, upto: int)
        requires
            0 <= upto,
        ensures
            self.row_events(raw, r, upto).len() <= upto,
        decreases upto,
    {
        if upto > 0 {
            self.row_events_bounded(raw, r, upto - 1);
        }
    }

    /// The filter after the scans `scans`, oldest first.
    pub open spec fn run(self, scans: Seq<Seq<Seq<bool>>>) -> DebounceView
        decreases scans.len(),
    {
        if scans.len() == 0 {
            self
        } else {
            self.run(scans.drop_last()).step(scans.last())
        }
    }

    /// What the scans `scans` read at `(r, c)`, oldest first.
    pub open spec fn readings_at(scans: Seq<Seq<Seq<bool>>>, r: int, c: int) -> Seq<bool> {
        Seq::new(scans.len(), |i: int| scans[i][r][c])
    }

    /// A scan that reads `raw` reports an event about the switch at
    /// `(r, c)`.
    pub open spec fn mentions(self, raw: Seq<Seq<bool>>, r: int, c: int) -> bool {
        exists|k: int|
            0 <= k < self.events(raw).len() && (#[trigger] self.events(raw)[k]).position() == (
                r as usize,
                c as usize,
            )
    }

    /// `(r, c)` is a switch of a matrix whose rows and columns can be
    /// counted in a `usize`.
    pub open spec fn holds(self, r: int, c: int) -> bool {
        0 <= r < self.rows <= usize::MAX && 0 <= c < self.cols <= usize::MAX
    }

    /// A scan reports an event about a switch if and only if the cell of
    /// that switch fires.
    pub proof fn mentions_exact(self, raw: Seq<Seq<bool>>, r: int, c: int)
        requires
            self.holds(r, c),
        ensures
            self.mentions(raw, r, c) <==> self.cells[r][c].fires(raw[r][c], self.threshold),
    {
        let events = self.events(raw);
        if self.mentions(raw, r, c) {
            let k = choose|k: int|
                0 <= k < events.len() && (#[trigger] events[k]).position() == (
                    r as usize,
                    c as usize,
                );
            assert(events.contains(events[k]));
            self.events_exact(raw, events[k]);
        }
        if self.cells[r][c].fires(raw[r][c], self.threshold) {
            let e = change(r, c, raw[r][c]);
            self.events_exact(raw, e);
            let k = choose|k: int| 0 <= k < events.len() && events[k] == e;
            assert(events[k].position() == (r as usize, c as usize));
        }
    }

    /// Through any scans every cell goes its own way, by what the scans read
    /// at its switch alone.
    pub proof fn cell_follows_its_readings(self, scans: Seq<Seq<Seq<bool>>>, r: int, c: int)
        requires
            self.wf(),
            0 <= r < self.rows,
            0 <= c < self.cols,
        ensures
            self.run(scans).wf(),
            self.run(scans).rows == self.rows,
            self.run(scans).cols == self.cols,
            self.run(scans).threshold == self.threshold,
            self.run(scans).cells[r][c] == self.cells[r][c].run(
                Self::readings_at(scans, r, c),
                self.threshold,
            ),
        decreases scans.len(),
    {
        let readings = Self::readings_at(scans, r, c);
        if scans.len() > 0 {
            self.cell_follows_its_readings(scans.drop_last(), r, c);
            self.run(scans.drop_last()).step_keeps_wf(scans.last());
            assert(readings.drop_last() =~= Self::readings_at(scans.drop_last(), r, c));
            assert(readings.last() == scans.last()[r][c]);
        }
    }

    /// While the count of a switch and the scans together stay below the
    /// threshold, no scan reports an event about that switch, whatever the
    /// scans read.
    pub proof fn short_hold_reports_nothing(
        self,
        scans: Seq<Seq<Seq<bool>>>,
        r: int,
        c: int,
        i: int,
    )
        requires
            self.wf(),
            self.holds(r, c),
            self.cells[r][c].count + scans.len() < self.threshold,
            0 <= i < scans.len(),
        ensures
            !self.run(scans.take(i)).mentions(scans[i], r, c),
    {
        let earlier = scans.take(i);
        self.cell_follows_its_readings(earlier, r, c);
        self.cells[r][c].quiet_below_threshold(Self::readings_at(earlier, r, c), self.threshold);
        self.run(earlier).mentions_exact(scans[i], r, c);
    }

    /// When a switch is read against the filter's belief in scan after scan,
    /// as many as the threshold asks or more, exactly one of those scans
    /// reports an event about it: the one with which the count reaches what
    /// the threshold asks for. The belief has then changed, and has changed
    /// once.
    pub proof fn steady_hold_reports_once(self, scans: Seq<Seq<Seq<bool>>>, r: int, c: int)
        requires
            self.wf(),
            self.holds(r, c),
            scans.len() >= scans_needed(self.threshold),
            forall|k: int| 0 <= k < scans.len() ==> (#[trigger] scans[k])[r][c] != self.cells[r][c].closed,
        ensures
            forall|i: int|
                0 <= i < scans.len() ==> (#[trigger] self.run(scans.take(i)).mentions(
                    scans[i],
                    r,
                    c,
                ) <==> self.cells[r][c].count + i + 1 == scans_needed(self.threshold)),
            self.run(scans).cells[r][c].closed != self.cells[r][c].closed,
            self.cells[r][c].reports(Self::readings_at(scans, r, c), self.threshold) == 1,
    {
        let cell = self.cells[r][c];
        let readings = Self::readings_at(scans, r, c);
        assert(cell.sound(self.threshold));
        assert forall|k: int| 0 <= k < readings.len() implies #[trigger] readings[k]
            != cell.closed by {
            assert(scans[k][r][c] != cell.closed);
        }
        assert forall|i: int| 0 <= i < scans.len() implies (#[trigger] self.run(
            scans.take(i),
        ).mentions(scans[i], r, c) <==> cell.count + i + 1 == scans_needed(self.threshold)) by {
            let earlier = scans.take(i);
            self.cell_follows_its_readings(earlier, r, c);
            self.run(earlier).mentions_exact(scans[i], r, c);
            assert(readings.take(i) =~= Self::readings_at(earlier, r, c));
            cell.held_reading_reported_at(readings, self.threshold, i);
        }
        self.cell_follows_its_readings(scans, r, c);
        cell.steady_reading_reports_once(readings, self.threshold);
    }

    proof fn events_before_exact(self, raw: Seq<Seq<bool>>, upto: int, e: Event)
        requires
            0 <= upto <= usize::MAX,
            self.cols <= usize::MAX,
        ensures
            self.events_before(raw, upto).contains(e) <==> e.position().0 < upto && e.position().1
                < self.cols && self.cells[e.position().0 as int][e.position().1 as int].fires(
                raw[e.position().0 as int][e.position().1 as int],
                self.threshold,
            ) && e == change(
                e.position().0 as int,
                e.position().1 as int,
                raw[e.position().0 as int][e.position().1 as int],
            ),
        decreases upto,
    {
        if upto > 0 {
            let r = upto - 1;
            let before = self.events_before(raw, r);
            let row = self.row_events(raw, r, self.cols as int);
            self.events_before_exact(raw, r, e);
            self.row_events_exact(raw, r, self.cols as int, e);
            if (before + row).contains(e) {
                let k = choose|k: int| 0 <= k < (before + row).len() && (before + row)[k] == e;
                if k < before.len() {
                    assert(before[k] == e);
                } else {
                    assert(row[k - before.len()] == e);
                }
            }
            if before.contains(e) {
                let k = choose|k: int| 0 <= k < before.len() && before[k] == e;
                assert((before + row)[k] == e);
            }
            if row.contains(e) {
                let k = choose|k: int| 0 <= k < row.len() && row[k] == e;
                assert((before + row)[before.len() + k] == e);
            }
        }
    }
}

/// The count that a `Debouncer` must exceed so that its state changes at the
/// scan at which the threshold is reached.
pub open spec fn limit_for(threshold: u16) -> u16 {
    if threshold == 0 {
        0
    } else {
        (threshold - 1) as u16
    }
}

/// The debounce filter of a matrix.
pub struct Debounce {
    rows: usize,
    cols: usize,
    threshold: u16,
    cells: Vec<Vec<Debouncer<bool>>>,
}

impl View for Debounce {
    type V = DebounceView;

    closed spec fn view(&self) -> DebounceView {
        DebounceView {
            rows: self.rows as nat,
            cols: self.cols as nat,
            threshold: self.threshold as nat,
            cells: Seq::new(
                self.rows as nat,
                |r: int|
                    Seq::new(
                        self.cols as nat,
                        |c: int|
                            Cell {
                                closed: debouncer_fields(self.cells@[r]@[c]).current,
                                count: debouncer_fields(self.cells@[r]@[c]).since as nat,
                            },
                    ),
            ),
        }
    }
}

impl Debounce {
    /// The filter is in order, and so is the debouncer of every switch.
    pub open spec fn wf(&self) -> bool {
        self@.wf() && self.debouncers_count()
    }

    /// Every switch has its debouncer, each set to this filter's threshold,
    /// and each count is the number of scans in a row that differed.
    #[verifier::opaque]
    pub closed spec fn debouncers_count(&self) -> bool {
        &&& rectangular(cells(self.cells@), self.rows as int, self.cols as int)
        &&& forall|r: int, c: int|
            0 <= r < self.rows && 0 <= c < self.cols ==> Self::counting(
                #[trigger] debouncer_fields(self.cells@[r]@[c]),
                self.threshold,
            )
    }

    /// A debouncer set to `threshold` whose count is the number of scans in a
    /// row that read its candidate.
    pub closed spec fn counting(b: Bounce, threshold: u16) -> bool {
        &&& b.limit == limit_for(threshold)
        &&& b.since <= b.limit
        &&& b.candidate == b.current ==> b.since == 0
    }

    /// A filter for a matrix of `rows` by `cols` switches that reports a
    /// change once `threshold` scans in a row have read it. A threshold of 0
    /// is taken as 1. Every switch starts open, with nothing counted.
    pub fn new(rows: usize, cols: usize, threshold: u16) -> (filter: Debounce)
        ensures
            filter.wf(),
            filter@.rows == rows,
            filter@.cols == cols,
            filter@.threshold == threshold,
            forall|r: int, c: int|
                0 <= r < rows && 0 <= c < cols ==> (#[trigger] filter@.cells[r][c]) == (Cell {
                    closed: false,
                    count: 0,
                }),
    {
        let limit: u16 = if threshold == 0 {
            0
        } else {
            threshold - 1
        };
        let mut grid: Vec<Vec<Debouncer<bool>>> = Vec::new();
        let mut r: usize = 0;
        while r < rows
            invariant
                r <= rows,
                limit == limit_for(threshold),
                grid@.len() == r,
                forall|i: int| 0 <= i < r ==> (#[trigger] grid@[i])@.len() == cols,
                forall|i: int, c: int|
                    0 <= i < r && 0 <= c < cols ==> (#[trigger] debouncer_fields(grid@[i]@[c]))
                        == (Bounce { current: false, candidate: false, since: 0, limit }),
            decreases rows - r,
        {
            let mut row: Vec<Debouncer<bool>> = Vec::new();
            let mut c: usize = 0;
            while c < cols
                invariant
                    c <= cols,
                    row@.len() == c,
                    forall|j: int|
                        0 <= j < c ==> (#[trigger] debouncer_fields(row@[j])) == (Bounce {
                            current: false,
                            candidate: false,
                            since: 0,
                            limit,
                        }),
                decreases cols - c,
            {
                row.push(debouncer_new(false, limit));
                c += 1;
            }
            grid.push(row);
            r += 1;
        }
        let filter = Debounce { rows, cols, threshold, cells: grid };
        proof {
            reveal(Debounce::debouncers_count);
            assert forall|i: int| 0 <= i < rows implies (#[trigger] cells(filter.cells@)[i]).len()
                == cols by {
                assert(filter.cells@[i]@.len() == cols);
            }
        }
        filter
    }

    /// Takes one scan. Every switch's counter takes its step, and the result
    /// lists a press for each switch now held to be closed that was not
    /// before, and a release for each now held to be open, by row and within
    /// a row by column.
    pub fn update(&mut self, raw: &Vec<Vec<bool>>) -> (events: Vec<Event>)
        requires
            old(self).wf(),
            rectangular(cells(raw@), old(self)@.rows as int, old(self)@.cols as int),
        ensures
            final(self).wf(),
            final(self)@ == old(self)@.step(cells(raw@)),
            events@ == old(self)@.events(cells(raw@)),
    {
        let ghost before = self@;
        let ghost readings = cells(raw@);
        let mut events: Vec<Event> = Vec::new();
        let rows: usize = self.rows;
        let cols: usize = self.cols;
        proof {
            reveal(Debounce::debouncers_count);
        }
        let mut r: usize = 0;
        while r < rows
            invariant
                r <= rows,
                rows == self.rows,
                cols == self.cols,
                self.threshold == old(self).threshold,
                before == old(self)@,
                before.rows == rows,
                before.cols == cols,
                before.threshold == self.threshold,
                readings == cells(raw@),
                rectangular(readings, rows as int, cols as int),
                rectangular(cells(self.cells@), rows as int, cols as int),
                forall|i: int, c: int|
                    0 <= i < rows && 0 <= c < cols ==> Self::counting(
                        #[trigger] debouncer_fields(self.cells@[i]@[c]),
                        self.threshold,
                    ),
                forall|i: int, c: int|
                    0 <= i < r && 0 <= c < cols ==> (#[trigger] self@.cells[i][c])
                        == before.cells[i][c].step(readings[i][c], before.threshold),
                forall|i: int, c: int|
                    r <= i < rows && 0 <= c < cols ==> (#[trigger] self@.cells[i][c])
                        == before.cells[i][c],
                events@ == before.events_before(readings, r as int),
            decreases rows - r,
        {
            let ghost done = events@;
            let mut c: usize = 0;
            while c < cols
                invariant
                    c <= cols,
                    r < rows,
                    rows == self.rows,
                    cols == self.cols,
                    self.threshold == old(self).threshold,
                    before == old(self)@,
                    before.rows == rows,
                    before.cols == cols,
                    before.threshold == self.threshold,
                    readings == cells(raw@),
                    rectangular(readings, rows as int, cols as int),
                    rectangular(cells(self.cells@), rows as int, cols as int),
                    forall|i: int, k: int|
                        0 <= i < rows && 0 <= k < cols ==> Self::counting(
                            #[trigger] debouncer_fields(self.cells@[i]@[k]),
                            self.threshold,
                        ),
                    forall|i: int, k: int|
                        0 <= i < r && 0 <= k < cols ==> (#[trigger] self@.cells[i][k])
                            == before.cells[i][k].step(readings[i][k], before.threshold),
                    forall|k: int|
                        0 <= k < c ==> (#[trigger] self@.cells[r as int][k])
                            == before.cells[r as int][k].step(
                            readings[r as int][k],
                            before.threshold,
                        ),
                    forall|k: int|
                        c <= k < cols ==> (#[trigger] self@.cells[r as int][k])
                            == before.cells[r as int][k],
                    forall|i: int, k: int|
                        r < i < rows && 0 <= k < cols ==> (#[trigger] self@.cells[i][k])
                            == before.cells[i][k],
                    events@ == done + before.row_events(readings, r as int, c as int),
                decreases cols - c,
            {
                proof {
                    assert(cells(self.cells@)[r as int].len() == cols);
                    assert(readings[r as int].len() == cols);
                    assert(readings[r as int] == raw@[r as int]@);
                }
                let ghost grid = self.cells@;
                let ghost mid = self@;
                let ghost had = debouncer_fields(self.cells@[r as int]@[c as int]);
                let ghost cell = before.cells[r as int][c as int];
                proof {
                    assert(Self::counting(had, self.threshold));
                    assert(self@.cells[r as int][c as int] == cell);
                    assert(cell == Cell { closed: had.current, count: had.since as nat });
                }
                let reading: bool = raw[r][c];
                let flipped: bool = debouncer_update(&mut self.cells[r][c], reading);
                proof {
                    let has = debouncer_fields(self.cells@[r as int]@[c as int]);
                    assert(has == had.updated(reading));
                    assert(flipped == cell.fires(reading, before.threshold));
                    assert(Cell { closed: has.current, count: has.since as nat } == cell.step(
                        reading,
                        before.threshold,
                    ));
                    assert(Self::counting(has, self.threshold));
                    assert forall|i: int| 0 <= i < rows implies (#[trigger] cells(
                        self.cells@,
                    )[i]).len() == cols by {
                        assert(cells(grid)[i].len() == cols);
                    }
                    assert forall|i: int, k: int| 0 <= i < rows && 0 <= k < cols && !(i == r && k
                        == c) implies self.cells@[i]@[k] == grid[i]@[k] by {
                        assert(cells(grid)[i].len() == cols);
                    }
                    assert forall|i: int, k: int|
                        0 <= i < rows && 0 <= k < cols implies Self::counting(
                        #[trigger] debouncer_fields(self.cells@[i]@[k]),
                        self.threshold,
                    ) by {
                        if !(i == r && k == c) {
                            assert(self.cells@[i]@[k] == grid[i]@[k]);
                            assert(Self::counting(debouncer_fields(grid[i]@[k]), self.threshold));
                        }
                    }
                    assert forall|i: int, k: int|
                        0 <= i < rows && 0 <= k < cols implies (#[trigger] self@.cells[i][k]) == (
                    if i == r && k == c {
                        cell.step(reading, before.threshold)
                    } else {
                        mid.cells[i][k]
                    }) by {
                        if !(i == r && k == c) {
                            assert(self.cells@[i]@[k] == grid[i]@[k]);
                        }
                    }
                }
                if flipped {
                    if reading {
                        events.push(Event::Press(r, c));
                    } else {
                        events.push(Event::Release(r, c));
                    }
                }
                c += 1;
            }
            proof {
                assert(events@ == before.events_before(readings, r as int + 1));
            }
            r += 1;
        }
        proof {
            assert(self@.cells =~~= before.step(readings).cells);
            assert(self@ == before.step(readings));
        }
        events
    }

    /// The number of rows of the matrix.
    pub fn rows(&self) -> (n: usize)
        ensures
            n == self@.rows,
    {
        self.rows
    }

    /// The number of columns of the matrix.
    pub fn cols(&self) -> (n: usize)
        ensures
            n == self@.cols,
    {
        self.cols
    }

    /// The number of scans in a row after which a change is reported.
    pub fn threshold(&self) -> (n: u16)
        ensures
            n == self@.threshold,
    {
        self.threshold
    }

    /// Whether the filter holds the switch at `(row, col)` to be closed.
    pub fn is_closed(&self, row: usize, col: usize) -> (closed: bool)
        requires
            self.wf(),
            row < self@.rows,
            col < self@.cols,
        ensures
            closed == self@.cells[row as int][col as int].closed,
    {
        proof {
            reveal(Debounce::debouncers_count);
            assert(cells(self.cells@)[row as int].len() == self.cols);
        }
        debouncer_get(&self.cells[row][col])
    }
}

} // verus!
