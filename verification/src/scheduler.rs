//! The cycle that the periodic timer drives.
//!
//! Each time the timer fires, the handler re-arms the timer, feeds the
//! watchdog once, scans the matrix, passes the scan through the debounce
//! filter, gives the events to the action engine, lets one tick pass, and
//! makes the report. The report is handed on for sending only when it differs
//! from the one before. The handler of the USB interrupt, which may run in
//! between, reads the report of the last cycle that was completed.
//!
//! The hardware is the caller's. [`Scheduler::timer_fired`] says what to do
//! with it, [`Scheduler::cycle`] takes what the pins answered.

use vstd::prelude::*;
use crate::action::Layout;
use crate::debounce::{Debounce, DebounceView};
use crate::engine::{Engine, EngineView};
use crate::keymatrix::{reading, strobe_plan, whole, Matrix, PinOp, PinOutcome};
use crate::report::Report;

verus! {

/// One thing for the timer handler to do with the hardware.
#[derive(Clone, Copy, Debug, PartialEq, Eq, Structural)]
pub enum Command {
    /// Clear the timer's pending interrupt.
    ClearInterrupt,
    /// Arm the timer to fire again after this many microseconds.
    Schedule(u32),
    /// Feed the watchdog.
    FeedWatchdog,
    /// Perform this operation on the pins of the matrix and record the
    /// answer.
    Pin(PinOp),
}

/// What the USB transport answered to a write.
#[derive(Clone, Copy, Debug, PartialEq, Eq, Structural)]
pub enum Written {
    /// This many bytes were taken.
    Bytes(usize),
    /// The transport cannot take anything now.
    WouldBlock,
    /// The transport failed.
    Failed,
}

/// Two reports show the same.
pub open spec fn alike(a: Report, b: Report) -> bool {
    a.modifiers == b.modifiers && a.keys@ == b.keys@
}

/// What a [`Scheduler`] stands for.
pub struct SchedulerView {
    /// The microseconds from one cycle to the next.
    pub period: u32,
    /// The debounce filter.
    pub debounce: DebounceView,
    /// The action engine.
    pub engine: EngineView,
    /// The report of the last complete cycle.
    pub report: Report,
}

impl SchedulerView {
    /// The filter and the engine are valid and of one size, and the report
    /// is the report of what the engine holds.
    pub open spec fn valid(self) -> bool {
        &&& self.debounce.wf()
        &&& self.engine.valid()
        &&& self.debounce.rows == self.engine.layout.rows
        &&& self.debounce.cols == self.engine.layout.cols
        &&& self.debounce.rows * (self.debounce.cols + 2) <= usize::MAX
        &&& self.report.shows(self.engine.codes())
    }

    /// The operations on the pins for one scan.
    pub open spec fn plan(self) -> Seq<PinOp> {
        strobe_plan(self.debounce.rows, self.debounce.cols as usize)
    }

    /// What the timer handler does with the hardware, in order: clear the
    /// interrupt, arm the timer for the next cycle, feed the watchdog once,
    /// and scan.
    pub open spec fn commands(self) -> Seq<Command> {
        seq![Command::ClearInterrupt, Command::Schedule(self.period), Command::FeedWatchdog]
            + Seq::new(self.plan().len(), |i: int| Command::Pin(self.plan()[i]))
    }

    /// The grid that the record of a whole scan holds.
    pub open spec fn scan(self, record: Seq<PinOutcome>) -> Seq<Seq<bool>> {
        reading(record, self.debounce.rows, self.debounce.cols)
    }

    /// The engine after a cycle whose scan read `raw`: it has taken the
    /// events that the filter reports, in order, and then one tick.
    pub open spec fn engine_after(self, raw: Seq<Seq<bool>>) -> EngineView {
        self.engine.feed(self.debounce.events(raw)).tick()
    }

    /// A cycle whose scan leads to no event, and whose tick decides no key
    /// for a hold that reports key codes and ends no tap that reported some,
    /// leaves the report as it was: there is nothing to send.
    pub proof fn uneventful_cycle_keeps_report(self, raw: Seq<Seq<bool>>, after: Report)
        requires
            self.valid(),
            self.debounce.events(raw).len() == 0,
            self.engine.steady(),
            after.shows(self.engine_after(raw).codes()),
        ensures
            alike(after, self.report),
    {
        self.engine.tick_without_events(0, 0);
    }
}

/// The periodic cycle of one keyboard.
pub struct Scheduler {
    period: u32,
    matrix: Matrix,
    debounce: Debounce,
    engine: Engine,
    report: Report,
}

impl View for Scheduler {
    type V = SchedulerView;

    closed spec fn view(&self) -> SchedulerView {
        SchedulerView {
            period: self.period,
            debounce: self.debounce@,
            engine: self.engine@,
            report: self.report,
        }
    }
}

impl Scheduler {
    /// The parts are valid and fit together.
    pub open spec fn wf(&self) -> bool {
        self@.valid() && self.parts_fit()
    }

    /// The matrix has the size of the filter, and the filter is in order.
    pub closed spec fn parts_fit(&self) -> bool {
        &&& self.matrix.wf()
        &&& self.debounce.wf()
        &&& self.matrix.spec_rows() == self.debounce@.rows
        &&& self.matrix.spec_cols() == self.debounce@.cols
    }

    /// A scheduler for a keyboard with the layers `layout`, which fires every
    /// `period` microseconds, reports a switch once `debounce_scans` scans in
    /// a row have read it changed, and holds a pending key after
    /// `hold_ticks` cycles. Every switch starts open and idle, and the
    /// report is empty.
    pub fn new(layout: Layout, period: u32, debounce_scans: u16, hold_ticks: u16) -> (scheduler:
        Scheduler)
        requires
            layout.wf(),
            layout@.rows * (layout@.cols + 2) <= usize::MAX,
        ensures
            scheduler.wf(),
            scheduler@.period == period,
            scheduler@.engine == (EngineView {
                layout: layout@,
                hold_ticks: hold_ticks as nat,
                stack: seq![0usize],
                keys: Seq::empty(),
            }),
            scheduler@.debounce.threshold == debounce_scans,
            forall|r: int, c: int|
                0 <= r < layout@.rows && 0 <= c < layout@.cols ==> !(
                #[trigger] scheduler@.debounce.cells[r][c]).closed && scheduler@.debounce.cells[r][c].count
                    == 0,
            scheduler@.report.modifiers == 0,
            scheduler@.report.keys@ == Seq::new(6, |i: int| 0u8),
    {
        let rows: usize = layout.rows();
        let cols: usize = layout.cols();
        let matrix = Matrix::new(cols, rows);
        let debounce = Debounce::new(rows, cols, debounce_scans);
        let engine = Engine::new(layout, hold_ticks);
        let report = Report::empty();
        assert(engine@.codes() =~= Seq::<u8>::empty());
        Scheduler { period, matrix, debounce, engine, report }
    }

    /// What the handler of the timer interrupt does with the hardware, in
    /// order. The answers of the pins go to [`Scheduler::cycle`].
    pub fn timer_fired(&self) -> (commands: Vec<Command>)
        requires
            self.wf(),
        ensures
            commands@ == self@.commands(),
    {
        let ops: Vec<PinOp> = self.matrix.strobe();
        let mut commands: Vec<Command> = Vec::new();
        commands.push(Command::ClearInterrupt);
        commands.push(Command::Schedule(self.period));
        commands.push(Command::FeedWatchdog);
        let ghost head = commands@;
        let ghost plan = self@.plan();
        assert(ops@ == plan);
        let mut i: usize = 0;
        while i < ops.len()
            invariant
                i <= ops@.len(),
                ops@ == plan,
                commands@ == head + Seq::new(i as nat, |k: int| Command::Pin(plan[k])),
            decreases ops@.len() - i,
        {
            commands.push(Command::Pin(ops[i]));
            i += 1;
            assert(commands@ =~= head + Seq::new(i as nat, |k: int| Command::Pin(plan[k])));
        }
        assert(head =~= seq![
            Command::ClearInterrupt,
            Command::Schedule(self.period),
            Command::FeedWatchdog,
        ]);
        commands
    }

    /// Runs one cycle on what the pins answered to the scan.
    ///
    /// If `record` is not the record of a whole scan in which every pin
    /// answered, the cycle is abandoned: nothing changes and nothing is to
    /// be sent. Otherwise the scan goes through the filter, the events go to
    /// the engine, one tick passes, and the report is made anew. The result
    /// is the new report if it differs from the one before, and `None` if it
    /// does not.
    pub fn cycle(&mut self, record: &Vec<PinOutcome>) -> (send: Option<Report>)
        requires
            old(self).wf(),
        ensures
            final(self).wf(),
            final(self)@.period == old(self)@.period,
            !whole(old(self)@.plan(), record@) ==> final(self)@ == old(self)@ && send is None,
            whole(old(self)@.plan(), record@) ==> final(self)@.debounce == old(self)@.debounce.step(
                old(self)@.scan(record@),
            ),
            whole(old(self)@.plan(), record@) ==> final(self)@.engine == old(self)@.engine_after(
                old(self)@.scan(record@),
            ),
            whole(old(self)@.plan(), record@) ==> (send is None <==> alike(
                final(self)@.report,
                old(self)@.report,
            )),
            send matches Some(report) ==> report == final(self)@.report,
    {
        let raw: Vec<Vec<bool>> = match self.matrix.get(record) {
            Ok(raw) => raw,
            Err(_) => {
                return None;
            },
        };
        let ghost before = self@;
        let events = self.debounce.update(&raw);
        proof {
            before.engine.feed_keeps_valid(events@);
            before.engine.feed(events@).tick_keeps_valid();
        }
        self.engine.feed(&events);
        self.engine.tick();
        let codes: Vec<u8> = self.engine.keycodes();
        let report: Report = Report::from_codes(&codes);
        let changed: bool = !report.same(&self.report);
        self.report = report;
        if changed {
            Some(report)
        } else {
            None
        }
    }

    /// The microseconds from one cycle to the next.
    pub fn period(&self) -> (micros: u32)
        ensures
            micros == self@.period,
    {
        self.period
    }

    /// The report of the last complete cycle: what the USB handler sends
    /// when the host asks.
    pub fn report(&self) -> (report: Report)
        ensures
            report == self@.report,
    {
        self.report
    }

    /// Whether a write of the report has to be tried again: it has, as long
    /// as the transport has taken nothing and has not failed.
    pub fn write_again(written: Written) -> (again: bool)
        ensures
            again == (written == Written::Bytes(0) || written == Written::WouldBlock),
    {
        match written {
            Written::Bytes(n) => n == 0,
            Written::WouldBlock => true,
            Written::Failed => false,
        }
    }
}

} // verus!
