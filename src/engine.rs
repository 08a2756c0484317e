use vstd::prelude::*;

use crate::bits::bit;
use crate::hub75::{Hub75, ROW_WORDS};
use crate::pins::Role;

verus! {

/// What the refresh loop does next with the output register.
#[derive(Clone, Copy, Debug, PartialEq, Eq, Structural)]
pub enum BusAction {
    /// Drive the bits of `set` high and those of `clear` low, and leave every other bit of
    /// the register as it is.
    Write { set: u32, clear: u32 },
    /// The engine has stopped with the output disabled; nothing more is written.
    Halt,
}

/// The write that puts the driven lines of `mask` at the levels of `w`.
pub open spec fn masked_write(w: u32, mask: u32) -> BusAction {
    BusAction::Write { set: w & mask, clear: !w & mask }
}

/// The register write that puts the lines of `mask` at their levels in `word`.
pub fn bus_write(word: u32, mask: u32) -> (r: BusAction)
    ensures
        r == masked_write(word, mask),
{
    BusAction::Write { set: word & mask, clear: !word & mask }
}

/// The model of a refresh engine.
pub struct EngineState {
    /// The program being played.
    pub program: Seq<u32>,
    /// A program handed over and not yet taken up.
    pub pending: Option<Seq<u32>>,
    /// Index of the next word of `program`.
    pub pos: nat,
    /// The word written last.
    pub last: u32,
    /// The bits that the panel drives.
    pub mask: u32,
    /// The output-enable bit.
    pub oe_bit: u32,
    pub stop_requested: bool,
    pub halted: bool,
}

impl EngineState {
    pub open spec fn wf(self) -> bool {
        &&& self.program.len() > 0
        &&& self.pos < self.program.len()
        &&& self.pending matches Some(p) ==> p.len() > 0
    }
}

/// A row of a program starts at every multiple of `ROW_WORDS` words.
pub open spec fn at_row_start(pos: nat) -> bool {
    pos % (ROW_WORDS as nat) == 0
}

/// One step of the engine: the state after it and what it writes.
///
/// A pending program replaces the running one only at the start of a cycle (position 0).
/// A stop request is honoured at the next row start: the last word is written again with
/// the output disabled, and the engine halts.
pub open spec fn step(s: EngineState) -> (EngineState, BusAction) {
    if s.halted {
        (s, BusAction::Halt)
    } else {
        let t = if s.pos == 0 && s.pending is Some {
            EngineState { program: s.pending->Some_0, pending: None, ..s }
        } else {
            s
        };
        if t.stop_requested && at_row_start(t.pos) {
            let w = t.last | t.oe_bit;
            (EngineState { last: w, halted: true, ..t }, masked_write(w, t.mask))
        } else {
            let w = t.program[t.pos as int];
            (
                EngineState { pos: ((t.pos + 1) % t.program.len()) as nat, last: w, ..t },
                masked_write(w, t.mask),
            )
        }
    }
}

/// Hands a new program to the engine; it is taken up at the next cycle start.
pub open spec fn install(s: EngineState, program: Seq<u32>) -> EngineState {
    EngineState { pending: Some(program), ..s }
}

/// Asks the engine to stop at the next row start.
pub open spec fn request_stop(s: EngineState) -> EngineState {
    EngineState { stop_requested: true, ..s }
}

/// What can happen to an engine.
pub enum EngineEvent {
    Step,
    Install(Seq<u32>),
    Stop,
}

pub open spec fn apply(s: EngineState, e: EngineEvent) -> EngineState {
    match e {
        EngineEvent::Step => step(s).0,
        EngineEvent::Install(p) => install(s, p),
        EngineEvent::Stop => request_stop(s),
    }
}

/// The state after the events `evs`, in order.
pub open spec fn run(s: EngineState, evs: Seq<EngineEvent>) -> EngineState
    decreases evs.len(),
{
    if evs.len() == 0 {
        s
    } else {
        apply(run(s, evs.drop_last()), evs.last())
    }
}

/// Replays a bus-word program over and over, taking up new programs atomically.
pub struct RefreshEngine {
    program: Vec<u32>,
    pending: Option<Vec<u32>>,
    pos: usize,
    last: u32,
    mask: u32,
    oe_bit: u32,
    stop_requested: bool,
    halted: bool,
}

impl RefreshEngine {
    pub closed spec fn view(&self) -> EngineState {
        EngineState {
            program: self.program@,
            pending: match self.pending {
                Some(p) => Some(p@),
                None => None,
            },
            pos: self.pos as nat,
            last: self.last,
            mask: self.mask,
            oe_bit: self.oe_bit,
            stop_requested: self.stop_requested,
            halted: self.halted,
        }
    }

    /// An engine about to play `program` for the panel of `hub75`, with the output disabled.
    pub fn new(hub75: &Hub75, program: Vec<u32>) -> (r: RefreshEngine)
        requires
            hub75.wf(),
            program@.len() > 0,
        ensures
            r@.wf(),
            r@ == (EngineState {
                program: program@,
                pending: None,
                pos: 0,
                last: bit(hub75.pins_spec().pos(Role::Oe)),
                mask: hub75.pins_spec().driven_mask_spec(),
                oe_bit: bit(hub75.pins_spec().pos(Role::Oe)),
                stop_requested: false,
                halted: false,
            }),
    {
        let oe_bit: u32 = hub75.idle_word();
        RefreshEngine {
            program,
            pending: None,
            pos: 0,
            last: oe_bit,
            mask: hub75.get_all_pin_mask(),
            oe_bit,
            stop_requested: false,
            halted: false,
        }
    }

    /// Hands over a new program; the running cycle is played to its end first.
    pub fn install(&mut self, program: Vec<u32>)
        requires
            old(self)@.wf(),
            program@.len() > 0,
        ensures
            final(self)@.wf(),
            final(self)@ == install(old(self)@, program@),
    {
        self.pending = Some(program);
    }

    /// Asks the engine to stop at the next row start.
    pub fn stop(&mut self)
        requires
            old(self)@.wf(),
        ensures
            final(self)@.wf(),
            final(self)@ == request_stop(old(self)@),
    {
        self.stop_requested = true;
    }

    pub fn is_halted(&self) -> (r: bool)
        ensures
            r == self@.halted,
    {
        self.halted
    }

    /// The next thing to do with the output register.
    pub fn next(&mut self) -> (r: BusAction)
        requires
            old(self)@.wf(),
        ensures
            final(self)@.wf(),
            (final(self)@, r) == step(old(self)@),
    {
        if self.halted {
            return BusAction::Halt;
        }
        if self.pos == 0 && self.pending.is_some() {
            match self.pending.take() {
                Some(p) => {
                    self.program = p;
                },
                None => {},
            }
        }
        if self.stop_requested && self.pos % ROW_WORDS == 0 {
            let w = self.last | self.oe_bit;
            self.last = w;
            self.halted = true;
            return bus_write(w, self.mask);
        }
        let w = self.program[self.pos];
        let len = self.program.len();
        self.pos = (self.pos + 1) % len;
        self.last = w;
        bus_write(w, self.mask)
    }
}

/// Every event keeps the model well formed, as long as no empty program is handed over.
pub proof fn lemma_apply_wf(s: EngineState, e: EngineEvent)
    requires
        s.wf(),
        e matches EngineEvent::Install(p) ==> p.len() > 0,
    ensures
        apply(s, e).wf(),
{
}

proof fn lemma_prefix_conditions(s: EngineState, evs: Seq<EngineEvent>, m: int)
    requires
        0 <= m <= evs.len(),
        forall|k: int|
            0 <= k < evs.len() ==> (#[trigger] evs[k] matches EngineEvent::Install(p) ==> p.len()
                > 0),
        forall|k: int|
            0 <= k < evs.len() && #[trigger] evs[k] is Step ==> run(s, evs.take(k)).pos != 0,
    ensures
        forall|k: int|
            0 <= k < evs.take(m).len() ==> (#[trigger] evs.take(m)[k] matches EngineEvent::Install(
                p,
            ) ==> p.len() > 0),
        forall|k: int|
            0 <= k < evs.take(m).len() && #[trigger] evs.take(m)[k] is Step ==> run(
                s,
                evs.take(m).take(k),
            ).pos != 0,
{
    let pre = evs.take(m);
    assert forall|k: int| 0 <= k < pre.len() && #[trigger] pre[k] is Step implies run(
        s,
        pre.take(k),
    ).pos != 0 by {
        assert(pre[k] == evs[k]);
        assert(pre.take(k) =~= evs.take(k));
    }
}

proof fn lemma_program_kept(s: EngineState, evs: Seq<EngineEvent>)
    requires
        s.wf(),
        forall|k: int|
            0 <= k < evs.len() ==> (#[trigger] evs[k] matches EngineEvent::Install(p) ==> p.len()
                > 0),
        forall|k: int|
            0 <= k < evs.len() && #[trigger] evs[k] is Step ==> run(s, evs.take(k)).pos != 0,
    ensures
        run(s, evs).wf(),
        run(s, evs).program == s.program,
        run(s, evs).mask == s.mask,
        run(s, evs).oe_bit == s.oe_bit,
    decreases evs.len(),
{
    if evs.len() > 0 {
        let n = evs.len() - 1;
        lemma_prefix_conditions(s, evs, n);
        assert(evs.take(n) =~= evs.drop_last());
        lemma_program_kept(s, evs.drop_last());
        lemma_apply_wf(run(s, evs.drop_last()), evs[n]);
    }
}

/// A program handed over while a cycle is under way never reaches the bus before that cycle
/// ends: through any events in which no step is taken at the start of a cycle, the running
/// program stays the one the engine started with, and each step writes a word of it (or,
/// when stopping, the last word with the output disabled). Since a cycle starts on a row
/// boundary, no row ever mixes words of two programs.
pub proof fn lemma_handoff_atomic(s: EngineState, evs: Seq<EngineEvent>)
    requires
        s.wf(),
        forall|k: int|
            0 <= k < evs.len() ==> (#[trigger] evs[k] matches EngineEvent::Install(p) ==> p.len()
                > 0),
        forall|k: int|
            0 <= k < evs.len() && #[trigger] evs[k] is Step ==> run(s, evs.take(k)).pos != 0,
    ensures
        run(s, evs).wf(),
        run(s, evs).program == s.program,
        forall|k: int|
            0 <= k < evs.len() && #[trigger] evs[k] is Step && !run(s, evs.take(k)).halted ==> {
                let t = run(s, evs.take(k));
                ||| step(t).1 == masked_write(s.program[t.pos as int], s.mask)
                ||| step(t).1 == masked_write(t.last | s.oe_bit, s.mask)
            },
{
    lemma_program_kept(s, evs);
    assert forall|k: int|
        0 <= k < evs.len() && #[trigger] evs[k] is Step && !run(s, evs.take(k)).halted implies {
        let t = run(s, evs.take(k));
        ||| step(t).1 == masked_write(s.program[t.pos as int], s.mask)
        ||| step(t).1 == masked_write(t.last | s.oe_bit, s.mask)
    } by {
        lemma_prefix_conditions(s, evs, k);
        lemma_program_kept(s, evs.take(k));
        assert(evs.take(k).len() == k);
    }
}

} // verus!
