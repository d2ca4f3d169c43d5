//! Running instructions against a tape, one step at a time. Each step says
//! which outside work, if any, the caller has to do.
use vstd::prelude::*;
use crate::parser::{parse_next, Instruction, Op, Parser};
use crate::tape::{left_of, right_of, wrapping_decr, wrapping_incr, Tape};

verus! {

/// What the caller has to do after a step.
#[derive(Clone, Copy, PartialEq, Eq, Structural, Debug)]
pub enum Action {
    /// Nothing: step again.
    Continue,
    /// Write this byte to the output and flush it, then step again.
    Output(u8),
    /// Read exactly one byte, hand it to `store`, then step again.
    Input,
    /// The program is done; the byte is its final value.
    Halt(u8),
}

/// An interpreter's state as mathematics: the tape, and one frame per
/// running instruction sequence, innermost last. A frame holds the bytes its
/// sequence starts at and the bytes it has yet to parse.
pub struct MachineView {
    pub cells: Seq<u8>,
    pub pos: nat,
    pub frames: Seq<(Seq<u8>, Seq<u8>)>,
}

/// The value of the cell under the pointer.
pub open spec fn cell_of(m: MachineView) -> u8 {
    m.cells[m.pos as int]
}

/// The state with the innermost frame's unparsed bytes set to `cur`.
pub open spec fn with_top(m: MachineView, cur: Seq<u8>) -> MachineView {
    MachineView {
        frames: m.frames.update(m.frames.len() - 1, (m.frames.last().0, cur)),
        ..m
    }
}

/// Carrying out one instruction.
pub open spec fn exec_op(m: MachineView, op: Op) -> (MachineView, Action) {
    match op {
        Op::MoveL => (MachineView { pos: left_of(m.pos, m.cells.len()), ..m }, Action::Continue),
        Op::MoveR => (MachineView { pos: right_of(m.pos, m.cells.len()), ..m }, Action::Continue),
        Op::Incr => (
            MachineView { cells: m.cells.update(m.pos as int, wrapping_incr(cell_of(m))), ..m },
            Action::Continue,
        ),
        Op::Decr => (
            MachineView { cells: m.cells.update(m.pos as int, wrapping_decr(cell_of(m))), ..m },
            Action::Continue,
        ),
        Op::Print => (m, Action::Output(cell_of(m))),
        Op::Store => (m, Action::Input),
        Op::Loop(body) => if cell_of(m) != 0 {
            (MachineView { frames: m.frames.push((body, body)), ..m }, Action::Continue)
        } else {
            (m, Action::Continue)
        },
    }
}

/// One step: take the innermost sequence's next instruction and carry it
/// out. Where a loop body's sequence ends, the body is parsed afresh from its
/// start while the current cell is not 0, and left otherwise; where the
/// program's own sequence ends, the program halts with the current cell.
pub open spec fn step_spec(m: MachineView) -> (MachineView, Action) {
    if m.frames.len() == 0 {
        (m, Action::Halt(cell_of(m)))
    } else {
        let top = m.frames.last();
        let (op, rest) = parse_next(top.1);
        match op {
            None => if m.frames.len() == 1 {
                (MachineView { frames: Seq::empty(), ..m }, Action::Halt(cell_of(m)))
            } else if cell_of(m) != 0 {
                (with_top(m, top.0), Action::Continue)
            } else {
                (MachineView { frames: m.frames.drop_last(), ..m }, Action::Continue)
            },
            Some(o) => exec_op(with_top(m, rest), o),
        }
    }
}

/// One running instruction sequence: the parser it was started from, kept
/// to re-derive a loop body, and the parser it is at.
#[derive(Clone, Copy)]
struct Frame<'a> {
    start: Parser<'a>,
    cur: Parser<'a>,
}

/// A program in the middle of its run.
pub struct Interpreter<'a> {
    tape: Tape,
    frames: Vec<Frame<'a>>,
}

impl<'a> Interpreter<'a> {
    /// The state as mathematics.
    pub closed spec fn view(&self) -> MachineView {
        MachineView {
            cells: self.tape.cells(),
            pos: self.tape.pos(),
            frames: self.frames@.map_values(|f: Frame<'a>| (f.start@, f.cur@)),
        }
    }

    /// The tape has a cell and the pointer is on one.
    pub open spec fn wf(&self) -> bool {
        self.view().cells.len() > 0 && self.view().pos < self.view().cells.len()
    }

    /// Starts `program` on `tape`.
    pub fn new(program: Parser<'a>, tape: Tape) -> (r: Self)
        requires
            tape.wf(),
        ensures
            r.wf(),
            r.view() == (MachineView {
                cells: tape.cells(),
                pos: tape.pos(),
                frames: seq![(program@, program@)],
            }),
    {
        let mut frames: Vec<Frame<'a>> = Vec::new();
        frames.push(Frame { start: program, cur: program });
        let r = Interpreter { tape, frames };
        assert(r.view().frames =~= seq![(program@, program@)]);
        r
    }

    /// The tape.
    pub fn tape(&self) -> (r: &Tape)
        ensures
            r.cells() == self.view().cells,
            r.pos() == self.view().pos,
    {
        &self.tape
    }

    /// The program has halted: no sequence is running any more.
    pub fn is_halted(&self) -> (r: bool)
        ensures
            r == (self.view().frames.len() == 0),
    {
        self.frames.len() == 0
    }

    /// Writes an input byte into the cell under the pointer, as an `Input`
    /// action asks for.
    pub fn store(&mut self, b: u8)
        requires
            old(self).wf(),
        ensures
            final(self).wf(),
            final(self).view() == (MachineView {
                cells: old(self).view().cells.update(old(self).view().pos as int, b),
                ..old(self).view()
            }),
    {
        self.tape.store(b);
    }

    /// Takes one step of the run and says what the caller has to do.
    pub fn step(&mut self) -> (r: Action)
        requires
            old(self).wf(),
        ensures
            final(self).wf(),
            (final(self).view(), r) == step_spec(old(self).view()),
    {
        let ghost m = self.view();
        let n = self.frames.len();
        if n == 0 {
            return Action::Halt(self.tape.current());
        }
        let top = self.frames[n - 1];
        let mut cur = top.cur;
        match cur.next() {
            None => {
                if n == 1 {
                    self.frames.pop();
                    assert(self.view().frames =~= Seq::empty());
                    Action::Halt(self.tape.current())
                } else if self.tape.current() != 0 {
                    self.frames.set(n - 1, Frame { start: top.start, cur: top.start });
                    assert(self.view().frames =~= with_top(m, top.start@).frames);
                    Action::Continue
                } else {
                    self.frames.pop();
                    assert(self.view().frames =~= m.frames.drop_last());
                    Action::Continue
                }
            },
            Some(inst) => {
                self.frames.set(n - 1, Frame { start: top.start, cur });
                let ghost m1 = with_top(m, cur@);
                assert(self.view().frames =~= m1.frames);
                match inst {
                    Instruction::MoveL => {
                        self.tape.move_left();
                        Action::Continue
                    },
                    Instruction::MoveR => {
                        self.tape.move_right();
                        Action::Continue
                    },
                    Instruction::Incr => {
                        self.tape.increment();
                        Action::Continue
                    },
                    Instruction::Decr => {
                        self.tape.decrement();
                        Action::Continue
                    },
                    Instruction::Print => Action::Output(self.tape.current()),
                    Instruction::Store => Action::Input,
                    Instruction::Loop(body) => {
                        if self.tape.current() != 0 {
                            self.frames.push(Frame { start: body, cur: body });
                            assert(self.view().frames =~= m1.frames.push((body@, body@)));
                        }
                        Action::Continue
                    },
                }
            },
        }
    }
}

} // verus!
