//! The evaluator: walks the program tree against a fixed-capacity tape of
//! byte cells and a movable cursor.
//!
//! Every boundary crossing is a reported fault, never a silent wrap: a
//! cell sticks at 0 and 255, the cursor at the two ends of the tape, and
//! each violation halts the run at once with a located diagnostic.
//! Output bytes go to a caller-visible buffer, and the read instruction
//! takes bytes from a caller-supplied buffer, so that one run is a pure
//! function of tree, tape and buffers.
//!
//! A run is bounded by a fuel budget, spent one unit per loop pass; a
//! program that needs more ends with [`Halt::Interrupted`]. This is the
//! cooperative check that lets a host stop a runaway loop: with the spec
//! interpreter [`run_node`] needing the same fuel, the contract of
//! [`eval`] stays exact even on programs that never end.

use crate::parser::{lemma_vec_deep_view_nodes, Node, NodeView};
use crate::{Location, LocationView};
use vstd::prelude::*;

verus! {

broadcast use vstd::std_specs::vec::group_vec_axioms, vstd::seq::group_seq_axioms;

/// How many byte cells a tape holds.
pub const TAPE_LEN: usize = 10000;

/// The tape of one evaluation: a fixed-length vector of byte cells and
/// the cursor that addresses one of them.
pub struct State {
    pub nodes: Vec<u8>,
    pub head_index: usize,
}

impl State {
    /// The tape has its fixed length and the cursor stands on it.
    pub open spec fn wf(&self) -> bool {
        self.nodes@.len() == TAPE_LEN && self.head_index < TAPE_LEN
    }
}

impl Default for State {
    /// A fresh tape: every cell zero, the cursor on the first cell.
    fn default() -> (s: State)
        ensures
            s.wf(),
            s.head_index == 0,
            forall|i: int| 0 <= i < TAPE_LEN ==> s.nodes@[i] == 0u8,
    {
        let mut nodes: Vec<u8> = Vec::new();
        let mut i: usize = 0;
        while i < TAPE_LEN
            invariant
                i <= TAPE_LEN,
                nodes@.len() == i,
                forall|k: int| 0 <= k < i ==> nodes@[k] == 0u8,
            decreases TAPE_LEN - i,
        {
            nodes.push(0u8);
            i = i + 1;
        }
        State { nodes, head_index: 0 }
    }
}

/// The byte buffers an evaluation exchanges with its host: input not yet
/// consumed by read instructions, and output emitted by print
/// instructions.
pub struct Io {
    pub input: Vec<u8>,
    pub read_pos: usize,
    pub output: Vec<u8>,
}

impl Io {
    /// The read position has not run past the input.
    pub open spec fn wf(&self) -> bool {
        self.read_pos <= self.input@.len()
    }

    /// The input bytes not yet consumed.
    pub open spec fn remaining(&self) -> Seq<u8> {
        self.input@.skip(self.read_pos as int)
    }

    /// Buffers for one run: the given input, nothing read, nothing
    /// written.
    pub fn new(input: Vec<u8>) -> (io: Io)
        ensures
            io.wf(),
            io.remaining() == input@,
            io.output@ == Seq::<u8>::empty(),
    {
        let io = Io { input, read_pos: 0, output: Vec::new() };
        proof {
            assert(io.remaining() =~= io.input@);
        }
        io
    }
}

/// A runtime fault: which boundary an instruction crossed, and where in
/// the source that instruction stood. Cell faults also carry the 1-based
/// index of the offending cell.
#[derive(Debug)]
pub enum Error {
    NodeOverflow(usize, Location),
    NodeUnderflow(usize, Location),
    HeadOverflow(Location),
    HeadUnderflow(Location),
    ReadFailure(Location),
}

/// The mathematical value of a runtime fault.
pub ghost enum ErrorView {
    NodeOverflow(int, LocationView),
    NodeUnderflow(int, LocationView),
    HeadOverflow(LocationView),
    HeadUnderflow(LocationView),
    ReadFailure(LocationView),
}

impl View for Error {
    type V = ErrorView;

    open spec fn view(&self) -> ErrorView {
        match self {
            Error::NodeOverflow(i, l) => ErrorView::NodeOverflow(*i as int, l@),
            Error::NodeUnderflow(i, l) => ErrorView::NodeUnderflow(*i as int, l@),
            Error::HeadOverflow(l) => ErrorView::HeadOverflow(l@),
            Error::HeadUnderflow(l) => ErrorView::HeadUnderflow(l@),
            Error::ReadFailure(l) => ErrorView::ReadFailure(l@),
        }
    }
}

impl DeepView for Error {
    type V = ErrorView;

    open spec fn deep_view(&self) -> ErrorView {
        self.view()
    }
}

/// Why an evaluation stopped short of the end of the tree: a runtime
/// fault of the program, or the fuel budget ran out.
#[derive(Debug)]
pub enum Halt {
    Fault(Error),
    Interrupted,
}

/// The whole observable condition of an evaluation at one moment: tape,
/// cursor, input not yet consumed, output emitted so far.
pub ghost struct Machine {
    pub tape: Seq<u8>,
    pub cursor: int,
    pub input: Seq<u8>,
    pub output: Seq<u8>,
}

impl Machine {
    /// The tape has its fixed length and the cursor stands on it.
    pub open spec fn wf(&self) -> bool {
        self.tape.len() == TAPE_LEN && 0 <= self.cursor < TAPE_LEN
    }
}

/// The machine that a tape and a pair of buffers stand for.
pub open spec fn machine_of(state: State, io: Io) -> Machine {
    Machine {
        tape: state.nodes@,
        cursor: state.head_index as int,
        input: io.remaining(),
        output: io.output@,
    }
}

/// How one evaluation step ends: the tree ran to completion, a fault
/// stopped it, or the fuel ran out mid-way. Each case carries the machine
/// at that moment, so partial output stays visible.
pub ghost enum Outcome {
    Done(Machine),
    Fault(Machine, ErrorView),
    Cut(Machine),
}

/// Evaluates one node: the meaning of every instruction of the language.
///
/// A loop spends one unit of fuel per pass; all other instructions are
/// free. Cells and cursor never wrap: at a boundary the machine is left
/// as it stands and the fault names the instruction's source location.
pub open spec fn run_node(m: Machine, n: NodeView, fuel: nat) -> Outcome
    decreases fuel, n,
{
    match n {
        NodeView::Root { children } => run_seq(m, children, fuel),
        NodeView::Loop { loc, children } => {
            if m.tape[m.cursor] == 0 {
                Outcome::Done(m)
            } else if fuel == 0 {
                Outcome::Cut(m)
            } else {
                match run_seq(m, children, (fuel - 1) as nat) {
                    Outcome::Done(m2) => run_node(m2, n, (fuel - 1) as nat),
                    other => other,
                }
            }
        },
        NodeView::Increment { loc } => {
            if m.tape[m.cursor] < 255 {
                Outcome::Done(
                    Machine {
                        tape: m.tape.update(m.cursor, (m.tape[m.cursor] + 1) as u8),
                        cursor: m.cursor,
                        input: m.input,
                        output: m.output,
                    },
                )
            } else {
                Outcome::Fault(m, ErrorView::NodeOverflow(m.cursor + 1, loc))
            }
        },
        NodeView::Decrement { loc } => {
            if m.tape[m.cursor] > 0 {
                Outcome::Done(
                    Machine {
                        tape: m.tape.update(m.cursor, (m.tape[m.cursor] - 1) as u8),
                        cursor: m.cursor,
                        input: m.input,
                        output: m.output,
                    },
                )
            } else {
                Outcome::Fault(m, ErrorView::NodeUnderflow(m.cursor + 1, loc))
            }
        },
        NodeView::MoveRight { loc } => {
            if m.cursor < TAPE_LEN - 1 {
                Outcome::Done(
                    Machine {
                        tape: m.tape,
                        cursor: m.cursor + 1,
                        input: m.input,
                        output: m.output,
                    },
                )
            } else {
                Outcome::Fault(m, ErrorView::HeadOverflow(loc))
            }
        },
        NodeView::MoveLeft { loc } => {
            if m.cursor > 0 {
                Outcome::Done(
                    Machine {
                        tape: m.tape,
                        cursor: m.cursor - 1,
                        input: m.input,
                        output: m.output,
                    },
                )
            } else {
                Outcome::Fault(m, ErrorView::HeadUnderflow(loc))
            }
        },
        NodeView::Print { loc } => Outcome::Done(
            Machine {
                tape: m.tape,
                cursor: m.cursor,
                input: m.input,
                output: m.output.push(m.tape[m.cursor] as u8),
            },
        ),
        NodeView::Read { loc } => {
            if m.input.len() > 0 {
                Outcome::Done(
                    Machine {
                        tape: m.tape.update(m.cursor, m.input[0]),
                        cursor: m.cursor,
                        input: m.input.drop_first(),
                        output: m.output,
                    },
                )
            } else {
                Outcome::Fault(m, ErrorView::ReadFailure(loc))
            }
        },
    }
}

/// Evaluates a run of sibling nodes in order, stopping at the first node
/// that does not run to completion.
pub open spec fn run_seq(m: Machine, ns: Seq<NodeView>, fuel: nat) -> Outcome
    decreases fuel, ns,
{
    if ns.len() == 0 {
        Outcome::Done(m)
    } else {
        match run_node(m, ns[0], fuel) {
            Outcome::Done(m2) => run_seq(m2, ns.drop_first(), fuel),
            other => other,
        }
    }
}

/// Evaluates the tree `node` against the tape and the buffers, with a
/// budget of `fuel` loop passes.
///
/// The outcome is exactly what the spec interpreter [`run_node`] says of
/// the machine the arguments stood for: `Ok` when the tree ran to
/// completion, the fault [`run_node`] names when it faults — with the
/// machine, partial output included, as [`run_node`] leaves it — and
/// [`Halt::Interrupted`] exactly when the budget does not cover the run.
pub fn eval(state: &mut State, node: &Node, io: &mut Io, fuel: u64) -> (r: Result<(), Halt>)
    requires
        old(state).wf(),
        old(io).wf(),
    ensures
        final(state).wf(),
        final(io).wf(),
        match r {
            Ok(()) => run_node(
                machine_of(*old(state), *old(io)),
                node.deep_view(),
                fuel as nat,
            ) == Outcome::Done(machine_of(*final(state), *final(io))),
            Err(Halt::Fault(e)) => run_node(
                machine_of(*old(state), *old(io)),
                node.deep_view(),
                fuel as nat,
            ) == Outcome::Fault(machine_of(*final(state), *final(io)), e@),
            Err(Halt::Interrupted) => run_node(
                machine_of(*old(state), *old(io)),
                node.deep_view(),
                fuel as nat,
            ) == Outcome::Cut(machine_of(*final(state), *final(io))),
        },
    decreases node,
{
    match node {
        Node::Root { children } => {
            proof {
                lemma_vec_deep_view_nodes(*children);
            }
            eval_seq(state, children, io, fuel)
        },
        Node::Loop { loc, children } => {
            proof {
                lemma_vec_deep_view_nodes(*children);
            }
            let ghost m0 = machine_of(*state, *io);
            let ghost nv = node.deep_view();
            let mut f: u64 = fuel;
            loop
                invariant
                    state.wf(),
                    io.wf(),
                    (decreases_to!(*node => *children)),
                    nv == node.deep_view(),
                    nv == (NodeView::Loop { loc: loc@, children: children.deep_view() }),
                    run_node(m0, nv, fuel as nat) == run_node(
                        machine_of(*state, *io),
                        nv,
                        f as nat,
                    ),
                    m0 == machine_of(*old(state), *old(io)),
                decreases f,
            {
                let cell = state.nodes[state.head_index];
                if cell == 0 {
                    return Ok(());
                }
                if f == 0 {
                    return Err(Halt::Interrupted);
                }
                let ghost m_before = machine_of(*state, *io);
                f = f - 1;
                match eval_seq(state, children, io, f) {
                    Ok(()) => {
                        proof {
                            assert(run_node(m_before, nv, (f + 1) as nat) == run_node(
                                machine_of(*state, *io),
                                nv,
                                f as nat,
                            ));
                        }
                    },
                    Err(h) => {
                        return Err(h);
                    },
                }
            }
        },
        Node::Increment { loc } => {
            let idx = state.head_index;
            let cell = state.nodes[idx];
            if cell < 255 {
                state.nodes[idx] = cell + 1;
                Ok(())
            } else {
                Err(Halt::Fault(Error::NodeOverflow(idx + 1, loc.duplicate())))
            }
        },
        Node::Decrement { loc } => {
            let idx = state.head_index;
            let cell = state.nodes[idx];
            if cell > 0 {
                state.nodes[idx] = cell - 1;
                Ok(())
            } else {
                Err(Halt::Fault(Error::NodeUnderflow(idx + 1, loc.duplicate())))
            }
        },
        Node::MoveRight { loc } => {
            if state.head_index < TAPE_LEN - 1 {
                state.head_index = state.head_index + 1;
                Ok(())
            } else {
                Err(Halt::Fault(Error::HeadOverflow(loc.duplicate())))
            }
        },
        Node::MoveLeft { loc } => {
            if state.head_index > 0 {
                state.head_index = state.head_index - 1;
                Ok(())
            } else {
                Err(Halt::Fault(Error::HeadUnderflow(loc.duplicate())))
            }
        },
        Node::Print { loc } => {
            let b = state.nodes[state.head_index];
            io.output.push(b);
            Ok(())
        },
        Node::Read { loc } => {
            if io.read_pos < io.input.len() {
                let b = io.input[io.read_pos];
                let ghost rem = io.remaining();
                io.read_pos = io.read_pos + 1;
                state.nodes[state.head_index] = b;
                proof {
                    assert(rem[0] == b);
                    assert(io.remaining() =~= rem.drop_first());
                }
                Ok(())
            } else {
                proof {
                    assert(io.remaining() =~= Seq::<u8>::empty());
                }
                Err(Halt::Fault(Error::ReadFailure(loc.duplicate())))
            }
        },
    }
}

/// Evaluates the children of one node in order, stopping at the first
/// child that does not run to completion, exactly as [`run_seq`] says.
fn eval_seq(state: &mut State, children: &Vec<Node>, io: &mut Io, fuel: u64) -> (r: Result<
    (),
    Halt,
>)
    requires
        old(state).wf(),
        old(io).wf(),
    ensures
        final(state).wf(),
        final(io).wf(),
        match r {
            Ok(()) => run_seq(
                machine_of(*old(state), *old(io)),
                children.deep_view(),
                fuel as nat,
            ) == Outcome::Done(machine_of(*final(state), *final(io))),
            Err(Halt::Fault(e)) => run_seq(
                machine_of(*old(state), *old(io)),
                children.deep_view(),
                fuel as nat,
            ) == Outcome::Fault(machine_of(*final(state), *final(io)), e@),
            Err(Halt::Interrupted) => run_seq(
                machine_of(*old(state), *old(io)),
                children.deep_view(),
                fuel as nat,
            ) == Outcome::Cut(machine_of(*final(state), *final(io))),
        },
    decreases children,
{
    let ghost cv = children.deep_view();
    let ghost m0 = machine_of(*old(state), *old(io));
    proof {
        assert(cv.skip(0) =~= cv);
    }
    let mut j: usize = 0;
    while j < children.len()
        invariant
            state.wf(),
            io.wf(),
            j <= children@.len(),
            cv == children.deep_view(),
            cv.len() == children@.len(),
            m0 == machine_of(*old(state), *old(io)),
            run_seq(m0, cv, fuel as nat) == run_seq(
                machine_of(*state, *io),
                cv.skip(j as int),
                fuel as nat,
            ),
        decreases children@.len() - j,
    {
        let ghost m_before = machine_of(*state, *io);
        proof {
            assert(cv.skip(j as int)[0] == cv[j as int]);
            assert(cv.skip(j as int).drop_first() =~= cv.skip(j + 1));
            assert(cv[j as int] == children@[j as int].deep_view());
        }
        match eval(state, &children[j], io, fuel) {
            Ok(()) => {},
            Err(h) => {
                return Err(h);
            },
        }
        j = j + 1;
    }
    proof {
        assert(cv.skip(cv.len() as int) =~= Seq::<NodeView>::empty());
    }
    Ok(())
}

/// Law: a loop with an empty body over a non-zero cell never ends — no
/// fuel budget completes it, every budget is cut.
pub proof fn lemma_empty_loop_diverges(m: Machine, loc: LocationView, fuel: nat)
    requires
        m.wf(),
        m.tape[m.cursor] != 0,
    ensures
        run_node(m, NodeView::Loop { loc, children: Seq::empty() }, fuel) == Outcome::Cut(m),
    decreases fuel,
{
    if fuel > 0 {
        lemma_empty_loop_diverges(m, loc, (fuel - 1) as nat);
        assert(run_seq(m, Seq::<NodeView>::empty(), (fuel - 1) as nat) == Outcome::Done(m));
    }
}

} // verus!
