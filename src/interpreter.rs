//! The tape machine: its state as a mathematical model, the transition that
//! one instruction makes, and the executable machine proved against both.
use crate::brackets::{close_partner, find_close, find_open, open_partner, CLOSE, OPEN};
use vstd::prelude::*;
use vstd::slice::slice_to_vec;
use vstd::string::StringSliceAdditionalSpecFns;
use vstd::utf8::{decode_utf8, valid_utf8};

verus! {

/// `>`: move the data pointer right.
pub const RIGHT: u8 = 62;

/// `<`: move the data pointer left.
pub const LEFT: u8 = 60;

/// `+`: add one to the current cell.
pub const PLUS: u8 = 43;

/// `-`: subtract one from the current cell.
pub const MINUS: u8 = 45;

/// `.`: append the current cell to the output.
pub const WRITE: u8 = 46;

/// `,`: read the next input byte into the current cell.
pub const READ: u8 = 44;

/// One of the eight bytes that the machine executes; every other byte is a no-op.
pub open spec fn is_command(c: u8) -> bool {
    c == RIGHT || c == LEFT || c == PLUS || c == MINUS || c == WRITE || c == READ || c == OPEN
        || c == CLOSE
}

/// What a successful step leaves behind.
#[derive(Debug, Clone, Copy, PartialEq, Eq, Structural)]
pub enum Success {
    /// Instructions remain to be executed.
    Running,
    /// The instruction pointer has moved past the last instruction.
    Exit,
}

/// Why the machine could not go on.
#[derive(Debug, Clone, Copy, PartialEq, Eq, Structural)]
pub enum ErrorKind {
    /// A `[` without its `]`, or a `]` without its `[`.
    UnmatchedBracket,
    /// `<` with the data pointer on the first cell.
    DataPointerUnderflow,
    /// `,` with every input byte already read.
    InputExhausted,
    /// The machine used up the steps it was allowed.
    StepLimitExceeded,
    /// The output bytes are not valid UTF-8.
    InvalidOutputEncoding,
    /// A step was asked of a machine that had already halted.
    Halted,
}

/// A failure of the machine, with its kind.
#[derive(Debug, Clone, Copy, PartialEq, Eq, Structural)]
pub struct InterpretError {
    pub kind: ErrorKind,
}

impl InterpretError {
    pub fn new(kind: ErrorKind) -> (r: InterpretError)
        ensures
            r.kind == kind,
    {
        InterpretError { kind }
    }
}

/// The machine as a mathematical value: the program and its instruction
/// pointer, the tape and its data pointer, the input and how much of it has
/// been read, the output so far, and the steps still allowed.
pub struct State {
    pub program: Seq<u8>,
    pub ip: nat,
    pub tape: Seq<u8>,
    pub dp: nat,
    pub input: Seq<u8>,
    pub ip_in: nat,
    pub output: Seq<u8>,
    pub fuel: nat,
}

impl State {
    /// Every cursor lies within its memory.
    pub open spec fn wf(self) -> bool {
        &&& self.ip <= self.program.len()
        &&& self.dp < self.tape.len()
        &&& self.ip_in <= self.input.len()
    }

    /// The instruction pointer has moved past the last instruction.
    pub open spec fn halted(self) -> bool {
        self.ip >= self.program.len()
    }

    /// The cell under the data pointer.
    pub open spec fn cell(self) -> u8 {
        self.tape[self.dp as int]
    }
}

/// A fresh machine: one zero cell, nothing read, nothing written.
pub open spec fn initial_state(program: Seq<u8>, input: Seq<u8>, fuel: nat) -> State {
    State { program, ip: 0, tape: seq![0u8], dp: 0, input, ip_in: 0, output: seq![], fuel }
}

/// `v + 1` modulo 256.
pub open spec fn wrapping_inc(v: u8) -> u8 {
    ((v + 1) % 256) as u8
}

/// `v - 1` modulo 256.
pub open spec fn wrapping_dec(v: u8) -> u8 {
    ((v - 1) % 256) as u8
}

/// The effect of executing the instruction under the instruction pointer:
/// the next state, or the failure that leaves the machine as it was.
pub open spec fn next_state(s: State) -> Result<State, ErrorKind> {
    if s.halted() {
        Err(ErrorKind::Halted)
    } else if s.fuel == 0 {
        Err(ErrorKind::StepLimitExceeded)
    } else {
        let c = s.program[s.ip as int];
        let t = State { ip: s.ip + 1, fuel: (s.fuel - 1) as nat, ..s };
        if c == RIGHT {
            if s.dp + 1 == s.tape.len() {
                Ok(State { dp: s.dp + 1, tape: s.tape.push(0), ..t })
            } else {
                Ok(State { dp: s.dp + 1, ..t })
            }
        } else if c == LEFT {
            if s.dp == 0 {
                Err(ErrorKind::DataPointerUnderflow)
            } else {
                Ok(State { dp: (s.dp - 1) as nat, ..t })
            }
        } else if c == PLUS {
            Ok(State { tape: s.tape.update(s.dp as int, wrapping_inc(s.cell())), ..t })
        } else if c == MINUS {
            Ok(State { tape: s.tape.update(s.dp as int, wrapping_dec(s.cell())), ..t })
        } else if c == WRITE {
            Ok(State { output: s.output.push(s.cell()), ..t })
        } else if c == READ {
            if s.ip_in >= s.input.len() {
                Err(ErrorKind::InputExhausted)
            } else {
                Ok(
                    State {
                        tape: s.tape.update(s.dp as int, s.input[s.ip_in as int]),
                        ip_in: s.ip_in + 1,
                        ..t
                    },
                )
            }
        } else if c == OPEN {
            match close_partner(s.program, s.ip as int) {
                None => Err(ErrorKind::UnmatchedBracket),
                Some(j) => if s.cell() == 0 {
                    Ok(State { ip: (j + 1) as nat, ..t })
                } else {
                    Ok(t)
                },
            }
        } else if c == CLOSE {
            match open_partner(s.program, s.ip as int) {
                None => Err(ErrorKind::UnmatchedBracket),
                Some(i) => if s.cell() != 0 {
                    Ok(State { ip: (i + 1) as nat, ..t })
                } else {
                    Ok(t)
                },
            }
        } else {
            Ok(t)
        }
    }
}

/// Steps the machine until it halts or fails: the state where it stopped,
/// and the failure if there was one.
pub open spec fn settle(s: State) -> (State, Option<ErrorKind>)
    decreases s.fuel,
{
    if s.halted() {
        (s, None)
    } else {
        match next_state(s) {
            Ok(t) => settle(t),
            Err(e) => (s, Some(e)),
        }
    }
}

/// Relies on `String::from_utf8`: it succeeds exactly on valid UTF-8, and the
/// string then holds the characters that the bytes encode.
#[verifier::external_body]
fn decode_text(bytes: &[u8]) -> (r: Option<String>)
    ensures
        r is Some <==> valid_utf8(bytes@),
        r matches Some(s) ==> s@ == decode_utf8(bytes@),
{
    String::from_utf8(bytes.to_vec()).ok()
}

/// The tape machine.
#[derive(Debug, Clone)]
pub struct Interpreter {
    p_input: usize,
    m_input: Vec<u8>,
    m_output: Vec<u8>,
    p_inst: usize,
    m_inst: Vec<u8>,
    p_data: usize,
    m_data: Vec<u8>,
    steps_left: u64,
}

impl View for Interpreter {
    type V = State;

    closed spec fn view(&self) -> State {
        State {
            program: self.m_inst@,
            ip: self.p_inst as nat,
            tape: self.m_data@,
            dp: self.p_data as nat,
            input: self.m_input@,
            ip_in: self.p_input as nat,
            output: self.m_output@,
            fuel: self.steps_left as nat,
        }
    }
}

impl Interpreter {
    /// A machine for `instruction` reading `input`, with no practical limit
    /// on the number of steps.
    pub fn new(instruction: &str, input: &str) -> (r: Interpreter)
        ensures
            r@ == initial_state(instruction.spec_bytes(), input.spec_bytes(), u64::MAX as nat),
            r@.wf(),
    {
        Interpreter::with_step_limit(instruction, input, u64::MAX)
    }

    /// A machine for `instruction` reading `input` that fails with
    /// `StepLimitExceeded` rather than execute more than `limit` instructions.
    pub fn with_step_limit(instruction: &str, input: &str, limit: u64) -> (r: Interpreter)
        ensures
            r@ == initial_state(instruction.spec_bytes(), input.spec_bytes(), limit as nat),
            r@.wf(),
    {
        let mut tape: Vec<u8> = Vec::new();
        tape.push(0);
        let r = Interpreter {
            p_input: 0,
            m_input: slice_to_vec(input.as_bytes()),
            m_output: Vec::new(),
            p_inst: 0,
            m_inst: slice_to_vec(instruction.as_bytes()),
            p_data: 0,
            m_data: tape,
            steps_left: limit,
        };
        assert(r@ =~= initial_state(instruction.spec_bytes(), input.spec_bytes(), limit as nat));
        r
    }

    /// Executes the instruction under the instruction pointer. On failure the
    /// machine is left unchanged.
    pub fn step(&mut self) -> (r: Result<Success, InterpretError>)
        requires
            old(self)@.wf(),
        ensures
            final(self)@.wf(),
            match next_state(old(self)@) {
                Ok(t) => final(self)@ == t && r == Ok::<Success, InterpretError>(
                    if t.halted() {
                        Success::Exit
                    } else {
                        Success::Running
                    },
                ),
                Err(e) => final(self)@ == old(self)@ && r == Err::<Success, InterpretError>(
                    InterpretError { kind: e },
                ),
            },
    {
        if self.p_inst >= self.m_inst.len() {
            return Err(InterpretError::new(ErrorKind::Halted));
        }
        if self.steps_left == 0 {
            return Err(InterpretError::new(ErrorKind::StepLimitExceeded));
        }
        let c = self.m_inst[self.p_inst];
        let mut next: usize = self.p_inst + 1;
        if c == RIGHT {
            if self.p_data == self.m_data.len() - 1 {
                self.m_data.push(0);
            }
            self.p_data = self.p_data + 1;
        } else if c == LEFT {
            if self.p_data == 0 {
                return Err(InterpretError::new(ErrorKind::DataPointerUnderflow));
            }
            self.p_data = self.p_data - 1;
        } else if c == PLUS {
            let v = self.m_data[self.p_data];
            self.m_data[self.p_data] = if v == 255 { 0 } else { v + 1 };
        } else if c == MINUS {
            let v = self.m_data[self.p_data];
            self.m_data[self.p_data] = if v == 0 { 255 } else { v - 1 };
        } else if c == WRITE {
            let v = self.m_data[self.p_data];
            self.m_output.push(v);
        } else if c == READ {
            if self.p_input >= self.m_input.len() {
                return Err(InterpretError::new(ErrorKind::InputExhausted));
            }
            let v = self.m_input[self.p_input];
            self.m_data[self.p_data] = v;
            self.p_input = self.p_input + 1;
        } else if c == OPEN {
            match find_close(self.m_inst.as_slice(), self.p_inst) {
                None => {
                    return Err(InterpretError::new(ErrorKind::UnmatchedBracket));
                },
                Some(j) => {
                    if self.m_data[self.p_data] == 0 {
                        next = j + 1;
                    }
                },
            }
        } else if c == CLOSE {
            match find_open(self.m_inst.as_slice(), self.p_inst) {
                None => {
                    return Err(InterpretError::new(ErrorKind::UnmatchedBracket));
                },
                Some(i) => {
                    if self.m_data[self.p_data] != 0 {
                        next = i + 1;
                    }
                },
            }
        }
        self.p_inst = next;
        self.steps_left = self.steps_left - 1;
        if self.p_inst == self.m_inst.len() {
            Ok(Success::Exit)
        } else {
            Ok(Success::Running)
        }
    }

    /// Steps the machine until it halts, and returns its output as text; or
    /// returns the failure that stopped it.
    pub fn run(&mut self) -> (r: Result<String, InterpretError>)
        requires
            old(self)@.wf(),
        ensures
            final(self)@.wf(),
            final(self)@ == settle(old(self)@).0,
            match settle(old(self)@).1 {
                Some(e) => r == Err::<String, InterpretError>(InterpretError { kind: e }),
                None => if valid_utf8(final(self)@.output) {
                    r matches Ok(s) && s@ == decode_utf8(final(self)@.output)
                } else {
                    r == Err::<String, InterpretError>(
                        InterpretError { kind: ErrorKind::InvalidOutputEncoding },
                    )
                },
            },
    {
        let ghost start = self@;
        while self.p_inst < self.m_inst.len()
            invariant
                self@.wf(),
                start == old(self)@,
                settle(self@) == settle(start),
            decreases self.steps_left,
        {
            match self.step() {
                Ok(_) => {},
                Err(e) => {
                    assert(settle(self@) == (self@, Some(e.kind)));
                    return Err(e);
                },
            }
        }
        match decode_text(self.m_output.as_slice()) {
            Some(s) => Ok(s),
            None => Err(InterpretError::new(ErrorKind::InvalidOutputEncoding)),
        }
    }
}

} // verus!
