//! Laws of the machine, proved over its model.
use crate::brackets::{
    balanced, close_partner, is_close_partner, is_open_partner, lemma_balanced_close_exists,
    lemma_balanced_open_exists, lemma_tally_first, open_partner, tally, CLOSE, OPEN,
};
use crate::interpreter::{
    initial_state, is_command, next_state, settle, State, MINUS, PLUS, READ, WRITE,
};
use vstd::arithmetic::div_mod::lemma_add_mod_noop_right;
use vstd::prelude::*;

verus! {

/// Bracket jumps land one past the partner: in a balanced program a `[`
/// under a zero cell moves the instruction pointer to one past its own `]`,
/// and a `]` under a nonzero cell to one past its own `[`.
pub proof fn lemma_jumps_land_past_partner(s: State)
    requires
        s.wf(),
        !s.halted(),
        s.fuel > 0,
        balanced(s.program),
    ensures
        s.program[s.ip as int] == OPEN && s.cell() == 0 ==> (next_state(s) matches Ok(t)
            && is_close_partner(s.program, s.ip as int, t.ip - 1)),
        s.program[s.ip as int] == CLOSE && s.cell() != 0 ==> (next_state(s) matches Ok(t)
            && is_open_partner(s.program, s.ip as int, t.ip - 1)),
{
    let p = s.program;
    let i = s.ip as int;
    if p[i] == OPEN {
        lemma_balanced_close_exists(p, i);
        let j = choose|j: int| is_close_partner(p, i, j);
        assert(close_partner(p, i) == Some(j));
    }
    if p[i] == CLOSE {
        lemma_balanced_open_exists(p, i);
        let j = choose|j: int| is_open_partner(p, i, j);
        assert(open_partner(p, i) == Some(j));
    }
}

/// Wraparound: executing a run of `+` and `-` to the end of the program
/// leaves the current cell at its first value plus the number of `+` minus
/// the number of `-` (the tally below), modulo 256, and the data pointer
/// where it was.
pub proof fn lemma_wraparound(s: State)
    requires
        s.wf(),
        forall|k: int| s.ip <= k < s.program.len() ==> #[trigger] s.program[k] == PLUS
            || s.program[k] == MINUS,
        s.fuel >= s.program.len() - s.ip,
    ensures
        settle(s).1 is None,
        settle(s).0.dp == s.dp,
        settle(s).0.tape.len() == s.tape.len(),
        settle(s).0.cell() as int == (s.cell() + tally(
            s.program,
            s.ip as int,
            s.program.len() as int,
            PLUS,
            MINUS,
        )) % 256,
    decreases s.program.len() - s.ip,
{
    let n = s.program.len() as int;
    if s.halted() {
        assert(tally(s.program, s.ip as int, n, PLUS, MINUS) == 0);
    } else {
        let t = next_state(s)->Ok_0;
        lemma_wraparound(t);
        lemma_tally_first(s.program, s.ip as int, n, PLUS, MINUS);
        let rest = tally(s.program, s.ip as int + 1, n, PLUS, MINUS);
        if s.program[s.ip as int] == PLUS {
            lemma_add_mod_noop_right(rest, s.cell() + 1, 256);
        } else {
            lemma_add_mod_noop_right(rest, s.cell() - 1, 256);
        }
    }
}

/// Echo: `,` immediately followed by `.` appends the next unread input byte
/// to the output verbatim and consumes it.
pub proof fn lemma_read_then_write_echoes(s: State)
    requires
        s.wf(),
        s.ip + 1 < s.program.len(),
        s.program[s.ip as int] == READ,
        s.program[s.ip as int + 1] == WRITE,
        s.ip_in < s.input.len(),
        s.fuel >= 2,
    ensures
        next_state(s) matches Ok(t) && next_state(t) matches Ok(u) && u.output == s.output.push(
            s.input[s.ip_in as int],
        ) && u.ip_in == s.ip_in + 1 && u.ip == s.ip + 2,
{
}

proof fn lemma_no_ops_run_out(s: State)
    requires
        s.wf(),
        forall|k: int| s.ip <= k < s.program.len() ==> !is_command(#[trigger] s.program[k]),
        s.fuel >= s.program.len() - s.ip,
    ensures
        settle(s) == (
        State {
            ip: s.program.len(),
            fuel: (s.fuel - (s.program.len() - s.ip)) as nat,
            ..s
        },
        None::<crate::interpreter::ErrorKind>),
    decreases s.program.len() - s.ip,
{
    if !s.halted() {
        lemma_no_ops_run_out(next_state(s)->Ok_0);
    }
}

/// A program with no command byte in it halts without a failure, with empty
/// output, having only walked the instruction pointer to its end.
pub proof fn lemma_no_op_program_halts(p: Seq<u8>, input: Seq<u8>)
    requires
        p.len() <= usize::MAX,
        forall|k: int| 0 <= k < p.len() ==> !is_command(#[trigger] p[k]),
    ensures
        settle(initial_state(p, input, u64::MAX as nat)).1 is None,
        settle(initial_state(p, input, u64::MAX as nat)).0.output == Seq::<u8>::empty(),
        settle(initial_state(p, input, u64::MAX as nat)).0.ip == p.len(),
{
    lemma_no_ops_run_out(initial_state(p, input, u64::MAX as nat));
}

/// Determinism: machines built from the same program, input and step limit
/// stop in the same state with the same outcome, so they give the same output.
pub proof fn lemma_runs_deterministic(
    prog_a: Seq<u8>,
    input_a: Seq<u8>,
    prog_b: Seq<u8>,
    input_b: Seq<u8>,
    fuel: nat,
)
    requires
        prog_a == prog_b,
        input_a == input_b,
    ensures
        settle(initial_state(prog_a, input_a, fuel)) == settle(initial_state(prog_b, input_b, fuel)),
{
}

} // verus!
