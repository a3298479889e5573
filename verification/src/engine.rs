use vstd::prelude::*;

use crate::matcher::{build_jump_table, jump_entry, lemma_match_scan_invariant, match_table};
use crate::opcode::Opcode;
use crate::text::{push_char, string_with_capacity};

verus! {

/// An execution fault of the engine. Construction never fails; these are the
/// only conditions a running program can raise.
#[derive(Clone, Copy, Debug, PartialEq, Eq, Structural)]
pub enum RunError {
    /// The data cursor would move left of cell 0 or right of the last cell.
    TapeOutOfBounds,
    /// A loop opcode with no matching partner was reached with its jump taken.
    UnbalancedLoop,
    /// The program asked for a byte of input; batch execution supplies none.
    InputUnsupported,
    /// The engine's step budget (2^64 - 1 cycles) ran out before the program
    /// halted; such a program is as good as non-terminating.
    StepLimitExceeded,
}

/// The mathematical state of a running engine: program cursor, tape, data
/// cursor, and the output emitted so far.
#[verifier::ext_equal]
pub struct EngineState {
    pub code_ptr: int,
    pub data: Seq<u8>,
    pub data_ptr: int,
    pub output: Seq<char>,
}

/// The outcome of one step: a successor state, a normal halt carrying the
/// final output, or an execution fault.
pub enum StepResult {
    Next(EngineState),
    Halt(Seq<char>),
    Fail(RunError),
}

/// One increment of a tape cell under the wraparound policy: 255 + 1 = 0.
pub open spec fn inc_cell(v: u8) -> u8 {
    if v == 255 {
        0
    } else {
        (v + 1) as u8
    }
}

/// One decrement of a tape cell under the wraparound policy: 0 - 1 = 255.
pub open spec fn dec_cell(v: u8) -> u8 {
    if v == 0 {
        255
    } else {
        (v - 1) as u8
    }
}

/// The small-step semantics of the engine: what one fetch-decode-execute
/// cycle does to state `s` under program `code` and jump table `table`.
///
/// The cursor advances by one unless a loop opcode takes its jump, which
/// lands directly on the matching bracket; execution halts when the cursor
/// reaches the end of the program. A loop opcode whose jump is taken while it
/// has no matching partner is a hard fault, as are a data cursor leaving the
/// tape and a request for input.
pub open spec fn step(code: Seq<Opcode>, table: Map<int, int>, s: EngineState) -> StepResult {
    if !(0 <= s.code_ptr < code.len()) {
        StepResult::Halt(s.output)
    } else {
        match code[s.code_ptr] {
            Opcode::MoveRight => if s.data_ptr + 1 < s.data.len() {
                StepResult::Next(
                    EngineState {
                        code_ptr: s.code_ptr + 1,
                        data_ptr: s.data_ptr + 1,
                        ..s
                    },
                )
            } else {
                StepResult::Fail(RunError::TapeOutOfBounds)
            },
            Opcode::MoveLeft => if s.data_ptr >= 1 {
                StepResult::Next(
                    EngineState {
                        code_ptr: s.code_ptr + 1,
                        data_ptr: s.data_ptr - 1,
                        ..s
                    },
                )
            } else {
                StepResult::Fail(RunError::TapeOutOfBounds)
            },
            Opcode::Increment => StepResult::Next(
                EngineState {
                    code_ptr: s.code_ptr + 1,
                    data: s.data.update(s.data_ptr, inc_cell(s.data[s.data_ptr])),
                    ..s
                },
            ),
            Opcode::Decrement => StepResult::Next(
                EngineState {
                    code_ptr: s.code_ptr + 1,
                    data: s.data.update(s.data_ptr, dec_cell(s.data[s.data_ptr])),
                    ..s
                },
            ),
            Opcode::Output => StepResult::Next(
                EngineState {
                    code_ptr: s.code_ptr + 1,
                    output: s.output.push(s.data[s.data_ptr] as char),
                    ..s
                },
            ),
            Opcode::Input => StepResult::Fail(RunError::InputUnsupported),
            Opcode::LoopOpen => if s.data[s.data_ptr] == 0 {
                if table.dom().contains(s.code_ptr) {
                    StepResult::Next(EngineState { code_ptr: table[s.code_ptr], ..s })
                } else {
                    StepResult::Fail(RunError::UnbalancedLoop)
                }
            } else {
                StepResult::Next(EngineState { code_ptr: s.code_ptr + 1, ..s })
            },
            Opcode::LoopClose => if s.data[s.data_ptr] != 0 {
                if table.dom().contains(s.code_ptr) {
                    StepResult::Next(EngineState { code_ptr: table[s.code_ptr], ..s })
                } else {
                    StepResult::Fail(RunError::UnbalancedLoop)
                }
            } else {
                StepResult::Next(EngineState { code_ptr: s.code_ptr + 1, ..s })
            },
        }
    }
}

/// The state of the machine after `n` steps from `s`; a halt or a fault
/// absorbs every later step.
pub open spec fn steps(code: Seq<Opcode>, table: Map<int, int>, s: EngineState, n: nat) -> StepResult
    decreases n,
{
    if n == 0 {
        StepResult::Next(s)
    } else {
        match steps(code, table, s, (n - 1) as nat) {
            StepResult::Next(s2) => step(code, table, s2),
            r => r,
        }
    }
}

/// A stored jump-table vector decides matchedness at runtime: at a bracket
/// index `cp`, the entry differs from `cp` and points back at `cp` exactly
/// when the jump table is defined at `cp`.
pub proof fn lemma_matched_detection(code: Seq<Opcode>, jv: Seq<usize>, cp: int)
    requires
        jv.len() == code.len(),
        forall|j: int|
            0 <= j < code.len() ==> #[trigger] jv[j] as int == jump_entry(match_table(code), j),
        0 <= cp < code.len(),
    ensures
        0 <= jv[cp] as int && (jv[cp] as int) < code.len(),
        (jv[cp] as int != cp && jv[jv[cp] as int] as int == cp) <==> match_table(
            code,
        ).dom().contains(cp),
        match_table(code).dom().contains(cp) ==> jv[cp] as int == match_table(code)[cp],
{
    lemma_match_scan_invariant(code);
    let tb = match_table(code);
    if tb.dom().contains(cp) {
        assert(jv[cp] as int == tb[cp]);
        assert(tb.dom().contains(tb[cp]) && tb[tb[cp]] == cp && tb[cp] != cp);
        assert(jv[tb[cp]] as int == tb[tb[cp]]);
    } else {
        assert(jv[cp] as int == 0);
        if cp == 0 {
            assert(jv[cp] as int == cp);
        } else {
            assert(jv[cp] as int != cp);
            if tb.dom().contains(0) {
                assert(jv[0] as int == tb[0]);
                assert(tb.dom().contains(tb[0]));
                assert(tb[0] != cp);
            } else {
                assert(jv[0] as int == 0);
            }
        }
    }
}

/// The virtual machine: a canonical program with its precomputed jump table,
/// a zero-initialized byte tape, and the two cursors.
pub struct Intepreter {
    code: Vec<Opcode>,
    data: Vec<u8>,
    match_stack: Vec<usize>,
    code_ptr: usize,
    data_ptr: usize,
    max_output_size: usize,
}

impl Intepreter {
    /// The program this engine interprets.
    pub closed spec fn prog(&self) -> Seq<Opcode> {
        self.code@
    }

    /// The engine's current machine state, with an empty output accumulator:
    /// `run` collects output afresh on each call.
    pub closed spec fn state(&self) -> EngineState {
        EngineState {
            code_ptr: self.code_ptr as int,
            data: self.data@,
            data_ptr: self.data_ptr as int,
            output: Seq::empty(),
        }
    }

    /// Internal consistency: the stored jump vector is the jump table of the
    /// program (sentinel 0 where undefined), and both cursors are in range.
    pub closed spec fn wf(&self) -> bool {
        &&& self.match_stack@.len() == self.code@.len()
        &&& (forall|j: int|
            0 <= j < self.code@.len() ==> #[trigger] self.match_stack@[j] as int == jump_entry(
                match_table(self.code@),
                j,
            ))
        &&& self.data@.len() >= 1
        &&& self.data_ptr < self.data@.len()
        &&& self.code_ptr <= self.code@.len()
    }

    /// Builds an engine for `code`: precomputes the jump table, allocates a
    /// zero-filled tape of `max_data_size` cells, and centers the data cursor
    /// so the program can move in both directions. A tape of zero cells would
    /// leave the data cursor undefined, so at least one cell is required.
    pub fn new(code: Vec<Opcode>, max_data_size: usize, max_output_size: usize) -> (r: Intepreter)
        requires
            max_data_size >= 1,
        ensures
            r.wf(),
            r.prog() == code@,
            r.state() == (EngineState {
                code_ptr: 0,
                data: Seq::new(max_data_size as nat, |i: int| 0u8),
                data_ptr: (max_data_size / 2) as int,
                output: Seq::<char>::empty(),
            }),
    {
        let match_stack = build_jump_table(&code);
        let data: Vec<u8> = vec![0; max_data_size];
        proof {
            assert(data@ =~= Seq::new(max_data_size as nat, |i: int| 0u8));
        }
        Intepreter { code, data, match_stack, code_ptr: 0, data_ptr: max_data_size / 2, max_output_size }
    }

    /// Interprets the program from the engine's current state until the
    /// program cursor reaches the end of the program, and returns the output
    /// decoded as a string of one-byte characters in emission order — or the
    /// first execution fault. The result is exactly what the small-step
    /// semantics reaches from the starting state, in some number of steps; a
    /// program still running after 2^64 - 1 cycles is cut off with
    /// `StepLimitExceeded`.
    pub fn run(&mut self) -> (r: Result<String, RunError>)
        requires
            old(self).wf(),
        ensures
            final(self).wf(),
            final(self).prog() == old(self).prog(),
            (match r {
                Ok(out) => exists|n: nat|
                    steps(old(self).prog(), match_table(old(self).prog()), old(self).state(), n)
                        == StepResult::Halt(out@),
                Err(e) => if e == RunError::StepLimitExceeded {
                    steps(
                        old(self).prog(),
                        match_table(old(self).prog()),
                        old(self).state(),
                        usize::MAX as nat,
                    ) is Next
                } else {
                    exists|n: nat|
                        steps(
                            old(self).prog(),
                            match_table(old(self).prog()),
                            old(self).state(),
                            n,
                        ) == StepResult::Fail(e)
                },
            }),
    {
        let ghost code = self.code@;
        let ghost table = match_table(code);
        let ghost init = self.state();
        let mut output: String = string_with_capacity(self.max_output_size);
        let mut fuel: usize = usize::MAX;
        let ghost mut n: nat = 0;
        while self.code_ptr < self.code.len()
            invariant
                self.wf(),
                self.code@ == code,
                code == old(self).prog(),
                table == match_table(code),
                init == old(self).state(),
                n + fuel == usize::MAX as nat,
                steps(code, table, init, n) == StepResult::Next(
                    (EngineState {
                        code_ptr: self.code_ptr as int,
                        data: self.data@,
                        data_ptr: self.data_ptr as int,
                        output: output@,
                    }),
                ),
            decreases fuel,
        {
            if fuel == 0 {
                return Err(RunError::StepLimitExceeded);
            }
            fuel = fuel - 1;
            let ghost cur = EngineState {
                code_ptr: self.code_ptr as int,
                data: self.data@,
                data_ptr: self.data_ptr as int,
                output: output@,
            };
            let op = self.code[self.code_ptr];
            match op {
                Opcode::MoveRight => {
                    if self.data_ptr < self.data.len() - 1 {
                        self.data_ptr = self.data_ptr + 1;
                        self.code_ptr = self.code_ptr + 1;
                        proof {
                            n = n + 1;
                        }
                    } else {
                        proof {
                            assert(step(code, table, cur) == StepResult::Fail(
                                RunError::TapeOutOfBounds,
                            ));
                            assert(steps(code, table, init, n + 1) == StepResult::Fail(
                                RunError::TapeOutOfBounds,
                            ));
                        }
                        return Err(RunError::TapeOutOfBounds);
                    }
                },
                Opcode::MoveLeft => {
                    if self.data_ptr >= 1 {
                        self.data_ptr = self.data_ptr - 1;
                        self.code_ptr = self.code_ptr + 1;
                        proof {
                            n = n + 1;
                        }
                    } else {
                        proof {
                            assert(step(code, table, cur) == StepResult::Fail(
                                RunError::TapeOutOfBounds,
                            ));
                            assert(steps(code, table, init, n + 1) == StepResult::Fail(
                                RunError::TapeOutOfBounds,
                            ));
                        }
                        return Err(RunError::TapeOutOfBounds);
                    }
                },
                Opcode::Increment => {
                    let v = self.data[self.data_ptr];
                    let w: u8 = if v == 255 {
                        0
                    } else {
                        v + 1
                    };
                    self.data[self.data_ptr] = w;
                    self.code_ptr = self.code_ptr + 1;
                    proof {
                        n = n + 1;
                    }
                },
                Opcode::Decrement => {
                    let v = self.data[self.data_ptr];
                    let w: u8 = if v == 0 {
                        255
                    } else {
                        v - 1
                    };
                    self.data[self.data_ptr] = w;
                    self.code_ptr = self.code_ptr + 1;
                    proof {
                        n = n + 1;
                    }
                },
                Opcode::Output => {
                    let v = self.data[self.data_ptr];
                    push_char(&mut output, v as char);
                    self.code_ptr = self.code_ptr + 1;
                    proof {
                        n = n + 1;
                    }
                },
                Opcode::Input => {
                    proof {
                        assert(step(code, table, cur) == StepResult::Fail(
                            RunError::InputUnsupported,
                        ));
                        assert(steps(code, table, init, n + 1) == StepResult::Fail(
                            RunError::InputUnsupported,
                        ));
                    }
                    return Err(RunError::InputUnsupported);
                },
                Opcode::LoopOpen => {
                    let v = self.data[self.data_ptr];
                    if v == 0 {
                        proof {
                            lemma_matched_detection(code, self.match_stack@, self.code_ptr as int);
                        }
                        let j = self.match_stack[self.code_ptr];
                        if j != self.code_ptr && self.match_stack[j] == self.code_ptr {
                            self.code_ptr = j;
                            proof {
                                n = n + 1;
                            }
                        } else {
                            proof {
                                assert(!table.dom().contains(cur.code_ptr));
                                assert(step(code, table, cur) == StepResult::Fail(
                                    RunError::UnbalancedLoop,
                                ));
                                assert(steps(code, table, init, n + 1) == StepResult::Fail(
                                    RunError::UnbalancedLoop,
                                ));
                            }
                            return Err(RunError::UnbalancedLoop);
                        }
                    } else {
                        self.code_ptr = self.code_ptr + 1;
                        proof {
                            n = n + 1;
                        }
                    }
                },
                Opcode::LoopClose => {
                    let v = self.data[self.data_ptr];
                    if v != 0 {
                        proof {
                            lemma_matched_detection(code, self.match_stack@, self.code_ptr as int);
                        }
                        let j = self.match_stack[self.code_ptr];
                        if j != self.code_ptr && self.match_stack[j] == self.code_ptr {
                            self.code_ptr = j;
                            proof {
                                n = n + 1;
                            }
                        } else {
                            proof {
                                assert(!table.dom().contains(cur.code_ptr));
                                assert(step(code, table, cur) == StepResult::Fail(
                                    RunError::UnbalancedLoop,
                                ));
                                assert(steps(code, table, init, n + 1) == StepResult::Fail(
                                    RunError::UnbalancedLoop,
                                ));
                            }
                            return Err(RunError::UnbalancedLoop);
                        }
                    } else {
                        self.code_ptr = self.code_ptr + 1;
                        proof {
                            n = n + 1;
                        }
                    }
                },
            }
            proof {
                assert(step(code, table, cur) == StepResult::Next(
                    (EngineState {
                        code_ptr: self.code_ptr as int,
                        data: self.data@,
                        data_ptr: self.data_ptr as int,
                        output: output@,
                    }),
                ));
                assert(steps(code, table, init, n) == StepResult::Next(
                    (EngineState {
                        code_ptr: self.code_ptr as int,
                        data: self.data@,
                        data_ptr: self.data_ptr as int,
                        output: output@,
                    }),
                ));
            }
        }
        proof {
            assert(steps(code, table, init, n + 1) == StepResult::Halt(output@));
        }
        Ok(output)
    }
}

/// Once the machine has halted or faulted it stays so: any larger step count
/// returns the same result. With `steps` being a function of its arguments,
/// this makes the outcome of a run unique — a program cannot both halt and
/// fault, or halt with two different outputs.
pub proof fn lemma_steps_absorbing(
    code: Seq<Opcode>,
    table: Map<int, int>,
    s: EngineState,
    n: nat,
    m: nat,
)
    requires
        n <= m,
        !(steps(code, table, s, n) is Next),
    ensures
        steps(code, table, s, m) == steps(code, table, s, n),
    decreases m,
{
    if m > n {
        lemma_steps_absorbing(code, table, s, n, (m - 1) as nat);
    }
}

/// Law: an empty program terminates immediately. Its very first step halts,
/// with the starting output — which is empty when a run begins.
pub proof fn lemma_empty_program_halts_immediately(table: Map<int, int>, s: EngineState)
    ensures
        steps(Seq::<Opcode>::empty(), table, s, 1) == StepResult::Halt(s.output),
{
    assert(steps(Seq::<Opcode>::empty(), table, s, 0) == StepResult::Next(s));
    assert(step(Seq::<Opcode>::empty(), table, s) == StepResult::Halt(s.output));
}

/// Law: an empty program produces an empty output. However many steps a
/// halting run of it took, what comes out is the starting output unchanged —
/// empty when the run began with an empty accumulator.
pub proof fn lemma_empty_program_output(
    table: Map<int, int>,
    s: EngineState,
    n: nat,
    out: Seq<char>,
)
    requires
        steps(Seq::<Opcode>::empty(), table, s, n) == StepResult::Halt(out),
    ensures
        out == s.output,
    decreases n,
{
    let code = Seq::<Opcode>::empty();
    assert(step(code, table, s) == StepResult::Halt(s.output));
    if n == 0 {
        assert(false);
    } else {
        match steps(code, table, s, (n - 1) as nat) {
            StepResult::Next(s2) => {
                if n - 1 > 0 {
                    match steps(code, table, s, (n - 2) as nat) {
                        StepResult::Next(s3) => {
                            assert(step(code, table, s3) == StepResult::Halt(s3.output));
                            assert(false);
                        },
                        _ => {
                            assert(false);
                        },
                    }
                }
            },
            StepResult::Halt(o2) => {
                lemma_empty_program_output(table, s, (n - 1) as nat, o2);
            },
            StepResult::Fail(_) => {
                assert(false);
            },
        }
    }
}

/// Law: a program with no `Output` opcode — for instance one that only moves
/// the data cursor — adds nothing to the output, however long it runs and
/// however it ends.
pub proof fn lemma_no_output_opcode(
    code: Seq<Opcode>,
    table: Map<int, int>,
    s: EngineState,
    n: nat,
)
    requires
        forall|i: int| 0 <= i < code.len() ==> !(#[trigger] code[i] is Output),
    ensures
        (match steps(code, table, s, n) {
            StepResult::Next(s2) => s2.output == s.output,
            StepResult::Halt(out) => out == s.output,
            StepResult::Fail(_) => true,
        }),
    decreases n,
{
    if n == 0 {
    } else {
        lemma_no_output_opcode(code, table, s, (n - 1) as nat);
    }
}

/// `k` increments applied in sequence to a cell, under the wraparound policy.
pub open spec fn inc_cell_n(v: u8, k: nat) -> u8
    decreases k,
{
    if k == 0 {
        v
    } else {
        inc_cell(inc_cell_n(v, (k - 1) as nat))
    }
}

/// Within the first 256 increments the cell value has a closed form: the sum,
/// reduced once when it passes 255.
proof fn lemma_inc_cell_n_closed(v: u8, k: nat)
    requires
        k <= 256,
    ensures
        inc_cell_n(v, k) as int == (if v + k < 256 {
            v + k
        } else {
            v + k - 256
        }),
    decreases k,
{
    if k == 0 {
    } else {
        lemma_inc_cell_n_closed(v, (k - 1) as nat);
    }
}

/// Law: round trip — `Increment` applied 256 times to a cell, under the
/// wraparound policy, returns the cell to its original value.
pub proof fn lemma_increment_round_trip(v: u8)
    ensures
        inc_cell_n(v, 256) == v,
{
    lemma_inc_cell_n_closed(v, 256);
}

} // verus!
