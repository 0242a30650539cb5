use vstd::prelude::*;
use crate::errors::{Runner, SolverError, SolverResult};
use crate::generators::{
    first_nonzero, ArgcGenerator, ArgvGenerator, ArgvLenGenerator, Generator, MemGenerator,
    StdinCharGenerator, StdinLenGenerator,
};
use crate::input::{Input, InputView, MemInput, MemInputView};

verus! {

/// Phase numbers, in the order phases run; memory region `k` is phase
/// `PHASE_MEM + k`.
pub const PHASE_ARGC: u64 = 0;
pub const PHASE_ARGV_LEN: u64 = 1;
pub const PHASE_ARGV: u64 = 2;
pub const PHASE_STDIN_LEN: u64 = 3;
pub const PHASE_STDIN_CHAR: u64 = 4;
pub const PHASE_MEM: u64 = 5;

/// One search to run: a generator and how often each candidate is measured.
#[derive(Debug)]
pub struct Job {
    pub generator: Generator,
    pub repeat: u32,
}

/// Runs the standard searches in order: argument count, argument lengths,
/// argument bytes, stdin length, stdin bytes, then each memory region. Each
/// search starts from what the previous ones found.
#[derive(Debug)]
pub struct Orchestrator {
    init: Input,
    solved: Input,
    solve_argv: bool,
    solve_stdin: bool,
    start: Vec<u8>,
    mems: Vec<MemInput>,
    found_mems: Vec<MemInput>,
    next: u64,
}

/// Whether some region asks for a breakpoint.
pub open spec fn has_breakpoint(mems: Seq<MemInputView>) -> bool {
    exists|i: int| 0 <= i < mems.len() && (#[trigger] mems[i]).breakpoint is Some
}

/// Whether some region holds more bytes than its size.
pub open spec fn has_oversized(mems: Seq<MemInputView>) -> bool {
    exists|i: int| 0 <= i < mems.len() && (#[trigger] mems[i]).bytes.len() > mems[i].size
}

/// Whether phase `p` applies, given the initial and the solved input.
pub open spec fn applies(
    p: int,
    init: InputView,
    solved: InputView,
    solve_argv: bool,
    solve_stdin: bool,
    n_mems: int,
) -> bool {
    if p == PHASE_ARGC {
        solve_argv && init.argc is None
    } else if p == PHASE_ARGV_LEN {
        solve_argv && init.argc is None && solved.argc is Some && solved.argc->Some_0 > 0
    } else if p == PHASE_ARGV {
        &&& solve_argv && init.argc is None && solved.argc is Some && solved.argc->Some_0 > 0
        &&& solved.argvlens is Some && solved.argvlens->Some_0.len() == solved.argc->Some_0
    } else if p == PHASE_STDIN_LEN {
        solve_stdin && solved.stdinlen is None
    } else if p == PHASE_STDIN_CHAR {
        solve_stdin && solved.stdinlen is Some && solved.stdinlen->Some_0 > 0
    } else {
        PHASE_MEM <= p < PHASE_MEM + n_mems
    }
}

/// The first phase from `p` on that applies; -1 when none is left.
pub open spec fn first_phase(
    p: int,
    init: InputView,
    solved: InputView,
    solve_argv: bool,
    solve_stdin: bool,
    n_mems: int,
) -> int
    decreases PHASE_MEM + n_mems - p,
{
    if p < 0 || p >= PHASE_MEM + n_mems {
        -1
    } else if applies(p, init, solved, solve_argv, solve_stdin, n_mems) {
        p
    } else {
        first_phase(p + 1, init, solved, solve_argv, solve_stdin, n_mems)
    }
}

impl Orchestrator {
    pub closed spec fn spec_init(&self) -> InputView {
        self.init@
    }

    /// What the searches have found so far.
    pub closed spec fn spec_solved(&self) -> InputView {
        self.solved@
    }

    pub closed spec fn spec_solve_argv(&self) -> bool {
        self.solve_argv
    }

    pub closed spec fn spec_solve_stdin(&self) -> bool {
        self.solve_stdin
    }

    /// Known first bytes of stdin.
    pub closed spec fn spec_start(&self) -> Seq<u8> {
        self.start@
    }

    /// Memory regions to search, in order.
    pub closed spec fn spec_mems(&self) -> Seq<MemInputView> {
        self.mems@.map_values(|m: MemInput| m@)
    }

    /// Regions searched so far, with the bytes found.
    pub closed spec fn spec_found_mems(&self) -> Seq<MemInputView> {
        self.found_mems@.map_values(|m: MemInput| m@)
    }

    /// First phase not yet considered.
    pub closed spec fn spec_next(&self) -> int {
        self.next as int
    }

    /// The phase that `next_job` starts next; -1 when all are done.
    pub open spec fn upcoming(&self) -> int {
        first_phase(
            self.spec_next(),
            self.spec_init(),
            self.spec_solved(),
            self.spec_solve_argv(),
            self.spec_solve_stdin(),
            self.spec_mems().len() as int,
        )
    }

    pub closed spec fn wf(&self) -> bool {
        &&& self.next <= PHASE_MEM + self.mems@.len()
        &&& self.mems@.len() < 0x1_0000_0000
        &&& self.start@.len() <= u32::MAX
    }

    /// Sets up a run. Dropping ptrace cannot be combined with memory regions,
    /// which are written through ptrace; breakpoints need an x86 host (`x86`);
    /// a region's initial bytes may not outnumber its size.
    pub fn new(
        init: Input,
        solve_argv: bool,
        solve_stdin: bool,
        drop_ptrace: bool,
        start: Vec<u8>,
        x86: bool,
    ) -> (r: SolverResult<Orchestrator>)
        ensures
            drop_ptrace && init@.mem is Some ==> r is Err && r->Err_0.spec_kind()
                == Runner::ArgError,
            !x86 && init@.mem is Some && has_breakpoint(init@.mem->Some_0) ==> r is Err
                && r->Err_0.spec_kind() == Runner::ArgError,
            init@.mem is Some && has_oversized(init@.mem->Some_0) ==> r is Err
                && r->Err_0.spec_kind() == Runner::ArgError,
            init@.mem is Some && init@.mem->Some_0.len() >= 0x1_0000_0000 ==> r is Err,
            start@.len() > u32::MAX ==> r is Err,
            !(drop_ptrace && init@.mem is Some) && !(init@.mem is Some && init@.mem->Some_0.len()
                >= 0x1_0000_0000) && start@.len() <= u32::MAX && !(!x86 && init@.mem is Some
                && has_breakpoint(init@.mem->Some_0)) && !(init@.mem is Some && has_oversized(
                init@.mem->Some_0,
            )) ==> r is Ok,
            r is Ok ==> {
                let o = r->Ok_0;
                &&& o.wf()
                &&& o.spec_init() == init@
                &&& o.spec_solved() == init@
                &&& o.spec_solve_argv() == solve_argv
                &&& o.spec_solve_stdin() == solve_stdin
                &&& o.spec_start() == start@
                &&& o.spec_mems() == (match init@.mem {
                    Some(m) => m,
                    None => Seq::<MemInputView>::empty(),
                })
                &&& o.spec_found_mems().len() == 0
                &&& o.spec_next() == PHASE_ARGC
            },
    {
        if drop_ptrace && init.mem.is_some() {
            return Err(
                SolverError::new(
                    Runner::ArgError,
                    "ptrace dropping and mem input are mutually exclusive",
                ),
            );
        }
        let mems: Vec<MemInput> = match &init.mem {
            Some(m) => crate::input::copy_mem_inputs(m),
            None => Vec::new(),
        };
        let mut i: usize = 0;
        while i < mems.len()
            invariant
                i <= mems@.len(),
                mems@.map_values(|m: MemInput| m@) == (match init@.mem {
                    Some(m) => m,
                    None => Seq::<MemInputView>::empty(),
                }),
                forall|j: int| 0 <= j < i ==> !x86 ==> mems@[j].breakpoint is None,
                forall|j: int| 0 <= j < i ==> mems@[j].bytes@.len() <= mems@[j].size,
            decreases mems@.len() - i,
        {
            proof {
                assert(mems@.map_values(|m: MemInput| m@)[i as int] == mems@[i as int]@);
                assert(mems@.map_values(|m: MemInput| m@).len() == mems@.len());
                assert(init@.mem is Some);
                assert(init@.mem->Some_0[i as int] == mems@[i as int]@);
            }
            if mems[i].bytes.len() > mems[i].size {
                assert(has_oversized(init@.mem->Some_0));
                return Err(
                    SolverError::new(Runner::ArgError, "Initial memory input is longer than the region"),
                );
            }
            if !x86 && mems[i].breakpoint.is_some() {
                assert((init@.mem->Some_0[i as int]).breakpoint is Some);
                assert(has_breakpoint(init@.mem->Some_0));
                return Err(SolverError::new(Runner::ArgError, "Breakpoints only work on x86"));
            }
            i = i + 1;
        }
        proof {
            if init@.mem is Some {
                assert forall|j: int| 0 <= j < init@.mem->Some_0.len() implies x86
                    || (#[trigger] init@.mem->Some_0[j]).breakpoint is None by {
                    assert(mems@.map_values(|m: MemInput| m@)[j] == mems@[j]@);
                }
                assert forall|j: int| 0 <= j < init@.mem->Some_0.len() implies (#[trigger] init@.mem->Some_0[j]).bytes.len()
                    <= init@.mem->Some_0[j].size by {
                    assert(mems@.map_values(|m: MemInput| m@)[j] == mems@[j]@);
                }
            }
        }
        if mems.len() as u64 >= 0x1_0000_0000 {
            return Err(SolverError::new(Runner::ArgError, "Too many memory inputs"));
        }
        if start.len() as u64 > u32::MAX as u64 {
            return Err(SolverError::new(Runner::ArgError, "Known stdin prefix is too long"));
        }
        let solved = init.duplicate();
        let found_mems: Vec<MemInput> = Vec::new();
        let r = Orchestrator {
            init,
            solved,
            solve_argv,
            solve_stdin,
            start,
            mems,
            found_mems,
            next: PHASE_ARGC,
        };
        assert(r.spec_mems() == (match r.init@.mem {
            Some(m) => m,
            None => Seq::<MemInputView>::empty(),
        })) by {
            if r.init.mem is None {
                assert(r.spec_mems() =~= Seq::<MemInputView>::empty());
            }
        }
        assert(r.spec_found_mems() =~= Seq::<MemInputView>::empty());
        Ok(r)
    }

    /// What the searches have found so far.
    pub fn solved(&self) -> (r: &Input)
        ensures
            r@ == self.spec_solved(),
    {
        &self.solved
    }
}


/// `job` is the search that phase `p` runs, given what was solved before it.
pub open spec fn job_fits(
    job: Job,
    p: int,
    solved: InputView,
    start: Seq<u8>,
    mems: Seq<MemInputView>,
) -> bool {
    if p == PHASE_ARGC {
        &&& job.repeat == 1
        &&& job.generator is Argc
        &&& job.generator->Argc_0.cursor() == 0
        &&& job.generator->Argc_0.last_id() == 5
        &&& job.generator->Argc_0.rounds_left() == 1
        &&& job.generator->Argc_0.spec_length() == 0
    } else if p == PHASE_ARGV_LEN {
        &&& job.repeat == 5
        &&& job.generator is ArgvLen
        &&& job.generator->ArgvLen_0.cursor() == 0
        &&& job.generator->ArgvLen_0.last_id() == 20
        &&& job.generator->ArgvLen_0.spec_min() == 0
        &&& job.generator->ArgvLen_0.slot() == 0
        &&& job.generator->ArgvLen_0.spec_argc() == solved.argc->Some_0
        &&& job.generator->ArgvLen_0.spec_lengths() == Seq::new(
            solved.argc->Some_0 as nat,
            |i: int| 0u32,
        )
    } else if p == PHASE_ARGV {
        &&& job.repeat == 5
        &&& job.generator is Argv
        &&& job.generator->Argv_0.cursor() == 0x20
        &&& job.generator->Argv_0.last_id() == 0x7e
        &&& job.generator->Argv_0.spec_min() == 0x20
        &&& job.generator->Argv_0.spec_lens() == solved.argvlens->Some_0
        &&& job.generator->Argv_0.spec_pad() == crate::generators::PAD
        &&& job.generator->Argv_0.spec_argv() == Seq::new(
            solved.argvlens->Some_0.len(),
            |i: int| Seq::<u8>::empty(),
        )
        &&& job.generator->Argv_0.position() == 0
        &&& job.generator->Argv_0.slot() == first_nonzero(solved.argvlens->Some_0, 0)
        &&& job.generator->Argv_0.shape_ok()
    } else if p == PHASE_STDIN_LEN {
        &&& job.repeat == 1
        &&& job.generator is StdinLen
        &&& job.generator->StdinLen_0.cursor() == 0
        &&& job.generator->StdinLen_0.last_id() == 51
        &&& job.generator->StdinLen_0.rounds_left() == 1
        &&& job.generator->StdinLen_0.spec_length() == 0
    } else if p == PHASE_STDIN_CHAR {
        &&& job.repeat == 1
        &&& job.generator is StdinChar
        &&& job.generator->StdinChar_0.cursor() == 0x20
        &&& job.generator->StdinChar_0.spec_min() == 0x20
        &&& job.generator->StdinChar_0.spec_max() == 0x7e
        &&& job.generator->StdinChar_0.spec_pad() == crate::generators::PAD
        &&& job.generator->StdinChar_0.spec_suffix().len() == 0
        &&& job.generator->StdinChar_0.spec_padlen() == solved.stdinlen
        &&& job.generator->StdinChar_0.spec_prefix() == start
        &&& job.generator->StdinChar_0.position() == start.len()
        &&& job.generator->StdinChar_0.spec_input().len() == 0
    } else {
        &&& job.repeat == 1
        &&& job.generator is Mem
        &&& job.generator->Mem_0.cursor() == 0
        &&& job.generator->Mem_0.spec_mem_input() == mems[p - PHASE_MEM]
    }
}

impl Orchestrator {
    pub closed spec fn with_next(&self, next: u64) -> Self {
        Orchestrator { next, ..*self }
    }

    /// Starts the next search that applies, if any is left.
    pub fn next_job(&mut self) -> (r: Option<Job>)
        requires
            old(self).wf(),
        ensures
            final(self).wf(),
            old(self).upcoming() == -1 ==> r is None,
            old(self).upcoming() != -1 ==> {
                &&& r is Some
                &&& r->Some_0.generator.wf()
                &&& job_fits(
                    r->Some_0,
                    old(self).upcoming(),
                    old(self).spec_solved(),
                    old(self).spec_start(),
                    old(self).spec_mems(),
                )
                &&& *final(self) == old(self).with_next((old(self).upcoming() + 1) as u64)
                &&& final(self).spec_next() == old(self).upcoming() + 1
            },
            final(self).spec_init() == old(self).spec_init(),
            final(self).spec_solved() == old(self).spec_solved(),
            final(self).spec_solve_argv() == old(self).spec_solve_argv(),
            final(self).spec_solve_stdin() == old(self).spec_solve_stdin(),
            final(self).spec_start() == old(self).spec_start(),
            final(self).spec_mems() == old(self).spec_mems(),
            final(self).spec_found_mems() == old(self).spec_found_mems(),
    {
        while self.next < PHASE_MEM + self.mems.len() as u64
            invariant
                self.wf(),
                *self == old(self).with_next(self.next),
                self.upcoming() == old(self).upcoming(),
            decreases PHASE_MEM + self.mems@.len() - self.next,
        {
            let p: u64 = self.next;
            let applies: bool = if p == PHASE_ARGC {
                self.solve_argv && self.init.argc.is_none()
            } else if p == PHASE_ARGV_LEN {
                self.solve_argv && self.init.argc.is_none() && match self.solved.argc {
                    Some(n) => n > 0,
                    None => false,
                }
            } else if p == PHASE_ARGV {
                self.solve_argv && self.init.argc.is_none() && match (
                    self.solved.argc,
                    &self.solved.argvlens,
                ) {
                    (Some(n), Some(lens)) => n > 0 && lens.len() as u64 == n as u64,
                    _ => false,
                }
            } else if p == PHASE_STDIN_LEN {
                self.solve_stdin && self.solved.stdinlen.is_none()
            } else if p == PHASE_STDIN_CHAR {
                self.solve_stdin && match self.solved.stdinlen {
                    Some(n) => n > 0,
                    None => false,
                }
            } else {
                true
            };
            if applies {
                self.next = p + 1;
                let job = if p == PHASE_ARGC {
                    Job { generator: Generator::Argc(ArgcGenerator::new(0, 5)), repeat: 1 }
                } else if p == PHASE_ARGV_LEN {
                    let argc: u32 = match self.solved.argc {
                        Some(n) => n,
                        None => 0,
                    };
                    Job { generator: Generator::ArgvLen(ArgvLenGenerator::new(argc, 0, 20)), repeat: 5 }
                } else if p == PHASE_ARGV {
                    let argc: u32 = match self.solved.argc {
                        Some(n) => n,
                        None => 0,
                    };
                    let g = match &self.solved.argvlens {
                        Some(lens) => ArgvGenerator::new(argc, lens.as_slice(), 0x20, 0x7e),
                        None => ArgvGenerator::new(0, &[], 0x20, 0x7e),
                    };
                    Job { generator: Generator::Argv(g), repeat: 5 }
                } else if p == PHASE_STDIN_LEN {
                    Job { generator: Generator::StdinLen(StdinLenGenerator::new(0, 51)), repeat: 1 }
                } else if p == PHASE_STDIN_CHAR {
                    let g = StdinCharGenerator::new_start(
                        self.solved.duplicate(),
                        0x20,
                        0x7e,
                        self.start.as_slice(),
                    );
                    Job { generator: Generator::StdinChar(g), repeat: 1 }
                } else {
                    let k: usize = (p - PHASE_MEM) as usize;
                    Job { generator: Generator::Mem(MemGenerator::new(self.mems[k].duplicate())), repeat: 1 }
                };
                return Some(job);
            }
            self.next = p + 1;
        }
        None
    }
}


impl Orchestrator {
    /// Takes the result of the search that `next_job` started last. A memory
    /// search adds its region to those found, and the solved input then lists
    /// every region found so far.
    pub fn finish_job(&mut self, result: Input)
        requires
            old(self).wf(),
        ensures
            final(self).wf(),
            final(self).spec_next() == old(self).spec_next(),
            final(self).spec_mems() == old(self).spec_mems(),
            final(self).spec_init() == old(self).spec_init(),
            final(self).spec_start() == old(self).spec_start(),
            final(self).spec_solve_argv() == old(self).spec_solve_argv(),
            final(self).spec_solve_stdin() == old(self).spec_solve_stdin(),
            old(self).spec_next() <= PHASE_MEM ==> final(self).spec_solved() == result@
                && final(self).spec_found_mems() == old(self).spec_found_mems(),
            old(self).spec_next() > PHASE_MEM ==> {
                let found = if result@.mem is Some && result@.mem->Some_0.len() > 0 {
                    old(self).spec_found_mems().push(result@.mem->Some_0[0])
                } else {
                    old(self).spec_found_mems()
                };
                &&& final(self).spec_found_mems() == found
                &&& final(self).spec_solved() == (InputView { mem: Some(found), ..result@ })
            },
    {
        if self.next <= PHASE_MEM {
            self.solved = result;
            return;
        }
        let mut result = result;
        match &result.mem {
            Some(m) => {
                if m.len() > 0 {
                    self.found_mems.push(m[0].duplicate());
                    proof {
                        assert(self.spec_found_mems() =~= old(self).spec_found_mems().push(
                            result@.mem->Some_0[0],
                        ));
                    }
                }
            },
            None => {},
        }
        let ghost before = result@;
        result.mem = Some(crate::input::copy_mem_inputs(&self.found_mems));
        assert(result@ == (InputView { mem: Some(self.spec_found_mems()), ..before }));
        self.solved = result;
    }
}

} // verus!
