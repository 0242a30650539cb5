use vstd::prelude::*;
use crate::bytes::{filled, repeat};
use crate::input::{empty_input, Input, InputView, MemInput, MemInputView};

verus! {

/// The padding byte of generated candidates.
pub const PAD: u8 = 0x41;

/// Candidate for an argument count: `n` empty arguments.
pub open spec fn argc_candidate(n: u32) -> InputView {
    InputView {
        argc: Some(n),
        argv: Some(Seq::new(n as nat, |i: int| Seq::<u8>::empty())),
        ..empty_input()
    }
}

/// Candidate for a stdin length: `n` padding bytes.
pub open spec fn stdin_len_candidate(n: u32) -> InputView {
    InputView { stdinlen: Some(n), stdin: Some(repeat(PAD, n as int)), ..empty_input() }
}

/// The region `m` with one more byte found.
pub open spec fn with_byte(m: MemInputView, b: u8) -> MemInputView {
    MemInputView { bytes: m.bytes.push(b), ..m }
}

/// Bytes of `m` still to be found.
pub open spec fn bytes_missing(m: MemInputView) -> nat {
    if m.bytes.len() >= m.size {
        0
    } else {
        (m.size - m.bytes.len()) as nat
    }
}

/// Candidate for the next byte of a memory region.
pub open spec fn mem_candidate(m: MemInputView, b: u8) -> InputView {
    InputView { mem: Some(seq![with_byte(m, b)]), ..empty_input() }
}

fn empty_arguments(n: u32) -> (r: Vec<Vec<u8>>)
    ensures
        r@.len() == n,
        forall|j: int| 0 <= j < n ==> r@[j]@ == Seq::<u8>::empty(),
        r@.map_values(|x: Vec<u8>| x@) == Seq::new(n as nat, |i: int| Seq::<u8>::empty()),
{
    let mut r: Vec<Vec<u8>> = Vec::new();
    let mut i: u32 = 0;
    while i < n
        invariant
            i <= n,
            r@.len() == i,
            forall|j: int| 0 <= j < i ==> r@[j]@ == Seq::<u8>::empty(),
        decreases n - i,
    {
        r.push(Vec::new());
        i = i + 1;
    }
    assert(r@.map_values(|x: Vec<u8>| x@) =~= Seq::new(n as nat, |i: int| Seq::<u8>::empty()));
    r
}

/// Searches the argument count over `min..=max` in a single round.
#[derive(Debug)]
pub struct ArgcGenerator {
    len: u64,
    max: u32,
    correct: u32,
    solved: bool,
}

impl ArgcGenerator {
    /// Next id to be yielded in this round.
    pub closed spec fn cursor(&self) -> int {
        self.len as int
    }

    /// Largest id of the round.
    pub closed spec fn spec_max(&self) -> u32 {
        self.max
    }

    /// The value chosen so far.
    pub closed spec fn spec_length(&self) -> u32 {
        self.correct
    }

    /// Whether a winner has been chosen.
    pub closed spec fn spec_solved(&self) -> bool {
        self.solved
    }

    pub closed spec fn wf(&self) -> bool {
        self.len <= 0x1_0000_0000
    }

    pub open spec fn last_id(&self) -> int {
        self.spec_max() as int
    }

    /// Whether the search is over.
    pub open spec fn converged(&self) -> bool {
        self.spec_solved()
    }

    /// Rounds still to run.
    pub open spec fn rounds_left(&self) -> nat {
        if self.spec_solved() {
            0
        } else {
            1
        }
    }

    /// `other` is this generator within the same round, whatever its cursor.
    pub open spec fn same_round(&self, other: Self) -> bool {
        &&& other.spec_max() == self.spec_max()
        &&& other.spec_length() == self.spec_length()
        &&& other.spec_solved() == self.spec_solved()
    }

    /// What `update(chosen)` leaves, and returns.
    pub open spec fn update_post(old: Self, chosen: u32, new: Self, r: bool) -> bool {
        &&& !r
        &&& new.spec_solved()
        &&& new.spec_length() == chosen
        &&& new.spec_max() == old.spec_max()
    }

    pub fn new(min: u32, max: u32) -> (r: ArgcGenerator)
        ensures
            r.wf(),
            r.cursor() == min,
            r.spec_max() == max,
            !r.spec_solved(),
            r.spec_length() == 0,
    {
        ArgcGenerator { len: min as u64, max, correct: 0, solved: false }
    }

    /// The argument count chosen so far.
    pub fn get_length(&self) -> (r: u32)
        ensures
            r == self.spec_length(),
    {
        self.correct
    }

    /// The next candidate of this round, if any is left.
    pub fn next(&mut self) -> (r: Option<(u32, Input)>)
        requires
            old(self).wf(),
        ensures
            final(self).wf(),
            old(self).converged() || old(self).cursor() > old(self).last_id() ==> r is None
                && *final(self) == *old(self),
            !old(self).converged() && old(self).cursor() <= old(self).last_id() ==> {
                &&& r is Some
                &&& r->Some_0.0 == old(self).cursor()
                &&& r->Some_0.1@ == argc_candidate(r->Some_0.0)
                &&& final(self).cursor() == old(self).cursor() + 1
                &&& old(self).same_round(*final(self))
            },
    {
        if self.solved || self.len > self.max as u64 {
            return None;
        }
        let sz: u32 = self.len as u32;
        self.len = self.len + 1;
        let mut res = Input::new();
        res.argv = Some(empty_arguments(sz));
        res.argc = Some(sz);
        Some((sz, res))
    }

    /// Records the winning argument count; the search is then over.
    pub fn update(&mut self, chosen: u32) -> (r: bool)
        requires
            old(self).wf(),
        ensures
            final(self).wf(),
            Self::update_post(*old(self), chosen, *final(self), r),
    {
        self.correct = chosen;
        self.solved = true;
        false
    }
}

/// Searches the stdin length over `min..=max` in a single round.
#[derive(Debug)]
pub struct StdinLenGenerator {
    len: u64,
    max: u32,
    correct: u32,
    solved: bool,
}

impl StdinLenGenerator {
    pub closed spec fn cursor(&self) -> int {
        self.len as int
    }

    pub closed spec fn spec_max(&self) -> u32 {
        self.max
    }

    pub closed spec fn spec_length(&self) -> u32 {
        self.correct
    }

    pub closed spec fn spec_solved(&self) -> bool {
        self.solved
    }

    pub closed spec fn wf(&self) -> bool {
        self.len <= 0x1_0000_0000
    }

    pub open spec fn last_id(&self) -> int {
        self.spec_max() as int
    }

    pub open spec fn converged(&self) -> bool {
        self.spec_solved()
    }

    pub open spec fn rounds_left(&self) -> nat {
        if self.spec_solved() {
            0
        } else {
            1
        }
    }

    pub open spec fn same_round(&self, other: Self) -> bool {
        &&& other.spec_max() == self.spec_max()
        &&& other.spec_length() == self.spec_length()
        &&& other.spec_solved() == self.spec_solved()
    }

    pub open spec fn update_post(old: Self, chosen: u32, new: Self, r: bool) -> bool {
        &&& !r
        &&& new.spec_solved()
        &&& new.spec_length() == chosen
        &&& new.spec_max() == old.spec_max()
    }

    pub fn new(min: u32, max: u32) -> (r: StdinLenGenerator)
        ensures
            r.wf(),
            r.cursor() == min,
            r.spec_max() == max,
            !r.spec_solved(),
            r.spec_length() == 0,
    {
        StdinLenGenerator { len: min as u64, max, correct: 0, solved: false }
    }

    /// The stdin length chosen so far.
    pub fn get_length(&self) -> (r: u32)
        ensures
            r == self.spec_length(),
    {
        self.correct
    }

    pub fn next(&mut self) -> (r: Option<(u32, Input)>)
        requires
            old(self).wf(),
        ensures
            final(self).wf(),
            old(self).converged() || old(self).cursor() > old(self).last_id() ==> r is None
                && *final(self) == *old(self),
            !old(self).converged() && old(self).cursor() <= old(self).last_id() ==> {
                &&& r is Some
                &&& r->Some_0.0 == old(self).cursor()
                &&& r->Some_0.1@ == stdin_len_candidate(r->Some_0.0)
                &&& final(self).cursor() == old(self).cursor() + 1
                &&& old(self).same_round(*final(self))
            },
    {
        if self.solved || self.len > self.max as u64 {
            return None;
        }
        let sz: u32 = self.len as u32;
        self.len = self.len + 1;
        let mut res = Input::new();
        res.stdinlen = Some(sz);
        res.stdin = Some(filled(PAD, sz as usize));
        Some((sz, res))
    }

    /// Records the winning length; the search is then over.
    pub fn update(&mut self, chosen: u32) -> (r: bool)
        requires
            old(self).wf(),
        ensures
            final(self).wf(),
            Self::update_post(*old(self), chosen, *final(self), r),
    {
        self.correct = chosen;
        self.solved = true;
        false
    }
}

/// Brute-forces a memory region one byte at a time.
#[derive(Debug)]
pub struct MemGenerator {
    cur: u16,
    correct: MemInput,
}

impl MemGenerator {
    pub closed spec fn cursor(&self) -> int {
        self.cur as int
    }

    /// The region with the bytes found so far.
    pub closed spec fn spec_mem_input(&self) -> MemInputView {
        self.correct@
    }

    pub closed spec fn wf(&self) -> bool {
        self.cur <= 256
    }

    pub open spec fn first_id(&self) -> int {
        0
    }

    pub open spec fn last_id(&self) -> int {
        255
    }

    /// Whether every byte of the region has been found.
    pub open spec fn converged(&self) -> bool {
        self.spec_mem_input().bytes.len() >= self.spec_mem_input().size
    }

    pub open spec fn rounds_left(&self) -> nat {
        bytes_missing(self.spec_mem_input())
    }

    pub open spec fn same_round(&self, other: Self) -> bool {
        other.spec_mem_input() == self.spec_mem_input()
    }

    pub open spec fn update_post(old: Self, chosen: u32, new: Self, r: bool) -> bool {
        if old.converged() {
            !r && new == old
        } else {
            &&& new.spec_mem_input() == with_byte(old.spec_mem_input(), chosen as u8)
            &&& new.cursor() == 0
            &&& r == !new.converged()
        }
    }

    pub fn new(mem_input: MemInput) -> (r: MemGenerator)
        ensures
            r.wf(),
            r.cursor() == 0,
            r.spec_mem_input() == mem_input@,
    {
        MemGenerator { cur: 0, correct: mem_input }
    }

    /// The region with the bytes found so far.
    pub fn get_mem_input(self) -> (r: MemInput)
        ensures
            r@ == self.spec_mem_input(),
    {
        self.correct
    }

    /// Whether every byte of the region has been found.
    pub fn finished(&self) -> (r: bool)
        ensures
            r == self.converged(),
    {
        self.correct.bytes.len() >= self.correct.size
    }

    pub fn next(&mut self) -> (r: Option<(u32, Input)>)
        requires
            old(self).wf(),
        ensures
            final(self).wf(),
            old(self).converged() || old(self).cursor() > old(self).last_id() ==> r is None
                && *final(self) == *old(self),
            !old(self).converged() && old(self).cursor() <= old(self).last_id() ==> {
                &&& r is Some
                &&& r->Some_0.0 == old(self).cursor()
                &&& r->Some_0.1@ == mem_candidate(old(self).spec_mem_input(), r->Some_0.0 as u8)
                &&& final(self).cursor() == old(self).cursor() + 1
                &&& old(self).same_round(*final(self))
            },
    {
        if self.cur > 255 || self.correct.bytes.len() >= self.correct.size {
            return None;
        }
        let b: u8 = self.cur as u8;
        self.cur = self.cur + 1;
        let mut try_bytes = crate::input::copy_bytes(&self.correct.bytes);
        try_bytes.push(b);
        let mem = MemInput {
            size: self.correct.size,
            addr: self.correct.addr,
            bytes: try_bytes,
            breakpoint: self.correct.breakpoint,
        };
        let mut res = Input::new();
        res.mem = Some(vec![mem]);
        proof {
            assert(res@.mem->Some_0 =~= seq![with_byte(self.correct@, b)]);
        }
        Some((b as u32, res))
    }

    /// Appends the winning byte; returns whether bytes remain to be found.
    pub fn update(&mut self, chosen: u32) -> (r: bool)
        requires
            old(self).wf(),
        ensures
            final(self).wf(),
            Self::update_post(*old(self), chosen, *final(self), r),
    {
        if self.correct.bytes.len() >= self.correct.size {
            return false;
        }
        self.correct.bytes.push(chosen as u8);
        self.cur = 0;
        self.correct.bytes.len() < self.correct.size
    }
}

/// Argument lengths with slot `pos` set to `sz`.
pub open spec fn lens_with(lens: Seq<u32>, pos: int, sz: u32) -> Seq<u32> {
    lens.update(pos, sz)
}

/// Candidate for the length of argument `pos`: each argument is padding of
/// its length.
pub open spec fn argv_len_candidate(lens: Seq<u32>, pos: int, sz: u32) -> InputView {
    InputView {
        argvlens: Some(lens_with(lens, pos, sz)),
        argv: Some(Seq::new(lens.len(), |i: int| repeat(PAD, lens_with(lens, pos, sz)[i] as int))),
        ..empty_input()
    }
}

/// Searches the length of each argument in turn, one round per argument.
#[derive(Debug)]
pub struct ArgvLenGenerator {
    len: u64,
    min: u32,
    max: u32,
    pos: usize,
    argc: u32,
    correct: Vec<u32>,
}


impl ArgvLenGenerator {
    pub closed spec fn cursor(&self) -> int {
        self.len as int
    }

    /// First id of every round.
    pub closed spec fn spec_min(&self) -> u32 {
        self.min
    }

    /// Largest id of every round.
    pub closed spec fn spec_max(&self) -> u32 {
        self.max
    }

    /// The argument whose length is being searched.
    pub closed spec fn slot(&self) -> int {
        self.pos as int
    }

    /// Number of arguments.
    pub closed spec fn spec_argc(&self) -> u32 {
        self.argc
    }

    /// Lengths found so far (zero where not yet found).
    pub closed spec fn spec_lengths(&self) -> Seq<u32> {
        self.correct@
    }

    pub closed spec fn wf(&self) -> bool {
        &&& self.correct@.len() == self.argc
        &&& self.pos <= self.argc
        &&& self.len <= 0x1_0000_0000
    }

    pub open spec fn first_id(&self) -> int {
        self.spec_min() as int
    }

    pub open spec fn last_id(&self) -> int {
        self.spec_max() as int
    }

    pub open spec fn converged(&self) -> bool {
        self.slot() >= self.spec_argc()
    }

    pub open spec fn rounds_left(&self) -> nat {
        if self.converged() {
            0
        } else {
            (self.spec_argc() - self.slot()) as nat
        }
    }

    pub open spec fn same_round(&self, other: Self) -> bool {
        &&& other.spec_min() == self.spec_min()
        &&& other.spec_max() == self.spec_max()
        &&& other.slot() == self.slot()
        &&& other.spec_argc() == self.spec_argc()
        &&& other.spec_lengths() == self.spec_lengths()
    }

    pub open spec fn update_post(old: Self, chosen: u32, new: Self, r: bool) -> bool {
        if old.converged() {
            !r && new == old
        } else {
            &&& new.spec_lengths() == old.spec_lengths().update(old.slot(), chosen)
            &&& new.slot() == old.slot() + 1
            &&& new.spec_argc() == old.spec_argc()
            &&& new.spec_min() == old.spec_min()
            &&& new.spec_max() == old.spec_max()
            &&& new.cursor() == new.first_id()
            &&& r == (old.slot() + 1 < old.spec_argc())
        }
    }

    pub fn new(argc: u32, min: u32, max: u32) -> (r: ArgvLenGenerator)
        ensures
            r.wf(),
            r.cursor() == min,
            r.spec_min() == min,
            r.spec_max() == max,
            r.slot() == 0,
            r.spec_argc() == argc,
            r.spec_lengths() == Seq::new(argc as nat, |i: int| 0u32),
    {
        let mut correct: Vec<u32> = Vec::new();
        let mut i: u32 = 0;
        while i < argc
            invariant
                i <= argc,
                correct@ == Seq::new(i as nat, |j: int| 0u32),
            decreases argc - i,
        {
            correct.push(0);
            i = i + 1;
            assert(correct@ =~= Seq::new(i as nat, |j: int| 0u32));
        }
        ArgvLenGenerator { len: min as u64, min, max, pos: 0, argc, correct }
    }

    /// Lengths found so far.
    pub fn get_lengths(&self) -> (r: &Vec<u32>)
        ensures
            r@ == self.spec_lengths(),
    {
        &self.correct
    }

    pub fn next(&mut self) -> (r: Option<(u32, Input)>)
        requires
            old(self).wf(),
        ensures
            final(self).wf(),
            old(self).converged() || old(self).cursor() > old(self).last_id() ==> r is None
                && *final(self) == *old(self),
            !old(self).converged() && old(self).cursor() <= old(self).last_id() ==> {
                &&& r is Some
                &&& r->Some_0.0 == old(self).cursor()
                &&& r->Some_0.1@ == argv_len_candidate(
                    old(self).spec_lengths(),
                    old(self).slot(),
                    r->Some_0.0,
                )
                &&& final(self).cursor() == old(self).cursor() + 1
                &&& old(self).same_round(*final(self))
            },
    {
        if self.pos >= self.argc as usize || self.len > self.max as u64 {
            return None;
        }
        let sz: u32 = self.len as u32;
        self.len = self.len + 1;
        let mut lens: Vec<u32> = Vec::new();
        let mut argv: Vec<Vec<u8>> = Vec::new();
        let ghost want = lens_with(self.correct@, self.pos as int, sz);
        let mut i: usize = 0;
        while i < self.argc as usize
            invariant
                self.correct@.len() == self.argc,
                self.pos < self.argc,
                want == lens_with(self.correct@, self.pos as int, sz),
                i <= self.argc,
                lens@ == want.subrange(0, i as int),
                argv@.len() == i,
                forall|j: int| 0 <= j < i ==> argv@[j]@ == repeat(PAD, want[j] as int),
            decreases self.argc - i,
        {
            let l: u32 = if i == self.pos {
                sz
            } else {
                self.correct[i]
            };
            lens.push(l);
            argv.push(filled(PAD, l as usize));
            i = i + 1;
            assert(lens@ =~= want.subrange(0, i as int));
        }
        let mut res = Input::new();
        proof {
            assert(lens@ =~= want);
            assert(argv@.map_values(|x: Vec<u8>| x@) =~= Seq::new(
                want.len(),
                |j: int| repeat(PAD, want[j] as int),
            ));
        }
        res.argvlens = Some(lens);
        res.argv = Some(argv);
        Some((sz, res))
    }

    /// Records the length of the current argument; returns whether arguments
    /// remain.
    pub fn update(&mut self, chosen: u32) -> (r: bool)
        requires
            old(self).wf(),
        ensures
            final(self).wf(),
            Self::update_post(*old(self), chosen, *final(self), r),
    {
        if self.pos >= self.argc as usize {
            return false;
        }
        self.correct.set(self.pos, chosen);
        self.pos = self.pos + 1;
        self.len = self.min as u64;
        self.pos < self.argc as usize
    }
}

/// Sum of the lengths from slot `p` on.
pub open spec fn total_from(lens: Seq<u32>, p: int) -> int
    decreases lens.len() - p,
{
    if p < 0 || p >= lens.len() {
        0
    } else {
        lens[p] + total_from(lens, p + 1)
    }
}

/// The first slot from `p` on whose length is not zero; the end when none is.
pub open spec fn first_nonzero(lens: Seq<u32>, p: int) -> int
    decreases lens.len() - p,
{
    if p < 0 || p >= lens.len() || lens[p] > 0 {
        p
    } else {
        first_nonzero(lens, p + 1)
    }
}

/// Argument `i` of the candidate that tries byte `b` at slot `pos`: solved
/// slots before it, padding after it.
pub open spec fn argv_slot(
    correct: Seq<Seq<u8>>,
    lens: Seq<u32>,
    pos: int,
    pad: u8,
    b: u8,
    i: int,
) -> Seq<u8> {
    if i < pos {
        correct[i]
    } else if i == pos {
        crate::bytes::fit(correct[pos].push(b), lens[pos] as int, pad)
    } else {
        repeat(pad, lens[i] as int)
    }
}

pub open spec fn argv_candidate(
    correct: Seq<Seq<u8>>,
    lens: Seq<u32>,
    pos: int,
    pad: u8,
    b: u8,
) -> InputView {
    InputView {
        argv: Some(Seq::new(lens.len(), |i: int| argv_slot(correct, lens, pos, pad, b, i))),
        ..empty_input()
    }
}

/// Searches the bytes of each argument, left to right, one round per byte.
#[derive(Debug)]
pub struct ArgvGenerator {
    lens: Vec<u32>,
    padchr: u8,
    idx: u32,
    min: u16,
    max: u16,
    pos: usize,
    argc: u32,
    correct: Vec<Vec<u8>>,
    cur: u16,
}

impl ArgvGenerator {
    pub closed spec fn cursor(&self) -> int {
        self.cur as int
    }

    pub closed spec fn spec_min(&self) -> u16 {
        self.min
    }

    pub closed spec fn spec_max(&self) -> u16 {
        self.max
    }

    /// The argument being searched.
    pub closed spec fn slot(&self) -> int {
        self.pos as int
    }

    /// The byte position being searched within that argument.
    pub closed spec fn position(&self) -> int {
        self.idx as int
    }

    /// Length of each argument.
    pub closed spec fn spec_lens(&self) -> Seq<u32> {
        self.lens@
    }

    pub closed spec fn spec_pad(&self) -> u8 {
        self.padchr
    }

    /// Bytes found so far, argument by argument.
    pub closed spec fn spec_argv(&self) -> Seq<Seq<u8>> {
        self.correct@.map_values(|x: Vec<u8>| x@)
    }

    pub closed spec fn wf(&self) -> bool {
        &&& self.lens@.len() == self.argc
        &&& self.correct@.len() == self.argc
        &&& self.pos <= self.argc
        &&& self.pos < self.argc ==> self.idx < self.lens@[self.pos as int]
            && self.correct@[self.pos as int]@.len() == self.idx
        &&& forall|i: int| 0 <= i < self.pos ==> self.correct@[i]@.len() == self.lens@[i]
        &&& forall|i: int| self.pos < i < self.argc ==> self.correct@[i]@.len() == 0
    }

    /// Arguments are filled slot by slot: those before the current slot are
    /// complete, the current one holds `position()` bytes, later ones none.
    pub open spec fn shape_ok(&self) -> bool {
        let lens = self.spec_lens();
        let argv = self.spec_argv();
        &&& 0 <= self.slot() <= lens.len()
        &&& argv.len() == lens.len()
        &&& self.slot() < lens.len() ==> 0 <= self.position() < lens[self.slot()]
            && argv[self.slot()].len() == self.position()
        &&& forall|i: int| 0 <= i < self.slot() ==> #[trigger] argv[i].len() == lens[i]
        &&& forall|i: int| self.slot() < i < lens.len() ==> #[trigger] argv[i].len() == 0
    }

    proof fn lemma_shape(&self)
        requires
            self.wf(),
        ensures
            self.shape_ok(),
    {
        let argv = self.spec_argv();
        assert forall|i: int| 0 <= i < self.slot() implies #[trigger] argv[i].len() == self.lens@[i] by {
            assert(argv[i] == self.correct@[i]@);
        }
        assert forall|i: int| self.slot() < i < self.lens@.len() implies #[trigger] argv[i].len() == 0 by {
            assert(argv[i] == self.correct@[i]@);
        }
        if self.slot() < self.lens@.len() {
            assert(argv[self.slot()] == self.correct@[self.slot()]@);
        }
    }

    /// First id of every round.
    pub open spec fn first_id(&self) -> int {
        self.spec_min() as int
    }

    /// Largest id of every round: the byte range is clamped to 255.
    pub open spec fn last_id(&self) -> int {
        if self.spec_max() > 255 {
            255
        } else {
            self.spec_max() as int
        }
    }

    pub open spec fn converged(&self) -> bool {
        self.slot() >= self.spec_lens().len()
    }

    /// Bytes still to find over all arguments: one round each.
    pub open spec fn rounds_left(&self) -> nat {
        if self.converged() {
            0
        } else {
            (total_from(self.spec_lens(), self.slot()) - self.position()) as nat
        }
    }

    pub open spec fn same_round(&self, other: Self) -> bool {
        &&& other.spec_min() == self.spec_min()
        &&& other.spec_max() == self.spec_max()
        &&& other.slot() == self.slot()
        &&& other.position() == self.position()
        &&& other.spec_lens() == self.spec_lens()
        &&& other.spec_pad() == self.spec_pad()
        &&& other.spec_argv() == self.spec_argv()
    }

    pub open spec fn update_post(old: Self, chosen: u32, new: Self, r: bool) -> bool {
        if old.converged() {
            !r && new == old
        } else {
            &&& new.spec_argv() == old.spec_argv().update(
                old.slot(),
                old.spec_argv()[old.slot()].push(chosen as u8),
            )
            &&& new.spec_lens() == old.spec_lens()
            &&& new.spec_pad() == old.spec_pad()
            &&& new.spec_min() == old.spec_min()
            &&& new.spec_max() == old.spec_max()
            &&& new.cursor() == new.first_id()
            &&& new.rounds_left() + 1 == old.rounds_left()
            &&& r == !new.converged()
            &&& r == (new.rounds_left() > 0)
            &&& old.position() + 1 < old.spec_lens()[old.slot()] ==> new.slot() == old.slot()
                && new.position() == old.position() + 1
            &&& old.position() + 1 >= old.spec_lens()[old.slot()] ==> new.slot() == first_nonzero(
                old.spec_lens(),
                old.slot() + 1,
            ) && new.position() == 0
        }
    }

    proof fn lemma_total_from_nonneg(lens: Seq<u32>, p: int)
        ensures
            total_from(lens, p) >= 0,
        decreases lens.len() - p,
    {
        if 0 <= p < lens.len() {
            Self::lemma_total_from_nonneg(lens, p + 1);
        }
    }

    /// Moves past arguments of length zero.
    fn skip_empty(&mut self)
        requires
            old(self).lens@.len() == old(self).argc,
            old(self).correct@.len() == old(self).argc,
            old(self).pos <= old(self).argc,
            old(self).idx == 0,
            forall|i: int| 0 <= i < old(self).pos ==> old(self).correct@[i]@.len() == old(self).lens@[i],
            forall|i: int| old(self).pos <= i < old(self).argc ==> old(self).correct@[i]@.len() == 0,
        ensures
            final(self).wf(),
            final(self).pos >= old(self).pos,
            total_from(final(self).lens@, final(self).pos as int) == total_from(
                old(self).lens@,
                old(self).pos as int,
            ),
            *final(self) == (ArgvGenerator { pos: final(self).pos, ..*old(self) }),
            final(self).pos == first_nonzero(old(self).lens@, old(self).pos as int),
    {
        while self.pos < self.argc as usize && self.lens[self.pos] == 0
            invariant
                self.lens@ == old(self).lens@,
                self.correct@ == old(self).correct@,
                self.argc == old(self).argc,
                self.lens@.len() == self.argc,
                self.correct@.len() == self.argc,
                old(self).pos <= self.pos <= self.argc,
                self.idx == 0,
                forall|i: int| 0 <= i < self.pos ==> self.correct@[i]@.len() == self.lens@[i],
                forall|i: int| self.pos <= i < self.argc ==> self.correct@[i]@.len() == 0,
                total_from(self.lens@, self.pos as int) == total_from(
                    old(self).lens@,
                    old(self).pos as int,
                ),
                *self == (ArgvGenerator { pos: self.pos, ..*old(self) }),
                first_nonzero(self.lens@, self.pos as int) == first_nonzero(
                    old(self).lens@,
                    old(self).pos as int,
                ),
            decreases self.argc - self.pos,
        {
            self.pos = self.pos + 1;
        }
    }

    pub fn new(argc: u32, len: &[u32], min: u16, max: u16) -> (r: ArgvGenerator)
        requires
            len@.len() == argc,
        ensures
            r.wf(),
            r.cursor() == min,
            r.spec_min() == min,
            r.spec_max() == max,
            r.position() == 0,
            r.spec_lens() == len@,
            r.spec_pad() == PAD,
            r.spec_argv() == Seq::new(argc as nat, |i: int| Seq::<u8>::empty()),
            r.rounds_left() == total_from(len@, 0),
            r.converged() <==> total_from(len@, 0) == 0,
            r.slot() == first_nonzero(len@, 0),
            r.shape_ok(),
    {
        proof {
            Self::lemma_total_from_nonneg(len@, 0);
        }
        let mut lens: Vec<u32> = Vec::new();
        let mut i: usize = 0;
        while i < len.len()
            invariant
                i <= len@.len(),
                lens@ == len@.subrange(0, i as int),
            decreases len@.len() - i,
        {
            lens.push(len[i]);
            i = i + 1;
        }
        assert(lens@ =~= len@);
        let correct = empty_arguments(argc);
        let mut g = ArgvGenerator {
            lens,
            padchr: PAD,
            idx: 0,
            min,
            max,
            pos: 0,
            argc,
            correct,
            cur: min,
        };
        g.skip_empty();
        proof {
            if g.pos < g.argc {
                Self::lemma_total_from_nonneg(g.lens@, g.pos + 1);
            }
        }
        assert(g.spec_argv() =~= Seq::new(argc as nat, |i: int| Seq::<u8>::empty()));
        proof {
            g.lemma_shape();
        }
        g
    }

    /// Bytes found so far, argument by argument.
    pub fn get_argv(&self) -> (r: &Vec<Vec<u8>>)
        ensures
            r@.map_values(|x: Vec<u8>| x@) == self.spec_argv(),
    {
        &self.correct
    }

    pub fn next(&mut self) -> (r: Option<(u32, Input)>)
        requires
            old(self).wf(),
        ensures
            final(self).wf(),
            old(self).converged() || old(self).cursor() > old(self).last_id() ==> r is None
                && *final(self) == *old(self),
            !old(self).converged() && old(self).cursor() <= old(self).last_id() ==> {
                &&& r is Some
                &&& r->Some_0.0 == old(self).cursor()
                &&& r->Some_0.1@ == argv_candidate(
                    old(self).spec_argv(),
                    old(self).spec_lens(),
                    old(self).slot(),
                    old(self).spec_pad(),
                    r->Some_0.0 as u8,
                )
                &&& final(self).cursor() == old(self).cursor() + 1
                &&& old(self).same_round(*final(self))
            },
            final(self).shape_ok(),
    {
        proof {
            self.lemma_shape();
        }
        if self.pos >= self.argc as usize || self.cur > 255 || self.cur > self.max {
            return None;
        }
        let b: u8 = self.cur as u8;
        self.cur = self.cur + 1;
        let ghost correct = self.correct@.map_values(|x: Vec<u8>| x@);
        let mut argv: Vec<Vec<u8>> = Vec::new();
        let mut i: usize = 0;
        while i < self.argc as usize
            invariant
                self.wf(),
                self.pos < self.argc,
                correct == self.correct@.map_values(|x: Vec<u8>| x@),
                i <= self.argc,
                argv@.len() == i,
                forall|j: int|
                    0 <= j < i ==> argv@[j]@ == argv_slot(
                        correct,
                        self.lens@,
                        self.pos as int,
                        self.padchr,
                        b,
                        j,
                    ),
            decreases self.argc - i,
        {
            if i < self.pos {
                argv.push(crate::input::copy_bytes(&self.correct[i]));
            } else if i == self.pos {
                let mut inp = crate::input::copy_bytes(&self.correct[i]);
                inp.push(b);
                crate::bytes::fit_to(&mut inp, self.lens[i] as usize, self.padchr);
                argv.push(inp);
            } else {
                argv.push(filled(self.padchr, self.lens[i] as usize));
            }
            i = i + 1;
        }
        let mut res = Input::new();
        proof {
            assert(argv@.map_values(|x: Vec<u8>| x@) =~= Seq::new(
                self.lens@.len(),
                |j: int| argv_slot(correct, self.lens@, self.pos as int, self.padchr, b, j),
            ));
        }
        res.argv = Some(argv);
        Some((b as u32, res))
    }

    /// Appends the winning byte to the current argument; returns whether
    /// bytes remain to be found.
    pub fn update(&mut self, chosen: u32) -> (r: bool)
        requires
            old(self).wf(),
        ensures
            final(self).wf(),
            Self::update_post(*old(self), chosen, *final(self), r),
            final(self).shape_ok(),
    {
        proof {
            self.lemma_shape();
        }
        if self.pos >= self.argc as usize {
            return false;
        }
        let ghost old_argv = self.correct@.map_values(|x: Vec<u8>| x@);
        proof {
            Self::lemma_total_from_nonneg(self.lens@, self.pos + 1);
            assert(total_from(self.lens@, self.pos as int) == self.lens@[self.pos as int]
                + total_from(self.lens@, self.pos + 1));
        }
        let mut slot = crate::input::copy_bytes(&self.correct[self.pos]);
        slot.push(chosen as u8);
        self.correct.set(self.pos, slot);
        self.idx = self.idx + 1;
        self.cur = self.min;
        proof {
            assert(self.correct@.map_values(|x: Vec<u8>| x@) =~= old_argv.update(
                self.pos as int,
                old_argv[self.pos as int].push(chosen as u8),
            ));
        }
        if self.idx >= self.lens[self.pos] {
            self.pos = self.pos + 1;
            self.idx = 0;
            self.skip_empty();
        }
        proof {
            if self.pos < self.argc {
                Self::lemma_total_from_nonneg(self.lens@, self.pos + 1);
            }
            self.lemma_shape();
        }
        self.pos < self.argc as usize
    }
}

/// Candidate for the next stdin byte: prefix, solved bytes, `b` and suffix,
/// cut or padded to the stdin length.
pub open spec fn stdin_char_candidate(
    prefix: Seq<u8>,
    correct: Seq<u8>,
    suffix: Seq<u8>,
    padlen: u32,
    pad: u8,
    b: u8,
) -> InputView {
    InputView {
        stdin: Some(crate::bytes::fit(prefix + correct.push(b) + suffix, padlen as int, pad)),
        ..empty_input()
    }
}

/// Searches stdin one byte position at a time, each candidate a full-length buffer.
#[derive(Debug)]
pub struct StdinCharGenerator {
    padlen: Option<u32>,
    padchr: u8,
    prefix: Vec<u8>,
    suffix: Vec<u8>,
    idx: u32,
    cur: u16,
    correct: Vec<u8>,
    min: u16,
    max: u16,
}

impl StdinCharGenerator {
    pub closed spec fn cursor(&self) -> int {
        self.cur as int
    }

    pub closed spec fn spec_min(&self) -> u16 {
        self.min
    }

    pub closed spec fn spec_max(&self) -> u16 {
        self.max
    }

    /// Length of stdin, where known.
    pub closed spec fn spec_padlen(&self) -> Option<u32> {
        self.padlen
    }

    pub closed spec fn spec_pad(&self) -> u8 {
        self.padchr
    }

    pub closed spec fn spec_prefix(&self) -> Seq<u8> {
        self.prefix@
    }

    pub closed spec fn spec_suffix(&self) -> Seq<u8> {
        self.suffix@
    }

    /// Position being searched.
    pub closed spec fn position(&self) -> int {
        self.idx as int
    }

    /// Bytes found so far, after the prefix.
    pub closed spec fn spec_input(&self) -> Seq<u8> {
        self.correct@
    }

    /// First id of every round.
    pub open spec fn first_id(&self) -> int {
        self.spec_min() as int
    }

    /// Largest id of every round: the byte range is clamped to 255.
    pub open spec fn last_id(&self) -> int {
        if self.spec_max() > 255 {
            255
        } else {
            self.spec_max() as int
        }
    }

    /// Whether every position has been searched (or the length is unknown).
    pub open spec fn converged(&self) -> bool {
        self.spec_padlen() is None || self.position() >= self.spec_padlen()->Some_0
    }

    pub open spec fn rounds_left(&self) -> nat {
        if self.converged() {
            0
        } else {
            (self.spec_padlen()->Some_0 - self.position()) as nat
        }
    }

    /// The search state: everything but the candidate layout.
    pub open spec fn same_search(&self, other: Self) -> bool {
        &&& other.cursor() == self.cursor()
        &&& other.spec_min() == self.spec_min()
        &&& other.spec_max() == self.spec_max()
        &&& other.spec_padlen() == self.spec_padlen()
        &&& other.position() == self.position()
        &&& other.spec_input() == self.spec_input()
    }

    pub open spec fn same_round(&self, other: Self) -> bool {
        &&& other.spec_min() == self.spec_min()
        &&& other.spec_max() == self.spec_max()
        &&& other.spec_padlen() == self.spec_padlen()
        &&& other.position() == self.position()
        &&& other.spec_input() == self.spec_input()
        &&& other.spec_pad() == self.spec_pad()
        &&& other.spec_prefix() == self.spec_prefix()
        &&& other.spec_suffix() == self.spec_suffix()
    }

    pub open spec fn update_post(old: Self, chosen: u32, new: Self, r: bool) -> bool {
        if old.converged() {
            !r && new == old
        } else {
            &&& new.spec_input() == old.spec_input().push(chosen as u8)
            &&& new.position() == old.position() + 1
            &&& new.spec_padlen() == old.spec_padlen()
            &&& new.spec_pad() == old.spec_pad()
            &&& new.spec_prefix() == old.spec_prefix()
            &&& new.spec_suffix() == old.spec_suffix()
            &&& new.spec_min() == old.spec_min()
            &&& new.spec_max() == old.spec_max()
            &&& new.cursor() == new.first_id()
            &&& r == (new.position() < new.spec_padlen()->Some_0)
        }
    }

    pub fn new(input: Input, min: u16, max: u16) -> (r: StdinCharGenerator)
        ensures
            r.cursor() == min,
            r.spec_min() == min,
            r.spec_max() == max,
            r.spec_padlen() == input@.stdinlen,
            r.spec_pad() == PAD,
            r.spec_prefix() == Seq::<u8>::empty(),
            r.spec_suffix() == Seq::<u8>::empty(),
            r.spec_input() == Seq::<u8>::empty(),
            r.position() == 0,
    {
        StdinCharGenerator {
            padlen: input.stdinlen,
            padchr: PAD,
            prefix: Vec::new(),
            suffix: Vec::new(),
            idx: 0,
            cur: min,
            correct: Vec::new(),
            min,
            max,
        }
    }

    /// Like `new`, with the first bytes of stdin already known.
    pub fn new_start(input: Input, min: u16, max: u16, start: &[u8]) -> (r: StdinCharGenerator)
        requires
            start@.len() <= u32::MAX,
        ensures
            r.cursor() == min,
            r.spec_min() == min,
            r.spec_max() == max,
            r.spec_padlen() == input@.stdinlen,
            r.spec_pad() == PAD,
            r.spec_prefix() == start@,
            r.spec_suffix() == Seq::<u8>::empty(),
            r.spec_input() == Seq::<u8>::empty(),
            r.position() == start@.len(),
    {
        let mut prefix: Vec<u8> = Vec::new();
        crate::bytes::append_bytes(&mut prefix, start);
        StdinCharGenerator {
            padlen: input.stdinlen,
            padchr: PAD,
            prefix,
            suffix: Vec::new(),
            idx: start.len() as u32,
            cur: min,
            correct: Vec::new(),
            min,
            max,
        }
    }

    /// Decides which byte pads the candidates.
    pub fn set_padchr(&mut self, padchr: u8)
        ensures
            old(self).same_search(*final(self)),
            final(self).spec_pad() == padchr,
            final(self).spec_prefix() == old(self).spec_prefix(),
            final(self).spec_suffix() == old(self).spec_suffix(),
    {
        self.padchr = padchr;
    }

    pub fn set_prefix(&mut self, prefix: Vec<u8>)
        ensures
            old(self).same_search(*final(self)),
            final(self).spec_prefix() == prefix@,
            final(self).spec_pad() == old(self).spec_pad(),
            final(self).spec_suffix() == old(self).spec_suffix(),
    {
        self.prefix = prefix;
    }

    pub fn set_suffix(&mut self, suffix: Vec<u8>)
        ensures
            old(self).same_search(*final(self)),
            final(self).spec_suffix() == suffix@,
            final(self).spec_pad() == old(self).spec_pad(),
            final(self).spec_prefix() == old(self).spec_prefix(),
    {
        self.suffix = suffix;
    }

    /// Bytes found so far, after the prefix.
    pub fn get_input(&self) -> (r: &Vec<u8>)
        ensures
            r@ == self.spec_input(),
    {
        &self.correct
    }

    pub fn next(&mut self) -> (r: Option<(u32, Input)>)
        ensures
            old(self).converged() || old(self).cursor() > old(self).last_id() ==> r is None
                && *final(self) == *old(self),
            !old(self).converged() && old(self).cursor() <= old(self).last_id() ==> {
                &&& r is Some
                &&& r->Some_0.0 == old(self).cursor()
                &&& r->Some_0.1@ == stdin_char_candidate(
                    old(self).spec_prefix(),
                    old(self).spec_input(),
                    old(self).spec_suffix(),
                    old(self).spec_padlen()->Some_0,
                    old(self).spec_pad(),
                    r->Some_0.0 as u8,
                )
                &&& final(self).cursor() == old(self).cursor() + 1
                &&& old(self).same_round(*final(self))
            },
    {
        let padlen: u32 = match self.padlen {
            Some(p) => p,
            None => {
                return None;
            },
        };
        if self.idx >= padlen || self.cur > 255 || self.cur > self.max {
            return None;
        }
        let b: u8 = self.cur as u8;
        self.cur = self.cur + 1;
        let mut inp: Vec<u8> = Vec::new();
        crate::bytes::append_bytes(&mut inp, self.prefix.as_slice());
        crate::bytes::append_bytes(&mut inp, self.correct.as_slice());
        inp.push(b);
        crate::bytes::append_bytes(&mut inp, self.suffix.as_slice());
        proof {
            assert(inp@ =~= self.prefix@ + self.correct@.push(b) + self.suffix@);
        }
        crate::bytes::fit_to(&mut inp, padlen as usize, self.padchr);
        let mut res = Input::new();
        res.stdin = Some(inp);
        Some((b as u32, res))
    }

    /// Appends the winning byte; returns whether positions remain.
    pub fn update(&mut self, chosen: u32) -> (r: bool)
        ensures
            Self::update_post(*old(self), chosen, *final(self), r),
    {
        let padlen: u32 = match self.padlen {
            Some(p) => p,
            None => {
                return false;
            },
        };
        if self.idx >= padlen {
            return false;
        }
        self.correct.push(chosen as u8);
        self.idx = self.idx + 1;
        self.cur = self.min;
        self.idx < padlen
    }
}

/// Any of the generators, behind one protocol: each round yields candidates
/// through `next`, and `update` takes the winning id.
#[derive(Debug)]
pub enum Generator {
    Argc(ArgcGenerator),
    ArgvLen(ArgvLenGenerator),
    Argv(ArgvGenerator),
    StdinLen(StdinLenGenerator),
    StdinChar(StdinCharGenerator),
    Mem(MemGenerator),
}

impl Generator {
    pub open spec fn wf(&self) -> bool {
        match self {
            Generator::Argc(g) => g.wf(),
            Generator::ArgvLen(g) => g.wf(),
            Generator::Argv(g) => g.wf(),
            Generator::StdinLen(g) => g.wf(),
            Generator::StdinChar(g) => true,
            Generator::Mem(g) => g.wf(),
        }
    }

    /// Next id to be yielded in this round.
    pub open spec fn cursor(&self) -> int {
        match self {
            Generator::Argc(g) => g.cursor(),
            Generator::ArgvLen(g) => g.cursor(),
            Generator::Argv(g) => g.cursor(),
            Generator::StdinLen(g) => g.cursor(),
            Generator::StdinChar(g) => g.cursor(),
            Generator::Mem(g) => g.cursor(),
        }
    }

    /// Largest id of a round.
    pub open spec fn last_id(&self) -> int {
        match self {
            Generator::Argc(g) => g.last_id(),
            Generator::ArgvLen(g) => g.last_id(),
            Generator::Argv(g) => g.last_id(),
            Generator::StdinLen(g) => g.last_id(),
            Generator::StdinChar(g) => g.last_id(),
            Generator::Mem(g) => g.last_id(),
        }
    }

    pub open spec fn converged(&self) -> bool {
        match self {
            Generator::Argc(g) => g.converged(),
            Generator::ArgvLen(g) => g.converged(),
            Generator::Argv(g) => g.converged(),
            Generator::StdinLen(g) => g.converged(),
            Generator::StdinChar(g) => g.converged(),
            Generator::Mem(g) => g.converged(),
        }
    }

    /// Rounds still to run.
    pub open spec fn rounds_left(&self) -> nat {
        match self {
            Generator::Argc(g) => g.rounds_left(),
            Generator::ArgvLen(g) => g.rounds_left(),
            Generator::Argv(g) => g.rounds_left(),
            Generator::StdinLen(g) => g.rounds_left(),
            Generator::StdinChar(g) => g.rounds_left(),
            Generator::Mem(g) => g.rounds_left(),
        }
    }

    /// First id of a round that follows an update.
    pub open spec fn first_id(&self) -> int {
        match self {
            Generator::Argc(g) => g.cursor(),
            Generator::ArgvLen(g) => g.first_id(),
            Generator::Argv(g) => g.first_id(),
            Generator::StdinLen(g) => g.cursor(),
            Generator::StdinChar(g) => g.first_id(),
            Generator::Mem(g) => 0,
        }
    }

    /// `other` is the same kind of generator, within the same round.
    pub open spec fn same_round(&self, other: Generator) -> bool {
        match (*self, other) {
            (Generator::Argc(a), Generator::Argc(b)) => a.same_round(b),
            (Generator::ArgvLen(a), Generator::ArgvLen(b)) => a.same_round(b),
            (Generator::Argv(a), Generator::Argv(b)) => a.same_round(b),
            (Generator::StdinLen(a), Generator::StdinLen(b)) => a.same_round(b),
            (Generator::StdinChar(a), Generator::StdinChar(b)) => a.same_round(b),
            (Generator::Mem(a), Generator::Mem(b)) => a.same_round(b),
            _ => false,
        }
    }

    /// `new` is what `update(chosen)` makes of `old`, returning `r`.
    pub open spec fn after_update(old: Generator, chosen: u32, new: Generator, r: bool) -> bool {
        match (old, new) {
            (Generator::Argc(a), Generator::Argc(b)) => ArgcGenerator::update_post(a, chosen, b, r),
            (Generator::ArgvLen(a), Generator::ArgvLen(b)) => ArgvLenGenerator::update_post(
                a,
                chosen,
                b,
                r,
            ),
            (Generator::Argv(a), Generator::Argv(b)) => ArgvGenerator::update_post(a, chosen, b, r),
            (Generator::StdinLen(a), Generator::StdinLen(b)) => StdinLenGenerator::update_post(
                a,
                chosen,
                b,
                r,
            ),
            (Generator::StdinChar(a), Generator::StdinChar(b)) => StdinCharGenerator::update_post(
                a,
                chosen,
                b,
                r,
            ),
            (Generator::Mem(a), Generator::Mem(b)) => MemGenerator::update_post(a, chosen, b, r),
            _ => false,
        }
    }

    /// Candidates still to be yielded in this round.
    pub open spec fn pending(&self) -> int {
        if self.converged() || self.cursor() > self.last_id() {
            0
        } else {
            self.last_id() - self.cursor() + 1
        }
    }

    /// The candidate input that id `id` stands for in this round.
    pub open spec fn candidate(&self, id: int) -> InputView {
        match self {
            Generator::Argc(g) => argc_candidate(id as u32),
            Generator::ArgvLen(g) => argv_len_candidate(g.spec_lengths(), g.slot(), id as u32),
            Generator::Argv(g) => argv_candidate(
                g.spec_argv(),
                g.spec_lens(),
                g.slot(),
                g.spec_pad(),
                id as u8,
            ),
            Generator::StdinLen(g) => stdin_len_candidate(id as u32),
            Generator::StdinChar(g) => stdin_char_candidate(
                g.spec_prefix(),
                g.spec_input(),
                g.spec_suffix(),
                g.spec_padlen()->Some_0,
                g.spec_pad(),
                id as u8,
            ),
            Generator::Mem(g) => mem_candidate(g.spec_mem_input(), id as u8),
        }
    }

    /// The next candidate of this round; the ids of a round run up from the
    /// cursor, one by one.
    pub fn next(&mut self) -> (r: Option<(u32, Input)>)
        requires
            old(self).wf(),
        ensures
            final(self).wf(),
            final(self).last_id() == old(self).last_id(),
            final(self).converged() == old(self).converged(),
            final(self).rounds_left() == old(self).rounds_left(),
            forall|id: int| #[trigger] final(self).candidate(id) == old(self).candidate(id),
            old(self).same_round(*final(self)),
            old(self).pending() == 0 ==> r is None && final(self).cursor() == old(self).cursor(),
            old(self).pending() > 0 ==> {
                &&& r is Some
                &&& r->Some_0.0 == old(self).cursor()
                &&& r->Some_0.1@ == old(self).candidate(old(self).cursor())
                &&& final(self).cursor() == old(self).cursor() + 1
            },
    {
        match self {
            Generator::Argc(g) => g.next(),
            Generator::ArgvLen(g) => g.next(),
            Generator::Argv(g) => g.next(),
            Generator::StdinLen(g) => g.next(),
            Generator::StdinChar(g) => g.next(),
            Generator::Mem(g) => g.next(),
        }
    }

    /// Feeds back the winning id; returns whether another round should run.
    /// Each round that follows uses up one of the rounds left.
    pub fn update(&mut self, chosen: u32) -> (r: bool)
        requires
            old(self).wf(),
        ensures
            final(self).wf(),
            r ==> final(self).rounds_left() + 1 == old(self).rounds_left(),
            r ==> final(self).cursor() == final(self).first_id(),
            !r ==> final(self).rounds_left() == 0,
            r == (final(self).rounds_left() > 0),
            Generator::after_update(*old(self), chosen, *final(self), r),
    {
        match self {
            Generator::Argc(g) => g.update(chosen),
            Generator::ArgvLen(g) => g.update(chosen),
            Generator::Argv(g) => g.update(chosen),
            Generator::StdinLen(g) => g.update(chosen),
            Generator::StdinChar(g) => g.update(chosen),
            Generator::Mem(g) => g.update(chosen),
        }
    }
}

} // verus!
