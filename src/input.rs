use vstd::prelude::*;

verus! {

/// One memory region to brute-force.
#[derive(Debug, Clone, PartialEq, Eq)]
pub struct MemInput {
    /// Number of bytes in the region.
    pub size: usize,
    /// Address of the region; an offset from the executable base for a PIE.
    pub addr: usize,
    /// Bytes found so far.
    pub bytes: Vec<u8>,
    /// Instruction address at which the bytes are written; `None` writes them
    /// as soon as the child stops after `exec`.
    pub breakpoint: Option<usize>,
}

/// Mathematical value of a `MemInput`.
pub struct MemInputView {
    pub size: usize,
    pub addr: usize,
    pub bytes: Seq<u8>,
    pub breakpoint: Option<usize>,
}

impl View for MemInput {
    type V = MemInputView;

    open spec fn view(&self) -> MemInputView {
        MemInputView {
            size: self.size,
            addr: self.addr,
            bytes: self.bytes@,
            breakpoint: self.breakpoint,
        }
    }
}

/// The candidate input of one run: every field is optional.
#[derive(Debug, Clone)]
pub struct Input {
    pub argc: Option<u32>,
    pub argvlens: Option<Vec<u32>>,
    pub argv: Option<Vec<Vec<u8>>>,
    pub stdinlen: Option<u32>,
    pub stdin: Option<Vec<u8>>,
    pub mem: Option<Vec<MemInput>>,
}

/// Mathematical value of an `Input`.
pub struct InputView {
    pub argc: Option<u32>,
    pub argvlens: Option<Seq<u32>>,
    pub argv: Option<Seq<Seq<u8>>>,
    pub stdinlen: Option<u32>,
    pub stdin: Option<Seq<u8>>,
    pub mem: Option<Seq<MemInputView>>,
}

pub open spec fn opt_seq_view<T: View>(o: Option<Vec<T>>) -> Option<Seq<T::V>> {
    match o {
        Some(v) => Some(v@.map_values(|x: T| x@)),
        None => None,
    }
}

pub open spec fn opt_vec_view<T>(o: Option<Vec<T>>) -> Option<Seq<T>> {
    match o {
        Some(v) => Some(v@),
        None => None,
    }
}

impl View for Input {
    type V = InputView;

    open spec fn view(&self) -> InputView {
        InputView {
            argc: self.argc,
            argvlens: opt_vec_view(self.argvlens),
            argv: opt_seq_view(self.argv),
            stdinlen: self.stdinlen,
            stdin: opt_vec_view(self.stdin),
            mem: opt_seq_view(self.mem),
        }
    }
}

/// The input with no field set.
pub open spec fn empty_input() -> InputView {
    InputView { argc: None, argvlens: None, argv: None, stdinlen: None, stdin: None, mem: None }
}

pub open spec fn overlay<T>(base: Option<T>, top: Option<T>) -> Option<T> {
    match top {
        Some(t) => Some(t),
        None => base,
    }
}

/// Each field set in `top` replaces the field of `base`.
pub open spec fn combine_view(base: InputView, top: InputView) -> InputView {
    InputView {
        argc: overlay(base.argc, top.argc),
        argvlens: overlay(base.argvlens, top.argvlens),
        argv: overlay(base.argv, top.argv),
        stdinlen: overlay(base.stdinlen, top.stdinlen),
        stdin: overlay(base.stdin, top.stdin),
        mem: overlay(base.mem, top.mem),
    }
}

/// Copies a byte string.
pub fn copy_bytes(v: &Vec<u8>) -> (r: Vec<u8>)
    ensures
        r@ == v@,
{
    let mut r: Vec<u8> = Vec::with_capacity(v.len());
    let mut i: usize = 0;
    while i < v.len()
        invariant
            i <= v.len(),
            r@ == v@.subrange(0, i as int),
        decreases v.len() - i,
    {
        r.push(v[i]);
        i = i + 1;
    }
    assert(r@ =~= v@);
    r
}

/// Copies a list of byte strings.
pub fn copy_byte_strings(v: &Vec<Vec<u8>>) -> (r: Vec<Vec<u8>>)
    ensures
        r@.map_values(|x: Vec<u8>| x@) == v@.map_values(|x: Vec<u8>| x@),
{
    let mut r: Vec<Vec<u8>> = Vec::with_capacity(v.len());
    let mut i: usize = 0;
    while i < v.len()
        invariant
            i <= v.len(),
            r@.len() == i,
            forall|j: int| 0 <= j < i ==> r@[j]@ == v@[j]@,
        decreases v.len() - i,
    {
        r.push(copy_bytes(&v[i]));
        i = i + 1;
    }
    assert(r@.map_values(|x: Vec<u8>| x@) =~= v@.map_values(|x: Vec<u8>| x@));
    r
}

fn copy_u32s(v: &Vec<u32>) -> (r: Vec<u32>)
    ensures
        r@ == v@,
{
    let mut r: Vec<u32> = Vec::with_capacity(v.len());
    let mut i: usize = 0;
    while i < v.len()
        invariant
            i <= v.len(),
            r@ == v@.subrange(0, i as int),
        decreases v.len() - i,
    {
        r.push(v[i]);
        i = i + 1;
    }
    assert(r@ =~= v@);
    r
}

impl MemInput {
    /// A copy of this region.
    pub fn duplicate(&self) -> (r: MemInput)
        ensures
            r@ == self@,
    {
        MemInput {
            size: self.size,
            addr: self.addr,
            bytes: copy_bytes(&self.bytes),
            breakpoint: self.breakpoint,
        }
    }

    /// Whether every byte of the region has been found.
    pub fn is_solved(&self) -> (r: bool)
        ensures
            r == (self.bytes@.len() == self.size),
    {
        self.bytes.len() == self.size
    }
}

/// Copies a list of memory regions.
pub fn copy_mem_inputs(v: &Vec<MemInput>) -> (r: Vec<MemInput>)
    ensures
        r@.map_values(|x: MemInput| x@) == v@.map_values(|x: MemInput| x@),
{
    let mut r: Vec<MemInput> = Vec::with_capacity(v.len());
    let mut i: usize = 0;
    while i < v.len()
        invariant
            i <= v.len(),
            r@.len() == i,
            forall|j: int| 0 <= j < i ==> r@[j]@ == v@[j]@,
        decreases v.len() - i,
    {
        r.push(v[i].duplicate());
        i = i + 1;
    }
    assert(r@.map_values(|x: MemInput| x@) =~= v@.map_values(|x: MemInput| x@));
    r
}

impl Input {
    /// The input with no field set.
    pub fn new() -> (r: Input)
        ensures
            r@ == empty_input(),
    {
        Input { argc: None, argvlens: None, argv: None, stdinlen: None, stdin: None, mem: None }
    }

    /// A copy of this input.
    pub fn duplicate(&self) -> (r: Input)
        ensures
            r@ == self@,
    {
        Input {
            argc: self.argc,
            argvlens: match &self.argvlens {
                Some(v) => Some(copy_u32s(v)),
                None => None,
            },
            argv: match &self.argv {
                Some(v) => Some(copy_byte_strings(v)),
                None => None,
            },
            stdinlen: self.stdinlen,
            stdin: match &self.stdin {
                Some(v) => Some(copy_bytes(v)),
                None => None,
            },
            mem: match &self.mem {
                Some(v) => Some(copy_mem_inputs(v)),
                None => None,
            },
        }
    }

    /// A new input in which each field that `top` sets replaces that field of `self`.
    pub fn combine(self, top: Input) -> (r: Input)
        ensures
            r@ == combine_view(self@, top@),
    {
        let mut res = self;
        if top.argv.is_some() {
            res.argv = top.argv;
        }
        if top.argvlens.is_some() {
            res.argvlens = top.argvlens;
        }
        if top.argc.is_some() {
            res.argc = top.argc;
        }
        if top.stdinlen.is_some() {
            res.stdinlen = top.stdinlen;
        }
        if top.stdin.is_some() {
            res.stdin = top.stdin;
        }
        if top.mem.is_some() {
            res.mem = top.mem;
        }
        res
    }
}

/// Combining with the empty input, on either side, gives the input back.
pub proof fn lemma_combine_identity(x: InputView)
    ensures
        combine_view(x, empty_input()) == x,
        combine_view(empty_input(), x) == x,
{
}

} // verus!
