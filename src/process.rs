use vstd::prelude::*;
use crate::bytes::fit;
use crate::input::{MemInput, MemInputView};

verus! {

/// The x86 `int3` opcode.
pub const TRAP_OPCODE: u64 = 0xcc;

/// Linux signal number of `SIGTRAP`.
pub const SIGTRAP: i32 = 5;

/// How the runner attaches to the child with ptrace.
#[derive(Debug, Clone, Copy, PartialEq, Eq, Structural)]
pub enum PtraceMode {
    /// Stay attached for the whole run.
    Always,
    /// Never attach.
    Never,
    /// Attach, then detach at the first stop.
    Drop,
}

impl PtraceMode {
    /// Whether the child is started under ptrace.
    pub fn enabled(self) -> (r: bool)
        ensures
            r == (self != PtraceMode::Never),
    {
        match self {
            PtraceMode::Always | PtraceMode::Drop => true,
            PtraceMode::Never => false,
        }
    }
}

/// `a + b` modulo the size of the address space.
pub open spec fn wrap_add(a: usize, b: usize) -> usize {
    if a + b <= usize::MAX {
        (a + b) as usize
    } else {
        (a + b - usize::MAX - 1) as usize
    }
}

/// `a - b` modulo the size of the address space.
pub open spec fn wrap_sub(a: usize, b: usize) -> usize {
    if a >= b {
        (a - b) as usize
    } else {
        (a - b + usize::MAX + 1) as usize
    }
}

fn add_wrapping(a: usize, b: usize) -> (r: usize)
    ensures
        r == wrap_add(a, b),
{
    if a <= usize::MAX - b {
        a + b
    } else {
        a - (usize::MAX - b) - 1
    }
}

fn sub_wrapping(a: usize, b: usize) -> (r: usize)
    ensures
        r == wrap_sub(a, b),
{
    if a >= b {
        a - b
    } else {
        usize::MAX - (b - a) + 1
    }
}

/// Where the executable was loaded: addresses of a position-independent
/// executable are offsets from `base`; others are absolute.
#[derive(Debug, Clone, Copy)]
pub struct AddressSpace {
    pub pie: bool,
    pub base: usize,
}

pub open spec fn abs_addr_of(space: AddressSpace, addr: usize) -> usize {
    if space.pie {
        wrap_add(addr, space.base)
    } else {
        addr
    }
}

pub open spec fn rel_addr_of(space: AddressSpace, addr: usize) -> usize {
    if space.pie {
        wrap_sub(addr, space.base)
    } else {
        addr
    }
}

impl AddressSpace {
    /// The absolute address of `addr`.
    pub fn abs_addr(&self, addr: usize) -> (r: usize)
        ensures
            r == abs_addr_of(*self, addr),
    {
        if self.pie {
            add_wrapping(addr, self.base)
        } else {
            addr
        }
    }

    /// The address, relative to the executable where it is a PIE, of the
    /// absolute address `addr`.
    pub fn rel_addr(&self, addr: usize) -> (r: usize)
        ensures
            r == rel_addr_of(*self, addr),
    {
        if self.pie {
            sub_wrapping(addr, self.base)
        } else {
            addr
        }
    }
}

/// Translating an address to absolute form and back gives the address again.
pub proof fn lemma_rel_abs(space: AddressSpace, x: usize)
    ensures
        rel_addr_of(space, abs_addr_of(space, x)) == x,
        abs_addr_of(space, rel_addr_of(space, x)) == x,
{
}

/// Base address of the first mapping backed by the file `exe`.
pub open spec fn first_base(maps: Seq<(usize, Option<String>)>, exe: Seq<char>) -> Option<usize>
    decreases maps.len(),
{
    if maps.len() == 0 {
        None
    } else if maps[0].1 is Some && maps[0].1->Some_0@ == exe {
        Some(maps[0].0)
    } else {
        first_base(maps.drop_first(), exe)
    }
}

/// Finds where the executable was loaded, from the child's memory map: a list
/// of (start address, backing file) in the map's order.
pub fn find_base(maps: &Vec<(usize, Option<String>)>, exe: &String) -> (r: Option<usize>)
    ensures
        r == first_base(maps@, exe@),
{
    let mut i: usize = 0;
    assert(maps@.subrange(0, maps@.len() as int) =~= maps@);
    while i < maps.len()
        invariant
            i <= maps@.len(),
            first_base(maps@, exe@) == first_base(maps@.subrange(i as int, maps@.len() as int), exe@),
        decreases maps@.len() - i,
    {
        let ghost rest = maps@.subrange(i as int, maps@.len() as int);
        assert(rest.drop_first() =~= maps@.subrange(i + 1, maps@.len() as int));
        assert(rest[0] == maps@[i as int]);
        match &maps[i].1 {
            Some(p) => {
                if p.eq(exe) {
                    return Some(maps[i].0);
                }
            },
            None => {},
        }
        i = i + 1;
    }
    None
}

/// Word `i` of a byte string cut into words of `w` bytes, the last one padded
/// with zero bytes.
pub open spec fn word_bytes(b: Seq<u8>, i: int, w: int) -> Seq<u8> {
    let hi = if w * i + w <= b.len() {
        w * i + w
    } else {
        b.len() as int
    };
    fit(b.subrange(w * i, hi), w, 0)
}

/// The ptrace writes that place a region's bytes, one per word of `word`
/// bytes: the address of each word, from `start` on, and its bytes in memory
/// order, the last word padded with zeros.
pub fn mem_words(mem: &MemInput, start: usize, word: usize) -> (r: Vec<(usize, Vec<u8>)>)
    requires
        word > 0,
    ensures
        r@.len() * word >= mem.bytes@.len(),
        r@.len() > 0 ==> (r@.len() - 1) * word < mem.bytes@.len(),
        forall|i: int|
            0 <= i < r@.len() ==> #[trigger] r@[i].0 == wrap_add(start, (word * i) as usize)
                && r@[i].1@ == word_bytes(mem.bytes@, i, word as int),
{
    let n: usize = mem.bytes.len();
    let mut r: Vec<(usize, Vec<u8>)> = Vec::new();
    let mut off: usize = 0;
    assert(word * (r@.len() as int) == 0) by (nonlinear_arith)
        requires
            r@.len() == 0,
    ;
    while off < n
        invariant
            word > 0,
            n == mem.bytes@.len(),
            off <= n,
            off < n ==> off == word * r@.len(),
            off == n ==> r@.len() * word >= n,
            r@.len() > 0 ==> (r@.len() - 1) * word < n,
            forall|i: int|
                0 <= i < r@.len() ==> #[trigger] r@[i].0 == wrap_add(start, (word * i) as usize)
                    && r@[i].1@ == word_bytes(mem.bytes@, i, word as int),
        decreases n - off,
    {
        let ghost k = r@.len() as int;
        assert(word * (k + 1) == word * k + word) by (nonlinear_arith);
        assert(word * k == k * word) by (nonlinear_arith);
        let hi: usize = if n - off >= word {
            off + word
        } else {
            n
        };
        let mut chunk: Vec<u8> = Vec::new();
        let mut j: usize = off;
        while j < hi
            invariant
                off <= j <= hi <= n,
                n == mem.bytes@.len(),
                chunk@ == mem.bytes@.subrange(off as int, j as int),
            decreases hi - j,
        {
            chunk.push(mem.bytes[j]);
            j = j + 1;
            assert(chunk@ =~= mem.bytes@.subrange(off as int, j as int));
        }
        crate::bytes::fit_to(&mut chunk, word, 0);
        assert(chunk@ == word_bytes(mem.bytes@, k, word as int));
        let addr = add_wrapping(start, off);
        r.push((addr, chunk));
        assert((k + 1) * word == k * word + word) by (nonlinear_arith);
        off = hi;
    }
    r
}

/// The saved word with its lowest byte replaced by the trap opcode.
pub fn breakpoint_word(saved: u64) -> (r: u64)
    ensures
        r == (saved & 0xffff_ffff_ffff_ff00) | TRAP_OPCODE,
        r & 0xff == TRAP_OPCODE,
        r & 0xffff_ffff_ffff_ff00 == saved & 0xffff_ffff_ffff_ff00,
{
    let r = (saved & 0xffff_ffff_ffff_ff00) | TRAP_OPCODE;
    assert(r & 0xff == 0xcc && r & 0xffff_ffff_ffff_ff00 == saved & 0xffff_ffff_ffff_ff00)
        by (bit_vector)
        requires
            r == (saved & 0xffff_ffff_ffff_ff00) | 0xcc,
    ;
    r
}

} // verus!
