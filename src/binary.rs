use vstd::prelude::*;
use crate::errors::{Runner, SolverError, SolverResult};

verus! {

/// ELF type of a shared object (a position-independent executable).
pub const ET_DYN: u16 = 3;

/// ELF type of a fixed-address executable.
pub const ET_EXEC: u16 = 2;

/// Value of `EI_CLASS` for a 32-bit ELF file.
pub const ELFCLASS32: u8 = 1;

/// `e_type` and `EI_CLASS` of the header that goblin's ELF parser reads from
/// these bytes; `None` where it rejects them.
pub uninterp spec fn elf_header_of(bytes: Seq<u8>) -> Option<(u16, u8)>;

/// Relies on `goblin::elf::Elf::parse`: on success, the header's `e_type` and
/// the class byte of `e_ident`. The result depends on the bytes alone.
#[verifier::external_body]
fn parse_elf_header(bytes: &[u8]) -> (r: Option<(u16, u8)>)
    ensures
        r == elf_header_of(bytes@),
{
    match goblin::elf::Elf::parse(bytes) {
        Ok(elf) => Some((elf.header.e_type, elf.header.e_ident[goblin::elf::header::EI_CLASS])),
        Err(_) => None,
    }
}

/// The target program: its path and what its ELF header says.
#[derive(Debug, Clone)]
pub struct Binary {
    path: String,
    e_type: u16,
    class: u8,
}

impl Binary {
    pub closed spec fn spec_path(&self) -> Seq<char> {
        self.path@
    }

    pub closed spec fn spec_e_type(&self) -> u16 {
        self.e_type
    }

    pub closed spec fn spec_class(&self) -> u8 {
        self.class
    }

    /// A binary with this header, as read from its file.
    pub fn from_header(path: String, e_type: u16, class: u8) -> (r: Binary)
        ensures
            r.spec_path() == path@,
            r.spec_e_type() == e_type,
            r.spec_class() == class,
    {
        Binary { path, e_type, class }
    }

    /// Reads the ELF header from the contents of the file at `path`.
    pub fn new(path: String, contents: &[u8]) -> (r: SolverResult<Binary>)
        ensures
            r is Ok <==> elf_header_of(contents@) is Some,
            r is Ok ==> r->Ok_0.spec_path() == path@ && r->Ok_0.spec_e_type() == elf_header_of(
                contents@,
            )->Some_0.0 && r->Ok_0.spec_class() == elf_header_of(contents@)->Some_0.1,
            r is Err ==> r->Err_0.spec_kind() == Runner::IoError,
    {
        match parse_elf_header(contents) {
            Some(h) => Ok(Binary { path, e_type: h.0, class: h.1 }),
            None => Err(SolverError::new(Runner::IoError, "Could not parse the ELF file")),
        }
    }

    /// Path of the binary.
    pub fn path(&self) -> (r: &str)
        ensures
            r@ == self.spec_path(),
    {
        self.path.as_str()
    }

    /// Whether the binary is a position-independent executable.
    pub fn is_pie(&self) -> (r: SolverResult<bool>)
        ensures
            self.spec_e_type() == ET_DYN ==> r == Ok::<bool, SolverError>(true),
            self.spec_e_type() == ET_EXEC ==> r == Ok::<bool, SolverError>(false),
            self.spec_e_type() != ET_DYN && self.spec_e_type() != ET_EXEC ==> r is Err
                && r->Err_0.spec_kind() == Runner::ArgError,
    {
        if self.e_type == ET_DYN {
            Ok(true)
        } else if self.e_type == ET_EXEC {
            Ok(false)
        } else {
            Err(SolverError::new(Runner::ArgError, "`e_type` is not `ET_DYN` or `ET_EXEC`"))
        }
    }

    /// Whether the binary is 32-bit.
    pub fn is_32bit(&self) -> (r: bool)
        ensures
            r == (self.spec_class() == ELFCLASS32),
    {
        self.class == ELFCLASS32
    }
}

} // verus!
