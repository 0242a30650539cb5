use vstd::prelude::*;
use crate::errors::{Runner, SolverError, SolverResult};
use crate::input::{MemInput, MemInputView};
use vstd::string::StringSliceAdditionalSpecFns;

verus! {

/// `s` cut at every `c`, as `str::split` does: one more piece than there are `c`s.
pub open spec fn split(s: Seq<u8>, c: u8) -> Seq<Seq<u8>>
    decreases s.len(),
{
    if s.len() == 0 {
        seq![Seq::<u8>::empty()]
    } else {
        let rest = split(s.drop_last(), c);
        if s.last() == c {
            rest.push(Seq::<u8>::empty())
        } else {
            rest.update(rest.len() - 1, rest.last().push(s.last()))
        }
    }
}

/// Value of a hexadecimal digit, either case; -1 for any other byte.
pub open spec fn hex_val(b: u8) -> int {
    if 0x30 <= b <= 0x39 {
        b - 0x30
    } else if 0x61 <= b <= 0x66 {
        b - 0x61 + 10
    } else if 0x41 <= b <= 0x46 {
        b - 0x41 + 10
    } else {
        -1
    }
}

pub open spec fn all_hex(s: Seq<u8>) -> bool {
    forall|i: int| 0 <= i < s.len() ==> hex_val(#[trigger] s[i]) >= 0
}

/// Value of a string of hexadecimal digits.
pub open spec fn hex_value(s: Seq<u8>) -> int
    decreases s.len(),
{
    if s.len() == 0 {
        0
    } else {
        hex_value(s.drop_last()) * 16 + hex_val(s.last())
    }
}

/// Hexadecimal number as `usize::from_str_radix(_, 16)` reads it: an optional
/// `+`, then one or more digits, within the range of `usize`.
pub open spec fn parse_hex_number(s: Seq<u8>) -> Option<usize> {
    let digits = if s.len() > 0 && s[0] == 0x2b {
        s.drop_first()
    } else {
        s
    };
    if digits.len() > 0 && all_hex(digits) && hex_value(digits) <= usize::MAX {
        Some(hex_value(digits) as usize)
    } else {
        None
    }
}

/// Bytes that a string of digit pairs encodes; defined where `hex_decodable` holds.
pub open spec fn hex_decode(s: Seq<u8>) -> Seq<u8> {
    Seq::new(s.len() / 2, |i: int| (hex_val(s[2 * i]) * 16 + hex_val(s[2 * i + 1])) as u8)
}

pub open spec fn hex_decodable(s: Seq<u8>) -> bool {
    s.len() % 2 == 0 && all_hex(s)
}

/// Lowercase hexadecimal digit for `d < 16`.
pub open spec fn hex_digit(d: int) -> u8 {
    if d < 10 {
        (0x30 + d) as u8
    } else {
        (0x61 + d - 10) as u8
    }
}

/// Two lowercase digits for each byte.
pub open spec fn hex_encode(b: Seq<u8>) -> Seq<u8> {
    Seq::new(
        2 * b.len(),
        |i: int|
            if i % 2 == 0 {
                hex_digit(b[i / 2] as int / 16)
            } else {
                hex_digit(b[i / 2] as int % 16)
            },
    )
}

/// Value of the last `key=value` field with this key.
pub open spec fn lookup(pairs: Seq<(Seq<u8>, Seq<u8>)>, key: Seq<u8>) -> Option<Seq<u8>>
    decreases pairs.len(),
{
    if pairs.len() == 0 {
        None
    } else if pairs.last().0 == key {
        Some(pairs.last().1)
    } else {
        lookup(pairs.drop_last(), key)
    }
}

pub open spec fn key_addr() -> Seq<u8> {
    seq![0x61u8, 0x64, 0x64, 0x72]
}

pub open spec fn key_size() -> Seq<u8> {
    seq![0x73u8, 0x69, 0x7a, 0x65]
}

pub open spec fn key_init() -> Seq<u8> {
    seq![0x69u8, 0x6e, 0x69, 0x74]
}

pub open spec fn key_breakpoint() -> Seq<u8> {
    seq![0x62u8, 0x72, 0x65, 0x61, 0x6b, 0x70, 0x6f, 0x69, 0x6e, 0x74]
}

/// Every comma-separated field is exactly one `key=value`.
pub open spec fn well_formed_fields(s: Seq<u8>) -> bool {
    forall|i: int| 0 <= i < split(s, 0x2c).len() ==> #[trigger] split(split(s, 0x2c)[i], 0x3d).len() == 2
}

/// The `(key, value)` pairs of a well-formed argument, in order.
pub open spec fn fields(s: Seq<u8>) -> Seq<(Seq<u8>, Seq<u8>)> {
    split(s, 0x2c).map_values(|f: Seq<u8>| (split(f, 0x3d)[0], split(f, 0x3d)[1]))
}

/// The memory region that `addr=HEX,size=HEX,init=HEX[,breakpoint=HEX]`
/// describes, or `None` where the argument is rejected. Fields may come in any
/// order; of a repeated key the last one counts; unknown keys are ignored.
/// A breakpoint is accepted only on an x86 host.
pub open spec fn parse_mem_arg(s: Seq<u8>, x86: bool) -> Option<MemInputView> {
    if !well_formed_fields(s) {
        None
    } else {
        let pairs = fields(s);
        let init = match lookup(pairs, key_init()) {
            Some(v) => v,
            None => Seq::<u8>::empty(),
        };
        let addr = lookup(pairs, key_addr());
        let size = lookup(pairs, key_size());
        let bp = lookup(pairs, key_breakpoint());
        if !hex_decodable(init) {
            None
        } else if addr is None || parse_hex_number(addr->Some_0) is None {
            None
        } else if size is None || parse_hex_number(size->Some_0) is None {
            None
        } else if hex_decode(init).len() > parse_hex_number(size->Some_0)->Some_0 {
            None
        } else if bp is Some && parse_hex_number(bp->Some_0) is None {
            None
        } else if bp is Some && !x86 {
            None
        } else {
            Some(
                MemInputView {
                    size: parse_hex_number(size->Some_0)->Some_0,
                    addr: parse_hex_number(addr->Some_0)->Some_0,
                    bytes: hex_decode(init),
                    breakpoint: match bp {
                        Some(b) => parse_hex_number(b),
                        None => None,
                    },
                },
            )
        }
    }
}

/// Relies on `hex::decode`: it accepts an even number of hexadecimal digits of
/// either case, and gives the byte of each pair.
#[verifier::external_body]
fn decode_hex(text: &[u8]) -> (r: Option<Vec<u8>>)
    ensures
        r is Some <==> hex_decodable(text@),
        r is Some ==> r->Some_0@ == hex_decode(text@),
{
    hex::decode(text).ok()
}

/// Relies on `hex::encode`: two lowercase digits for each byte.
#[verifier::external_body]
fn encode_hex(bytes: &[u8]) -> (r: Vec<u8>)
    ensures
        r@ == hex_encode(bytes@),
{
    hex::encode(bytes).into_bytes()
}

/// Cuts `s` at every `c`.
pub fn split_bytes(s: &[u8], c: u8) -> (r: Vec<Vec<u8>>)
    ensures
        r@.map_values(|x: Vec<u8>| x@) == split(s@, c),
{
    let mut done: Vec<Vec<u8>> = Vec::new();
    let mut cur: Vec<u8> = Vec::new();
    let mut i: usize = 0;
    while i < s.len()
        invariant
            i <= s@.len(),
            done@.map_values(|x: Vec<u8>| x@).push(cur@) == split(s@.subrange(0, i as int), c),
        decreases s@.len() - i,
    {
        proof {
            assert(s@.subrange(0, i + 1).drop_last() =~= s@.subrange(0, i as int));
        }
        let ghost before = done@.map_values(|x: Vec<u8>| x@).push(cur@);
        if s[i] == c {
            let piece = cur;
            done.push(piece);
            cur = Vec::new();
            assert(done@.map_values(|x: Vec<u8>| x@).push(cur@) =~= before.push(Seq::<u8>::empty()));
        } else {
            cur.push(s[i]);
            assert(done@.map_values(|x: Vec<u8>| x@).push(cur@) =~= before.update(
                before.len() - 1,
                before.last().push(s[i as int]),
            ));
        }
        i = i + 1;
    }
    assert(s@.subrange(0, s@.len() as int) =~= s@);
    done.push(cur);
    done
}

fn bytes_eq(a: &[u8], b: &[u8]) -> (r: bool)
    ensures
        r == (a@ == b@),
{
    if a.len() != b.len() {
        return false;
    }
    let mut i: usize = 0;
    while i < a.len()
        invariant
            a@.len() == b@.len(),
            i <= a@.len(),
            a@.subrange(0, i as int) == b@.subrange(0, i as int),
        decreases a@.len() - i,
    {
        if a[i] != b[i] {
            return false;
        }
        assert(a@.subrange(0, i + 1) =~= a@.subrange(0, i as int).push(a@[i as int]));
        assert(b@.subrange(0, i + 1) =~= b@.subrange(0, i as int).push(b@[i as int]));
        i = i + 1;
    }
    assert(a@ =~= a@.subrange(0, i as int));
    assert(b@ =~= b@.subrange(0, i as int));
    true
}

fn hex_digit_value(b: u8) -> (r: Option<u8>)
    ensures
        hex_val(b) >= 0 ==> r == Some(hex_val(b) as u8),
        hex_val(b) < 0 ==> r is None,
{
    if 0x30 <= b && b <= 0x39 {
        Some(b - 0x30)
    } else if 0x61 <= b && b <= 0x66 {
        Some(b - 0x61 + 10)
    } else if 0x41 <= b && b <= 0x46 {
        Some(b - 0x41 + 10)
    } else {
        None
    }
}

/// Reads a hexadecimal number as `usize::from_str_radix(_, 16)` does.
pub fn parse_hex_usize(s: &[u8]) -> (r: Option<usize>)
    ensures
        r == parse_hex_number(s@),
{
    let start: usize = if s.len() > 0 && s[0] == 0x2b {
        1
    } else {
        0
    };
    let ghost digits = if s@.len() > 0 && s@[0] == 0x2b {
        s@.drop_first()
    } else {
        s@
    };
    assert(digits =~= s@.subrange(start as int, s@.len() as int));
    if start >= s.len() {
        return None;
    }
    let mut v: usize = 0;
    let mut i: usize = start;
    while i < s.len()
        invariant
            start <= i <= s@.len(),
            digits == s@.subrange(start as int, s@.len() as int),
            digits.len() > 0,
            parse_hex_number(s@) == (if all_hex(digits) && hex_value(digits) <= usize::MAX {
                Some(hex_value(digits) as usize)
            } else {
                None
            }),
            all_hex(s@.subrange(start as int, i as int)),
            v == hex_value(s@.subrange(start as int, i as int)),
        decreases s@.len() - i,
    {
        let ghost prefix = s@.subrange(start as int, i as int);
        assert(s@.subrange(start as int, i + 1).drop_last() =~= prefix);
        let d = match hex_digit_value(s[i]) {
            Some(d) => d,
            None => {
                proof {
                    assert(digits[i - start] == s@[i as int]);
                    assert(hex_val(digits[i - start]) < 0);
                    assert(!all_hex(digits));
                }
                return None;
            },
        };
        if v > (usize::MAX - d as usize) / 16 {
            proof {
                lemma_hex_value_grows(digits, i - start + 1);
                assert(digits.subrange(0, i - start + 1) =~= s@.subrange(start as int, i + 1));
                assert(s@.subrange(start as int, i + 1).last() == s@[i as int]);
                assert(hex_value(s@.subrange(start as int, i + 1)) == v * 16 + d);
                assert(v * 16 + d > usize::MAX) by (nonlinear_arith)
                    requires
                        v > (usize::MAX - d) / 16,
                        0 <= d < 16,
                ;
                if all_hex(digits) {
                    assert(hex_value(digits) > usize::MAX);
                }
            }
            return None;
        }
        v = v * 16 + d as usize;
        i = i + 1;
        proof {
            assert forall|j: int| 0 <= j < s@.subrange(start as int, i as int).len() implies hex_val(
                #[trigger] s@.subrange(start as int, i as int)[j],
            ) >= 0 by {
                if j < prefix.len() {
                    assert(prefix[j] == s@.subrange(start as int, i as int)[j]);
                }
            }
        }
    }
    assert(s@.subrange(start as int, i as int) =~= digits);
    Some(v)
}

/// Once all digits are valid, the value of a longer prefix is at least that of
/// a shorter one.
proof fn lemma_hex_value_grows(s: Seq<u8>, k: int)
    requires
        0 <= k <= s.len(),
    ensures
        all_hex(s) ==> hex_value(s) >= hex_value(s.subrange(0, k)),
    decreases s.len(),
{
    if all_hex(s) && k < s.len() {
        assert(all_hex(s.drop_last()));
        lemma_hex_value_grows(s.drop_last(), k);
        assert(s.drop_last().subrange(0, k) =~= s.subrange(0, k));
        lemma_hex_value_nonneg(s.drop_last());
    } else if k == s.len() {
        assert(s.subrange(0, k) =~= s);
    }
}

proof fn lemma_hex_value_nonneg(s: Seq<u8>)
    requires
        all_hex(s),
    ensures
        hex_value(s) >= 0,
    decreases s.len(),
{
    if s.len() > 0 {
        assert(all_hex(s.drop_last()));
        lemma_hex_value_nonneg(s.drop_last());
    }
}


pub open spec fn pairs_view(p: Seq<(Vec<u8>, Vec<u8>)>) -> Seq<(Seq<u8>, Seq<u8>)> {
    p.map_values(|x: (Vec<u8>, Vec<u8>)| (x.0@, x.1@))
}

/// Position of the last pair with this key.
fn find_field(pairs: &Vec<(Vec<u8>, Vec<u8>)>, key: &[u8]) -> (r: Option<usize>)
    ensures
        r is None <==> lookup(pairs_view(pairs@), key@) is None,
        r is Some ==> r->Some_0 < pairs@.len() && lookup(pairs_view(pairs@), key@) == Some(
            pairs@[r->Some_0 as int].1@,
        ),
{
    let mut found: Option<usize> = None;
    let mut i: usize = 0;
    while i < pairs.len()
        invariant
            i <= pairs@.len(),
            found is None <==> lookup(pairs_view(pairs@.subrange(0, i as int)), key@) is None,
            found is Some ==> found->Some_0 < i && lookup(
                pairs_view(pairs@.subrange(0, i as int)),
                key@,
            ) == Some(pairs@[found->Some_0 as int].1@),
        decreases pairs@.len() - i,
    {
        proof {
            assert(pairs_view(pairs@.subrange(0, i + 1)).drop_last() =~= pairs_view(
                pairs@.subrange(0, i as int),
            ));
        }
        if bytes_eq(pairs[i].0.as_slice(), key) {
            found = Some(i);
        }
        i = i + 1;
    }
    assert(pairs@.subrange(0, pairs@.len() as int) =~= pairs@);
    found
}

fn arg_error(message: &str) -> (r: SolverError)
    ensures
        r.spec_kind() == Runner::ArgError,
{
    SolverError::new(Runner::ArgError, message)
}

impl MemInput {
    /// Parses `addr=HEX,size=HEX,init=HEX[,breakpoint=HEX]`; `x86` tells
    /// whether the host can take breakpoints.
    pub fn parse_from_arg(arg: &str, x86: bool) -> (r: SolverResult<MemInput>)
        ensures
            r is Ok <==> parse_mem_arg(arg.spec_bytes(), x86) is Some,
            r is Ok ==> r->Ok_0@ == parse_mem_arg(arg.spec_bytes(), x86)->Some_0,
            r is Err ==> r->Err_0.spec_kind() == Runner::ArgError,
    {
        let s = arg.as_bytes();
        assert(s@ == arg.spec_bytes());
        let parts = split_bytes(s, 0x2c);
        let ghost sp = split(s@, 0x2c);
        let mut pairs: Vec<(Vec<u8>, Vec<u8>)> = Vec::new();
        let mut i: usize = 0;
        while i < parts.len()
            invariant
                s@ == arg.spec_bytes(),
                sp == split(s@, 0x2c),
                parts@.map_values(|x: Vec<u8>| x@) == sp,
                i <= parts@.len(),
                forall|j: int| 0 <= j < i ==> #[trigger] split(sp[j], 0x3d).len() == 2,
                pairs_view(pairs@) == sp.subrange(0, i as int).map_values(
                    |f: Seq<u8>| (split(f, 0x3d)[0], split(f, 0x3d)[1]),
                ),
            decreases parts@.len() - i,
        {
            let kv = split_bytes(parts[i].as_slice(), 0x3d);
            assert(parts@.map_values(|x: Vec<u8>| x@)[i as int] == parts@[i as int]@);
            assert(parts@[i as int]@ == sp[i as int]);
            assert(kv@.map_values(|x: Vec<u8>| x@).len() == kv@.len());
            if kv.len() != 2 {
                proof {
                    assert(split(sp[i as int], 0x3d).len() != 2);
                    assert(split(split(s@, 0x2c)[i as int], 0x3d).len() != 2);
                    assert(!well_formed_fields(s@));
                    assert(parse_mem_arg(s@, x86) is None);
                }
                return Err(arg_error("Invalid memory input usage"));
            }
            let k = crate::input::copy_bytes(&kv[0]);
            let v = crate::input::copy_bytes(&kv[1]);
            proof {
                assert(kv@.map_values(|x: Vec<u8>| x@)[0] == kv@[0]@);
                assert(kv@.map_values(|x: Vec<u8>| x@)[1] == kv@[1]@);
            }
            let ghost prev = pairs_view(pairs@);
            let ghost f = sp[i as int];
            assert(k@ == split(f, 0x3d)[0]);
            assert(v@ == split(f, 0x3d)[1]);
            pairs.push((k, v));
            proof {
                assert(pairs_view(pairs@) =~= prev.push((split(f, 0x3d)[0], split(f, 0x3d)[1])));
                assert(sp.subrange(0, i + 1) =~= sp.subrange(0, i as int).push(f));
                assert(sp.subrange(0, i + 1).map_values(
                    |f: Seq<u8>| (split(f, 0x3d)[0], split(f, 0x3d)[1]),
                ) =~= sp.subrange(0, i as int).map_values(
                    |f: Seq<u8>| (split(f, 0x3d)[0], split(f, 0x3d)[1]),
                ).push((split(f, 0x3d)[0], split(f, 0x3d)[1])));
            }
            i = i + 1;
        }
        proof {
            assert(sp.subrange(0, i as int) =~= sp);
            assert(well_formed_fields(s@));
            assert(pairs_view(pairs@) =~= fields(s@));
        }
        let init_key: Vec<u8> = vec![0x69, 0x6e, 0x69, 0x74];
        let addr_key: Vec<u8> = vec![0x61, 0x64, 0x64, 0x72];
        let size_key: Vec<u8> = vec![0x73, 0x69, 0x7a, 0x65];
        let bp_key: Vec<u8> = vec![0x62, 0x72, 0x65, 0x61, 0x6b, 0x70, 0x6f, 0x69, 0x6e, 0x74];
        assert(init_key@ =~= key_init());
        assert(addr_key@ =~= key_addr());
        assert(size_key@ =~= key_size());
        assert(bp_key@ =~= key_breakpoint());
        let empty: Vec<u8> = Vec::new();
        let init: &Vec<u8> = match find_field(&pairs, init_key.as_slice()) {
            Some(k) => &pairs[k].1,
            None => &empty,
        };
        assert(init@ == (match lookup(fields(s@), key_init()) {
            Some(v) => v,
            None => Seq::<u8>::empty(),
        }));
        let bytes = match decode_hex(init.as_slice()) {
            Some(b) => b,
            None => {
                return Err(arg_error("Invalid initial memory input"));
            },
        };
        let addr = match find_field(&pairs, addr_key.as_slice()) {
            Some(k) => match parse_hex_usize(pairs[k].1.as_slice()) {
                Some(a) => a,
                None => {
                    return Err(arg_error("Invalid memory input address"));
                },
            },
            None => {
                return Err(arg_error("Memory input has no address"));
            },
        };
        let size = match find_field(&pairs, size_key.as_slice()) {
            Some(k) => match parse_hex_usize(pairs[k].1.as_slice()) {
                Some(a) => a,
                None => {
                    return Err(arg_error("Invalid memory input size"));
                },
            },
            None => {
                return Err(arg_error("Memory input has no size"));
            },
        };
        if bytes.len() > size {
            return Err(arg_error("Initial memory input is longer than the region"));
        }
        let breakpoint = match find_field(&pairs, bp_key.as_slice()) {
            Some(k) => match parse_hex_usize(pairs[k].1.as_slice()) {
                Some(a) => Some(a),
                None => {
                    return Err(arg_error("Invalid memory input breakpoint address"));
                },
            },
            None => None,
        };
        if breakpoint.is_some() && !x86 {
            return Err(arg_error("Breakpoints only work on x86"));
        }
        Ok(MemInput { size, addr, bytes, breakpoint })
    }
}


/// Lowercase hexadecimal digits of `n`, without leading zeros.
pub open spec fn hex_of(n: nat) -> Seq<u8>
    decreases n,
{
    if n < 16 {
        seq![hex_digit(n as int)]
    } else {
        hex_of(n / 16).push(hex_digit((n % 16) as int))
    }
}

/// The pieces of `fs` joined with `c` between them.
pub open spec fn join(fs: Seq<Seq<u8>>, c: u8) -> Seq<u8>
    decreases fs.len(),
{
    if fs.len() == 0 {
        Seq::empty()
    } else if fs.len() == 1 {
        fs[0]
    } else {
        join(fs.drop_last(), c).push(c) + fs.last()
    }
}

/// `key=value`.
pub open spec fn field(key: Seq<u8>, value: Seq<u8>) -> Seq<u8> {
    join(seq![key, value], 0x3d)
}

/// The fields that describe a region.
pub open spec fn mem_fields(m: MemInputView) -> Seq<Seq<u8>> {
    let base = seq![
        field(key_addr(), hex_of(m.addr as nat)),
        field(key_size(), hex_of(m.size as nat)),
        field(key_init(), hex_encode(m.bytes)),
    ];
    match m.breakpoint {
        Some(b) => base.push(field(key_breakpoint(), hex_of(b as nat))),
        None => base,
    }
}

/// `addr=HEX,size=HEX,init=HEX`, then `,breakpoint=HEX` where there is one.
pub open spec fn format_mem_arg(m: MemInputView) -> Seq<u8> {
    join(mem_fields(m), 0x2c)
}

pub open spec fn free_of(s: Seq<u8>, c: u8) -> bool {
    forall|i: int| 0 <= i < s.len() ==> #[trigger] s[i] != c
}

proof fn lemma_split_nonempty(s: Seq<u8>, c: u8)
    ensures
        split(s, c).len() >= 1,
    decreases s.len(),
{
    if s.len() > 0 {
        lemma_split_nonempty(s.drop_last(), c);
    }
}

/// Appending bytes other than `c` extends the last piece.
proof fn lemma_split_append(a: Seq<u8>, b: Seq<u8>, c: u8)
    requires
        free_of(b, c),
    ensures
        split(a + b, c) == split(a, c).update(
            split(a, c).len() - 1,
            split(a, c).last() + b,
        ),
    decreases b.len(),
{
    lemma_split_nonempty(a, c);
    if b.len() == 0 {
        assert(a + b =~= a);
        assert(split(a, c).last() + b =~= split(a, c).last());
        assert(split(a, c).update(split(a, c).len() - 1, split(a, c).last()) =~= split(a, c));
    } else {
        let b1 = b.drop_last();
        assert(free_of(b1, c));
        lemma_split_append(a, b1, c);
        assert((a + b).drop_last() =~= a + b1);
        assert((a + b).last() == b.last());
        assert(b[b.len() - 1] != c);
        let rest = split(a + b1, c);
        assert(rest.len() == split(a, c).len());
        assert(rest.last() == split(a, c).last() + b1);
        assert((split(a, c).last() + b1).push(b.last()) =~= split(a, c).last() + b);
        assert(split(a + b, c) =~= split(a, c).update(
            split(a, c).len() - 1,
            split(a, c).last() + b,
        ));
    }
}

/// Cutting pieces joined with `c` gives the pieces back, when none holds `c`.
proof fn lemma_split_join(fs: Seq<Seq<u8>>, c: u8)
    requires
        fs.len() >= 1,
        forall|i: int| 0 <= i < fs.len() ==> free_of(#[trigger] fs[i], c),
    ensures
        split(join(fs, c), c) == fs,
    decreases fs.len(),
{
    if fs.len() == 1 {
        lemma_split_append(Seq::empty(), fs[0], c);
        assert(Seq::<u8>::empty() + fs[0] =~= fs[0]);
        assert(split(Seq::<u8>::empty(), c).last() + fs[0] =~= fs[0]);
        assert(split(fs[0], c) =~= fs);
    } else {
        let rest = fs.drop_last();
        assert forall|i: int| 0 <= i < rest.len() implies free_of(#[trigger] rest[i], c) by {
            assert(rest[i] == fs[i]);
        }
        lemma_split_join(rest, c);
        let j = join(rest, c);
        assert(j.push(c).drop_last() =~= j);
        lemma_split_append(j.push(c), fs.last(), c);
        assert(fs.len() - 1 < fs.len());
        assert(free_of(fs[fs.len() - 1], c));
        assert(Seq::<u8>::empty() + fs.last() =~= fs.last());
        assert(split(join(fs, c), c) =~= fs);
    }
}

proof fn lemma_hex_digit(d: int)
    requires
        0 <= d < 16,
    ensures
        hex_val(hex_digit(d)) == d,
        hex_digit(d) != 0x2c,
        hex_digit(d) != 0x3d,
        hex_digit(d) != 0x2b,
{
}

proof fn lemma_hex_of(n: nat)
    ensures
        hex_of(n).len() > 0,
        all_hex(hex_of(n)),
        hex_value(hex_of(n)) == n,
        free_of(hex_of(n), 0x2c),
        free_of(hex_of(n), 0x3d),
        hex_of(n)[0] != 0x2b,
    decreases n,
{
    if n < 16 {
        lemma_hex_digit(n as int);
        assert(hex_of(n).drop_last() =~= Seq::<u8>::empty());
        assert(hex_of(n).last() == hex_digit(n as int));
        assert(hex_value(Seq::<u8>::empty()) == 0);
        assert(hex_value(hex_of(n)) == 0 * 16 + hex_val(hex_digit(n as int)));
    } else {
        lemma_hex_of(n / 16);
        lemma_hex_digit((n % 16) as int);
        let s = hex_of(n);
        assert(s.drop_last() =~= hex_of(n / 16));
        assert((n / 16) * 16 + n % 16 == n) by (nonlinear_arith);
        let q = n / 16;
        assert(hex_value(hex_of(q)) == q);
        assert(s.last() == hex_digit((n % 16) as int));
        assert(hex_val(s.last()) == n % 16);
        assert(hex_value(s) == hex_value(hex_of(q)) * 16 + hex_val(s.last()));
        assert(hex_value(s) == q * 16 + n % 16);
        assert forall|i: int| 0 <= i < s.len() implies hex_val(#[trigger] s[i]) >= 0 by {
            if i < s.len() - 1 {
                assert(s[i] == hex_of(n / 16)[i]);
            }
        }
        assert forall|i: int| 0 <= i < s.len() implies #[trigger] s[i] != 0x2c && s[i] != 0x3d by {
            if i < s.len() - 1 {
                assert(s[i] == hex_of(n / 16)[i]);
            }
        }
    }
}

proof fn lemma_parse_hex_of(n: usize)
    ensures
        parse_hex_number(hex_of(n as nat)) == Some(n),
{
    lemma_hex_of(n as nat);
}

proof fn lemma_hex_round_trip(b: Seq<u8>)
    ensures
        hex_decodable(hex_encode(b)),
        hex_decode(hex_encode(b)) == b,
        free_of(hex_encode(b), 0x2c),
        free_of(hex_encode(b), 0x3d),
{
    let e = hex_encode(b);
    assert forall|i: int| 0 <= i < e.len() implies hex_val(#[trigger] e[i]) >= 0 && e[i] != 0x2c
        && e[i] != 0x3d by {
        lemma_hex_digit(b[i / 2] as int / 16);
        lemma_hex_digit(b[i / 2] as int % 16);
    }
    assert((2 * b.len()) % 2 == 0);
    assert forall|i: int| 0 <= i < b.len() implies #[trigger] hex_decode(e)[i] == b[i] by {
        let x = b[i] as int;
        lemma_hex_digit(x / 16);
        lemma_hex_digit(x % 16);
        assert((2 * i) / 2 == i);
        assert((2 * i + 1) / 2 == i);
        assert((2 * i) % 2 == 0);
        assert((2 * i + 1) % 2 == 1);
        assert(x / 16 * 16 + x % 16 == x);
    }
    assert(hex_decode(e) =~= b);
}



proof fn lemma_join1(a: Seq<u8>, c: u8)
    ensures
        join(seq![a], c) == a,
{
    assert(seq![a][0] == a);
}

proof fn lemma_join2(a: Seq<u8>, b: Seq<u8>, c: u8)
    ensures
        join(seq![a, b], c) == a.push(c) + b,
{
    lemma_join1(a, c);
    assert(seq![a, b].drop_last() =~= seq![a]);
}

proof fn lemma_join3(a: Seq<u8>, b: Seq<u8>, d: Seq<u8>, c: u8)
    ensures
        join(seq![a, b, d], c) == (a.push(c) + b).push(c) + d,
{
    lemma_join2(a, b, c);
    assert(seq![a, b, d].drop_last() =~= seq![a, b]);
}

proof fn lemma_join4(a: Seq<u8>, b: Seq<u8>, d: Seq<u8>, e: Seq<u8>, c: u8)
    ensures
        join(seq![a, b, d, e], c) == ((a.push(c) + b).push(c) + d).push(c) + e,
{
    lemma_join3(a, b, d, c);
    assert(seq![a, b, d, e].drop_last() =~= seq![a, b, d]);
}

proof fn lemma_lookup_step(pairs: Seq<(Seq<u8>, Seq<u8>)>, key: Seq<u8>)
    requires
        pairs.len() > 0,
    ensures
        pairs.last().0 == key ==> lookup(pairs, key) == Some(pairs.last().1),
        pairs.last().0 != key ==> lookup(pairs, key) == lookup(pairs.drop_last(), key),
{
}

/// The values of the fields of `m`, looked up by key.
proof fn lemma_lookups(m: MemInputView)
    ensures
        lookup(fields_of(m), key_addr()) == Some(hex_of(m.addr as nat)),
        lookup(fields_of(m), key_size()) == Some(hex_of(m.size as nat)),
        lookup(fields_of(m), key_init()) == Some(hex_encode(m.bytes)),
        lookup(fields_of(m), key_breakpoint()) == (match m.breakpoint {
            Some(b) => Some(hex_of(b as nat)),
            None => None,
        }),
{
    lemma_keys();
    let with_addr = seq![(key_addr(), hex_of(m.addr as nat))];
    let with_size = with_addr.push((key_size(), hex_of(m.size as nat)));
    let with_init = with_size.push((key_init(), hex_encode(m.bytes)));
    assert(with_addr.drop_last() =~= Seq::<(Seq<u8>, Seq<u8>)>::empty());
    assert(with_size.drop_last() =~= with_addr);
    assert(with_init.drop_last() =~= with_size);
    let ks = seq![key_addr(), key_size(), key_init(), key_breakpoint()];
    assert forall|i: int| 0 <= i < 4 implies {
        &&& lookup(with_addr, #[trigger] ks[i]) == (if i == 0 {
            Some(hex_of(m.addr as nat))
        } else {
            None
        })
        &&& lookup(with_size, ks[i]) == (if i == 0 {
            Some(hex_of(m.addr as nat))
        } else if i == 1 {
            Some(hex_of(m.size as nat))
        } else {
            None
        })
        &&& lookup(with_init, ks[i]) == (if i == 0 {
            Some(hex_of(m.addr as nat))
        } else if i == 1 {
            Some(hex_of(m.size as nat))
        } else if i == 2 {
            Some(hex_encode(m.bytes))
        } else {
            None
        })
    } by {
        lemma_lookup_step(with_addr, ks[i]);
        lemma_lookup_step(with_size, ks[i]);
        lemma_lookup_step(with_init, ks[i]);
    }
    assert(ks[0] == key_addr() && ks[1] == key_size() && ks[2] == key_init() && ks[3]
        == key_breakpoint());
    match m.breakpoint {
        Some(b) => {
            let with_bp = with_init.push((key_breakpoint(), hex_of(b as nat)));
            assert(with_bp.drop_last() =~= with_init);
            assert(fields_of(m) =~= with_bp);
            lemma_lookup_step(with_bp, key_addr());
            lemma_lookup_step(with_bp, key_size());
            lemma_lookup_step(with_bp, key_init());
            lemma_lookup_step(with_bp, key_breakpoint());
        },
        None => {
            assert(fields_of(m) =~= with_init);
        },
    }
}

/// The `(key, value)` pairs that `format_mem_arg` writes.
pub open spec fn fields_of(m: MemInputView) -> Seq<(Seq<u8>, Seq<u8>)> {
    let base = seq![
        (key_addr(), hex_of(m.addr as nat)),
        (key_size(), hex_of(m.size as nat)),
        (key_init(), hex_encode(m.bytes)),
    ];
    match m.breakpoint {
        Some(b) => base.push((key_breakpoint(), hex_of(b as nat))),
        None => base,
    }
}

proof fn lemma_keys()
    ensures
        free_of(key_addr(), 0x2c) && free_of(key_addr(), 0x3d),
        free_of(key_size(), 0x2c) && free_of(key_size(), 0x3d),
        free_of(key_init(), 0x2c) && free_of(key_init(), 0x3d),
        free_of(key_breakpoint(), 0x2c) && free_of(key_breakpoint(), 0x3d),
        key_addr() != key_size() && key_addr() != key_init() && key_addr() != key_breakpoint(),
        key_size() != key_init() && key_size() != key_breakpoint(),
        key_init() != key_breakpoint(),
{
    assert(key_addr()[0] != key_size()[0]);
    assert(key_addr()[0] != key_init()[0]);
    assert(key_size()[0] != key_init()[0]);
    assert(key_breakpoint().len() != key_addr().len());
    assert(key_breakpoint().len() != key_size().len());
    assert(key_breakpoint().len() != key_init().len());
}

/// A field holds no comma, and cuts at `=` into its key and value.
proof fn lemma_field(k: Seq<u8>, v: Seq<u8>)
    requires
        free_of(k, 0x2c) && free_of(k, 0x3d),
        free_of(v, 0x2c) && free_of(v, 0x3d),
    ensures
        free_of(field(k, v), 0x2c),
        split(field(k, v), 0x3d) == seq![k, v],
{
    let fs = seq![k, v];
    lemma_join2(k, v, 0x3d);
    let f = field(k, v);
    assert forall|i: int| 0 <= i < f.len() implies #[trigger] f[i] != 0x2c by {
        if i < k.len() {
            assert(f[i] == k[i]);
        } else if i > k.len() {
            assert(f[i] == v[i - k.len() - 1]);
        }
    }
    lemma_split_join(fs, 0x3d);
}

/// The argument cuts into the fields of `m`, each one into its key and value.
#[verifier::rlimit(40)]
proof fn lemma_format_fields(m: MemInputView)
    ensures
        well_formed_fields(format_mem_arg(m)),
        fields(format_mem_arg(m)) == fields_of(m),
{
    lemma_keys();
    lemma_hex_of(m.addr as nat);
    lemma_hex_of(m.size as nat);
    lemma_hex_round_trip(m.bytes);
    lemma_field(key_addr(), hex_of(m.addr as nat));
    lemma_field(key_size(), hex_of(m.size as nat));
    lemma_field(key_init(), hex_encode(m.bytes));
    if m.breakpoint is Some {
        lemma_hex_of(m.breakpoint->Some_0 as nat);
        lemma_field(key_breakpoint(), hex_of(m.breakpoint->Some_0 as nat));
    }
    let fs = mem_fields(m);
    let s = format_mem_arg(m);
    assert forall|i: int| 0 <= i < fs.len() implies free_of(#[trigger] fs[i], 0x2c) by {}
    lemma_split_join(fs, 0x2c);
    assert forall|i: int| 0 <= i < split(s, 0x2c).len() implies #[trigger] split(
        split(s, 0x2c)[i],
        0x3d,
    ).len() == 2 by {
        assert(split(s, 0x2c)[i] == fs[i]);
    }
    assert(fields(s) =~= fields_of(m));
}

/// Writing a region as an argument and parsing it back gives the region again
/// (for a region whose bytes fit its size, and where it has a breakpoint, on
/// an x86 host).
#[verifier::rlimit(40)]
pub proof fn lemma_mem_arg_round_trip(m: MemInputView, x86: bool)
    requires
        m.breakpoint is None || x86,
        m.bytes.len() <= m.size,
    ensures
        parse_mem_arg(format_mem_arg(m), x86) == Some(m),
{
    lemma_format_fields(m);
    lemma_lookups(m);
    lemma_hex_round_trip(m.bytes);
    lemma_parse_hex_of(m.addr);
    lemma_parse_hex_of(m.size);
    if m.breakpoint is Some {
        lemma_parse_hex_of(m.breakpoint->Some_0);
    }
}

fn push_hex(out: &mut Vec<u8>, n: usize)
    ensures
        final(out)@ == old(out)@ + hex_of(n as nat),
    decreases n,
{
    if n >= 16 {
        push_hex(out, n / 16);
    }
    let d: u8 = (n % 16) as u8;
    let c: u8 = if d < 10 {
        0x30 + d
    } else {
        0x61 + d - 10
    };
    out.push(c);
    assert(out@ =~= old(out)@ + hex_of(n as nat));
}

impl MemInput {
    /// The argument that describes this region:
    /// `addr=HEX,size=HEX,init=HEX`, then `,breakpoint=HEX` where there is one.
    pub fn to_arg(&self) -> (r: Vec<u8>)
        ensures
            r@ == format_mem_arg(self@),
    {
        let ghost m = self@;
        let mut out: Vec<u8> = vec![0x61, 0x64, 0x64, 0x72, 0x3d];
        assert(out@ =~= key_addr().push(0x3d));
        push_hex(&mut out, self.addr);
        let ghost f1 = out@;
        out.push(0x2c);
        let size_key: [u8; 5] = [0x73, 0x69, 0x7a, 0x65, 0x3d];
        assert(size_key@ =~= key_size().push(0x3d));
        crate::bytes::append_bytes(&mut out, &size_key);
        push_hex(&mut out, self.size);
        assert(out@ =~= f1.push(0x2c) + (key_size().push(0x3d) + hex_of(m.size as nat)));
        let ghost f12 = out@;
        out.push(0x2c);
        let init_key: [u8; 5] = [0x69, 0x6e, 0x69, 0x74, 0x3d];
        assert(init_key@ =~= key_init().push(0x3d));
        crate::bytes::append_bytes(&mut out, &init_key);
        let enc = encode_hex(self.bytes.as_slice());
        crate::bytes::append_bytes(&mut out, enc.as_slice());
        assert(out@ =~= f12.push(0x2c) + (key_init().push(0x3d) + hex_encode(m.bytes)));
        let ghost f123 = out@;
        match self.breakpoint {
            Some(b) => {
                out.push(0x2c);
                let bp_key: [u8; 11] = [0x62, 0x72, 0x65, 0x61, 0x6b, 0x70, 0x6f, 0x69, 0x6e, 0x74, 0x3d];
                assert(bp_key@ =~= key_breakpoint().push(0x3d));
                crate::bytes::append_bytes(&mut out, &bp_key);
                push_hex(&mut out, b);
                assert(out@ =~= f123.push(0x2c) + (key_breakpoint().push(0x3d) + hex_of(b as nat)));
            },
            None => {},
        }
        proof {
            let g1 = field(key_addr(), hex_of(m.addr as nat));
            let g2 = field(key_size(), hex_of(m.size as nat));
            let g3 = field(key_init(), hex_encode(m.bytes));
            lemma_join2(key_addr(), hex_of(m.addr as nat), 0x3d);
            lemma_join2(key_size(), hex_of(m.size as nat), 0x3d);
            lemma_join2(key_init(), hex_encode(m.bytes), 0x3d);
            assert(f1 == g1);
            assert(f12 == f1.push(0x2c) + g2);
            assert(f123 == f12.push(0x2c) + g3);
            match m.breakpoint {
                Some(b) => {
                    let g4 = field(key_breakpoint(), hex_of(b as nat));
                    lemma_join2(key_breakpoint(), hex_of(b as nat), 0x3d);
                    lemma_join4(g1, g2, g3, g4, 0x2c);
                    assert(mem_fields(m) =~= seq![g1, g2, g3, g4]);
                    assert(out@ == f123.push(0x2c) + g4);
                },
                None => {
                    lemma_join3(g1, g2, g3, 0x2c);
                    assert(mem_fields(m) =~= seq![g1, g2, g3]);
                    assert(out@ == f123);
                },
            }
        }
        assert(out@ =~= format_mem_arg(self@));
        out
    }
}

} // verus!
