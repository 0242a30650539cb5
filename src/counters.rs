use vstd::prelude::*;
use crate::errors::{Runner, SolverError, SolverResult};

verus! {

/// Counts retired instructions with a hardware performance counter.
#[derive(Debug, Clone, Copy)]
pub struct PerfSolver;

/// Counts instructions with an instrumentation driver and its counting plugin.
#[derive(Debug, Clone, Copy)]
pub struct DynamorioSolver;

impl PerfSolver {
    /// The instruction count from a read of the counter descriptor that
    /// returned `n_read` and filled `count`: only a full eight-byte read counts.
    pub fn counter_value(n_read: i64, count: i64) -> (r: SolverResult<i64>)
        ensures
            n_read == 8 ==> r == Ok::<i64, SolverError>(count),
            n_read != 8 ==> r is Err && r->Err_0.spec_kind() == Runner::IoError,
    {
        if n_read == 8 {
            Ok(count)
        } else if n_read >= 0 {
            Err(SolverError::new(Runner::IoError, "Perf read too few bytes"))
        } else {
            Err(SolverError::new(Runner::IoError, "Could not read from perf fd"))
        }
    }
}

/// The digits that the pattern `Instrumentation results: (\d+) instructions
/// executed` captures in `text`, at its first match.
pub uninterp spec fn inst_count_capture(text: Seq<char>) -> Option<Seq<char>>;

/// Relies on `regex::Regex::captures`: the first capture group of the first
/// match. It depends on the text alone.
#[verifier::external_body]
fn capture_inst_count(text: &str) -> (r: Option<Vec<char>>)
    ensures
        r is Some <==> inst_count_capture(text@) is Some,
        r is Some ==> r->Some_0@ == inst_count_capture(text@)->Some_0,
{
    let re = regex::Regex::new("Instrumentation results: (\\d+) instructions executed").ok()?;
    let caps = re.captures(text)?;
    Some(caps.get(1)?.as_str().chars().collect())
}

/// Value of a string of ASCII decimal digits.
pub open spec fn decimal_value(s: Seq<char>) -> int
    decreases s.len(),
{
    if s.len() == 0 {
        0
    } else {
        decimal_value(s.drop_last()) * 10 + (s.last() as int - '0' as int)
    }
}

pub open spec fn all_decimal(s: Seq<char>) -> bool {
    forall|i: int| 0 <= i < s.len() ==> '0' <= #[trigger] s[i] <= '9'
}

/// A count written in decimal: one or more ASCII digits whose value fits in `i64`.
pub open spec fn decimal_count(s: Seq<char>) -> Option<i64> {
    if s.len() > 0 && all_decimal(s) && decimal_value(s) <= i64::MAX {
        Some(decimal_value(s) as i64)
    } else {
        None
    }
}

proof fn lemma_decimal_prefix(s: Seq<char>, k: int)
    requires
        0 <= k <= s.len(),
        all_decimal(s),
    ensures
        0 <= decimal_value(s.subrange(0, k)) <= decimal_value(s),
    decreases s.len(),
{
    if k < s.len() {
        assert(all_decimal(s.drop_last()));
        lemma_decimal_prefix(s.drop_last(), k);
        assert(s.drop_last().subrange(0, k) =~= s.subrange(0, k));
    } else {
        assert(s.subrange(0, k) =~= s);
        if s.len() > 0 {
            assert(all_decimal(s.drop_last()));
            lemma_decimal_prefix(s.drop_last(), s.len() - 1);
            assert(s.drop_last().subrange(0, s.len() - 1) =~= s.drop_last());
        }
    }
}

impl DynamorioSolver {
    /// Reads the instruction count from the captured digits.
    pub fn count_from_digits(digits: &Vec<char>) -> (r: SolverResult<i64>)
        ensures
            r is Ok <==> decimal_count(digits@) is Some,
            r is Ok ==> r->Ok_0 == decimal_count(digits@)->Some_0,
            r is Err ==> r->Err_0.spec_kind() == Runner::IoError,
    {
        if digits.len() == 0 {
            return Err(SolverError::new(Runner::IoError, "Empty instruction count"));
        }
        let mut v: i64 = 0;
        let mut i: usize = 0;
        while i < digits.len()
            invariant
                i <= digits@.len(),
                digits@.len() > 0,
                all_decimal(digits@.subrange(0, i as int)),
                v == decimal_value(digits@.subrange(0, i as int)),
                v >= 0,
            decreases digits@.len() - i,
        {
            let c = digits[i];
            let ghost prefix = digits@.subrange(0, i as int);
            assert(digits@.subrange(0, i + 1).drop_last() =~= prefix);
            assert(digits@.subrange(0, i + 1).last() == c);
            if c < '0' || c > '9' {
                assert(!all_decimal(digits@));
                return Err(SolverError::new(Runner::IoError, "Instruction count is not a number"));
            }
            let d: i64 = (c as u32 - '0' as u32) as i64;
            if v > (i64::MAX - d) / 10 {
                proof {
                    assert(v * 10 + d > i64::MAX) by (nonlinear_arith)
                        requires
                            v > (i64::MAX - d) / 10,
                            0 <= d < 10,
                    ;
                    assert(decimal_value(digits@.subrange(0, i + 1)) == v * 10 + d);
                    if all_decimal(digits@) {
                        lemma_decimal_prefix(digits@, i + 1);
                    }
                }
                return Err(SolverError::new(Runner::IoError, "Instruction count is too large"));
            }
            assert(0 <= v * 10 + d <= i64::MAX) by (nonlinear_arith)
                requires
                    0 <= v <= (i64::MAX - d) / 10,
                    0 <= d < 10,
            ;
            v = v * 10 + d;
            i = i + 1;
            proof {
                assert forall|j: int| 0 <= j < digits@.subrange(0, i as int).len() implies '0'
                    <= #[trigger] digits@.subrange(0, i as int)[j] <= '9' by {
                    if j < prefix.len() {
                        assert(prefix[j] == digits@.subrange(0, i as int)[j]);
                    }
                }
            }
        }
        assert(digits@.subrange(0, i as int) =~= digits@);
        Ok(v)
    }

    /// Extracts the instruction count from the driver's output: the number in
    /// `Instrumentation results: N instructions executed`.
    pub fn parse_inst_count(stdout: &str) -> (r: SolverResult<i64>)
        ensures
            r is Ok <==> inst_count_capture(stdout@) is Some && decimal_count(
                inst_count_capture(stdout@)->Some_0,
            ) is Some,
            r is Ok ==> r->Ok_0 == decimal_count(inst_count_capture(stdout@)->Some_0)->Some_0,
            r is Err ==> r->Err_0.spec_kind() == Runner::IoError,
    {
        match capture_inst_count(stdout) {
            Some(digits) => Self::count_from_digits(&digits),
            None => Err(
                SolverError::new(Runner::IoError, "Could not parse dynamorio Instruction count"),
            ),
        }
    }
}

} // verus!
