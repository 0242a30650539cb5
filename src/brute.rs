use vstd::prelude::*;
use crate::errors::{Runner, SolverError};
use crate::generators::Generator;
use crate::input::{combine_view, Input, InputView};
use crate::statistics::{is_outlier, outlier_index};
use vstd::multiset::Multiset;

verus! {

/// What a worker reports for one candidate: the measurement, or why it failed,
/// with the candidate's id and input.
pub type Outcome = (Result<i64, SolverError>, (u32, Input));

/// A successful measurement with its candidate's id and input.
pub type Measured = (i64, (u32, Input));

pub open spec fn measured_view(m: Measured) -> (i64, u32, InputView) {
    (m.0, m.1.0, m.1.1@)
}

/// The successful measurements among `s`, in order.
pub open spec fn successes(s: Seq<Outcome>) -> Seq<(i64, u32, InputView)>
    decreases s.len(),
{
    if s.len() == 0 {
        Seq::empty()
    } else {
        let rest = successes(s.drop_last());
        match s.last().0 {
            Ok(x) => rest.push((x, s.last().1.0, s.last().1.1@)),
            Err(_) => rest,
        }
    }
}

pub open spec fn counts_of(s: Seq<(i64, u32, InputView)>) -> Seq<i64> {
    s.map_values(|m: (i64, u32, InputView)| m.0)
}

/// Smallest measurement of `s`; `i64::MAX` for none.
pub open spec fn min_count(s: Seq<(i64, u32, InputView)>) -> i64
    decreases s.len(),
{
    if s.len() == 0 {
        i64::MAX
    } else {
        let m = min_count(s.drop_last());
        if s.last().0 < m {
            s.last().0
        } else {
            m
        }
    }
}

/// Drains the current round of `gen` into a list of candidates, each one
/// overlaid on `base`. The ids run up one by one, so no id occurs twice.
pub fn collect_round(gen: &mut Generator, base: &Input) -> (r: Vec<(u32, Input)>)
    requires
        old(gen).wf(),
    ensures
        final(gen).wf(),
        final(gen).rounds_left() == old(gen).rounds_left(),
        r@.len() == old(gen).pending(),
        forall|i: int| 0 <= i < r@.len() ==> #[trigger] r@[i].0 == old(gen).cursor() + i,
        forall|i: int, j: int| 0 <= i < j < r@.len() ==> r@[i].0 != r@[j].0,
        forall|i: int|
            0 <= i < r@.len() ==> #[trigger] r@[i].1@ == combine_view(
                base@,
                old(gen).candidate(r@[i].0 as int),
            ),
{
    let mut data: Vec<(u32, Input)> = Vec::new();
    loop
        invariant
            gen.wf(),
            gen.last_id() == old(gen).last_id(),
            gen.converged() == old(gen).converged(),
            gen.rounds_left() == old(gen).rounds_left(),
            forall|id: int| #[trigger] gen.candidate(id) == old(gen).candidate(id),
            gen.cursor() == old(gen).cursor() + data@.len(),
            data@.len() + gen.pending() == old(gen).pending(),
            forall|i: int| 0 <= i < data@.len() ==> #[trigger] data@[i].0 == old(gen).cursor() + i,
            forall|i: int|
                0 <= i < data@.len() ==> #[trigger] data@[i].1@ == combine_view(
                    base@,
                    old(gen).candidate(data@[i].0 as int),
                ),
        ensures
            data@.len() == old(gen).pending(),
        decreases gen.pending(),
    {
        match gen.next() {
            Some(pair) => {
                let (id, inp) = pair;
                let cand = base.duplicate().combine(inp);
                data.push((id, cand));
            },
            None => {
                assert(data@.len() == old(gen).pending());
                break ;
            },
        }
    }
    data
}

/// The result of one round, as the driver hands it on.
pub struct RoundDecision {
    /// Successful measurements, in the order they were reported.
    pub results: Vec<Measured>,
    /// Smallest successful measurement.
    pub min: i64,
    /// Position in `results` of the chosen candidate.
    pub winner: usize,
    /// Whether the generator asks for another round.
    pub more: bool,
}

/// Concludes a round from the workers' reports: keeps the successes, picks
/// the one farthest from the mean, and feeds its id back to the generator
/// (`update` with the winner's id, as `Generator::after_update` states).
/// Fails with `NoResults`, leaving the generator as it was, when every
/// candidate failed.
pub fn conclude_round(gen: &mut Generator, outcomes: Vec<Outcome>) -> (r: Result<
    RoundDecision,
    SolverError,
>)
    requires
        old(gen).wf(),
        outcomes@.len() <= 0x4000_0000_0000_0000,
    ensures
        final(gen).wf(),
        successes(outcomes@).len() == 0 ==> r is Err && r->Err_0.spec_kind() == Runner::NoResults
            && *final(gen) == *old(gen),
        successes(outcomes@).len() > 0 ==> r is Ok,
        r is Ok ==> {
            let d = r->Ok_0;
            &&& d.results@.map_values(|m: Measured| measured_view(m)) == successes(outcomes@)
            &&& d.min == min_count(successes(outcomes@))
            &&& is_outlier(counts_of(successes(outcomes@)), d.winner as int)
            &&& d.winner < d.results@.len()
            &&& Generator::after_update(*old(gen), d.results@[d.winner as int].1.0, *final(gen), d.more)
            &&& d.more ==> final(gen).rounds_left() + 1 == old(gen).rounds_left()
            &&& d.more ==> final(gen).cursor() == final(gen).first_id()
            &&& !d.more ==> final(gen).rounds_left() == 0
        },
{
    let mut results: Vec<Measured> = Vec::new();
    let mut counts: Vec<i64> = Vec::new();
    let mut min: i64 = i64::MAX;
    let mut i: usize = 0;
    while i < outcomes.len()
        invariant
            i <= outcomes@.len(),
            results@.map_values(|m: Measured| measured_view(m)) == successes(
                outcomes@.subrange(0, i as int),
            ),
            counts@ == counts_of(successes(outcomes@.subrange(0, i as int))),
            min == min_count(successes(outcomes@.subrange(0, i as int))),
        decreases outcomes@.len() - i,
    {
        proof {
            assert(outcomes@.subrange(0, i + 1).drop_last() =~= outcomes@.subrange(0, i as int));
            assert(outcomes@.subrange(0, i + 1).last() == outcomes@[i as int]);
        }
        match &outcomes[i].0 {
            Ok(x) => {
                let x: i64 = *x;
                let id: u32 = outcomes[i].1.0;
                let inp = outcomes[i].1.1.duplicate();
                results.push((x, (id, inp)));
                counts.push(x);
                if x < min {
                    min = x;
                }
                proof {
                    let ghost prev = successes(outcomes@.subrange(0, i as int));
                    assert(prev.push((x, id, inp@)).drop_last() =~= prev);
                    assert(results@.map_values(|m: Measured| measured_view(m)) =~= prev.push(
                        (x, id, inp@),
                    ));
                    assert(counts@ =~= counts_of(prev.push((x, id, inp@))));
                }
            },
            Err(_) => {},
        }
        i = i + 1;
    }
    assert(outcomes@.subrange(0, outcomes@.len() as int) =~= outcomes@);
    proof {
        lemma_successes_len(outcomes@);
    }
    if results.len() == 0 {
        return Err(SolverError::new(Runner::NoResults, "No valid results found"));
    }
    let winner = outlier_index(counts.as_slice());
    let chosen: u32 = results[winner].1.0;
    let more = gen.update(chosen);
    Ok(RoundDecision { results, min, winner, more })
}

proof fn lemma_successes_len(s: Seq<Outcome>)
    ensures
        successes(s).len() <= s.len(),
    decreases s.len(),
{
    if s.len() > 0 {
        lemma_successes_len(s.drop_last());
    }
}


pub open spec fn measured_views(s: Seq<Measured>) -> Seq<(i64, u32, InputView)> {
    s.map_values(|m: Measured| measured_view(m))
}

/// Ascending by measurement.
pub open spec fn sorted_by_count(s: Seq<(i64, u32, InputView)>) -> bool {
    forall|i: int, j: int| 0 <= i < j < s.len() ==> s[i].0 <= s[j].0
}

/// The results in ascending order of measurement, as the observer gets them.
pub fn sort_by_count(results: Vec<Measured>) -> (r: Vec<Measured>)
    ensures
        sorted_by_count(measured_views(r@)),
        measured_views(r@).to_multiset() == measured_views(results@).to_multiset(),
        r@.len() == results@.len(),
{
    let mut rest = results;
    let mut out: Vec<Measured> = Vec::new();
    proof {
        assert(measured_views(out@) =~= Seq::empty());
        vstd::seq_lib::to_multiset_len(measured_views(out@));
        assert(measured_views(rest@) =~= measured_views(results@));
    }
    while rest.len() > 0
        invariant
            sorted_by_count(measured_views(out@)),
            measured_views(out@).to_multiset().add(measured_views(rest@).to_multiset())
                == measured_views(results@).to_multiset(),
            out@.len() + rest@.len() == results@.len(),
        decreases rest@.len(),
    {
        let ghost before_rest = measured_views(rest@);
        let ghost before_out = measured_views(out@);
        let x = rest.pop().unwrap();
        let ghost v = measured_view(x);
        proof {
            assert(before_rest =~= measured_views(rest@).push(v));
            vstd::seq_lib::to_multiset_build(measured_views(rest@), v);
        }
        let mut p: usize = 0;
        while p < out.len() && out[p].0 <= x.0
            invariant
                p <= out@.len(),
                forall|k: int| 0 <= k < p ==> out@[k].0 <= x.0,
            decreases out@.len() - p,
        {
            p = p + 1;
        }
        out.insert(p, x);
        proof {
            assert(measured_views(out@) =~= before_out.insert(p as int, v));
            vstd::seq_lib::to_multiset_insert(before_out, p as int, v);
            let o = measured_views(out@);
            assert forall|i: int, j: int| 0 <= i < j < o.len() implies o[i].0 <= o[j].0 by {
                if j < p {
                    assert(o[i] == before_out[i] && o[j] == before_out[j]);
                } else if j == p {
                    assert(o[i] == before_out[i]);
                    assert(out@[i].0 == o[i].0);
                } else if i > p {
                    assert(o[i] == before_out[i - 1] && o[j] == before_out[j - 1]);
                } else if i == p {
                    assert(o[j] == before_out[j - 1]);
                    assert(before_out[p as int].0 > v.0);
                    assert(before_out[p as int].0 <= before_out[j - 1].0);
                } else {
                    assert(o[i] == before_out[i] && o[j] == before_out[j - 1]);
                }
            }
        }
    }
    proof {
        assert(measured_views(rest@) =~= Seq::empty());
        vstd::seq_lib::to_multiset_len(measured_views(rest@));
        assert(measured_views(rest@).to_multiset() =~= Multiset::empty());
        assert(measured_views(out@).to_multiset().add(Multiset::empty()) =~= measured_views(
            out@,
        ).to_multiset());
    }
    out
}

} // verus!
