use b7::brute::{collect_round, conclude_round, sort_by_count, Outcome};
use b7::cache::{argv_cache_line, stdin_cache_line};
use b7::errors::{Runner, SolverError};
use b7::generators::{
    ArgcGenerator, ArgvGenerator, ArgvLenGenerator, Generator, MemGenerator, StdinCharGenerator,
    StdinLenGenerator,
};
use b7::input::{Input, MemInput};

/// Runs rounds until the generator converges, measuring each candidate with `measure`.
fn drive(gen: &mut Generator, base: &Input, measure: &dyn Fn(&Input) -> i64) -> (Input, usize) {
    let mut rounds = 0;
    loop {
        let cands = collect_round(gen, base);
        let outcomes: Vec<Outcome> =
            cands.into_iter().map(|(id, inp)| (Ok(measure(&inp)), (id, inp))).collect();
        let d = conclude_round(gen, outcomes).unwrap();
        rounds += 1;
        if !d.more {
            return (d.results[d.winner].1 .1.clone(), rounds);
        }
    }
}

fn matching_prefix(a: &[u8], b: &[u8]) -> i64 {
    a.iter().zip(b.iter()).take_while(|(x, y)| x == y).count() as i64
}

#[test]
fn argc_round_yields_distinct_ids() {
    let mut gen = Generator::Argc(ArgcGenerator::new(0, 5));
    let cands = collect_round(&mut gen, &Input::new());
    let ids: Vec<u32> = cands.iter().map(|c| c.0).collect();
    assert_eq!(ids, vec![0, 1, 2, 3, 4, 5]);
    assert_eq!(cands[3].1.argc, Some(3));
    assert_eq!(cands[3].1.argv, Some(vec![vec![], vec![], vec![]]));
    // the round is drained
    assert!(collect_round(&mut gen, &Input::new()).is_empty());
}

#[test]
fn argc_converges_on_three_in_one_round() {
    let mut gen = Generator::Argc(ArgcGenerator::new(0, 5));
    let (found, rounds) =
        drive(&mut gen, &Input::new(), &|inp| if inp.argc == Some(3) { 500 } else { 100 });
    assert_eq!(rounds, 1);
    assert_eq!(found.argc, Some(3));
}

#[test]
fn timeouts_everywhere_give_no_results() {
    let mut gen = Generator::Argc(ArgcGenerator::new(0, 5));
    let cands = collect_round(&mut gen, &Input::new());
    let outcomes: Vec<Outcome> = cands
        .into_iter()
        .map(|(id, inp)| (Err(SolverError::new(Runner::Timeout, "child timeout")), (id, inp)))
        .collect();
    match conclude_round(&mut gen, outcomes) {
        Err(e) => assert_eq!(e.kind(), Runner::NoResults),
        Ok(_) => panic!("a round without measurements must fail"),
    }
}

#[test]
fn failures_are_left_out_of_the_round() {
    let mut gen = Generator::StdinLen(StdinLenGenerator::new(0, 3));
    let cands = collect_round(&mut gen, &Input::new());
    let outcomes: Vec<Outcome> = cands
        .into_iter()
        .map(|(id, inp)| {
            if id == 1 {
                (Err(SolverError::new(Runner::Timeout, "t")), (id, inp))
            } else {
                (Ok(10 + id as i64 * 100), (id, inp))
            }
        })
        .collect();
    let d = conclude_round(&mut gen, outcomes).unwrap();
    assert_eq!(d.results.len(), 3);
    assert_eq!(d.min, 10);
    // mean of 10, 210, 310 is 176.67: 10 is farthest
    assert_eq!(d.results[d.winner].1 .0, 0);
    assert!(!d.more);
}

#[test]
fn stdin_length_candidates_are_padding() {
    let mut g = StdinLenGenerator::new(2, 3);
    let (id, inp) = g.next().unwrap();
    assert_eq!(id, 2);
    assert_eq!(inp.stdinlen, Some(2));
    assert_eq!(inp.stdin, Some(b"AA".to_vec()));
    assert_eq!(g.next().unwrap().0, 3);
    assert!(g.next().is_none());
    assert!(!g.update(3));
    assert_eq!(g.get_length(), 3);
}

#[test]
fn wyvern_style_stdin_search() {
    let secret = b"dr4g0n_or_p4tric1an_it5_LLVM?".to_vec();
    let mut gen = Generator::StdinLen(StdinLenGenerator::new(0, 51));
    let s = secret.clone();
    let (solved, _) = drive(&mut gen, &Input::new(), &move |inp| {
        if inp.stdin.as_ref().map(|v| v.len()) == Some(s.len()) { 1000 } else { 10 }
    });
    assert_eq!(solved.stdinlen, Some(29));
    let mut gen = Generator::StdinChar(StdinCharGenerator::new(solved.clone(), 0x20, 0x7e));
    let s = secret.clone();
    let (solved, rounds) = drive(&mut gen, &solved, &move |inp| {
        100 * matching_prefix(inp.stdin.as_ref().unwrap(), &s)
    });
    assert_eq!(rounds, 29);
    let got = solved.stdin.unwrap();
    assert_eq!(&got[..28], &secret[..28]);
}

#[test]
fn stdin_char_candidate_layout() {
    let mut base = Input::new();
    base.stdinlen = Some(6);
    let mut g = StdinCharGenerator::new_start(base, 0x61, 0x62, b"xy");
    g.set_suffix(b"S".to_vec());
    let (id, inp) = g.next().unwrap();
    assert_eq!(id, 0x61);
    assert_eq!(inp.stdin, Some(b"xyaSAA".to_vec()));
    assert!(g.update(0x62));
    assert_eq!(g.get_input(), &vec![0x62]);
    g.set_padchr(b'.');
    let (_, inp) = g.next().unwrap();
    assert_eq!(inp.stdin, Some(b"xybaS.".to_vec()));
}

#[test]
fn stdin_char_without_length_yields_nothing() {
    let mut g = StdinCharGenerator::new(Input::new(), 0, 255);
    assert!(g.next().is_none());
    assert!(!g.update(1));
}

#[test]
fn argv_lengths_one_round_per_argument() {
    let mut g = ArgvLenGenerator::new(2, 0, 20);
    let (id, inp) = g.next().unwrap();
    assert_eq!(id, 0);
    assert_eq!(inp.argv, Some(vec![vec![], vec![]]));
    assert_eq!(inp.argvlens, Some(vec![0, 0]));
    assert!(g.update(3));
    let (_, inp) = g.next().unwrap();
    assert_eq!(inp.argv, Some(vec![b"AAA".to_vec(), vec![]]));
    assert!(!g.update(2));
    assert_eq!(g.get_lengths(), &vec![3, 2]);
    assert!(g.next().is_none());
}

#[test]
fn argv_bytes_left_to_right() {
    let mut g = ArgvGenerator::new(3, &[2, 0, 1], 0x41, 0x43);
    let (id, inp) = g.next().unwrap();
    assert_eq!(id, 0x41);
    assert_eq!(inp.argv, Some(vec![b"AA".to_vec(), vec![], b"A".to_vec()]));
    assert!(g.update(0x42));
    let (_, inp) = g.next().unwrap();
    assert_eq!(inp.argv, Some(vec![b"BA".to_vec(), vec![], b"A".to_vec()]));
    assert!(g.update(0x43));
    // the empty argument is skipped
    let (id, inp) = g.next().unwrap();
    assert_eq!(id, 0x41);
    assert_eq!(inp.argv, Some(vec![b"BC".to_vec(), vec![], b"A".to_vec()]));
    assert_eq!(g.next().unwrap().0, 0x42);
    assert_eq!(g.next().unwrap().0, 0x43);
    assert!(g.next().is_none());
    assert!(!g.update(0x43));
    assert_eq!(g.get_argv(), &vec![b"BC".to_vec(), vec![], b"C".to_vec()]);
}

#[test]
fn argv_with_no_arguments_yields_nothing() {
    let mut g = ArgvGenerator::new(0, &[], 0x20, 0x7e);
    assert!(g.next().is_none());
    assert!(!g.update(0));
}

#[test]
fn byte_range_is_clamped() {
    let mut g = ArgvGenerator::new(1, &[1], 0xfe, 0x1ff);
    assert_eq!(g.next().unwrap().0, 0xfe);
    assert_eq!(g.next().unwrap().0, 0xff);
    assert!(g.next().is_none());
}

fn mem_brute(addr: usize) -> Vec<u8> {
    let secret = b"ABCDEFGHIJKLMNOPQRSTUVWXYZ".to_vec();
    let region = MemInput { size: 26, addr, bytes: vec![], breakpoint: None };
    let mut gen = Generator::Mem(MemGenerator::new(region));
    let (solved, rounds) = drive(&mut gen, &Input::new(), &move |inp| {
        let m = &inp.mem.as_ref().unwrap()[0];
        assert_eq!(m.addr, addr);
        100 * matching_prefix(&m.bytes, &secret)
    });
    assert_eq!(rounds, 26);
    solved.mem.unwrap()[0].bytes.clone()
}

#[test]
fn memory_region_brute_non_pie() {
    assert_eq!(mem_brute(0x404050), b"ABCDEFGHIJKLMNOPQRSTUVWXYZ".to_vec());
}

#[test]
fn memory_region_brute_pie_offset() {
    assert_eq!(mem_brute(0x4050), b"ABCDEFGHIJKLMNOPQRSTUVWXYZ".to_vec());
}

#[test]
fn mem_generator_round_and_finish() {
    let region = MemInput { size: 2, addr: 8, bytes: vec![7], breakpoint: Some(9) };
    let mut g = MemGenerator::new(region);
    assert!(!g.finished());
    let mut n = 0;
    while let Some((id, inp)) = g.next() {
        let m = &inp.mem.as_ref().unwrap()[0];
        assert_eq!(m.bytes, vec![7, id as u8]);
        assert_eq!(m.breakpoint, Some(9));
        n += 1;
    }
    assert_eq!(n, 256);
    assert!(!g.update(5));
    assert!(g.finished());
    assert!(g.next().is_none());
    assert_eq!(g.get_mem_input().bytes, vec![7, 5]);
}

#[test]
fn rounds_are_bounded() {
    let mut g = Generator::ArgvLen(ArgvLenGenerator::new(3, 0, 1));
    let mut rounds = 1;
    while g.update(0) {
        rounds += 1;
    }
    assert_eq!(rounds, 3);
    let mut g = Generator::Argv(ArgvGenerator::new(2, &[2, 3], 0x20, 0x7e));
    let mut rounds = 1;
    while g.update(0x41) {
        rounds += 1;
    }
    assert_eq!(rounds, 5);
}

#[test]
fn argv_trailing_empty_argument_adds_no_round() {
    let mut g = Generator::Argv(ArgvGenerator::new(3, &[1, 0, 0], 0x41, 0x42));
    let cands = collect_round(&mut g, &Input::new());
    assert_eq!(cands.len(), 2);
    assert!(!g.update(0x41));
}

#[test]
fn stdin_search_with_prefix_runs_remaining_positions() {
    let mut base = Input::new();
    base.stdinlen = Some(4);
    let mut g = Generator::StdinChar(StdinCharGenerator::new_start(base, 0x20, 0x7e, b"ab"));
    let cands = collect_round(&mut g, &Input::new());
    assert_eq!(cands.len(), 0x7e - 0x20 + 1);
    assert_eq!(cands[0].1.stdin, Some(b"ab A".to_vec()));
    assert!(g.update(0x63));
    assert!(!g.update(0x64));
}

#[test]
fn results_are_sorted_for_the_observer() {
    let rs = vec![(5i64, (1u32, Input::new())), (-2, (2, Input::new())), (5, (3, Input::new())), (0, (4, Input::new()))];
    let sorted = sort_by_count(rs);
    let counts: Vec<i64> = sorted.iter().map(|r| r.0).collect();
    assert_eq!(counts, vec![-2, 0, 5, 5]);
    let mut ids: Vec<u32> = sorted.iter().map(|r| r.1 .0).collect();
    ids.sort();
    assert_eq!(ids, vec![1, 2, 3, 4]);
}

#[test]
fn cache_lines() {
    assert_eq!(argv_cache_line(&vec![b"ab".to_vec(), vec![]]), b"argv: [ab], [], \n".to_vec());
    assert_eq!(stdin_cache_line(&b"dr4g0n".to_vec()), b"stdin: dr4g0n\n".to_vec());
}
