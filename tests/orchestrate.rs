use b7::errors::Runner;
use b7::generators::Generator;
use b7::input::{Input, MemInput};
use b7::orchestrate::Orchestrator;

#[test]
fn argv_phase_runs_in_order() {
    let mut o = Orchestrator::new(Input::new(), true, false, false, vec![], true).unwrap();
    let job = o.next_job().unwrap();
    assert_eq!(job.repeat, 1);
    assert!(matches!(job.generator, Generator::Argc(_)));
    let mut r = Input::new();
    r.argc = Some(2);
    o.finish_job(r.clone());
    let job = o.next_job().unwrap();
    assert_eq!(job.repeat, 5);
    assert!(matches!(job.generator, Generator::ArgvLen(_)));
    r.argvlens = Some(vec![1, 4]);
    o.finish_job(r);
    let job = o.next_job().unwrap();
    assert_eq!(job.repeat, 5);
    match job.generator {
        Generator::Argv(mut g) => assert_eq!(g.next().unwrap().1.argv, Some(vec![b" ".to_vec(), b"AAAA".to_vec()])),
        _ => panic!("expected the argument bytes search"),
    }
    o.finish_job(Input::new());
    assert!(o.next_job().is_none());
}

#[test]
fn argc_zero_skips_argv_search() {
    let mut o = Orchestrator::new(Input::new(), true, false, false, vec![], true).unwrap();
    o.next_job().unwrap();
    let mut r = Input::new();
    r.argc = Some(0);
    o.finish_job(r);
    assert!(o.next_job().is_none());
    assert_eq!(o.solved().argc, Some(0));
}

#[test]
fn stdin_phase_with_known_prefix() {
    let mut o = Orchestrator::new(Input::new(), false, true, false, b"dr".to_vec(), true).unwrap();
    let job = o.next_job().unwrap();
    assert!(matches!(job.generator, Generator::StdinLen(_)));
    let mut r = Input::new();
    r.stdinlen = Some(4);
    o.finish_job(r);
    let job = o.next_job().unwrap();
    match job.generator {
        Generator::StdinChar(mut g) => {
            let (id, inp) = g.next().unwrap();
            assert_eq!(id, 0x20);
            assert_eq!(inp.stdin, Some(b"dr A".to_vec()));
        }
        _ => panic!("expected the stdin bytes search"),
    }
}

#[test]
fn memory_regions_in_order() {
    let a = MemInput { size: 1, addr: 1, bytes: vec![], breakpoint: None };
    let b = MemInput { size: 1, addr: 2, bytes: vec![], breakpoint: None };
    let mut init = Input::new();
    init.mem = Some(vec![a.clone(), b.clone()]);
    let mut o = Orchestrator::new(init, false, false, false, vec![], true).unwrap();
    for (addr, found) in [(1usize, 0x41u8), (2, 0x42)] {
        let job = o.next_job().unwrap();
        match job.generator {
            Generator::Mem(g) => assert_eq!(g.get_mem_input().addr, addr),
            _ => panic!("expected a memory search"),
        }
        let mut r = Input::new();
        r.mem = Some(vec![MemInput { size: 1, addr, bytes: vec![found], breakpoint: None }]);
        o.finish_job(r);
    }
    assert!(o.next_job().is_none());
    let mem = o.solved().mem.clone().unwrap();
    assert_eq!(mem.len(), 2);
    assert_eq!(mem[0].bytes, vec![0x41]);
    assert_eq!(mem[1].bytes, vec![0x42]);
}

#[test]
fn dropping_ptrace_excludes_memory() {
    let mut init = Input::new();
    init.mem = Some(vec![MemInput { size: 1, addr: 1, bytes: vec![], breakpoint: None }]);
    let e = Orchestrator::new(init, false, false, true, vec![], true).unwrap_err();
    assert_eq!(e.kind(), Runner::ArgError);
}

#[test]
fn known_argc_skips_argv_phase() {
    let mut init = Input::new();
    init.argc = Some(1);
    let mut o = Orchestrator::new(init, true, false, false, vec![], true).unwrap();
    assert!(o.next_job().is_none());
}

#[test]
fn breakpoints_need_an_x86_host() {
    let mut init = Input::new();
    init.mem = Some(vec![MemInput { size: 26, addr: 0x4050, bytes: vec![], breakpoint: Some(0x4011f7) }]);
    let e = Orchestrator::new(init.clone(), false, false, false, vec![], false).unwrap_err();
    assert_eq!(e.kind(), Runner::ArgError);
    assert!(Orchestrator::new(init, false, false, false, vec![], true).is_ok());
}

#[test]
fn regions_must_fit_their_size() {
    let mut init = Input::new();
    init.mem = Some(vec![MemInput { size: 1, addr: 0, bytes: vec![1, 2], breakpoint: None }]);
    let e = Orchestrator::new(init, false, false, false, vec![], true).unwrap_err();
    assert_eq!(e.kind(), Runner::ArgError);
}
