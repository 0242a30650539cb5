use b7::binary::Binary;
use b7::counters::{DynamorioSolver, PerfSolver};
use b7::dispatch::WaitQueues;
use b7::errors::Runner;
use b7::input::MemInput;
use b7::process::{breakpoint_word, find_base, mem_words, AddressSpace, PtraceMode};
use b7::supervise::{Breakpoint, BreakpointTable, StopAction, Supervisor, WaitEvent};

#[test]
fn pie_addresses_round_trip() {
    let space = AddressSpace { pie: true, base: 0x5555_5555_4000 };
    for x in [0usize, 0x4050, usize::MAX, 0xaaaa_aaab_c000] {
        assert_eq!(space.rel_addr(space.abs_addr(x)), x);
    }
    assert_eq!(space.abs_addr(0x4050), 0x5555_5555_8050);
    assert_eq!(space.rel_addr(0x5555_5555_8050), 0x4050);
}

#[test]
fn non_pie_addresses_are_absolute() {
    let space = AddressSpace { pie: false, base: 0x1000 };
    assert_eq!(space.abs_addr(0x404050), 0x404050);
    assert_eq!(space.rel_addr(0x404050), 0x404050);
}

#[test]
fn base_is_first_mapping_of_the_executable() {
    let exe = String::from("/bin/target");
    let maps = vec![
        (0x1000, None),
        (0x2000, Some(String::from("/lib/libc.so"))),
        (0x5000, Some(exe.clone())),
        (0x6000, Some(exe.clone())),
    ];
    assert_eq!(find_base(&maps, &exe), Some(0x5000));
    assert_eq!(find_base(&maps, &String::from("/nope")), None);
}

#[test]
fn memory_is_written_in_padded_words() {
    let m = MemInput { size: 10, addr: 0, bytes: (1..=10).collect(), breakpoint: None };
    let words = mem_words(&m, 0x1000, 8);
    assert_eq!(words.len(), 2);
    assert_eq!(words[0], (0x1000, vec![1, 2, 3, 4, 5, 6, 7, 8]));
    assert_eq!(words[1], (0x1008, vec![9, 10, 0, 0, 0, 0, 0, 0]));
    let small = mem_words(&m, 0x10, 4);
    assert_eq!(small.len(), 3);
    assert_eq!(small[2], (0x18, vec![9, 10, 0, 0]));
    let empty = MemInput { size: 1, addr: 0, bytes: vec![], breakpoint: None };
    assert!(mem_words(&empty, 0, 8).is_empty());
}

#[test]
fn breakpoint_replaces_low_byte() {
    assert_eq!(breakpoint_word(0x1122_3344_5566_7788), 0x1122_3344_5566_77cc);
    assert_eq!(breakpoint_word(0), 0xcc);
}

#[test]
fn ptrace_modes() {
    assert!(PtraceMode::Always.enabled());
    assert!(PtraceMode::Drop.enabled());
    assert!(!PtraceMode::Never.enabled());
}

#[test]
fn breakpoint_table_one_per_address() {
    let mut t = BreakpointTable::new();
    assert!(t.is_empty());
    let m = MemInput { size: 1, addr: 4, bytes: vec![], breakpoint: Some(0x11f7) };
    t.insert(Breakpoint { addr: 0x11f7, saved: 1, mem: m.clone() });
    t.insert(Breakpoint { addr: 0x11f7, saved: 2, mem: m.clone() });
    assert!(t.take(0x1000).is_none());
    let b = t.take(0x11f7).unwrap();
    assert_eq!(b.saved, 2);
    assert!(t.is_empty());
    assert!(t.take(0x11f7).is_none());
}

#[test]
fn supervisor_traced_run() {
    let mut s = Supervisor::new(PtraceMode::Always, 1_000_000);
    assert_eq!(s.on_event(WaitEvent::Stopped(5), 10), StopAction::InitThenResume(None));
    assert_eq!(s.on_event(WaitEvent::Stopped(11), 20), StopAction::Resume(Some(11)));
    assert_eq!(s.on_event(WaitEvent::Stopped(5), 30), StopAction::Resume(None));
    assert_eq!(s.on_event(WaitEvent::Exited, 40), StopAction::Done);
    assert_eq!(s.on_event(WaitEvent::Killed, 2_000_000), StopAction::Done);
}

#[test]
fn supervisor_times_out() {
    let mut s = Supervisor::new(PtraceMode::Always, 1_000_000);
    assert_eq!(s.on_event(WaitEvent::Stopped(5), 1_000_001), StopAction::TimedOut);
    assert_eq!(s.time_left(400_000), 600_000);
    assert_eq!(s.time_left(2_000_000), 0);
}

#[test]
fn supervisor_drop_mode_detaches() {
    let mut s = Supervisor::new(PtraceMode::Drop, 100);
    assert_eq!(s.on_event(WaitEvent::Other, 1), StopAction::Wait);
    assert_eq!(s.on_event(WaitEvent::Stopped(5), 1), StopAction::Detach);
    let mut n = Supervisor::new(PtraceMode::Never, 100);
    assert_eq!(n.on_event(WaitEvent::Stopped(5), 1), StopAction::Wait);
}

#[test]
fn no_wait_event_is_dropped() {
    let mut q = WaitQueues::new();
    let evs = [(10, WaitEvent::Stopped(5)), (11, WaitEvent::Exited), (10, WaitEvent::Exited)];
    for (pid, ev) in evs {
        q.deliver(pid, ev);
    }
    let a = q.take_all(10);
    let b = q.take_all(11);
    assert_eq!(a, vec![WaitEvent::Stopped(5), WaitEvent::Exited]);
    assert_eq!(b, vec![WaitEvent::Exited]);
    assert_eq!(a.len() + b.len(), evs.len());
    assert!(q.take_all(10).is_empty());
    q.remove(10);
    assert!(q.take_all(12).is_empty());
}

#[test]
fn perf_needs_a_full_read() {
    assert_eq!(PerfSolver::counter_value(8, 1234).unwrap(), 1234);
    assert_eq!(PerfSolver::counter_value(4, 1234).unwrap_err().kind(), Runner::IoError);
    assert_eq!(PerfSolver::counter_value(-1, 0).unwrap_err().kind(), Runner::IoError);
}

#[test]
fn instrumentation_count_is_parsed() {
    let out = "noise\nInstrumentation results: 123456 instructions executed\n";
    assert_eq!(DynamorioSolver::parse_inst_count(out).unwrap(), 123456);
    let e = DynamorioSolver::parse_inst_count("no count here").unwrap_err();
    assert_eq!(e.kind(), Runner::IoError);
    let big = "Instrumentation results: 99999999999999999999 instructions executed";
    assert_eq!(DynamorioSolver::parse_inst_count(big).unwrap_err().kind(), Runner::IoError);
    assert_eq!(DynamorioSolver::count_from_digits(&vec!['4', '2']).unwrap(), 42);
}

fn elf_header(e_type: u16, class: u8) -> Vec<u8> {
    let mut h = vec![0u8; 64];
    h[..4].copy_from_slice(&[0x7f, b'E', b'L', b'F']);
    h[4] = class;
    h[5] = 1;
    h[6] = 1;
    h[16..18].copy_from_slice(&e_type.to_le_bytes());
    h[18..20].copy_from_slice(&0x3eu16.to_le_bytes());
    h[20..24].copy_from_slice(&1u32.to_le_bytes());
    h[52..54].copy_from_slice(&64u16.to_le_bytes());
    h[54..56].copy_from_slice(&56u16.to_le_bytes());
    h[58..60].copy_from_slice(&64u16.to_le_bytes());
    h
}

#[test]
fn binary_kind_from_elf_header() {
    let pie = Binary::new(String::from("/t"), &elf_header(3, 2)).unwrap();
    assert_eq!(pie.is_pie().unwrap(), true);
    assert!(!pie.is_32bit());
    let exec = Binary::new(String::from("/t"), &elf_header(2, 2)).unwrap();
    assert_eq!(exec.is_pie().unwrap(), false);
    assert_eq!(exec.path(), "/t");
    let e = Binary::from_header(String::from("/t"), 1, 2).is_pie().unwrap_err();
    assert_eq!(e.kind(), Runner::ArgError);
    assert_eq!(Binary::new(String::from("/t"), b"not an elf").unwrap_err().kind(), Runner::IoError);
}
