use b7::errors::Runner;
use b7::input::MemInput;

#[test]
fn parse_mem_arg_fields() {
    let m = MemInput::parse_from_arg("addr=404050,size=1a,init=4142", true).unwrap();
    assert_eq!(m.addr, 0x404050);
    assert_eq!(m.size, 26);
    assert_eq!(m.bytes, vec![0x41, 0x42]);
    assert_eq!(m.breakpoint, None);
}

#[test]
fn parse_mem_arg_any_order_and_case() {
    let m = MemInput::parse_from_arg("init=aBcD,size=+10,addr=FF", true).unwrap();
    assert_eq!(m.addr, 0xff);
    assert_eq!(m.size, 0x10);
    assert_eq!(m.bytes, vec![0xab, 0xcd]);
}

#[test]
fn parse_mem_arg_without_init() {
    let m = MemInput::parse_from_arg("addr=4050,size=1a", false).unwrap();
    assert_eq!(m.addr, 0x4050);
    assert_eq!(m.bytes, Vec::<u8>::new());
}

#[test]
fn parse_mem_arg_last_key_wins() {
    let m = MemInput::parse_from_arg("addr=1,size=2,addr=3", true).unwrap();
    assert_eq!(m.addr, 3);
}

#[test]
fn parse_mem_arg_breakpoint_on_x86() {
    let m = MemInput::parse_from_arg("addr=4050,size=1a,breakpoint=4011f7", true).unwrap();
    assert_eq!(m.breakpoint, Some(0x4011f7));
}

#[test]
fn parse_mem_arg_breakpoint_elsewhere_is_rejected() {
    let e = MemInput::parse_from_arg("addr=4050,size=1a,breakpoint=4011f7", false).unwrap_err();
    assert_eq!(e.kind(), Runner::ArgError);
}

#[test]
fn parse_mem_arg_errors() {
    for bad in [
        "addr=1,size",
        "addr=1=2,size=3",
        "size=3",
        "addr=1",
        "addr=xyz,size=3",
        "addr=1,size=",
        "addr=1,size=3,init=414",
        "addr=1,size=3,init=zz",
        "addr=1,size=3,breakpoint=q",
        "addr=+,size=3",
        "addr=10000000000000000,size=3",
        "",
    ] {
        let e = MemInput::parse_from_arg(bad, true).unwrap_err();
        assert_eq!(e.kind(), Runner::ArgError, "{}", bad);
    }
}

#[test]
fn parse_mem_arg_largest_address() {
    let m = MemInput::parse_from_arg("addr=ffffffffffffffff,size=0", true).unwrap();
    assert_eq!(m.addr, usize::MAX);
    assert_eq!(m.size, 0);
}

#[test]
fn mem_arg_round_trip() {
    let regions = [
        MemInput { size: 26, addr: 0x404050, bytes: vec![], breakpoint: None },
        MemInput { size: 3, addr: 0, bytes: vec![0, 0xff, 0x10], breakpoint: None },
        MemInput { size: usize::MAX, addr: usize::MAX, bytes: b"AZ".to_vec(), breakpoint: Some(0x4011f7) },
    ];
    for m in regions {
        let arg = String::from_utf8(m.to_arg()).unwrap();
        let back = MemInput::parse_from_arg(&arg, true).unwrap();
        assert_eq!(back, m);
    }
}

#[test]
fn mem_arg_text() {
    let m = MemInput { size: 26, addr: 0x4050, bytes: vec![0xab, 1], breakpoint: Some(0x11f7) };
    assert_eq!(
        String::from_utf8(m.to_arg()).unwrap(),
        "addr=4050,size=1a,init=ab01,breakpoint=11f7"
    );
}

#[test]
fn parse_mem_arg_init_longer_than_size() {
    let e = MemInput::parse_from_arg("addr=1,size=1,init=4142", true).unwrap_err();
    assert_eq!(e.kind(), Runner::ArgError);
    assert!(MemInput::parse_from_arg("addr=1,size=2,init=4142", true).is_ok());
}
