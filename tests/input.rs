use b7::input::{Input, MemInput};

fn sample() -> Input {
    let mut x = Input::new();
    x.argc = Some(2);
    x.argvlens = Some(vec![1, 2]);
    x.argv = Some(vec![b"a".to_vec(), b"bc".to_vec()]);
    x.stdinlen = Some(3);
    x.stdin = Some(b"xyz".to_vec());
    x.mem = Some(vec![MemInput { size: 4, addr: 0x10, bytes: vec![1], breakpoint: None }]);
    x
}

fn same(a: &Input, b: &Input) -> bool {
    format!("{:?}", a) == format!("{:?}", b)
}

#[test]
fn combine_with_empty_is_identity() {
    let x = sample();
    assert!(same(&x.clone().combine(Input::new()), &x));
    assert!(same(&Input::new().combine(x.clone()), &x));
}

#[test]
fn combine_overlay_replaces_set_fields() {
    let mut top = Input::new();
    top.stdin = Some(b"AAA".to_vec());
    top.argc = Some(5);
    let r = sample().combine(top);
    assert_eq!(r.stdin, Some(b"AAA".to_vec()));
    assert_eq!(r.argc, Some(5));
    assert_eq!(r.stdinlen, Some(3));
    assert_eq!(r.argv, Some(vec![b"a".to_vec(), b"bc".to_vec()]));
}

#[test]
fn duplicate_is_equal() {
    let x = sample();
    assert!(same(&x.duplicate(), &x));
}
