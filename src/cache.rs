use vstd::prelude::*;

verus! {

/// `argv: ` then `[arg], ` for each argument, then a newline.
pub open spec fn argv_line(argv: Seq<Seq<u8>>) -> Seq<u8> {
    seq![0x61u8, 0x72, 0x67, 0x76, 0x3a, 0x20] + argv_items(argv) + seq![0x0au8]
}

/// `[arg], ` for each argument.
pub open spec fn argv_items(argv: Seq<Seq<u8>>) -> Seq<u8>
    decreases argv.len(),
{
    if argv.len() == 0 {
        Seq::empty()
    } else {
        argv_items(argv.drop_last()) + seq![0x5bu8] + argv.last() + seq![0x5du8, 0x2c, 0x20]
    }
}

/// `stdin: ` then the bytes, then a newline.
pub open spec fn stdin_line(stdin: Seq<u8>) -> Seq<u8> {
    seq![0x73u8, 0x74, 0x64, 0x69, 0x6e, 0x3a, 0x20] + stdin + seq![0x0au8]
}

/// The line that records solved arguments in the result cache.
pub fn argv_cache_line(argv: &Vec<Vec<u8>>) -> (r: Vec<u8>)
    ensures
        r@ == argv_line(argv@.map_values(|a: Vec<u8>| a@)),
{
    let ghost args = argv@.map_values(|a: Vec<u8>| a@);
    let mut out: Vec<u8> = vec![0x61, 0x72, 0x67, 0x76, 0x3a, 0x20];
    let ghost head = out@;
    let mut i: usize = 0;
    while i < argv.len()
        invariant
            i <= argv@.len(),
            args == argv@.map_values(|a: Vec<u8>| a@),
            out@ == head + argv_items(args.subrange(0, i as int)),
        decreases argv@.len() - i,
    {
        out.push(0x5b);
        crate::bytes::append_bytes(&mut out, argv[i].as_slice());
        out.push(0x5d);
        out.push(0x2c);
        out.push(0x20);
        proof {
            let pre = args.subrange(0, i + 1);
            assert(pre.drop_last() =~= args.subrange(0, i as int));
            assert(pre.last() == argv@[i as int]@);
            assert(out@ =~= head + argv_items(pre));
        }
        i = i + 1;
    }
    assert(args.subrange(0, i as int) =~= args);
    out.push(0x0a);
    assert(out@ =~= argv_line(args));
    out
}

/// The line that records solved stdin in the result cache.
pub fn stdin_cache_line(stdin: &Vec<u8>) -> (r: Vec<u8>)
    ensures
        r@ == stdin_line(stdin@),
{
    let mut out: Vec<u8> = vec![0x73, 0x74, 0x64, 0x69, 0x6e, 0x3a, 0x20];
    crate::bytes::append_bytes(&mut out, stdin.as_slice());
    out.push(0x0a);
    assert(out@ =~= stdin_line(stdin@));
    out
}

} // verus!
