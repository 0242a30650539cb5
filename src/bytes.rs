use vstd::prelude::*;

verus! {

/// `n` copies of `b`.
pub open spec fn repeat(b: u8, n: int) -> Seq<u8> {
    Seq::new(n as nat, |i: int| b)
}

/// `s` cut or padded with `pad` to exactly `n` bytes.
pub open spec fn fit(s: Seq<u8>, n: int, pad: u8) -> Seq<u8> {
    if s.len() >= n {
        s.take(n)
    } else {
        s + repeat(pad, n - s.len())
    }
}

/// A buffer of `n` copies of `b`.
pub fn filled(b: u8, n: usize) -> (r: Vec<u8>)
    ensures
        r@ == repeat(b, n as int),
{
    let mut r: Vec<u8> = Vec::with_capacity(n);
    let mut i: usize = 0;
    while i < n
        invariant
            i <= n,
            r@ == repeat(b, i as int),
        decreases n - i,
    {
        r.push(b);
        i = i + 1;
        assert(r@ =~= repeat(b, i as int));
    }
    r
}

/// Appends `src` to `dst`.
pub fn append_bytes(dst: &mut Vec<u8>, src: &[u8])
    ensures
        final(dst)@ == old(dst)@ + src@,
{
    let mut i: usize = 0;
    while i < src.len()
        invariant
            i <= src@.len(),
            dst@ == old(dst)@ + src@.subrange(0, i as int),
        decreases src@.len() - i,
    {
        dst.push(src[i]);
        i = i + 1;
        assert(dst@ =~= old(dst)@ + src@.subrange(0, i as int));
    }
    assert(src@.subrange(0, src@.len() as int) =~= src@);
}

/// Cuts or pads `v` with `pad` to exactly `n` bytes.
pub fn fit_to(v: &mut Vec<u8>, n: usize, pad: u8)
    ensures
        final(v)@ == fit(old(v)@, n as int, pad),
{
    if v.len() >= n {
        v.truncate(n);
        assert(v@ =~= fit(old(v)@, n as int, pad));
    } else {
        let ghost start = v@;
        while v.len() < n
            invariant
                start.len() < n,
                start.len() <= v@.len() <= n,
                v@ == start + repeat(pad, v@.len() - start.len()),
                start == old(v)@,
            decreases n - v@.len(),
        {
            v.push(pad);
            assert(v@ =~= start + repeat(pad, v@.len() - start.len()));
        }
    }
}

} // verus!
