//! Small facts about byte sequences shared by the reader and the writer.
use vstd::prelude::*;

verus! {

/// How many of the most recently processed bytes a stream keeps for diagnostics.
pub const CAPTURE_CAPACITY: usize = 64;

/// The trailing window of `s`: its last `CAPTURE_CAPACITY` bytes, or all of it
/// when it is shorter.
pub open spec fn tail_window(s: Seq<u8>) -> Seq<u8> {
    if s.len() <= CAPTURE_CAPACITY {
        s
    } else {
        s.skip(s.len() - CAPTURE_CAPACITY)
    }
}

/// Appending one byte to a sequence moves its window by that byte, evicting the
/// oldest one once the window is full.
pub proof fn lemma_tail_window_push(s: Seq<u8>, b: u8)
    ensures
        tail_window(s).len() < CAPTURE_CAPACITY ==> tail_window(s.push(b)) == tail_window(s).push(b),
        tail_window(s).len() >= CAPTURE_CAPACITY ==> tail_window(s.push(b)) == tail_window(s).push(b).remove(0),
{
    if s.len() + 1 <= CAPTURE_CAPACITY {
        assert(tail_window(s.push(b)) =~= tail_window(s).push(b));
    } else if s.len() < CAPTURE_CAPACITY {
        assert(false);
    } else {
        assert(tail_window(s.push(b)) =~= tail_window(s).push(b).remove(0));
    }
}

/// Pushes `b` onto `window`, dropping the oldest byte first when it is full.
pub fn push_to_window(window: &mut Vec<u8>, b: u8)
    requires
        old(window)@.len() <= CAPTURE_CAPACITY,
    ensures
        old(window)@.len() < CAPTURE_CAPACITY ==> final(window)@ == old(window)@.push(b),
        old(window)@.len() >= CAPTURE_CAPACITY ==> final(window)@ == old(window)@.push(b).remove(0),
        final(window)@.len() <= CAPTURE_CAPACITY,
{
    if window.len() >= CAPTURE_CAPACITY {
        window.remove(0);
        window.push(b);
        assert(window@ =~= old(window)@.push(b).remove(0));
    } else {
        window.push(b);
    }
}

/// A fresh copy of `v`.
pub fn copy_bytes(v: &Vec<u8>) -> (r: Vec<u8>)
    ensures
        r@ == v@,
{
    let mut r: Vec<u8> = Vec::with_capacity(v.len());
    let mut i: usize = 0;
    while i < v.len()
        invariant
            i <= v@.len(),
            r@ == v@.take(i as int),
        decreases v@.len() - i,
    {
        r.push(v[i]);
        i = i + 1;
        assert(r@ =~= v@.take(i as int));
    }
    assert(v@.take(v@.len() as int) =~= v@);
    r
}

} // verus!
