//! The pure parts of the two output sinks. Keystroke injection resolves each
//! character to a virtual-key byte (or skips it); clipboard writing publishes
//! the text with a terminating zero byte. The platform calls that deliver
//! either effect live outside the library.

use vstd::prelude::*;

verus! {

/// The low byte of `w`.
pub fn lobyte(w: u64) -> (r: u8)
    ensures
        r == w & 0xff,
{
    proof {
        assert(w & 0xff <= 0xff) by (bit_vector);
    }
    (w & 0xff) as u8
}

/// The virtual-key byte the injector presses for one character, given the
/// keyboard layout's lookup result for it: the low byte of a non-negative
/// lookup, and nothing for a character the layout cannot resolve, which the
/// injector silently skips.
pub fn key_code_of(vkey: i16) -> (r: Option<u8>)
    ensures
        vkey >= 0 ==> (r matches Some(code) && code == (vkey as u64) & 0xff),
        vkey < 0 ==> r is None,
{
    if vkey <= -1 {
        None
    } else {
        Some(lobyte(vkey as u64))
    }
}

/// The memory block a clipboard write publishes: the text's bytes followed by
/// exactly one terminating zero byte, nothing dropped and nothing added.
pub fn clipboard_payload(text: &[u8]) -> (r: Vec<u8>)
    ensures
        r@ == text@.push(0u8),
{
    let mut out: Vec<u8> = Vec::new();
    let mut i: usize = 0;
    while i < text.len()
        invariant
            i <= text@.len(),
            out@ == text@.take(i as int),
        decreases text@.len() - i,
    {
        out.push(text[i]);
        proof {
            assert(out@ =~= text@.take(i + 1 as int));
        }
        i = i + 1;
    }
    out.push(0u8);
    proof {
        assert(text@.take(text@.len() as int) =~= text@);
        assert(out@ =~= text@.push(0u8));
    }
    out
}

} // verus!
