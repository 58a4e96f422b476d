//! Rendering a string as a list of codepoints (`U+0041 U+0301 ` style),
//! used to compare normalization results codepoint by codepoint.

use vstd::prelude::*;
use vstd::string::StrSliceExecFns;
use crate::tables::{char_from_u32, push_char};

verus! {

/// The uppercase hexadecimal digit for `d` (0..=15).
pub open spec fn hex_digit(d: int) -> char {
    if d < 10 {
        (0x30 + d) as char
    } else {
        (0x37 + d) as char
    }
}

/// The uppercase hexadecimal digits of `n`, at least `width` of them,
/// zero-padded on the left.
pub open spec fn spec_hex(n: int, width: nat) -> Seq<char>
    decreases n + width, when n >= 0
{
    if n == 0 && width == 0 {
        Seq::empty()
    } else {
        let w: nat = if width > 0 {
            (width - 1) as nat
        } else {
            0
        };
        spec_hex(n / 16, w).push(hex_digit(n % 16))
    }
}

/// `U+XXXX ` (at least four digits) for every character of `s`, in order.
pub open spec fn spec_codepoint_seq(s: Seq<char>) -> Seq<char>
    decreases s.len(),
{
    if s.len() == 0 {
        Seq::empty()
    } else {
        spec_codepoint_seq(s.drop_last()) + seq!['U', '+'] + spec_hex(s.last() as int, 4)
            + seq![' ']
    }
}

/// Appends the uppercase hexadecimal digits of `n`, zero-padded on the
/// left to at least `width` digits.
fn push_hex(out: &mut Vec<char>, n: u32, width: usize)
    ensures
        final(out)@ == old(out)@ + spec_hex(n as int, width as nat),
    decreases n, width,
{
    if n == 0 && width == 0 {
        proof {
            assert(out@ =~= out@ + spec_hex(0, 0));
        }
        return ;
    }
    let w: usize = if width > 0 {
        width - 1
    } else {
        0
    };
    push_hex(out, n / 16, w);
    let d = n % 16;
    let digit = if d < 10 {
        char_from_u32(0x30 + d).unwrap()
    } else {
        char_from_u32(0x37 + d).unwrap()
    };
    out.push(digit);
}

/// Renders every character of the input as `U+XXXX ` (uppercase, at least
/// four digits), concatenated in order.
pub fn to_codepoint_seq(s: String) -> (r: String)
    ensures
        r@ == spec_codepoint_seq(s@),
{
    let st = s.as_str();
    let n = st.unicode_len();
    let mut out: Vec<char> = Vec::new();
    let mut i: usize = 0;
    while i < n
        invariant
            n == st@.len(),
            st@ == s@,
            i <= n,
            out@ == spec_codepoint_seq(st@.subrange(0, i as int)),
        decreases n - i,
    {
        let ghost out0 = out@;
        let c = st.get_char(i);
        out.push('U');
        out.push('+');
        push_hex(&mut out, c as u32, 4);
        out.push(' ');
        i += 1;
        proof {
            let pre = st@.subrange(0, i as int);
            assert(pre.drop_last() =~= st@.subrange(0, i as int - 1));
            assert(pre.last() == st@[i as int - 1]);
            assert(out@ =~= ((out0 + seq!['U', '+']) + spec_hex(c as int, 4)) + seq![' ']);
            assert(out@ =~= spec_codepoint_seq(pre));
        }
    }
    proof {
        assert(st@.subrange(0, st@.len() as int) =~= st@);
    }
    let mut r = String::new();
    let mut j: usize = 0;
    while j < out.len()
        invariant
            j <= out@.len(),
            r@ == out@.subrange(0, j as int),
        decreases out@.len() - j,
    {
        push_char(&mut r, out[j]);
        j += 1;
        proof {
            assert(r@ =~= out@.subrange(0, j as int));
        }
    }
    proof {
        assert(out@.subrange(0, out@.len() as int) =~= out@);
    }
    r
}

} // verus!
