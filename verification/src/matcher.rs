//! Literal byte-run comparison with as few branches as possible.
//!
//! A run of `k` literal bytes is checked against a window of the input by
//! assembling both sides into one little-endian machine word and comparing
//! the words: widths 1, 2, 4 and 8 are compared in a single operation, and
//! the remaining widths are composed from those, always taking the widest
//! available piece first (3 = 2+1, 5 = 4+1, 6 = 4+2, 7 = 4+2+1). The byte
//! order of the assembled words is fixed to little-endian on every target,
//! so matching behaves identically everywhere.
//!
//! Callers guarantee that the window has at least `k` bytes left; the
//! recognizer's whole-length precheck establishes that once per input, so no
//! length check is repeated here.

use vstd::prelude::*;

verus! {

/// One byte, little-endian, as a `u16`: the degenerate word.
pub open spec fn word2_of(b0: u8, b1: u8) -> u16 {
    (b0 as u16) | ((b1 as u16) << 8)
}

/// Four bytes, little-endian, as a `u32`.
pub open spec fn word4_of(b0: u8, b1: u8, b2: u8, b3: u8) -> u32 {
    (b0 as u32) | ((b1 as u32) << 8) | ((b2 as u32) << 16) | ((b3 as u32) << 24)
}

/// Eight bytes, little-endian, as a `u64`.
pub open spec fn word8_of(b0: u8, b1: u8, b2: u8, b3: u8, b4: u8, b5: u8, b6: u8, b7: u8) -> u64 {
    (b0 as u64) | ((b1 as u64) << 8) | ((b2 as u64) << 16) | ((b3 as u64) << 24)
        | ((b4 as u64) << 32) | ((b5 as u64) << 40) | ((b6 as u64) << 48) | ((b7 as u64) << 56)
}

/// Two little-endian words agree exactly when their bytes agree pairwise.
pub proof fn lemma_word2_eq(x0: u8, x1: u8, y0: u8, y1: u8)
    by (bit_vector)
    ensures
        (word2_of(x0, x1) == word2_of(y0, y1)) <==> (x0 == y0 && x1 == y1),
{
}

/// Four-byte version of [`lemma_word2_eq`].
pub proof fn lemma_word4_eq(x0: u8, x1: u8, x2: u8, x3: u8, y0: u8, y1: u8, y2: u8, y3: u8)
    by (bit_vector)
    ensures
        (word4_of(x0, x1, x2, x3) == word4_of(y0, y1, y2, y3))
            <==> (x0 == y0 && x1 == y1 && x2 == y2 && x3 == y3),
{
}

/// Eight-byte version of [`lemma_word2_eq`].
pub proof fn lemma_word8_eq(
    x0: u8, x1: u8, x2: u8, x3: u8, x4: u8, x5: u8, x6: u8, x7: u8,
    y0: u8, y1: u8, y2: u8, y3: u8, y4: u8, y5: u8, y6: u8, y7: u8,
)
    by (bit_vector)
    ensures
        (word8_of(x0, x1, x2, x3, x4, x5, x6, x7) == word8_of(y0, y1, y2, y3, y4, y5, y6, y7))
            <==> (x0 == y0 && x1 == y1 && x2 == y2 && x3 == y3 && x4 == y4 && x5 == y5 && x6 == y6
                && x7 == y7),
{
}

/// Consume one expected byte at `pos`, advancing the cursor on a match.
pub fn expect(s: &[u8], pos: usize, value: u8) -> (r: Option<usize>)
    ensures
        pos < s@.len() && s@[pos as int] == value ==> r == Some((pos + 1) as usize),
        !(pos < s@.len() && s@[pos as int] == value) ==> r is None,
{
    if pos < s.len() && s[pos] == value {
        Some(pos + 1)
    } else {
        None
    }
}

/// Compare the two input bytes at `pos` against `a0, a1` in one 16-bit
/// comparison.
fn expect2(s: &[u8], pos: usize, a0: u8, a1: u8) -> (r: bool)
    requires
        pos + 2 <= s@.len(),
    ensures
        r <==> (s@[pos as int] == a0 && s@[pos as int + 1] == a1),
{
    let w: u16 = (s[pos] as u16) | ((s[pos + 1] as u16) << 8);
    let lit: u16 = (a0 as u16) | ((a1 as u16) << 8);
    proof {
        lemma_word2_eq(s@[pos as int], s@[pos as int + 1], a0, a1);
    }
    w == lit
}

/// Compare the four input bytes at `pos` against `a0..a3` in one 32-bit
/// comparison.
fn expect4(s: &[u8], pos: usize, a0: u8, a1: u8, a2: u8, a3: u8) -> (r: bool)
    requires
        pos + 4 <= s@.len(),
    ensures
        r <==> (s@[pos as int] == a0 && s@[pos as int + 1] == a1 && s@[pos as int + 2] == a2
            && s@[pos as int + 3] == a3),
{
    let w: u32 = (s[pos] as u32) | ((s[pos + 1] as u32) << 8) | ((s[pos + 2] as u32) << 16)
        | ((s[pos + 3] as u32) << 24);
    let lit: u32 = (a0 as u32) | ((a1 as u32) << 8) | ((a2 as u32) << 16) | ((a3 as u32) << 24);
    proof {
        lemma_word4_eq(
            s@[pos as int], s@[pos as int + 1], s@[pos as int + 2], s@[pos as int + 3],
            a0, a1, a2, a3,
        );
    }
    w == lit
}

/// Compare the eight input bytes at `pos` against `a0..a7` in one 64-bit
/// comparison.
fn expect8(
    s: &[u8], pos: usize,
    a0: u8, a1: u8, a2: u8, a3: u8, a4: u8, a5: u8, a6: u8, a7: u8,
) -> (r: bool)
    requires
        pos + 8 <= s@.len(),
    ensures
        r <==> (s@[pos as int] == a0 && s@[pos as int + 1] == a1 && s@[pos as int + 2] == a2
            && s@[pos as int + 3] == a3 && s@[pos as int + 4] == a4 && s@[pos as int + 5] == a5
            && s@[pos as int + 6] == a6 && s@[pos as int + 7] == a7),
{
    let w: u64 = (s[pos] as u64) | ((s[pos + 1] as u64) << 8) | ((s[pos + 2] as u64) << 16)
        | ((s[pos + 3] as u64) << 24) | ((s[pos + 4] as u64) << 32) | ((s[pos + 5] as u64) << 40)
        | ((s[pos + 6] as u64) << 48) | ((s[pos + 7] as u64) << 56);
    let lit: u64 = (a0 as u64) | ((a1 as u64) << 8) | ((a2 as u64) << 16) | ((a3 as u64) << 24)
        | ((a4 as u64) << 32) | ((a5 as u64) << 40) | ((a6 as u64) << 48) | ((a7 as u64) << 56);
    proof {
        lemma_word8_eq(
            s@[pos as int], s@[pos as int + 1], s@[pos as int + 2], s@[pos as int + 3],
            s@[pos as int + 4], s@[pos as int + 5], s@[pos as int + 6], s@[pos as int + 7],
            a0, a1, a2, a3, a4, a5, a6, a7,
        );
    }
    w == lit
}

/// A single differing byte makes the whole window differ from the literal.
proof fn lemma_window_mismatch(s: Seq<u8>, pos: int, lit: Seq<u8>, i: int)
    requires
        0 <= pos,
        pos + lit.len() <= s.len(),
        0 <= i < lit.len(),
        s[pos + i] != lit[i],
    ensures
        s.subrange(pos, pos + lit.len()) != lit,
{
    assert(s.subrange(pos, pos + lit.len())[i] == s[pos + i]);
}

/// Consume and verify the literal `lit` at `pos`, advancing past it on a
/// match, in word-wide pieces, widest first.
///
/// The caller must have checked the total input length already, so the
/// window is known to hold at least `lit.len()` bytes.
pub fn expect_literal(s: &[u8], pos: usize, lit: &[u8]) -> (r: Option<usize>)
    requires
        pos + lit@.len() <= s@.len(),
    ensures
        s@.subrange(pos as int, pos + lit@.len()) == lit@
            ==> r == Some((pos + lit@.len()) as usize),
        s@.subrange(pos as int, pos + lit@.len()) != lit@ ==> r is None,
{
    let mut at: usize = pos;
    let mut k: usize = 0;
    let n: usize = lit.len();
    let slen: usize = s.len();
    while k < n
        invariant
            0 <= k <= n,
            at == pos + k,
            n == lit@.len(),
            pos + n <= slen,
            slen == s@.len(),
            forall|i: int| 0 <= i < k ==> s@[pos + i] == lit@[i],
        decreases n - k,
    {
        let remaining = n - k;
        let matched: bool;
        let width: usize;
        if remaining >= 8 {
            matched = expect8(
                s, at,
                lit[k], lit[k + 1], lit[k + 2], lit[k + 3],
                lit[k + 4], lit[k + 5], lit[k + 6], lit[k + 7],
            );
            width = 8;
        } else if remaining >= 4 {
            matched = expect4(s, at, lit[k], lit[k + 1], lit[k + 2], lit[k + 3]);
            width = 4;
        } else if remaining >= 2 {
            matched = expect2(s, at, lit[k], lit[k + 1]);
            width = 2;
        } else {
            matched = s[at] == lit[k];
            width = 1;
        }
        if !matched {
            proof {
                assert(exists|i: int| k <= i < k + width && s@[pos + i] != lit@[i]);
                let i = choose|i: int| k <= i < k + width && s@[pos + i] != lit@[i];
                lemma_window_mismatch(s@, pos as int, lit@, i);
            }
            return None;
        }
        proof {
            assert(forall|i: int| k <= i < k + width ==> s@[pos + i] == lit@[i]);
        }
        k = k + width;
        at = at + width;
    }
    proof {
        assert(s@.subrange(pos as int, pos + n) =~= lit@);
    }
    Some(at)
}

/// Consume a literal from the front of a byte window.
///
/// `Some` carries the window advanced past the literal on an exact match;
/// any divergence, including a window shorter than the literal, is `None`.
/// The literal's width picks how the comparison is batched into words.
pub trait Expect<Lit: View<V = Seq<u8>>>: Sized + View<V = Seq<u8>> {
    /// Consume and verify `value` at the front of `self`.
    fn expect(self, value: &Lit) -> (r: Option<Self>)
        ensures
            value@.len() <= self@.len() && self@.subrange(0, value@.len() as int) == value@
                ==> (r matches Some(rest) && rest@ == self@.subrange(
                    value@.len() as int,
                    self@.len() as int,
                )),
            !(value@.len() <= self@.len() && self@.subrange(0, value@.len() as int) == value@)
                ==> r is None,
    ;
}

/// Shared body of the byte-window impls: check the length once, compare
/// word-wide, and advance.
fn expect_window<'a>(s: &'a [u8], lit: &[u8]) -> (r: Option<&'a [u8]>)
    ensures
        lit@.len() <= s@.len() && s@.subrange(0, lit@.len() as int) == lit@ ==> (r matches Some(
            rest,
        ) && rest@ == s@.subrange(lit@.len() as int, s@.len() as int)),
        !(lit@.len() <= s@.len() && s@.subrange(0, lit@.len() as int) == lit@) ==> r is None,
{
    if lit.len() > s.len() {
        return None;
    }
    match expect_literal(s, 0, lit) {
        Some(end) => Some(vstd::slice::slice_subrange(s, end, s.len())),
        None => None,
    }
}

impl<'a> Expect<[u8; 1]> for &'a [u8] {
    fn expect(self, value: &[u8; 1]) -> (r: Option<&'a [u8]>) {
        expect_window(self, vstd::array::array_as_slice(value))
    }
}

impl<'a> Expect<[u8; 2]> for &'a [u8] {
    fn expect(self, value: &[u8; 2]) -> (r: Option<&'a [u8]>) {
        expect_window(self, vstd::array::array_as_slice(value))
    }
}

impl<'a> Expect<[u8; 3]> for &'a [u8] {
    fn expect(self, value: &[u8; 3]) -> (r: Option<&'a [u8]>) {
        expect_window(self, vstd::array::array_as_slice(value))
    }
}

impl<'a> Expect<[u8; 4]> for &'a [u8] {
    fn expect(self, value: &[u8; 4]) -> (r: Option<&'a [u8]>) {
        expect_window(self, vstd::array::array_as_slice(value))
    }
}

impl<'a> Expect<[u8; 5]> for &'a [u8] {
    fn expect(self, value: &[u8; 5]) -> (r: Option<&'a [u8]>) {
        expect_window(self, vstd::array::array_as_slice(value))
    }
}

impl<'a> Expect<[u8; 6]> for &'a [u8] {
    fn expect(self, value: &[u8; 6]) -> (r: Option<&'a [u8]>) {
        expect_window(self, vstd::array::array_as_slice(value))
    }
}

impl<'a> Expect<[u8; 7]> for &'a [u8] {
    fn expect(self, value: &[u8; 7]) -> (r: Option<&'a [u8]>) {
        expect_window(self, vstd::array::array_as_slice(value))
    }
}

impl<'a> Expect<[u8; 8]> for &'a [u8] {
    fn expect(self, value: &[u8; 8]) -> (r: Option<&'a [u8]>) {
        expect_window(self, vstd::array::array_as_slice(value))
    }
}

} // verus!
