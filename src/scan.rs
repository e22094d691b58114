//! Executable scans over byte slices, each matching a definition of the model.
use vstd::prelude::*;

use crate::model::{
    has_no_nul, is_ascii_seq, lemma_nul_len, lemma_seg_len, lemma_tail_len, nul_len, seg_len,
    tail_len, SLASH,
};

verus! {

/// Whether every byte of `a` is ASCII.
pub(crate) fn all_ascii(a: &[u8]) -> (r: bool)
    ensures
        r == is_ascii_seq(a@),
{
    let mut i: usize = 0;
    while i < a.len()
        invariant
            i <= a@.len(),
            forall|k: int| 0 <= k < i ==> a@[k] < 128,
        decreases a.len() - i,
    {
        if a[i] >= 128 {
            return false;
        }
        i += 1;
    }
    true
}

/// Whether no byte of `a` is zero.
pub(crate) fn none_nul(a: &[u8]) -> (r: bool)
    ensures
        r == has_no_nul(a@),
{
    let mut i: usize = 0;
    while i < a.len()
        invariant
            i <= a@.len(),
            forall|k: int| 0 <= k < i ==> a@[k] != 0,
        decreases a.len() - i,
    {
        if a[i] == 0 {
            return false;
        }
        i += 1;
    }
    true
}

/// Where the final segment of the first `end` bytes of `a` starts.
pub(crate) fn tail_start(a: &[u8], end: usize) -> (j: usize)
    requires
        end <= a@.len(),
    ensures
        j + tail_len(a@.take(end as int)) == end,
        j > 0 ==> a@[j - 1] == SLASH,
{
    let mut j = end;
    while j > 0 && a[j - 1] != SLASH
        invariant
            j <= end <= a@.len(),
            forall|k: int| j <= k < end ==> a@[k] != SLASH,
        decreases j,
    {
        j -= 1;
    }
    proof {
        let s = a@.take(end as int);
        lemma_tail_len(s);
        let t = tail_len(s);
        if t > end - j {
            assert(s[j - 1] != SLASH);
        }
        if t < end - j {
            assert(s[end - t - 1] == SLASH);
        }
    }
    j
}

/// Number of bytes of `a` before its first zero byte.
pub(crate) fn strlen(a: &[u8]) -> (n: usize)
    ensures
        n == nul_len(a@),
{
    let mut n: usize = 0;
    while n < a.len() && a[n] != 0
        invariant
            n <= a@.len(),
            forall|m: int| 0 <= m < n ==> a@[m] != 0,
        decreases a.len() - n,
    {
        n += 1;
    }
    proof {
        lemma_nul_len(a@);
        let t = nul_len(a@);
        if t > n {
            assert(a@[n as int] != 0);
        }
        if t < n {
            assert(a@[t as int] == 0);
        }
    }
    n
}

/// Length of the first segment of `a`.
pub(crate) fn seg_end(a: &[u8]) -> (k: usize)
    ensures
        k == seg_len(a@),
{
    let mut k: usize = 0;
    while k < a.len() && a[k] != SLASH
        invariant
            k <= a@.len(),
            forall|m: int| 0 <= m < k ==> a@[m] != SLASH,
        decreases a.len() - k,
    {
        k += 1;
    }
    proof {
        lemma_seg_len(a@);
        let t = seg_len(a@);
        if t > k {
            assert(a@[k as int] != SLASH);
        }
        if t < k {
            assert(a@[t as int] == SLASH);
        }
    }
    k
}

} // verus!
