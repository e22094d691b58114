//! Mathematical model of paths: every path is described by its content, the
//! sequence of bytes it holds without the terminating zero byte.
use vstd::prelude::*;

use core::cmp::Ordering;

use crate::consts::PATH_MAX;
use crate::error::Error;

verus! {

/// The separator byte `/`.
pub const SLASH: u8 = 47;

/// Every byte of `s` is 7-bit ASCII.
pub open spec fn is_ascii_seq(s: Seq<u8>) -> bool {
    forall|i: int| 0 <= i < s.len() ==> #[trigger] s[i] < 128
}

/// No byte of `s` is zero.
pub open spec fn has_no_nul(s: Seq<u8>) -> bool {
    forall|i: int| 0 <= i < s.len() ==> #[trigger] s[i] != 0
}

/// `s` is the content of a valid path: ASCII, free of zero bytes, and short enough.
pub open spec fn is_valid_content(s: Seq<u8>) -> bool {
    &&& s.len() <= PATH_MAX
    &&& is_ascii_seq(s)
    &&& has_no_nul(s)
}

/// `b` is a C string: its one zero byte is its last byte.
pub open spec fn is_cstr(b: Seq<u8>) -> bool {
    &&& b.len() > 0
    &&& b.last() == 0
    &&& has_no_nul(b.drop_last())
}

/// What checking bytes that end in a terminator gives: the content, or the
/// first failed check in the order C string, length, ASCII.
pub open spec fn check_with_nul(b: Seq<u8>) -> Result<Seq<u8>, Error> {
    if !is_cstr(b) {
        Err(Error::NotCStr)
    } else if b.len() - 1 > PATH_MAX {
        Err(Error::TooLarge)
    } else if !is_ascii_seq(b.drop_last()) {
        Err(Error::NotAscii)
    } else {
        Ok(b.drop_last())
    }
}

/// `b` without its last byte when that byte is zero, else `b` itself.
pub open spec fn strip_nul(b: Seq<u8>) -> Seq<u8> {
    if b.len() > 0 && b.last() == 0 {
        b.drop_last()
    } else {
        b
    }
}

/// What reading serialized bytes (with or without one terminator) gives.
pub open spec fn parse_bytes(b: Seq<u8>) -> Result<Seq<u8>, Error> {
    if b.len() > PATH_MAX {
        Err(Error::TooLarge)
    } else if !has_no_nul(strip_nul(b)) {
        Err(Error::NotCStr)
    } else if !is_ascii_seq(strip_nul(b)) {
        Err(Error::NotAscii)
    } else {
        Ok(strip_nul(b))
    }
}

/// The bytes that stand for a path when it is serialized: its content.
pub open spec fn serialize_bytes(s: Seq<u8>) -> Seq<u8> {
    s
}

/// Number of bytes after the last separator of `s` (all of `s` when it has none).
pub open spec fn tail_len(s: Seq<u8>) -> nat
    decreases s.len(),
{
    if s.len() == 0 || s.last() == SLASH {
        0
    } else {
        1 + tail_len(s.drop_last())
    }
}

/// Number of bytes before the first separator of `s` (all of `s` when it has none).
pub open spec fn seg_len(s: Seq<u8>) -> nat
    decreases s.len(),
{
    if s.len() == 0 || s[0] == SLASH {
        0
    } else {
        1 + seg_len(s.drop_first())
    }
}

/// Number of bytes before the first zero byte of `s` (all of `s` when it has none).
pub open spec fn nul_len(s: Seq<u8>) -> nat
    decreases s.len(),
{
    if s.len() == 0 || s[0] == 0 {
        0
    } else {
        1 + nul_len(s.drop_first())
    }
}

/// The root path `/`.
pub open spec fn root() -> Seq<u8> {
    seq![SLASH]
}

/// The parent of a path: its final segment removed, skipping an empty final
/// segment left by a trailing separator; `None` when no separator is left.
pub open spec fn parent_spec(s: Seq<u8>) -> Option<Seq<u8>>
    decreases s.len(),
{
    let t = tail_len(s);
    if t >= s.len() {
        None
    } else {
        let i = s.len() - t - 1;
        if i == 0 && s.len() != 1 {
            Some(root())
        } else if t == 0 {
            parent_spec(s.take(i))
        } else {
            Some(s.take(i))
        }
    }
}

/// The rest of the path that the ancestors iterator holds after it has
/// yielded `s`.
pub open spec fn ancestor_tail(s: Seq<u8>) -> Seq<u8>
    decreases s.len(),
{
    let t = tail_len(s);
    if s.len() == 0 || s == root() || t >= s.len() {
        Seq::empty()
    } else {
        let i = s.len() - t - 1;
        if i == 0 {
            root()
        } else if t == 0 {
            ancestor_tail(s.take(i))
        } else {
            s.take(i)
        }
    }
}

/// The final segment of a path, unless the path is empty or ends in a separator.
pub open spec fn file_name_spec(s: Seq<u8>) -> Option<Seq<u8>> {
    if s.len() == 0 || s.last() == SLASH {
        None
    } else {
        Some(s.skip(s.len() - tail_len(s)))
    }
}

/// One step of the components iterator on a non-empty `s`: the component it
/// yields and the rest it keeps.
pub open spec fn component_step(s: Seq<u8>) -> (Seq<u8>, Seq<u8>) {
    let k: int = seg_len(s) as int;
    if s[0] == SLASH {
        (root(), s.drop_first())
    } else if k >= s.len() {
        (s, Seq::empty())
    } else {
        (s.take(k), s.skip(k + 1))
    }
}

/// All components of a path, in the order the components iterator yields them.
pub open spec fn components(s: Seq<u8>) -> Seq<Seq<u8>>
    decreases s.len(),
{
    if s.len() == 0 {
        Seq::empty()
    } else {
        let k: int = seg_len(s) as int;
        if s[0] == SLASH {
            seq![root()] + components(s.drop_first())
        } else if k >= s.len() {
            seq![s]
        } else {
            seq![s.take(k)] + components(s.skip(k + 1))
        }
    }
}

/// Components joined back: a root component stands for itself, other
/// components are followed by a separator unless they come last.
pub open spec fn rejoin(cs: Seq<Seq<u8>>) -> Seq<u8>
    decreases cs.len(),
{
    if cs.len() == 0 {
        Seq::empty()
    } else if cs[0] == root() {
        root() + rejoin(cs.drop_first())
    } else if cs.len() == 1 {
        cs[0]
    } else {
        cs[0] + root() + rejoin(cs.drop_first())
    }
}

/// Byte-lexicographic order; a strict prefix comes first.
pub open spec fn cmp_str_spec(a: Seq<u8>, b: Seq<u8>) -> Ordering
    decreases a.len(),
{
    if a.len() == 0 {
        if b.len() == 0 {
            Ordering::Equal
        } else {
            Ordering::Less
        }
    } else if b.len() == 0 {
        Ordering::Greater
    } else if a[0] < b[0] {
        Ordering::Less
    } else if a[0] > b[0] {
        Ordering::Greater
    } else {
        cmp_str_spec(a.drop_first(), b.drop_first())
    }
}

/// Directory enumeration order of the filesystem: byte-lexicographic, except
/// that a strict prefix comes last.
pub open spec fn cmp_lfs_spec(a: Seq<u8>, b: Seq<u8>) -> Ordering
    decreases a.len(),
{
    if a.len() == 0 {
        if b.len() == 0 {
            Ordering::Equal
        } else {
            Ordering::Greater
        }
    } else if b.len() == 0 {
        Ordering::Less
    } else if a[0] < b[0] {
        Ordering::Less
    } else if a[0] > b[0] {
        Ordering::Greater
    } else {
        cmp_lfs_spec(a.drop_first(), b.drop_first())
    }
}

/// `a` with `b` appended: nothing for an empty `b`, the root for a root `b`,
/// else `b` after a separator unless `a` is empty or already ends in one.
pub open spec fn push_spec(a: Seq<u8>, b: Seq<u8>) -> Seq<u8> {
    if b.len() == 0 {
        a
    } else if b == root() {
        root()
    } else if a.len() > 0 && a.last() != SLASH {
        a + root() + b
    } else {
        a + b
    }
}

/// The characters that ASCII bytes stand for, one for each byte.
pub open spec fn ascii_chars(b: Seq<u8>) -> Seq<char> {
    b.map_values(|x: u8| x as char)
}

/// What `tail_len` counts: the bytes after the last separator.
pub proof fn lemma_tail_len(s: Seq<u8>)
    ensures
        tail_len(s) <= s.len(),
        forall|j: int| s.len() - tail_len(s) <= j < s.len() ==> s[j] != SLASH,
        tail_len(s) < s.len() ==> s[s.len() - tail_len(s) - 1] == SLASH,
    decreases s.len(),
{
    if s.len() > 0 && s.last() != SLASH {
        let d = s.drop_last();
        lemma_tail_len(d);
        assert forall|j: int| s.len() - tail_len(s) <= j < s.len() implies s[j] != SLASH by {
            if j < s.len() - 1 {
                assert(s[j] == d[j]);
            }
        }
    }
}

/// What `nul_len` counts: the bytes before the first zero byte.
pub proof fn lemma_nul_len(s: Seq<u8>)
    ensures
        nul_len(s) <= s.len(),
        forall|j: int| 0 <= j < nul_len(s) ==> s[j] != 0,
        nul_len(s) < s.len() ==> s[nul_len(s) as int] == 0,
    decreases s.len(),
{
    if s.len() > 0 && s[0] != 0 {
        let d = s.drop_first();
        lemma_nul_len(d);
        assert forall|j: int| 0 <= j < nul_len(s) implies s[j] != 0 by {
            if j > 0 {
                assert(s[j] == d[j - 1]);
            }
        }
    }
}

/// What `seg_len` counts: the bytes before the first separator.
pub proof fn lemma_seg_len(s: Seq<u8>)
    ensures
        seg_len(s) <= s.len(),
        forall|j: int| 0 <= j < seg_len(s) ==> s[j] != SLASH,
        seg_len(s) < s.len() ==> s[seg_len(s) as int] == SLASH,
    decreases s.len(),
{
    if s.len() > 0 && s[0] != SLASH {
        let d = s.drop_first();
        lemma_seg_len(d);
        assert forall|j: int| 0 <= j < seg_len(s) implies s[j] != SLASH by {
            if j > 0 {
                assert(s[j] == d[j - 1]);
            }
        }
    }
}

} // verus!
