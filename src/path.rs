//! The borrowed path view.
use vstd::prelude::*;

use core::cmp::Ordering;
use vstd::string::StringSliceAdditionalSpecFns;

use crate::buf::PathBuf;
use crate::consts::PATH_MAX;
use crate::error::Error;
use crate::iter::{Ancestors, Iter};
use crate::model::{
    ascii_chars, check_with_nul, cmp_lfs_spec, cmp_str_spec, file_name_spec, is_ascii_seq, is_cstr,
    is_valid_content, parent_spec, push_spec, SLASH,
};
use crate::scan::{all_ascii, none_nul, tail_start};

verus! {

/// A path: a validated view of ASCII bytes that end in one zero byte.
///
/// The content (the bytes without the terminator) holds no zero byte and is
/// at most `PATH_MAX` bytes long.
#[derive(PartialEq, Eq, Debug, Clone, Copy)]
pub struct Path<'a> {
    inner: &'a [u8],
}

impl<'a> View for Path<'a> {
    type V = Seq<u8>;

    /// The content of the path, without the terminator.
    closed spec fn view(&self) -> Seq<u8> {
        self.inner@.drop_last()
    }
}

/// Relies on core::str::from_utf8: ASCII bytes are valid UTF-8, and each
/// byte decodes to the character of the same value.
#[verifier::external_body]
fn ascii_str<'b>(b: &'b [u8]) -> (r: &'b str)
    requires
        is_ascii_seq(b@),
    ensures
        r@ == ascii_chars(b@),
{
    match core::str::from_utf8(b) {
        Ok(s) => s,
        Err(_) => "",
    }
}

impl<'a> Path<'a> {
    #[verifier::type_invariant]
    spec fn inv(self) -> bool {
        &&& is_cstr(self.inner@)
        &&& is_valid_content(self.inner@.drop_last())
    }

    /// Compares two paths by their content, in byte-lexicographic order.
    pub fn cmp_str(&self, other: &Path) -> (r: Ordering)
        ensures
            r == cmp_str_spec(self@, other@),
    {
        let a = self.as_bytes();
        let b = other.as_bytes();
        let mut i: usize = 0;
        assert(a@.skip(0) =~= a@);
        assert(b@.skip(0) =~= b@);
        while i < a.len() && i < b.len()
            invariant
                a@ == self@,
                b@ == other@,
                i <= a@.len(),
                i <= b@.len(),
                cmp_str_spec(a@, b@) == cmp_str_spec(a@.skip(i as int), b@.skip(i as int)),
            decreases a.len() - i,
        {
            assert(a@.skip(i as int)[0] == a@[i as int]);
            assert(b@.skip(i as int)[0] == b@[i as int]);
            if a[i] < b[i] {
                return Ordering::Less;
            } else if a[i] > b[i] {
                return Ordering::Greater;
            }
            assert(a@.skip(i as int).drop_first() =~= a@.skip(i + 1));
            assert(b@.skip(i as int).drop_first() =~= b@.skip(i + 1));
            i += 1;
        }
        if a.len() == b.len() {
            Ordering::Equal
        } else if a.len() < b.len() {
            Ordering::Less
        } else {
            Ordering::Greater
        }
    }

    /// Compares two paths in the order in which the filesystem enumerates a
    /// directory: byte-lexicographic, except that a strict prefix comes last.
    pub fn cmp_lfs(&self, other: &Path) -> (r: Ordering)
        ensures
            r == cmp_lfs_spec(self@, other@),
    {
        let a = self.as_bytes();
        let b = other.as_bytes();
        let mut i: usize = 0;
        assert(a@.skip(0) =~= a@);
        assert(b@.skip(0) =~= b@);
        while i < a.len() && i < b.len()
            invariant
                a@ == self@,
                b@ == other@,
                i <= a@.len(),
                i <= b@.len(),
                cmp_lfs_spec(a@, b@) == cmp_lfs_spec(a@.skip(i as int), b@.skip(i as int)),
            decreases a.len() - i,
        {
            assert(a@.skip(i as int)[0] == a@[i as int]);
            assert(b@.skip(i as int)[0] == b@[i as int]);
            if a[i] < b[i] {
                return Ordering::Less;
            } else if a[i] > b[i] {
                return Ordering::Greater;
            }
            assert(a@.skip(i as int).drop_first() =~= a@.skip(i + 1));
            assert(b@.skip(i as int).drop_first() =~= b@.skip(i + 1));
            i += 1;
        }
        if a.len() == b.len() {
            Ordering::Equal
        } else if a.len() < b.len() {
            Ordering::Greater
        } else {
            Ordering::Less
        }
    }

    /// Whether the path is empty.
    pub fn is_empty(&self) -> (r: bool)
        ensures
            r == (self@.len() == 0),
    {
        proof {
            use_type_invariant(self);
        }
        self.inner.len() == 1
    }

    /// The content of the path, without the terminator.
    pub fn as_bytes(&self) -> (r: &'a [u8])
        ensures
            r@ == self@,
            is_valid_content(r@),
    {
        proof {
            use_type_invariant(self);
        }
        let n = self.inner.len() - 1;
        let r = &self.inner[0..n];
        assert(r@ =~= self@);
        r
    }

    /// The bytes of the path, terminator included.
    pub fn as_bytes_with_nul(&self) -> (r: &'a [u8])
        ensures
            r@ == self@.push(0),
    {
        proof {
            use_type_invariant(self);
            assert(self.inner@ =~= self@.push(0));
        }
        self.inner
    }

    /// The final segment of the path; `None` when the path is empty or ends in
    /// a separator.
    pub fn file_name(&self) -> (r: Option<Path<'a>>)
        ensures
            file_name_spec(self@) == match r {
                Some(p) => Some(p@),
                None => None::<Seq<u8>>,
            },
    {
        proof {
            use_type_invariant(self);
        }
        let n = self.inner.len() - 1;
        if n == 0 || self.inner[n - 1] == SLASH {
            return None;
        }
        let j = tail_start(self.inner, n);
        assert(self.inner@.take(n as int) =~= self@);
        let inner = &self.inner[j..n + 1];
        proof {
            assert(inner@.drop_last() =~= self@.skip(j as int));
            assert(inner@.last() == 0);
        }
        Some(Path { inner })
    }

    /// Iterates over the ancestors of the path: the path itself, then each
    /// parent in turn.
    pub fn ancestors(&self) -> (r: Ancestors<'a>)
        ensures
            r@ == self@,
    {
        proof {
            use_type_invariant(self);
        }
        Ancestors::new(self.as_bytes())
    }

    /// Iterates over the components of the path.
    pub fn iter(&self) -> (r: Iter<'a>)
        ensures
            r@ == self@,
    {
        proof {
            use_type_invariant(self);
        }
        Iter::new(self.as_bytes())
    }

    /// Checks that `bytes` are a C string of ASCII bytes with a content of at
    /// most `PATH_MAX` bytes, and views them as a path. The empty path (a lone
    /// terminator) is accepted.
    pub fn from_bytes_with_nul(bytes: &'a [u8]) -> (r: Result<Path<'a>, Error>)
        ensures
            check_with_nul(bytes@) == match r {
                Ok(p) => Ok(p@),
                Err(e) => Err::<Seq<u8>, Error>(e),
            },
    {
        let n = bytes.len();
        if n == 0 {
            return Err(Error::NotCStr);
        }
        let content = &bytes[0..n - 1];
        assert(content@ =~= bytes@.drop_last());
        if bytes[n - 1] != 0 || !none_nul(content) {
            return Err(Error::NotCStr);
        }
        if n - 1 > PATH_MAX {
            return Err(Error::TooLarge);
        }
        if !all_ascii(content) {
            return Err(Error::NotAscii);
        }
        Ok(Path { inner: bytes })
    }

    /// Views `bytes` as a path; the caller guarantees that they pass the
    /// checks of `from_bytes_with_nul`.
    pub fn from_bytes_with_nul_unchecked(bytes: &'a [u8]) -> (r: Path<'a>)
        requires
            check_with_nul(bytes@) is Ok,
        ensures
            r@ == bytes@.drop_last(),
    {
        Path { inner: bytes }
    }

    /// Views the bytes of `s` as a path; the caller guarantees that they pass
    /// the checks of `from_bytes_with_nul`.
    pub fn from_str_with_nul(s: &'a str) -> (r: Path<'a>)
        requires
            check_with_nul(s.spec_bytes()) is Ok,
        ensures
            r@ == s.spec_bytes().drop_last(),
    {
        Path { inner: s.as_bytes() }
    }

    /// A new owned path: `other` appended to this one.
    pub fn join(&self, other: &Path) -> (r: PathBuf)
        requires
            push_spec(self@, other@).len() <= PATH_MAX,
        ensures
            r@ == push_spec(self@, other@),
    {
        let mut p = PathBuf::from_path(self);
        p.push(other);
        p
    }

    /// The content of the path as a string.
    pub fn as_str(&self) -> (r: &'a str)
        ensures
            r@ == ascii_chars(self@),
    {
        proof {
            use_type_invariant(self);
        }
        ascii_str(self.as_bytes())
    }

    /// The path as a string, terminator included.
    pub fn as_str_ref_with_trailing_nul(&self) -> (r: &'a str)
        ensures
            r@ == ascii_chars(self@.push(0)),
    {
        proof {
            use_type_invariant(self);
            assert(self.inner@ =~= self@.push(0));
        }
        ascii_str(self.inner)
    }

    /// The parent of the path: its final segment removed; `None` when no
    /// separator is left to remove.
    pub fn parent(&self) -> (r: Option<PathBuf>)
        ensures
            parent_spec(self@) == match r {
                Some(p) => Some(p@),
                None => None::<Seq<u8>>,
            },
    {
        proof {
            use_type_invariant(self);
        }
        let a = self.as_bytes();
        let mut end = a.len();
        assert(a@.take(end as int) =~= a@);
        loop
            invariant
                a@ == self@,
                end <= a@.len(),
                is_valid_content(a@),
                parent_spec(a@.take(end as int)) == parent_spec(self@),
            decreases end,
        {
            let j = tail_start(a, end);
            if j == 0 {
                return None;
            }
            let i = j - 1;
            if i == 0 && end != 1 {
                return Some(PathBuf::root());
            }
            assert(a@.take(end as int).take(i as int) =~= a@.take(i as int));
            if j == end {
                end = i;
            } else {
                let head = &a[0..i];
                assert(head@ =~= a@.take(i as int));
                return Some(PathBuf::from_content(head));
            }
        }
    }
}

} // verus!
