//! The owned path buffer.
use vstd::prelude::*;

use crate::consts::{PATH_MAX, PATH_MAX_PLUS_ONE};
use crate::error::Error;
use crate::model::{
    is_ascii_seq, is_valid_content, lemma_nul_len, nul_len, parse_bytes, push_spec, root,
    serialize_bytes, strip_nul, SLASH,
};
use crate::path::Path;
use crate::scan::{all_ascii, none_nul, strlen};

verus! {

/// An owned, mutable path of fixed capacity.
///
/// The first `len` bytes of `buf` are the content followed by one zero byte.
#[derive(Clone, Copy, Debug)]
pub struct PathBuf {
    buf: [u8; PATH_MAX_PLUS_ONE],
    len: usize,
}

impl View for PathBuf {
    type V = Seq<u8>;

    /// The content of the path, without the terminator.
    closed spec fn view(&self) -> Seq<u8> {
        self.buf@.take(self.len - 1)
    }
}

impl PathBuf {
    #[verifier::type_invariant]
    spec fn inv(self) -> bool {
        &&& 1 <= self.len <= PATH_MAX_PLUS_ONE
        &&& self.buf@[self.len - 1] == 0
        &&& is_valid_content(self.buf@.take(self.len - 1))
    }

    /// The empty path.
    pub fn new() -> (r: PathBuf)
        ensures
            r@ == Seq::<u8>::empty(),
    {
        let r = PathBuf { buf: [0u8; PATH_MAX_PLUS_ONE], len: 1 };
        assert(r.buf@.take(0) =~= Seq::<u8>::empty());
        r
    }

    /// Makes the path empty.
    pub fn clear(&mut self)
        ensures
            final(self)@ == Seq::<u8>::empty(),
    {
        *self = PathBuf::new();
    }

    /// A buffer that holds the content `a`.
    pub(crate) fn from_content(a: &[u8]) -> (r: PathBuf)
        requires
            is_valid_content(a@),
        ensures
            r@ == a@,
    {
        let mut buf = [0u8; PATH_MAX_PLUS_ONE];
        let n = a.len();
        let mut i: usize = 0;
        while i < n
            invariant
                n == a@.len(),
                n <= PATH_MAX,
                i <= n,
                buf@.len() == PATH_MAX_PLUS_ONE,
                forall|k: int| 0 <= k < i ==> buf@[k] == a@[k],
                forall|k: int| n <= k < PATH_MAX_PLUS_ONE ==> buf@[k] == 0,
            decreases n - i,
        {
            buf[i] = a[i];
            i += 1;
        }
        assert(buf@.take(n as int) =~= a@);
        PathBuf { buf, len: n + 1 }
    }

    /// Takes over a buffer whose content ends at its first zero byte, such as
    /// a name that the filesystem wrote; the caller guarantees that the buffer
    /// holds a zero byte and that the bytes before it are ASCII.
    pub fn from_buffer(buf: [u8; PATH_MAX_PLUS_ONE]) -> (r: PathBuf)
        requires
            nul_len(buf@) < PATH_MAX_PLUS_ONE,
            is_ascii_seq(buf@.take(nul_len(buf@) as int)),
        ensures
            r@ == buf@.take(nul_len(buf@) as int),
    {
        let len = strlen(buf.as_slice()) + 1;
        proof {
            lemma_nul_len(buf@);
        }
        PathBuf { buf, len }
    }

    /// The root path `/`.
    pub(crate) fn root() -> (r: PathBuf)
        ensures
            r@ == root(),
    {
        let mut buf = [0u8; PATH_MAX_PLUS_ONE];
        buf[0] = SLASH;
        assert(buf@.take(1) =~= root());
        PathBuf { buf, len: 2 }
    }

    /// An owned copy of `path`.
    pub fn from_path(path: &Path) -> (r: PathBuf)
        ensures
            r@ == path@,
    {
        PathBuf::from_content(path.as_bytes())
    }

    /// A path from bytes with or without one trailing terminator; the caller
    /// guarantees that `try_from_bytes` accepts them.
    pub fn from_bytes(bytes: &[u8]) -> (r: PathBuf)
        requires
            parse_bytes(bytes@) is Ok,
        ensures
            r@ == strip_nul(bytes@),
    {
        let n = bytes.len();
        let content = if n > 0 && bytes[n - 1] == 0 {
            &bytes[0..n - 1]
        } else {
            bytes
        };
        assert(content@ =~= strip_nul(bytes@));
        PathBuf::from_content(content)
    }

    /// A path from bytes with or without one trailing terminator, such as a
    /// serialized path: at most `PATH_MAX` bytes, ASCII, with no other zero byte.
    pub fn try_from_bytes(bytes: &[u8]) -> (r: Result<PathBuf, Error>)
        ensures
            parse_bytes(bytes@) == match r {
                Ok(p) => Ok(p@),
                Err(e) => Err::<Seq<u8>, Error>(e),
            },
    {
        let n = bytes.len();
        if n > PATH_MAX {
            return Err(Error::TooLarge);
        }
        let content = if n > 0 && bytes[n - 1] == 0 {
            &bytes[0..n - 1]
        } else {
            bytes
        };
        assert(content@ =~= strip_nul(bytes@));
        if !none_nul(content) {
            return Err(Error::NotCStr);
        }
        if !all_ascii(content) {
            return Err(Error::NotAscii);
        }
        Ok(PathBuf::from_content(content))
    }

    /// The bytes that stand for the path when it is serialized: its content.
    pub fn serialize_bytes(&self) -> (r: &[u8])
        ensures
            r@ == serialize_bytes(self@),
    {
        proof {
            use_type_invariant(self);
        }
        let r = &self.buf[0..self.len - 1];
        assert(r@ =~= self@);
        r
    }

    /// The path that this buffer holds.
    pub fn as_path(&self) -> (r: Path<'_>)
        ensures
            r@ == self@,
    {
        proof {
            use_type_invariant(self);
        }
        let bytes = &self.buf[0..self.len];
        proof {
            assert(bytes@.drop_last() =~= self@);
            assert(bytes@.last() == 0);
        }
        Path::from_bytes_with_nul_unchecked(bytes)
    }

    /// Appends `path`: nothing for an empty path, a reset to the root for the
    /// root path, else `path` after a separator unless this path is empty or
    /// already ends in one. The result must fit in the buffer.
    pub fn push(&mut self, path: &Path)
        requires
            push_spec(old(self)@, path@).len() <= PATH_MAX,
        ensures
            final(self)@ == push_spec(old(self)@, path@),
    {
        proof {
            use_type_invariant(&*self);
        }
        let b = path.as_bytes();
        if b.len() == 0 {
            return;
        }
        if b.len() == 1 && b[0] == SLASH {
            assert(b@ =~= root());
            *self = PathBuf::root();
            return;
        }
        assert(b@ != root());
        let cur = self.len - 1;
        let mut buf = self.buf;
        let ghost start = buf@;
        let mut pos = cur;
        if cur > 0 && buf[cur - 1] != SLASH {
            buf[pos] = SLASH;
            pos += 1;
        }
        assert(buf@.take(pos as int) =~= if pos > cur { old(self)@ + root() } else { old(self)@ });
        let ghost start = buf@;
        let n = b.len();
        let mut k: usize = 0;
        while k < n
            invariant
                n == b@.len(),
                pos + n <= PATH_MAX,
                k <= n,
                buf@.len() == PATH_MAX_PLUS_ONE,
                forall|m: int| 0 <= m < pos ==> buf@[m] == start[m],
                forall|m: int| 0 <= m < k ==> buf@[pos + m] == b@[m],
            decreases n - k,
        {
            buf[pos + k] = b[k];
            k += 1;
        }
        buf[pos + n] = 0;
        let ghost expected = push_spec(old(self)@, path@);
        assert(buf@.take((pos + n) as int) =~= expected);
        *self = PathBuf { buf, len: pos + n + 1 };
    }
}

impl Default for PathBuf {
    fn default() -> (r: PathBuf)
        ensures
            r@ == Seq::<u8>::empty(),
    {
        PathBuf::new()
    }
}

impl PartialEq for PathBuf {
    fn eq(&self, other: &PathBuf) -> (r: bool) {
        let a = self.serialize_bytes();
        let b = other.serialize_bytes();
        if a.len() != b.len() {
            return false;
        }
        let mut i: usize = 0;
        while i < a.len()
            invariant
                a@ == self@,
                b@ == other@,
                a@.len() == b@.len(),
                i <= a@.len(),
                forall|k: int| 0 <= k < i ==> a@[k] == b@[k],
            decreases a.len() - i,
        {
            if a[i] != b[i] {
                assert(a@[i as int] != b@[i as int]);
                return false;
            }
            i += 1;
        }
        assert(a@ =~= b@);
        true
    }
}

impl vstd::std_specs::cmp::PartialEqSpecImpl for PathBuf {
    open spec fn obeys_eq_spec() -> bool {
        true
    }

    open spec fn eq_spec(&self, other: &PathBuf) -> bool {
        self@ == other@
    }
}

impl Eq for PathBuf {}

} // verus!
