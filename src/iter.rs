//! Lazy iterators over the ancestors and the components of a path.
use vstd::prelude::*;

use crate::buf::PathBuf;
use crate::model::{ancestor_tail, component_step, is_valid_content, root, SLASH};
use crate::scan::{seg_end, tail_start};

verus! {

/// Iterator over the ancestors of a path: the path itself, then each parent in
/// turn.
pub struct Ancestors<'a> {
    path: &'a [u8],
}

impl<'a> View for Ancestors<'a> {
    type V = Seq<u8>;

    /// The path whose ancestors are still to come.
    closed spec fn view(&self) -> Seq<u8> {
        self.path@
    }
}

impl<'a> Ancestors<'a> {
    #[verifier::type_invariant]
    spec fn inv(self) -> bool {
        is_valid_content(self.path@)
    }

    pub(crate) fn new(path: &'a [u8]) -> (r: Ancestors<'a>)
        requires
            is_valid_content(path@),
        ensures
            r@ == path@,
    {
        Ancestors { path }
    }

    /// Yields the path that remains, then keeps its parent (the empty path when
    /// there is none).
    pub fn next(&mut self) -> (r: Option<PathBuf>)
        ensures
            old(self)@.len() == 0 ==> (r is None) && final(self)@ == old(self)@,
            old(self)@.len() > 0 ==> (r is Some) && r->Some_0@ == old(self)@
                && final(self)@ == ancestor_tail(old(self)@),
    {
        proof {
            use_type_invariant(&*self);
        }
        let p = self.path;
        let n = p.len();
        if n == 0 {
            return None;
        }
        let item = PathBuf::from_content(p);
        let mut end = n;
        assert(p@.take(n as int) =~= p@);
        loop
            invariant
                p@ == old(self)@,
                item@ == p@,
                0 < end <= n == p@.len(),
                is_valid_content(p@),
                ancestor_tail(p@.take(end as int)) == ancestor_tail(p@),
            decreases end,
        {
            if end == 1 && p[0] == SLASH {
                assert(p@.take(1) =~= root());
                self.path = &p[0..0];
                assert(self.path@ =~= Seq::<u8>::empty());
                return Some(item);
            }
            let j = tail_start(p, end);
            if j == 0 {
                self.path = &p[0..0];
                assert(self.path@ =~= Seq::<u8>::empty());
                return Some(item);
            }
            let i = j - 1;
            if i == 0 {
                self.path = &p[0..1];
                assert(self.path@ =~= root());
                return Some(item);
            }
            assert(p@.take(end as int).take(i as int) =~= p@.take(i as int));
            if j == end {
                end = i;
            } else {
                self.path = &p[0..i];
                return Some(item);
            }
        }
    }
}

/// Iterator over the components of a path: a leading `/` as a component of its
/// own, then each `/`-delimited segment from left to right.
pub struct Iter<'a> {
    path: &'a [u8],
}

impl<'a> View for Iter<'a> {
    type V = Seq<u8>;

    /// The rest of the path whose components are still to come.
    closed spec fn view(&self) -> Seq<u8> {
        self.path@
    }
}

impl<'a> Iter<'a> {
    #[verifier::type_invariant]
    spec fn inv(self) -> bool {
        is_valid_content(self.path@)
    }

    pub(crate) fn new(path: &'a [u8]) -> (r: Iter<'a>)
        requires
            is_valid_content(path@),
        ensures
            r@ == path@,
    {
        Iter { path }
    }

    /// Yields the next component and keeps the rest of the path.
    pub fn next(&mut self) -> (r: Option<PathBuf>)
        ensures
            old(self)@.len() == 0 ==> (r is None) && final(self)@ == old(self)@,
            old(self)@.len() > 0 ==> (r is Some) && r->Some_0@ == component_step(old(self)@).0
                && final(self)@ == component_step(old(self)@).1,
    {
        proof {
            use_type_invariant(&*self);
        }
        let p = self.path;
        let n = p.len();
        if n == 0 {
            return None;
        }
        if p[0] == SLASH {
            self.path = &p[1..n];
            assert(self.path@ =~= p@.drop_first());
            return Some(PathBuf::root());
        }
        let k = seg_end(p);
        if k >= n {
            self.path = &p[0..0];
            assert(self.path@ =~= Seq::<u8>::empty());
            return Some(PathBuf::from_content(p));
        }
        let seg = &p[0..k];
        self.path = &p[k + 1..n];
        assert(self.path@ =~= p@.skip(k + 1));
        assert(seg@ =~= p@.take(k as int));
        Some(PathBuf::from_content(seg))
    }
}

} // verus!
