//! Properties that relate the operations of the library, proved over the model.
use vstd::prelude::*;

use core::cmp::Ordering;

use crate::model::{
    ancestor_tail, cmp_lfs_spec, cmp_str_spec, components, has_no_nul, is_valid_content,
    lemma_seg_len, lemma_tail_len, parent_spec, parse_bytes, rejoin, root, seg_len,
    serialize_bytes, strip_nul, tail_len, SLASH,
};

verus! {

/// The order `o` seen from the other side.
pub open spec fn flip(o: Ordering) -> Ordering {
    match o {
        Ordering::Less => Ordering::Greater,
        Ordering::Equal => Ordering::Equal,
        Ordering::Greater => Ordering::Less,
    }
}

/// `a` is a prefix of `b`.
pub open spec fn is_prefix(a: Seq<u8>, b: Seq<u8>) -> bool {
    a.len() <= b.len() && b.take(a.len() as int) == a
}

/// Reading back the serialized bytes of a valid path gives the same path.
pub proof fn lemma_parse_serialize(s: Seq<u8>)
    requires
        is_valid_content(s),
    ensures
        parse_bytes(serialize_bytes(s)) == Ok::<Seq<u8>, crate::error::Error>(s),
{
    if s.len() > 0 {
        assert(s[s.len() - 1] != 0);
    }
    assert(strip_nul(s) == s);
}

/// String order is a strict total order: it is antisymmetric, says `Equal`
/// exactly of equal paths, and is transitive.
pub proof fn lemma_cmp_str_total(a: Seq<u8>, b: Seq<u8>, c: Seq<u8>)
    ensures
        cmp_str_spec(a, b) == flip(cmp_str_spec(b, a)),
        (cmp_str_spec(a, b) == Ordering::Equal) == (a == b),
        cmp_str_spec(a, b) == Ordering::Less && cmp_str_spec(b, c) == Ordering::Less
            ==> cmp_str_spec(a, c) == Ordering::Less,
    decreases a.len(),
{
    if a.len() > 0 && b.len() > 0 {
        let (a1, b1) = (a.drop_first(), b.drop_first());
        if c.len() > 0 {
            lemma_cmp_str_total(a1, b1, c.drop_first());
        } else {
            lemma_cmp_str_total(a1, b1, c);
        }
        if a[0] == b[0] {
            assert(cmp_str_spec(a, b) == cmp_str_spec(a1, b1));
            if a1 == b1 {
                assert(a =~= seq![a[0]] + a1);
                assert(b =~= seq![b[0]] + b1);
            }
        } else {
            assert(a != b);
        }
    } else if a.len() == 0 && b.len() == 0 {
        assert(a =~= b);
    }
}

/// Filesystem order is a strict total order: it is antisymmetric, says
/// `Equal` exactly of equal paths, and is transitive.
pub proof fn lemma_cmp_lfs_total(a: Seq<u8>, b: Seq<u8>, c: Seq<u8>)
    ensures
        cmp_lfs_spec(a, b) == flip(cmp_lfs_spec(b, a)),
        (cmp_lfs_spec(a, b) == Ordering::Equal) == (a == b),
        cmp_lfs_spec(a, b) == Ordering::Less && cmp_lfs_spec(b, c) == Ordering::Less
            ==> cmp_lfs_spec(a, c) == Ordering::Less,
    decreases a.len(),
{
    if a.len() > 0 && b.len() > 0 {
        let (a1, b1) = (a.drop_first(), b.drop_first());
        if c.len() > 0 {
            lemma_cmp_lfs_total(a1, b1, c.drop_first());
        } else {
            lemma_cmp_lfs_total(a1, b1, c);
        }
        if a[0] == b[0] {
            assert(cmp_lfs_spec(a, b) == cmp_lfs_spec(a1, b1));
            if a1 == b1 {
                assert(a =~= seq![a[0]] + a1);
                assert(b =~= seq![b[0]] + b1);
            }
        } else {
            assert(a != b);
        }
    } else if a.len() == 0 && b.len() == 0 {
        assert(a =~= b);
    }
}

/// On two paths neither of which is a prefix of the other, the two orders agree.
pub proof fn lemma_orders_agree(a: Seq<u8>, b: Seq<u8>)
    requires
        !is_prefix(a, b),
        !is_prefix(b, a),
    ensures
        cmp_str_spec(a, b) == cmp_lfs_spec(a, b),
    decreases a.len(),
{
    if a.len() == 0 {
        assert(b.take(0) =~= a);
    } else if b.len() == 0 {
        assert(a.take(0) =~= b);
    } else if a[0] == b[0] {
        let (a1, b1) = (a.drop_first(), b.drop_first());
        if is_prefix(a1, b1) {
            assert(b.take(a.len() as int) =~= seq![b[0]] + b1.take(a1.len() as int));
            assert(a =~= seq![a[0]] + a1);
        }
        if is_prefix(b1, a1) {
            assert(a.take(b.len() as int) =~= seq![a[0]] + a1.take(b1.len() as int));
            assert(b =~= seq![b[0]] + b1);
        }
        lemma_orders_agree(a1, b1);
    }
}

/// Where one path is a strict prefix of the other, the orders disagree: string
/// order puts the shorter first, filesystem order puts it last.
pub proof fn lemma_orders_disagree_on_prefix(a: Seq<u8>, b: Seq<u8>)
    requires
        is_prefix(a, b),
        a.len() < b.len(),
    ensures
        cmp_str_spec(a, b) == Ordering::Less,
        cmp_lfs_spec(a, b) == Ordering::Greater,
        cmp_str_spec(b, a) == Ordering::Greater,
        cmp_lfs_spec(b, a) == Ordering::Less,
    decreases a.len(),
{
    if a.len() > 0 {
        let (a1, b1) = (a.drop_first(), b.drop_first());
        assert(a[0] == b.take(a.len() as int)[0]);
        assert(b1.take(a1.len() as int) =~= b.take(a.len() as int).drop_first());
        lemma_orders_disagree_on_prefix(a1, b1);
    }
}

/// The rest that the ancestors iterator keeps after yielding a path is that
/// path's parent, or the empty path when it has none; a parent is never empty.
pub proof fn lemma_ancestor_is_parent(s: Seq<u8>)
    ensures
        ancestor_tail(s) == match parent_spec(s) {
            Some(p) => p,
            None => Seq::<u8>::empty(),
        },
        parent_spec(s) != Some(Seq::<u8>::empty()),
    decreases s.len(),
{
    lemma_tail_len(s);
    let t = tail_len(s);
    if s.len() > 0 && t < s.len() {
        let i = s.len() - t - 1;
        if s == root() {
            assert(t == 0);
            assert(s.take(0) =~= Seq::<u8>::empty());
            assert(parent_spec(Seq::<u8>::empty()) is None);
            assert(parent_spec(s) is None);
        } else if i == 0 {
            assert(s.len() != 1) by {
                if s.len() == 1 {
                    assert(s =~= root());
                }
            }
        } else if t == 0 {
            lemma_ancestor_is_parent(s.take(i));
            assert(parent_spec(s) == parent_spec(s.take(i)));
            assert(ancestor_tail(s) == ancestor_tail(s.take(i)));
        } else {
            assert(s.take(i).len() > 0);
        }
    }
}

/// The last ancestor of an absolute path is made of separators only: it is
/// the root when the path holds no two adjacent separators.
pub proof fn lemma_absolute_ancestors_end_at_root(s: Seq<u8>)
    requires
        s.len() > 0,
        s[0] == SLASH,
        parent_spec(s) is None,
    ensures
        forall|i: int| 0 <= i < s.len() ==> s[i] == SLASH,
        (forall|i: int| 0 <= i < s.len() - 1 ==> !(#[trigger] s[i] == SLASH && s[i + 1] == SLASH))
            ==> s == root(),
    decreases s.len(),
{
    lemma_tail_len(s);
    let t = tail_len(s);
    if t >= s.len() {
        assert(s[0] != SLASH);
    }
    let i = s.len() - t - 1;
    if i != 0 {
        assert(t == 0);
        let h = s.take(i);
        lemma_absolute_ancestors_end_at_root(h);
        assert forall|k: int| 0 <= k < s.len() implies s[k] == SLASH by {
            if k < i {
                assert(s[k] == h[k]);
            }
        }
    } else {
        assert(s.len() == 1);
    }
    if s.len() > 1 {
        assert(s[0] == SLASH && s[1] == SLASH);
    } else {
        assert(s =~= root());
    }
}

/// The parent of a relative path is relative: the ancestors of a relative path
/// never reach the root.
pub proof fn lemma_relative_ancestors_stay_relative(s: Seq<u8>)
    requires
        s.len() > 0,
        s[0] != SLASH,
    ensures
        parent_spec(s) is Some ==> parent_spec(s)->Some_0.len() > 0
            && parent_spec(s)->Some_0[0] != SLASH,
    decreases s.len(),
{
    lemma_tail_len(s);
    lemma_ancestor_is_parent(s);
    let t = tail_len(s);
    if t < s.len() {
        let i = s.len() - t - 1;
        if i != 0 && t == 0 {
            lemma_relative_ancestors_stay_relative(s.take(i));
        }
    }
}

/// `s` with one trailing separator dropped, where it ends a non-empty segment.
pub open spec fn collapse_trailing(s: Seq<u8>) -> Seq<u8> {
    if s.len() >= 2 && s.last() == SLASH && s[s.len() - 2] != SLASH {
        s.drop_last()
    } else {
        s
    }
}

/// Joining the components of a path back together gives the path, but for a
/// trailing separator that ends a segment.
pub proof fn lemma_rejoin_components(s: Seq<u8>)
    ensures
        rejoin(components(s)) == collapse_trailing(s),
    decreases s.len(),
{
    if s.len() == 0 {
        return;
    }
    lemma_seg_len(s);
    let k: int = seg_len(s) as int;
    if s[0] == SLASH {
        let d = s.drop_first();
        lemma_rejoin_components(d);
        let cs = seq![root()] + components(d);
        assert(cs.drop_first() =~= components(d));
        assert(cs[0] == root());
        if d.len() >= 2 {
            assert(collapse_trailing(s) =~= root() + collapse_trailing(d));
        } else {
            assert(s =~= root() + d);
        }
    } else if k >= s.len() {
        assert(s != root());
        assert(s.last() != SLASH);
    } else {
        let h = s.take(k);
        let r = s.skip(k + 1);
        lemma_rejoin_components(r);
        assert(k > 0);
        assert(h[0] != SLASH);
        assert(root()[0] == SLASH);
        let cs = seq![h] + components(r);
        assert(cs.drop_first() =~= components(r));
        assert(s =~= h + root() + r);
        if r.len() == 0 {
            assert(components(r) =~= Seq::<Seq<u8>>::empty());
            assert(s.drop_last() =~= h);
        } else {
            assert(components(r).len() > 0);
            if r.len() >= 2 {
                assert(collapse_trailing(s) =~= h + root() + collapse_trailing(r));
            }
        }
    }
}

} // verus!
