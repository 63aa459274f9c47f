//! Laws of the location compiler.
use crate::packet::{items_match, loc_array, loc_list, loc_matches, loc_node, packet_size, size_sum, LocSpec};
use crate::layout::{lay_loc, lay_loc_all, lay_loc_array, lay_loc_list, layout_max, layout_size, layout_sum, Layout};
use crate::prim::Name;
use crate::types::{ArrSize, LayoutPacketDef, LocLayout, PacketDef};
use vstd::prelude::*;

verus! {

/// `a` is `b` with every offset moved by `d`.
pub open spec fn shifted(a: Seq<LocSpec>, b: Seq<LocSpec>, d: int) -> bool {
    a.len() == b.len() && forall|j: int| 0 <= j < a.len() ==> (#[trigger] a[j]).loc == b[j].loc + d
}

proof fn lemma_shifted_append(a1: Seq<LocSpec>, b1: Seq<LocSpec>, a2: Seq<LocSpec>, b2: Seq<LocSpec>, d: int)
    requires
        shifted(a1, b1, d),
        shifted(a2, b2, d),
    ensures
        shifted(a1 + a2, b1 + b2, d),
{
    assert forall|j: int| 0 <= j < (a1 + a2).len() implies (#[trigger] (a1 + a2)[j]).loc == (b1 + b2)[j].loc + d by {
        if j < a1.len() {
            assert(a1[j].loc == b1[j].loc + d);
        } else {
            assert(a2[j - a1.len()].loc == b2[j - a1.len()].loc + d);
        }
    }
}

/// Offsets do not depend on the path, and moving the start moves every offset alike.
proof fn lemma_shift_node(p: LayoutPacketDef, path1: Seq<Seq<char>>, off1: int, path2: Seq<Seq<char>>, off2: int)
    requires
        0 <= off2 <= off1,
        loc_node(p, path1, off1) is Some,
    ensures
        loc_node(p, path2, off2) is Some,
        shifted(loc_node(p, path1, off1).unwrap().0, loc_node(p, path2, off2).unwrap().0, off1 - off2),
        loc_node(p, path1, off1).unwrap().1 - off1 == loc_node(p, path2, off2).unwrap().1 - off2,
    decreases p, 0int,
{
    match p {
        PacketDef::Leaf(_) => {},
        PacketDef::Sequence(name, ps) => {
            lemma_shift_list(ps@, path1.push(name@), off1, path2.push(name@), off2, ps@.len() as int);
        },
        PacketDef::Array(name, ArrSize::Fixed(n), elem) => {
            lemma_shift_array(*elem, name@, path1, off1, path2, off2, n as int);
        },
        _ => {},
    }
}

proof fn lemma_shift_list(
    ps: Seq<LayoutPacketDef>,
    path1: Seq<Seq<char>>,
    off1: int,
    path2: Seq<Seq<char>>,
    off2: int,
    i: int,
)
    requires
        0 <= off2 <= off1,
        loc_list(ps, path1, off1, i) is Some,
    ensures
        loc_list(ps, path2, off2, i) is Some,
        shifted(loc_list(ps, path1, off1, i).unwrap().0, loc_list(ps, path2, off2, i).unwrap().0, off1 - off2),
        loc_list(ps, path1, off1, i).unwrap().1 - off1 == loc_list(ps, path2, off2, i).unwrap().1 - off2,
    decreases ps, i,
{
    if i > 0 && i <= ps.len() {
        lemma_shift_list(ps, path1, off1, path2, off2, i - 1);
        let (a, mid1) = loc_list(ps, path1, off1, i - 1).unwrap();
        let (b, mid2) = loc_list(ps, path2, off2, i - 1).unwrap();
        lemma_list_forward(ps, path2, off2, i - 1);
        lemma_shift_node(ps[i - 1], path1, mid1, path2, mid2);
        let (m1, _) = loc_node(ps[i - 1], path1, mid1).unwrap();
        let (m2, _) = loc_node(ps[i - 1], path2, mid2).unwrap();
        lemma_shifted_append(a, b, m1, m2, off1 - off2);
    } else {
        assert(shifted(Seq::empty(), Seq::empty(), off1 - off2));
    }
}

proof fn lemma_shift_array(
    elem: LayoutPacketDef,
    name: Seq<char>,
    path1: Seq<Seq<char>>,
    off1: int,
    path2: Seq<Seq<char>>,
    off2: int,
    i: int,
)
    requires
        0 <= off2 <= off1,
        loc_array(elem, name, path1, off1, i) is Some,
    ensures
        loc_array(elem, name, path2, off2, i) is Some,
        shifted(loc_array(elem, name, path1, off1, i).unwrap().0, loc_array(elem, name, path2, off2, i).unwrap().0, off1 - off2),
        loc_array(elem, name, path1, off1, i).unwrap().1 - off1 == loc_array(elem, name, path2, off2, i).unwrap().1 - off2,
    decreases elem, i + 1,
{
    if i > 0 {
        lemma_shift_array(elem, name, path1, off1, path2, off2, i - 1);
        let (a, mid1) = loc_array(elem, name, path1, off1, i - 1).unwrap();
        let (b, mid2) = loc_array(elem, name, path2, off2, i - 1).unwrap();
        lemma_array_forward(elem, name, path2, off2, i - 1);
        let seg = crate::packet::indexed(name, (i - 1) as nat);
        lemma_shift_node(elem, path1.push(seg), mid1, path2.push(seg), mid2);
        let (m1, _) = loc_node(elem, path1.push(seg), mid1).unwrap();
        let (m2, _) = loc_node(elem, path2.push(seg), mid2).unwrap();
        lemma_shifted_append(a, b, m1, m2, off1 - off2);
    } else {
        assert(shifted(Seq::empty(), Seq::empty(), off1 - off2));
    }
}

/// The offset after a located definition is never before its start.
proof fn lemma_node_forward(p: LayoutPacketDef, path: Seq<Seq<char>>, off: int)
    requires
        loc_node(p, path, off) is Some,
    ensures
        loc_node(p, path, off).unwrap().1 >= off,
    decreases p, 0int,
{
    match p {
        PacketDef::Leaf(_) => {},
        PacketDef::Sequence(name, ps) => {
            lemma_list_forward(ps@, path.push(name@), off, ps@.len() as int);
        },
        PacketDef::Array(name, ArrSize::Fixed(n), elem) => {
            lemma_array_forward(*elem, name@, path, off, n as int);
        },
        _ => {},
    }
}

proof fn lemma_list_forward(ps: Seq<LayoutPacketDef>, path: Seq<Seq<char>>, off: int, i: int)
    requires
        loc_list(ps, path, off, i) is Some,
    ensures
        loc_list(ps, path, off, i).unwrap().1 >= off,
    decreases ps, i,
{
    if i > 0 && i <= ps.len() {
        lemma_list_forward(ps, path, off, i - 1);
        let mid = loc_list(ps, path, off, i - 1).unwrap().1;
        lemma_node_forward(ps[i - 1], path, mid);
    }
}

proof fn lemma_array_forward(elem: LayoutPacketDef, name: Seq<char>, path: Seq<Seq<char>>, off: int, i: int)
    requires
        loc_array(elem, name, path, off, i) is Some,
    ensures
        loc_array(elem, name, path, off, i).unwrap().1 >= off,
    decreases elem, i + 1,
{
    if i > 0 {
        lemma_array_forward(elem, name, path, off, i - 1);
        let mid = loc_array(elem, name, path, off, i - 1).unwrap().1;
        lemma_node_forward(elem, path.push(crate::packet::indexed(name, (i - 1) as nat)), mid);
    }
}

/// Where a definition's static size is known, the offset after it is its start plus
/// that size.
proof fn lemma_node_size(p: LayoutPacketDef, path: Seq<Seq<char>>, off: int, k: int)
    requires
        loc_node(p, path, off) is Some,
        packet_size(p) == Some(k),
    ensures
        loc_node(p, path, off).unwrap().1 == off + k,
    decreases p, 0int,
{
    match p {
        PacketDef::Leaf(_) => {},
        PacketDef::Sequence(name, ps) => {
            lemma_list_size(ps@, path.push(name@), off, ps@.len() as int);
        },
        PacketDef::Array(name, ArrSize::Fixed(n), elem) => {
            let kk = packet_size(*elem).unwrap();
            lemma_array_size(*elem, name@, path, off, n as int, kk);
        },
        _ => {},
    }
}

proof fn lemma_list_size(ps: Seq<LayoutPacketDef>, path: Seq<Seq<char>>, off: int, i: int)
    requires
        loc_list(ps, path, off, i) is Some,
        size_sum(ps, i) is Some,
    ensures
        loc_list(ps, path, off, i).unwrap().1 == off + size_sum(ps, i).unwrap(),
    decreases ps, i,
{
    if i > 0 && i <= ps.len() {
        lemma_list_size(ps, path, off, i - 1);
        let mid = loc_list(ps, path, off, i - 1).unwrap().1;
        lemma_node_size(ps[i - 1], path, mid, packet_size(ps[i - 1]).unwrap());
    }
}

proof fn lemma_array_size(elem: LayoutPacketDef, name: Seq<char>, path: Seq<Seq<char>>, off: int, i: int, k: int)
    requires
        i >= 0,
        loc_array(elem, name, path, off, i) is Some,
        packet_size(elem) == Some(k),
    ensures
        loc_array(elem, name, path, off, i).unwrap().1 == off + i * k,
    decreases elem, i + 1,
{
    if i > 0 {
        lemma_array_size(elem, name, path, off, i - 1, k);
        let mid = loc_array(elem, name, path, off, i - 1).unwrap().1;
        lemma_node_size(elem, path.push(crate::packet::indexed(name, (i - 1) as nat)), mid, k);
        assert((i - 1) * k + k == i * k) by (nonlinear_arith);
    } else {
        assert(i * k == 0) by (nonlinear_arith)
            requires
                i == 0,
        ;
    }
}

proof fn lemma_array_linear(
    elem: LayoutPacketDef,
    name: Seq<char>,
    path: Seq<Seq<char>>,
    base: int,
    i: int,
    k: int,
    one: Seq<LocSpec>,
)
    requires
        0 <= base,
        i >= 1,
        loc_array(elem, name, path, base, i) is Some,
        packet_size(elem) == Some(k),
        loc_node(elem, Seq::empty(), 0) == Some((one, k)),
    ensures
        loc_array(elem, name, path, base, i).unwrap().0.len() == i * one.len(),
        forall|t: int, j: int|
            0 <= t < i && 0 <= j < one.len() ==> #[trigger] loc_array(elem, name, path, base, i).unwrap().0[t * one.len() + j].loc
                == base + t * k + (#[trigger] one[j]).loc,
    decreases i,
{
    let m = one.len() as int;
    let (items, end) = loc_array(elem, name, path, base, i).unwrap();
    let (a, mid) = loc_array(elem, name, path, base, i - 1).unwrap();
    let seg = crate::packet::indexed(name, (i - 1) as nat);
    lemma_array_size(elem, name, path, base, i - 1, k);
    lemma_node_forward(elem, path.push(seg), mid);
    lemma_array_forward(elem, name, path, base, i - 1);
    lemma_shift_node(elem, path.push(seg), mid, Seq::empty(), 0);
    let (more, _) = loc_node(elem, path.push(seg), mid).unwrap();
    assert(items == a + more);
    if i == 1 {
        assert(a.len() == 0);
        assert forall|t: int, j: int| 0 <= t < i && 0 <= j < m implies #[trigger] items[t * m + j].loc == base + t * k
            + (#[trigger] one[j]).loc by {
            assert(t == 0);
            assert(t * m + j == j) by (nonlinear_arith) requires t == 0;
            assert(t * k == 0) by (nonlinear_arith) requires t == 0;
        }
        assert(items.len() == i * m) by (nonlinear_arith) requires i == 1, items.len() == m;
    } else {
        lemma_array_linear(elem, name, path, base, i - 1, k, one);
        assert(a.len() + m == i * m) by (nonlinear_arith) requires a.len() == (i - 1) * m;
        assert forall|t: int, j: int| 0 <= t < i && 0 <= j < m implies #[trigger] items[t * m + j].loc == base + t * k
            + (#[trigger] one[j]).loc by {
            if t < i - 1 {
                assert(t * m + j < (i - 1) * m) by (nonlinear_arith) requires 0 <= t < i - 1, 0 <= j < m;
                assert(0 <= t * m + j) by (nonlinear_arith) requires 0 <= t, 0 <= j, m >= 0;
                assert(items[t * m + j] == a[t * m + j]);
            } else {
                assert(t * m + j == (i - 1) * m + j);
                assert(items[t * m + j] == more[j]);
                assert(mid == base + (i - 1) * k);
            }
        }
    }
}

/// Fixed-array offset linearity: in a fixed array of `n` elements of static size `k`,
/// placed at `base` anywhere in a definition, leaf `j` of iteration `i` lies at `base`
/// plus `i·k` plus the offset of leaf `j` within one element.
pub proof fn lemma_fixed_array_offsets(
    name: Name,
    n: usize,
    elem: Box<LayoutPacketDef>,
    path: Seq<Seq<char>>,
    base: int,
    k: int,
)
    requires
        0 <= base,
        n > 0,
        packet_size(*elem) == Some(k),
        loc_node(PacketDef::Array(name, ArrSize::Fixed(n), elem), path, base) is Some,
    ensures
        loc_node(*elem, Seq::empty(), 0) matches Some((one, size)) && size == k && {
            let items = loc_node(PacketDef::Array(name, ArrSize::Fixed(n), elem), path, base).unwrap().0;
            &&& items.len() == n * one.len()
            &&& forall|i: int, j: int|
                0 <= i < n && 0 <= j < one.len() ==> #[trigger] items[i * one.len() + j].loc == base + i * k
                    + (#[trigger] one[j]).loc
        },
{
    let e = *elem;
    let seg = crate::packet::indexed(name@, 0);
    lemma_first_iteration(e, name@, path, base, n as int);
    let first = loc_array(e, name@, path, base, 0).unwrap().1;
    lemma_shift_node(e, path.push(seg), first, Seq::empty(), 0);
    lemma_node_size(e, Seq::empty(), 0, k);
    let one = loc_node(e, Seq::empty(), 0).unwrap().0;
    lemma_array_linear(e, name@, path, base, n as int, k, one);
}

proof fn lemma_first_iteration(elem: LayoutPacketDef, name: Seq<char>, path: Seq<Seq<char>>, base: int, i: int)
    requires
        i >= 1,
        loc_array(elem, name, path, base, i) is Some,
    ensures
        loc_node(elem, path.push(crate::packet::indexed(name, 0)), base) is Some,
        loc_array(elem, name, path, base, 0).unwrap().1 == base,
    decreases i,
{
    if i > 1 {
        lemma_first_iteration(elem, name, path, base, i - 1);
    }
}

/// Fixed-array offset linearity, for what `locate` gives: where `l` is the located
/// layout of a fixed array of `n` elements of static size `k`, and `one` that of its
/// element on its own, item `i·m + j` of `l` lies at `i·k` plus the offset of item `j`
/// of `one`, `m` being the number of items of `one`.
pub proof fn lemma_located_array_offsets(
    name: Name,
    n: usize,
    elem: Box<LayoutPacketDef>,
    k: int,
    l: LocLayout,
    one: LocLayout,
)
    requires
        n > 0,
        packet_size(*elem) == Some(k),
        loc_node(PacketDef::Array(name, ArrSize::Fixed(n), elem), Seq::empty(), 0) is Some,
        items_match(l.loc_items@, loc_node(PacketDef::Array(name, ArrSize::Fixed(n), elem), Seq::empty(), 0).unwrap().0),
        loc_node(*elem, Seq::empty(), 0) is Some,
        items_match(one.loc_items@, loc_node(*elem, Seq::empty(), 0).unwrap().0),
    ensures
        l.loc_items@.len() == n * one.loc_items@.len(),
        forall|i: int, j: int|
            0 <= i < n && 0 <= j < one.loc_items@.len() ==> #[trigger] l.loc_items@[i * one.loc_items@.len() + j].loc
                == i * k + (#[trigger] one.loc_items@[j]).loc,
{
    lemma_fixed_array_offsets(name, n, elem, Seq::empty(), 0, k);
    let m = one.loc_items@.len() as int;
    let items = loc_node(PacketDef::Array(name, ArrSize::Fixed(n), elem), Seq::empty(), 0).unwrap().0;
    let spec_one = loc_node(*elem, Seq::empty(), 0).unwrap().0;
    assert forall|i: int, j: int| 0 <= i < n && 0 <= j < m implies #[trigger] l.loc_items@[i * m + j].loc == i * k
        + (#[trigger] one.loc_items@[j]).loc by {
        assert(0 <= i * m + j < n * m) by (nonlinear_arith)
            requires
                0 <= i < n,
                0 <= j < m,
        ;
        assert(loc_matches(l.loc_items@[i * m + j], items[i * m + j]));
        assert(loc_matches(one.loc_items@[j], spec_one[j]));
        assert(items[i * m + j].loc == 0 + i * k + spec_one[j].loc);
    }
}

proof fn lemma_lay_shift(l: Layout, path1: Seq<Seq<char>>, off1: int, path2: Seq<Seq<char>>, off2: int)
    requires
        0 <= off2 <= off1,
        lay_loc(l, path1, off1) is Some,
    ensures
        lay_loc(l, path2, off2) is Some,
        shifted(lay_loc(l, path1, off1).unwrap().0, lay_loc(l, path2, off2).unwrap().0, off1 - off2),
        lay_loc(l, path1, off1).unwrap().1 - off1 == lay_loc(l, path2, off2).unwrap().1 - off2,
    decreases l, 0int,
{
    match l {
        Layout::Prim(_) => {},
        Layout::Sequence(name, ls) => {
            lemma_lay_shift_list(ls@, path1.push(name@), off1, path2.push(name@), off2, ls@.len() as int);
        },
        Layout::All(name, ls) => {
            lemma_lay_shift_all(ls@, path1.push(name@), off1, path2.push(name@), off2, ls@.len() as int);
        },
        Layout::Array(name, n, elem) => {
            lemma_lay_shift_array(*elem, name@, path1, off1, path2, off2, n as int);
        },
        Layout::Bits(_) => {},
    }
}

proof fn lemma_lay_shift_list(ls: Seq<Layout>, path1: Seq<Seq<char>>, off1: int, path2: Seq<Seq<char>>, off2: int, i: int)
    requires
        0 <= off2 <= off1,
        lay_loc_list(ls, path1, off1, i) is Some,
    ensures
        lay_loc_list(ls, path2, off2, i) is Some,
        shifted(lay_loc_list(ls, path1, off1, i).unwrap().0, lay_loc_list(ls, path2, off2, i).unwrap().0, off1 - off2),
        lay_loc_list(ls, path1, off1, i).unwrap().1 - off1 == lay_loc_list(ls, path2, off2, i).unwrap().1 - off2,
    decreases ls, i,
{
    if i > 0 && i <= ls.len() {
        lemma_lay_shift_list(ls, path1, off1, path2, off2, i - 1);
        let (a, mid1) = lay_loc_list(ls, path1, off1, i - 1).unwrap();
        let (b, mid2) = lay_loc_list(ls, path2, off2, i - 1).unwrap();
        lemma_lay_list_forward(ls, path2, off2, i - 1);
        lemma_lay_shift(ls[i - 1], path1, mid1, path2, mid2);
        let (m1, _) = lay_loc(ls[i - 1], path1, mid1).unwrap();
        let (m2, _) = lay_loc(ls[i - 1], path2, mid2).unwrap();
        lemma_shifted_append(a, b, m1, m2, off1 - off2);
    } else {
        assert(shifted(Seq::empty(), Seq::empty(), off1 - off2));
    }
}

proof fn lemma_lay_shift_all(ls: Seq<Layout>, path1: Seq<Seq<char>>, off1: int, path2: Seq<Seq<char>>, off2: int, i: int)
    requires
        0 <= off2 <= off1,
        lay_loc_all(ls, path1, off1, i) is Some,
    ensures
        lay_loc_all(ls, path2, off2, i) is Some,
        shifted(lay_loc_all(ls, path1, off1, i).unwrap().0, lay_loc_all(ls, path2, off2, i).unwrap().0, off1 - off2),
        lay_loc_all(ls, path1, off1, i).unwrap().1 - off1 == lay_loc_all(ls, path2, off2, i).unwrap().1 - off2,
    decreases ls, i,
{
    if i > 0 && i <= ls.len() {
        lemma_lay_shift_all(ls, path1, off1, path2, off2, i - 1);
        let (a, _) = lay_loc_all(ls, path1, off1, i - 1).unwrap();
        let (b, _) = lay_loc_all(ls, path2, off2, i - 1).unwrap();
        lemma_lay_shift(ls[i - 1], path1, off1, path2, off2);
        let (m1, _) = lay_loc(ls[i - 1], path1, off1).unwrap();
        let (m2, _) = lay_loc(ls[i - 1], path2, off2).unwrap();
        lemma_shifted_append(a, b, m1, m2, off1 - off2);
    } else {
        assert(shifted(Seq::empty(), Seq::empty(), off1 - off2));
    }
}

proof fn lemma_lay_shift_array(
    elem: Layout,
    name: Seq<char>,
    path1: Seq<Seq<char>>,
    off1: int,
    path2: Seq<Seq<char>>,
    off2: int,
    i: int,
)
    requires
        0 <= off2 <= off1,
        lay_loc_array(elem, name, path1, off1, i) is Some,
    ensures
        lay_loc_array(elem, name, path2, off2, i) is Some,
        shifted(lay_loc_array(elem, name, path1, off1, i).unwrap().0, lay_loc_array(elem, name, path2, off2, i).unwrap().0, off1 - off2),
        lay_loc_array(elem, name, path1, off1, i).unwrap().1 - off1 == lay_loc_array(elem, name, path2, off2, i).unwrap().1 - off2,
    decreases elem, i + 1,
{
    if i > 0 {
        lemma_lay_shift_array(elem, name, path1, off1, path2, off2, i - 1);
        let (a, mid1) = lay_loc_array(elem, name, path1, off1, i - 1).unwrap();
        let (b, mid2) = lay_loc_array(elem, name, path2, off2, i - 1).unwrap();
        lemma_lay_array_forward(elem, name, path2, off2, i - 1);
        let seg = crate::packet::indexed(name, (i - 1) as nat);
        lemma_lay_shift(elem, path1.push(seg), mid1, path2.push(seg), mid2);
        let (m1, _) = lay_loc(elem, path1.push(seg), mid1).unwrap();
        let (m2, _) = lay_loc(elem, path2.push(seg), mid2).unwrap();
        lemma_shifted_append(a, b, m1, m2, off1 - off2);
    } else {
        assert(shifted(Seq::empty(), Seq::empty(), off1 - off2));
    }
}

proof fn lemma_lay_forward(l: Layout, path: Seq<Seq<char>>, off: int)
    requires
        lay_loc(l, path, off) is Some,
    ensures
        lay_loc(l, path, off).unwrap().1 >= off,
    decreases l, 0int,
{
    match l {
        Layout::Prim(_) => {},
        Layout::Sequence(name, ls) => {
            lemma_lay_list_forward(ls@, path.push(name@), off, ls@.len() as int);
        },
        Layout::All(name, ls) => {
            lemma_lay_all_forward(ls@, path.push(name@), off, ls@.len() as int);
        },
        Layout::Array(name, n, elem) => {
            lemma_lay_array_forward(*elem, name@, path, off, n as int);
        },
        Layout::Bits(_) => {},
    }
}

proof fn lemma_lay_list_forward(ls: Seq<Layout>, path: Seq<Seq<char>>, off: int, i: int)
    requires
        lay_loc_list(ls, path, off, i) is Some,
    ensures
        lay_loc_list(ls, path, off, i).unwrap().1 >= off,
    decreases ls, i,
{
    if i > 0 && i <= ls.len() {
        lemma_lay_list_forward(ls, path, off, i - 1);
        let mid = lay_loc_list(ls, path, off, i - 1).unwrap().1;
        lemma_lay_forward(ls[i - 1], path, mid);
    }
}

proof fn lemma_lay_all_forward(ls: Seq<Layout>, path: Seq<Seq<char>>, off: int, i: int)
    requires
        lay_loc_all(ls, path, off, i) is Some,
    ensures
        lay_loc_all(ls, path, off, i).unwrap().1 >= off,
    decreases ls, i,
{
    if i > 0 && i <= ls.len() {
        lemma_lay_all_forward(ls, path, off, i - 1);
    }
}

proof fn lemma_lay_array_forward(elem: Layout, name: Seq<char>, path: Seq<Seq<char>>, off: int, i: int)
    requires
        lay_loc_array(elem, name, path, off, i) is Some,
    ensures
        lay_loc_array(elem, name, path, off, i).unwrap().1 >= off,
    decreases elem, i + 1,
{
    if i > 0 {
        lemma_lay_array_forward(elem, name, path, off, i - 1);
        let mid = lay_loc_array(elem, name, path, off, i - 1).unwrap().1;
        lemma_lay_forward(elem, path.push(crate::packet::indexed(name, (i - 1) as nat)), mid);
    }
}

proof fn lemma_lay_size(l: Layout, path: Seq<Seq<char>>, off: int, k: int)
    requires
        lay_loc(l, path, off) is Some,
        layout_size(l) == Some(k),
    ensures
        lay_loc(l, path, off).unwrap().1 == off + k,
    decreases l, 0int,
{
    match l {
        Layout::Prim(_) => {},
        Layout::Sequence(name, ls) => {
            lemma_lay_list_size(ls@, path.push(name@), off, ls@.len() as int);
        },
        Layout::All(name, ls) => {
            lemma_lay_all_size(ls@, path.push(name@), off, ls@.len() as int);
        },
        Layout::Array(name, n, elem) => {
            lemma_lay_array_size(*elem, name@, path, off, n as int, layout_size(*elem).unwrap());
        },
        Layout::Bits(_) => {},
    }
}

proof fn lemma_lay_list_size(ls: Seq<Layout>, path: Seq<Seq<char>>, off: int, i: int)
    requires
        lay_loc_list(ls, path, off, i) is Some,
        layout_sum(ls, i) is Some,
    ensures
        lay_loc_list(ls, path, off, i).unwrap().1 == off + layout_sum(ls, i).unwrap(),
    decreases ls, i,
{
    if i > 0 && i <= ls.len() {
        lemma_lay_list_size(ls, path, off, i - 1);
        let mid = lay_loc_list(ls, path, off, i - 1).unwrap().1;
        lemma_lay_size(ls[i - 1], path, mid, layout_size(ls[i - 1]).unwrap());
    }
}

proof fn lemma_lay_all_size(ls: Seq<Layout>, path: Seq<Seq<char>>, off: int, i: int)
    requires
        lay_loc_all(ls, path, off, i) is Some,
        layout_max(ls, i) is Some,
    ensures
        lay_loc_all(ls, path, off, i).unwrap().1 == off + layout_max(ls, i).unwrap(),
    decreases ls, i,
{
    if i > 0 && i <= ls.len() {
        lemma_lay_all_size(ls, path, off, i - 1);
        lemma_lay_size(ls[i - 1], path, off, layout_size(ls[i - 1]).unwrap());
    }
}

proof fn lemma_lay_array_size(elem: Layout, name: Seq<char>, path: Seq<Seq<char>>, off: int, i: int, k: int)
    requires
        i >= 0,
        lay_loc_array(elem, name, path, off, i) is Some,
        layout_size(elem) == Some(k),
    ensures
        lay_loc_array(elem, name, path, off, i).unwrap().1 == off + i * k,
    decreases elem, i + 1,
{
    if i > 0 {
        lemma_lay_array_size(elem, name, path, off, i - 1, k);
        let mid = lay_loc_array(elem, name, path, off, i - 1).unwrap().1;
        lemma_lay_size(elem, path.push(crate::packet::indexed(name, (i - 1) as nat)), mid, k);
        assert((i - 1) * k + k == i * k) by (nonlinear_arith);
    } else {
        assert(i * k == 0) by (nonlinear_arith)
            requires
                i == 0,
        ;
    }
}

proof fn lemma_lay_array_linear(
    elem: Layout,
    name: Seq<char>,
    path: Seq<Seq<char>>,
    base: int,
    i: int,
    k: int,
    one: Seq<LocSpec>,
)
    requires
        0 <= base,
        i >= 1,
        lay_loc_array(elem, name, path, base, i) is Some,
        layout_size(elem) == Some(k),
        lay_loc(elem, Seq::empty(), 0) == Some((one, k)),
    ensures
        lay_loc_array(elem, name, path, base, i).unwrap().0.len() == i * one.len(),
        forall|t: int, j: int|
            0 <= t < i && 0 <= j < one.len() ==> #[trigger] lay_loc_array(elem, name, path, base, i).unwrap().0[t * one.len() + j].loc
                == base + t * k + (#[trigger] one[j]).loc,
    decreases i,
{
    let m = one.len() as int;
    let (items, end) = lay_loc_array(elem, name, path, base, i).unwrap();
    let (a, mid) = lay_loc_array(elem, name, path, base, i - 1).unwrap();
    let seg = crate::packet::indexed(name, (i - 1) as nat);
    lemma_lay_array_size(elem, name, path, base, i - 1, k);
    lemma_lay_array_forward(elem, name, path, base, i - 1);
    lemma_lay_shift(elem, path.push(seg), mid, Seq::empty(), 0);
    let (more, _) = lay_loc(elem, path.push(seg), mid).unwrap();
    assert(items == a + more);
    if i == 1 {
        assert(a.len() == 0);
        assert forall|t: int, j: int| 0 <= t < i && 0 <= j < m implies #[trigger] items[t * m + j].loc == base + t * k
            + (#[trigger] one[j]).loc by {
            assert(t * m + j == j) by (nonlinear_arith) requires t == 0;
            assert(t * k == 0) by (nonlinear_arith) requires t == 0;
        }
        assert(items.len() == i * m) by (nonlinear_arith) requires i == 1, items.len() == m;
    } else {
        lemma_lay_array_linear(elem, name, path, base, i - 1, k, one);
        assert(a.len() + m == i * m) by (nonlinear_arith) requires a.len() == (i - 1) * m;
        assert forall|t: int, j: int| 0 <= t < i && 0 <= j < m implies #[trigger] items[t * m + j].loc == base + t * k
            + (#[trigger] one[j]).loc by {
            if t < i - 1 {
                assert(t * m + j < (i - 1) * m) by (nonlinear_arith) requires 0 <= t < i - 1, 0 <= j < m;
                assert(0 <= t * m + j) by (nonlinear_arith) requires 0 <= t, 0 <= j, m >= 0;
                assert(items[t * m + j] == a[t * m + j]);
            } else {
                assert(t * m + j == (i - 1) * m + j);
                assert(items[t * m + j] == more[j]);
            }
        }
    }
}

proof fn lemma_lay_first_iteration(elem: Layout, name: Seq<char>, path: Seq<Seq<char>>, base: int, i: int)
    requires
        i >= 1,
        lay_loc_array(elem, name, path, base, i) is Some,
    ensures
        lay_loc(elem, path.push(crate::packet::indexed(name, 0)), base) is Some,
        lay_loc_array(elem, name, path, base, 0).unwrap().1 == base,
    decreases i,
{
    if i > 1 {
        lemma_lay_first_iteration(elem, name, path, base, i - 1);
    }
}

/// Fixed-array offset linearity for layouts: in an array of `n` elements of size `k`,
/// placed at `base` under `path`, item `j` of iteration `i` lies at `base` plus `i·k`
/// plus the offset of item `j` within one element, and the array ends at `base + n·k`.
pub proof fn lemma_layout_array_offsets(name: Name, n: u64, elem: Box<Layout>, path: Seq<Seq<char>>, base: int, k: int)
    requires
        0 <= base,
        n > 0,
        layout_size(*elem) == Some(k),
        lay_loc(Layout::Array(name, n, elem), path, base) is Some,
    ensures
        lay_loc(*elem, Seq::empty(), 0) matches Some((one, size)) && size == k && {
            let (items, end) = lay_loc(Layout::Array(name, n, elem), path, base).unwrap();
            &&& end == base + n * k
            &&& items.len() == n * one.len()
            &&& forall|i: int, j: int|
                0 <= i < n && 0 <= j < one.len() ==> #[trigger] items[i * one.len() + j].loc == base + i * k
                    + (#[trigger] one[j]).loc
        },
{
    let e = *elem;
    let seg = crate::packet::indexed(name@, 0);
    lemma_lay_first_iteration(e, name@, path, base, n as int);
    lemma_lay_shift(e, path.push(seg), base, Seq::empty(), 0);
    lemma_lay_size(e, Seq::empty(), 0, k);
    lemma_lay_array_size(e, name@, path, base, n as int, k);
    let one = lay_loc(e, Seq::empty(), 0).unwrap().0;
    lemma_lay_array_linear(e, name@, path, base, n as int, k, one);
}

} // verus!
