//! Packet definitions, located items and decoded points.
use crate::prim::{prim_bytes, Name, NumBytes, Prim};
use crate::value::Value;
use vstd::prelude::*;

verus! {

pub type Loc = u64;

pub type LocPath = Vec<Name>;

/// A named scalar field of a definition.
#[derive(Debug, PartialEq, Eq, Hash)]
pub struct Item {
    pub name: Name,
    pub typ: Prim,
}

impl Item {
    pub fn new(name: Name, typ: Prim) -> (r: Item)
        ensures
            r.name == name,
            r.typ == typ,
    {
        Item { name: name, typ: typ }
    }
}

impl NumBytes for Item {
    open spec fn spec_num_bytes(&self) -> nat {
        prim_bytes(self.typ)
    }

    fn num_bytes(&self) -> (r: u64) {
        self.typ.num_bytes()
    }
}

/// A field resolved to a byte offset within one record.
#[derive(Debug, PartialEq, Eq, Hash)]
pub struct LocItem {
    pub name: LocPath,
    pub typ: Prim,
    pub loc: Loc,
}

impl NumBytes for LocItem {
    open spec fn spec_num_bytes(&self) -> nat {
        prim_bytes(self.typ)
    }

    fn num_bytes(&self) -> (r: u64) {
        self.typ.num_bytes()
    }
}

impl LocItem {
    pub fn new(name: LocPath, typ: Prim, loc: Loc) -> (r: LocItem)
        ensures
            r.name == name,
            r.typ == typ,
            r.loc == loc,
    {
        LocItem { name: name, typ: typ, loc: loc }
    }
}

/// How many times an array repeats: a fixed count, or the value of an earlier field.
#[derive(Debug, PartialEq, Eq)]
pub enum ArrSize {
    Fixed(usize),
    Var(Name),
}

/// A packet definition, generic over what stands at its leaves.
#[derive(Debug, PartialEq, Eq)]
pub enum PacketDef<T> {
    Sequence(Name, Vec<PacketDef<T>>),
    Subcom(Name, T, Vec<(T, PacketDef<T>)>),
    Array(Name, ArrSize, Box<PacketDef<T>>),
    Leaf(T),
}

pub type LayoutPacketDef = PacketDef<Item>;

pub type LocPacketDef = PacketDef<LocItem>;

/// A packet: the definition of its layout.
#[derive(Debug, PartialEq, Eq)]
pub struct Packet {
    pub packet: LayoutPacketDef,
}

/// A decoded field: the last segment of its path and its value.
#[derive(Debug, PartialEq)]
pub struct Point {
    pub name: Name,
    pub val: Value,
}

impl Point {
    pub fn new(name: Name, val: Value) -> (r: Point)
        ensures
            r.name == name,
            r.val == val,
    {
        Point { name: name, val: val }
    }
}

/// A located layout: the ordered list of located items of a definition.
#[derive(Debug, PartialEq, Eq)]
pub struct LocLayout {
    pub loc_items: Vec<LocItem>,
}

/// The end of the furthest field of the first `i` items.
pub open spec fn items_end(items: Seq<LocItem>, i: int) -> int
    decreases i,
{
    if i <= 0 || i > items.len() {
        0
    } else {
        let e = items[i - 1].loc + prim_bytes(items[i - 1].typ);
        let before = items_end(items, i - 1);
        if e > before {
            e
        } else {
            before
        }
    }
}

impl LocLayout {
    pub fn new() -> (r: LocLayout)
        ensures
            r.loc_items@.len() == 0,
    {
        LocLayout { loc_items: Vec::new() }
    }

    pub fn with_items(items: Vec<LocItem>) -> (r: LocLayout)
        ensures
            r.loc_items == items,
    {
        LocLayout { loc_items: items }
    }

    /// The record size: the end of the furthest field; none where that passes `u64::MAX`.
    pub fn num_bytes(&self) -> (r: Option<u64>)
        ensures
            (forall|i: int|
                0 <= i < self.loc_items@.len() ==> #[trigger] self.loc_items@[i].loc + prim_bytes(
                    self.loc_items@[i].typ,
                ) <= u64::MAX) ==> r == Some(
                items_end(self.loc_items@, self.loc_items@.len() as int) as u64,
            ),
            r matches Some(n) ==> n == items_end(self.loc_items@, self.loc_items@.len() as int),
            r is None ==> exists|i: int|
                0 <= i < self.loc_items@.len() && #[trigger] self.loc_items@[i].loc + prim_bytes(self.loc_items@[i].typ)
                    > u64::MAX,
    {
        let mut n: u64 = 0;
        let mut i: usize = 0;
        while i < self.loc_items.len()
            invariant
                i <= self.loc_items@.len(),
                n == items_end(self.loc_items@, i as int),
            decreases self.loc_items.len() - i,
        {
            let item = &self.loc_items[i];
            let w = item.typ.num_bytes();
            if item.loc > u64::MAX - w {
                assert(self.loc_items@[i as int].loc + prim_bytes(self.loc_items@[i as int].typ) > u64::MAX);
                return None;
            }
            let e = item.loc + w;
            if e > n {
                n = e;
            }
            i = i + 1;
        }
        Some(n)
    }
}


/// Whether the path of `li` ends in one of `names`.
pub open spec fn named_in(li: LocItem, names: Seq<Name>) -> bool {
    li.name@.len() > 0 && exists|k: int| 0 <= k < names.len() && (#[trigger] names[k])@ == li.name@.last()@
}

/// The first `i` items, less those whose path does not end in one of `names`.
pub open spec fn kept(items: Seq<LocItem>, names: Seq<Name>, i: int) -> Seq<LocItem>
    decreases i,
{
    if i <= 0 || i > items.len() {
        Seq::empty()
    } else if named_in(items[i - 1], names) {
        kept(items, names, i - 1).push(items[i - 1])
    } else {
        kept(items, names, i - 1)
    }
}

fn is_named_in(li: &LocItem, names: &Vec<Name>) -> (r: bool)
    ensures
        r == named_in(*li, names@),
{
    let n = li.name.len();
    if n == 0 {
        return false;
    }
    let last = &li.name[n - 1];
    let mut k: usize = 0;
    while k < names.len()
        invariant
            k <= names@.len(),
            n == li.name@.len(),
            n > 0,
            *last == li.name@.last(),
            forall|j: int| 0 <= j < k ==> (#[trigger] names@[j])@ != li.name@.last()@,
        decreases names.len() - k,
    {
        if names[k] == *last {
            assert(names@[k as int]@ == li.name@.last()@);
            return true;
        }
        k = k + 1;
    }
    false
}

impl LocLayout {
    /// Keeps only the items whose path ends in one of `names`, in their order.
    pub fn retain_named(&mut self, names: &Vec<Name>)
        ensures
            final(self).loc_items@ == kept(old(self).loc_items@, names@, old(self).loc_items@.len() as int),
    {
        let ghost items = self.loc_items@;
        let mut i: usize = 0;
        let ghost mut j: int = 0;
        while i < self.loc_items.len()
            invariant
                0 <= j <= items.len(),
                i <= self.loc_items@.len(),
                items == old(self).loc_items@,
                self.loc_items@.len() - i == items.len() - j,
                self.loc_items@.subrange(0, i as int) == kept(items, names@, j),
                self.loc_items@.subrange(i as int, self.loc_items@.len() as int) == items.subrange(j, items.len() as int),
            decreases self.loc_items@.len() - i,
        {
            let ghost before = self.loc_items@;
            assert(before[i as int] == items[j]) by {
                assert(before.subrange(i as int, before.len() as int)[0] == items.subrange(j, items.len() as int)[0]);
            }
            let ghost i0 = i as int;
            proof {
                assert forall|t: int| 0 <= t < before.len() - i0 - 1 implies #[trigger] before[i0 + 1 + t] == items[j + 1 + t] by {
                    assert(before.subrange(i0, before.len() as int)[t + 1] == items.subrange(j, items.len() as int)[t + 1]);
                }
            }
            if is_named_in(&self.loc_items[i], names) {
                i = i + 1;
                proof {
                    assert(self.loc_items@.subrange(0, i as int) =~= before.subrange(0, i0).push(items[j]));
                    let rest = self.loc_items@.subrange(i as int, self.loc_items@.len() as int);
                    assert forall|t: int| 0 <= t < rest.len() implies rest[t] == items.subrange(j + 1, items.len() as int)[t] by {
                        assert(rest[t] == before[i0 + 1 + t]);
                    }
                    assert(rest =~= items.subrange(j + 1, items.len() as int));
                    j = j + 1;
                }
            } else {
                self.loc_items.remove(i);
                proof {
                    assert(self.loc_items@.subrange(0, i as int) =~= before.subrange(0, i as int));
                    let rest = self.loc_items@.subrange(i as int, self.loc_items@.len() as int);
                    assert forall|t: int| 0 <= t < rest.len() implies rest[t] == items.subrange(j + 1, items.len() as int)[t] by {
                        assert(rest[t] == before[i0 + 1 + t]);
                    }
                    assert(rest =~= items.subrange(j + 1, items.len() as int));
                    j = j + 1;
                }
            }
        }
        proof {
            assert(self.loc_items@.subrange(0, i as int) =~= self.loc_items@);
        }
    }
}

} // verus!
