//! Choice points: resolving a located definition's branches and variable arrays against
//! one record, and listing the fields such choices read.
use crate::decode::{loc_item_decode, DecodeError};
use crate::dynamic::{array_count, SubcomPolicy};
use crate::packet::copy_path;
use crate::prim::{same_prim, Name};
use crate::types::{ArrSize, Item, LayoutPacketDef, LocItem, LocLayout, LocPacketDef, PacketDef};
use crate::value::{value_eq, Value};
use vstd::prelude::*;

verus! {

/// The first item from `i` on whose path ends in `name`.
pub open spec fn first_named(acc: Seq<&LocItem>, name: Seq<char>, i: int) -> Option<int>
    decreases acc.len() - i,
{
    if i < 0 || i >= acc.len() {
        None
    } else if acc[i].name@.len() > 0 && acc[i].name@.last()@ == name {
        Some(i)
    } else {
        first_named(acc, name, i + 1)
    }
}

/// The located items that one record selects from `p`, appended to `acc`: a branch
/// keeps the first subtree whose label decodes to the discriminant's value (where none
/// does, `policy` decides); a variable
/// array repeats as often as the first collected item of that name says (none: zero).
pub open spec fn id_node<'a>(policy: SubcomPolicy, p: &'a LocPacketDef, s: Seq<u8>, acc: Seq<&'a LocItem>) -> Result<Seq<&'a LocItem>, DecodeError>
    decreases p, 0int,
{
    match p {
        PacketDef::Leaf(li) => Ok(acc.push(li)),
        PacketDef::Sequence(_, ps) => id_list(policy, ps, s, acc, ps@.len() as int),
        PacketDef::Subcom(_, it, bs) => match loc_item_decode(*it, s) {
            Ok(v) => id_branch(policy, bs, s, acc, v, 0),
            Err(e) => Err(e),
        },
        PacketDef::Array(_, size, elem) => {
            let count = match size {
                ArrSize::Fixed(n) => Ok(*n as nat),
                ArrSize::Var(r) => match first_named(acc, r@, 0) {
                    None => Ok(0nat),
                    Some(k) => match loc_item_decode(*acc[k], s) {
                        Ok(v) => array_count(Some(v)),
                        Err(e) => Err(e),
                    },
                },
            };
            match count {
                Ok(n) => id_repeat(policy, &**elem, s, acc, n as int),
                Err(e) => Err(e),
            }
        },
    }
}

pub open spec fn id_list<'a>(policy: SubcomPolicy, ps: &'a Vec<LocPacketDef>, s: Seq<u8>, acc: Seq<&'a LocItem>, i: int) -> Result<Seq<&'a LocItem>, DecodeError>
    decreases ps, i,
{
    if i <= 0 || i > ps@.len() {
        Ok(acc)
    } else {
        match id_list(policy, ps, s, acc, i - 1) {
            Ok(a) => id_node(policy, &ps@[i - 1], s, a),
            Err(e) => Err(e),
        }
    }
}

pub open spec fn id_branch<'a>(
    policy: SubcomPolicy,
    bs: &'a Vec<(LocItem, LocPacketDef)>,
    s: Seq<u8>,
    acc: Seq<&'a LocItem>,
    v: Value,
    i: int,
) -> Result<Seq<&'a LocItem>, DecodeError>
    decreases bs, bs@.len() - i,
{
    if i < 0 || i >= bs@.len() {
        match policy {
            SubcomPolicy::Permissive => Ok(acc),
            SubcomPolicy::Strict => Err(DecodeError::NoBranchMatch),
        }
    } else {
        match loc_item_decode(bs@[i].0, s) {
            Err(e) => Err(e),
            Ok(kv) => if value_eq(kv, v) {
                id_node(policy, &bs@[i].1, s, acc)
            } else {
                id_branch(policy, bs, s, acc, v, i + 1)
            },
        }
    }
}

pub open spec fn id_repeat<'a>(policy: SubcomPolicy, elem: &'a LocPacketDef, s: Seq<u8>, acc: Seq<&'a LocItem>, i: int) -> Result<Seq<&'a LocItem>, DecodeError>
    decreases elem, i + 1,
{
    if i <= 0 {
        Ok(acc)
    } else {
        match id_repeat(policy, elem, s, acc, i - 1) {
            Ok(a) => id_node(policy, elem, s, a),
            Err(e) => Err(e),
        }
    }
}


/// One item copied: the same path, offset and decoding.
pub open spec fn item_copy(a: LocItem, b: LocItem) -> bool {
    a.name@ == b.name@ && same_prim(a.typ, b.typ) && a.loc == b.loc
}

/// The value of a located item in a record.
fn value_at(li: &LocItem, bytes: &[u8]) -> (r: Result<Value, DecodeError>)
    ensures
        r == loc_item_decode(*li, bytes@),
{
    let n = bytes.len();
    if li.loc > usize::MAX as u64 {
        assert(n <= usize::MAX);
        return Err(DecodeError::Truncated);
    }
    let mut pos = li.loc as usize;
    crate::decode::decode_prim(&li.typ, bytes, &mut pos)
}

fn find_named<'a>(acc: &Vec<&'a LocItem>, name: &Name) -> (r: Option<usize>)
    ensures
        r matches Some(k) ==> first_named(acc@, name@, 0) == Some(k as int) && k < acc@.len(),
        r is None ==> first_named(acc@, name@, 0) is None,
{
    let mut i: usize = 0;
    while i < acc.len()
        invariant
            i <= acc@.len(),
            first_named(acc@, name@, 0) == first_named(acc@, name@, i as int),
        decreases acc.len() - i,
    {
        let li: &LocItem = acc[i];
        let n = li.name.len();
        if n > 0 && li.name[n - 1] == *name {
            return Some(i);
        }
        i = i + 1;
    }
    None
}

fn count_from(v: Value) -> (r: Result<usize, DecodeError>)
    ensures
        r matches Ok(n) ==> array_count(Some(v)) == Ok::<nat, DecodeError>(n as nat),
        r matches Err(e) ==> array_count(Some(v)) == Err::<nat, DecodeError>(e),
{
    match v.value() {
        Some(n) => {
            if n < 0 || n > usize::MAX as i128 {
                Err(DecodeError::BadArrayCount)
            } else {
                Ok(n as usize)
            }
        },
        None => Err(DecodeError::BadArrayCount),
    }
}

proof fn lemma_id_list_err<'a>(policy: SubcomPolicy, ps: &'a Vec<LocPacketDef>, s: Seq<u8>, acc: Seq<&'a LocItem>, i: int, j: int)
    requires
        0 < i <= j <= ps@.len(),
        id_list(policy, ps, s, acc, i) is Err,
    ensures
        id_list(policy, ps, s, acc, j) == id_list(policy, ps, s, acc, i),
    decreases j - i,
{
    if i < j {
        lemma_id_list_err(policy, ps, s, acc, i, j - 1);
    }
}

proof fn lemma_id_repeat_err<'a>(policy: SubcomPolicy, elem: &'a LocPacketDef, s: Seq<u8>, acc: Seq<&'a LocItem>, i: int, j: int)
    requires
        0 < i <= j,
        id_repeat(policy, elem, s, acc, i) is Err,
    ensures
        id_repeat(policy, elem, s, acc, j) == id_repeat(policy, elem, s, acc, i),
    decreases j - i,
{
    if i < j {
        lemma_id_repeat_err(policy, elem, s, acc, i, j - 1);
    }
}

/// Appends to `acc` the located items that the record `bytes` selects from `packet`.
pub fn identify_locpacket_helper<'a>(policy: SubcomPolicy, packet: &'a LocPacketDef, bytes: &[u8], acc: &mut Vec<&'a LocItem>) -> (r: Result<(), DecodeError>)
    ensures
        match id_node(policy, packet, bytes@, old(acc)@) {
            Ok(a) => r is Ok && final(acc)@ == a,
            Err(e) => r == Err::<(), DecodeError>(e),
        },
    decreases packet,
{
    let ghost acc0 = acc@;
    match packet {
        PacketDef::Leaf(li) => {
            acc.push(li);
            Ok(())
        },
        PacketDef::Sequence(nm, packets) => {
            let mut i: usize = 0;
            while i < packets.len()
                invariant
                    i <= packets@.len(),
                    *packet == PacketDef::<LocItem>::Sequence(*nm, *packets),
                    acc0 == old(acc)@,
                    id_list(policy, packets, bytes@, acc0, i as int) == Ok::<Seq<&LocItem>, DecodeError>(acc@),
                decreases packets.len() - i,
            {
                proof {
                    let ghost e = *packet;
                    assert(decreases_to!(e => e->Sequence_1));
                    vstd::std_specs::vec::axiom_vec_decreases_to_view(*packets);
                    assert(decreases_to!(packets@ => packets@[i as int]));
                }
                let res = identify_locpacket_helper(policy, &packets[i], bytes, acc);
                if res.is_err() {
                    proof {
                        lemma_id_list_err(policy, packets, bytes@, acc0, i + 1, packets@.len() as int);
                    }
                    return res;
                }
                i = i + 1;
            }
            Ok(())
        },
        PacketDef::Subcom(nm, item, subcom) => {
            let value = match value_at(item, bytes) {
                Ok(v) => v,
                Err(e) => {
                    return Err(e);
                },
            };
            let mut i: usize = 0;
            while i < subcom.len()
                invariant
                    i <= subcom@.len(),
                    *packet == PacketDef::<LocItem>::Subcom(*nm, *item, *subcom),
                    acc0 == old(acc)@,
                    acc@ == acc0,
                    id_node(policy, packet, bytes@, acc0) == id_branch(policy, subcom, bytes@, acc0, value, i as int),
                decreases subcom.len() - i,
            {
                let item_value = match value_at(&subcom[i].0, bytes) {
                    Ok(v) => v,
                    Err(e) => {
                        return Err(e);
                    },
                };
                if value == item_value {
                    proof {
                        let ghost e = *packet;
                        assert(decreases_to!(e => e->Subcom_2));
                        vstd::std_specs::vec::axiom_vec_decreases_to_view(*subcom);
                        assert(decreases_to!(subcom@ => subcom@[i as int]));
                        assert(decreases_to!(subcom@[i as int] => subcom@[i as int].1));
                        assert(value_eq(item_value, value) == value_eq(value, item_value));
                    }
                    return identify_locpacket_helper(policy, &subcom[i].1, bytes, acc);
                }
                proof {
                    assert(value_eq(item_value, value) == value_eq(value, item_value));
                }
                i = i + 1;
            }
            match policy {
                SubcomPolicy::Permissive => Ok(()),
                SubcomPolicy::Strict => Err(DecodeError::NoBranchMatch),
            }
        },
        PacketDef::Array(nm, size, elem) => {
            let num_elements: usize = match size {
                ArrSize::Fixed(num) => *num,
                ArrSize::Var(name) => match find_named(acc, name) {
                    None => 0,
                    Some(k) => {
                        let v = match value_at(acc[k], bytes) {
                            Ok(v) => v,
                            Err(e) => {
                                return Err(e);
                            },
                        };
                        match count_from(v) {
                            Ok(n) => n,
                            Err(e) => {
                                return Err(e);
                            },
                        }
                    },
                },
            };
            let mut i: usize = 0;
            while i < num_elements
                invariant
                    i <= num_elements,
                    *packet == PacketDef::<LocItem>::Array(*nm, *size, *elem),
                    acc0 == old(acc)@,
                    match *size {
                        ArrSize::Fixed(n) => num_elements == n,
                        ArrSize::Var(r) => match first_named(acc0, r@, 0) {
                            None => num_elements == 0,
                            Some(k) => loc_item_decode(*acc0[k], bytes@) matches Ok(v) && array_count(Some(v))
                                == Ok::<nat, DecodeError>(num_elements as nat),
                        },
                    },
                    id_repeat(policy, &**elem, bytes@, acc0, i as int) == Ok::<Seq<&LocItem>, DecodeError>(acc@),
                decreases num_elements - i,
            {
                proof {
                    let ghost e = *packet;
                    assert(decreases_to!(e => e->Array_2));
                }
                let res = identify_locpacket_helper(policy, elem, bytes, acc);
                if res.is_err() {
                    proof {
                        lemma_id_repeat_err(policy, &**elem, bytes@, acc0, i + 1, num_elements as int);
                    }
                    return res;
                }
                i = i + 1;
            }
            Ok(())
        },
    }
}

/// The located layout that one record selects from a located definition, with `policy`
/// for branches that match no label: each selected item copied, in order.
pub fn identify_locpacket_with(policy: SubcomPolicy, packet: &LocPacketDef, bytes: &[u8]) -> (r: Result<LocLayout, DecodeError>)
    ensures
        match id_node(policy, packet, bytes@, Seq::empty()) {
            Ok(a) => r matches Ok(l) && l.loc_items@.len() == a.len() && forall|i: int|
                0 <= i < a.len() ==> item_copy(#[trigger] l.loc_items@[i], *a[i]),
            Err(e) => r == Err::<LocLayout, DecodeError>(e),
        },
{
    let mut acc: Vec<&LocItem> = Vec::new();
    match identify_locpacket_helper(policy, packet, bytes, &mut acc) {
        Err(e) => Err(e),
        Ok(()) => {
            let mut items: Vec<LocItem> = Vec::new();
            let mut i: usize = 0;
            while i < acc.len()
                invariant
                    i <= acc@.len(),
                    items@.len() == i,
                    forall|k: int| 0 <= k < i ==> item_copy(#[trigger] items@[k], *acc@[k]),
                decreases acc.len() - i,
            {
                let li: &LocItem = acc[i];
                items.push(LocItem::new(copy_path(&li.name), li.typ.clone(), li.loc));
                i = i + 1;
            }
            Ok(LocLayout::with_items(items))
        },
    }
}


/// The located layout that one record selects from a located definition; a branch that
/// matches no label is skipped.
pub fn identify_locpacket(packet: &LocPacketDef, bytes: &[u8]) -> (r: Result<LocLayout, DecodeError>)
    ensures
        match id_node(SubcomPolicy::Permissive, packet, bytes@, Seq::empty()) {
            Ok(a) => r matches Ok(l) && l.loc_items@.len() == a.len() && forall|i: int|
                0 <= i < a.len() ==> item_copy(#[trigger] l.loc_items@[i], *a[i]),
            Err(e) => r == Err::<LocLayout, DecodeError>(e),
        },
{
    identify_locpacket_with(SubcomPolicy::Permissive, packet, bytes)
}

/// The fields that choices read, each with the value it has in a record, where known.
pub type ChoicePoints = Vec<(Name, Option<Value>)>;

/// The names of the fields that a definition's choices read: branch discriminants and
/// the count fields of variable arrays.
pub open spec fn choice_names(p: LayoutPacketDef) -> Set<Seq<char>>
    decreases p, 0int,
{
    match p {
        PacketDef::Leaf(_) => Set::empty(),
        PacketDef::Sequence(_, ps) => choice_names_list(ps@, ps@.len() as int),
        PacketDef::Subcom(_, item, bs) => choice_names_branches(bs@, bs@.len() as int).insert(item.name@),
        PacketDef::Array(_, size, elem) => match size {
            ArrSize::Var(name) => choice_names(*elem).insert(name@),
            ArrSize::Fixed(_) => choice_names(*elem),
        },
    }
}

pub open spec fn choice_names_list(ps: Seq<LayoutPacketDef>, i: int) -> Set<Seq<char>>
    decreases ps, i,
{
    if i <= 0 || i > ps.len() {
        Set::empty()
    } else {
        choice_names_list(ps, i - 1) + choice_names(ps[i - 1])
    }
}

pub open spec fn choice_names_branches(bs: Seq<(Item, LayoutPacketDef)>, i: int) -> Set<Seq<char>>
    decreases bs, i,
{
    if i <= 0 || i > bs.len() {
        Set::empty()
    } else {
        choice_names_branches(bs, i - 1) + choice_names(bs[i - 1].1)
    }
}

/// Each name once, with no value yet.
pub open spec fn fresh_points(m: Seq<(Name, Option<Value>)>) -> bool {
    &&& forall|i: int, j: int| 0 <= i < j < m.len() ==> (#[trigger] m[i]).0@ != (#[trigger] m[j]).0@
    &&& forall|i: int| 0 <= i < m.len() ==> (#[trigger] m[i]).1 is None
}

pub open spec fn point_names(m: Seq<(Name, Option<Value>)>) -> Set<Seq<char>> {
    Set::new(|s: Seq<char>| exists|i: int| 0 <= i < m.len() && (#[trigger] m[i]).0@ == s)
}

fn add_point(map: &mut ChoicePoints, name: &Name)
    requires
        fresh_points(old(map)@),
    ensures
        fresh_points(final(map)@),
        point_names(final(map)@) == point_names(old(map)@).insert(name@),
{
    let mut i: usize = 0;
    while i < map.len()
        invariant
            i <= map@.len(),
            map@ == old(map)@,
            fresh_points(map@),
            forall|j: int| 0 <= j < i ==> (#[trigger] map@[j]).0@ != name@,
        decreases map.len() - i,
    {
        if map[i].0 == *name {
            assert(point_names(map@) =~= point_names(map@).insert(name@));
            return ;
        }
        i = i + 1;
    }
    let ghost before = map@;
    map.push((name.clone(), None));
    assert(point_names(map@) =~= point_names(before).insert(name@)) by {
        assert forall|x: Seq<char>| point_names(before).insert(name@).contains(x) implies point_names(map@).contains(x) by {
            if x != name@ {
                let k = choose|k: int| 0 <= k < before.len() && (#[trigger] before[k]).0@ == x;
                assert(map@[k] == before[k]);
            } else {
                assert(map@[before.len() as int].0@ == name@);
            }
        }
        assert forall|x: Seq<char>| point_names(map@).contains(x) implies point_names(before).insert(name@).contains(x) by {
            let k = choose|k: int| 0 <= k < map@.len() && (#[trigger] map@[k]).0@ == x;
            if k < before.len() {
                assert(map@[k] == before[k]);
            }
        }
    }
}

/// Every field that a choice of the definition reads, each once and with no value yet.
pub fn choice_points(packet: &LayoutPacketDef) -> (r: ChoicePoints)
    ensures
        fresh_points(r@),
        point_names(r@) == choice_names(*packet),
{
    let mut map: ChoicePoints = Vec::new();
    assert(point_names(map@) =~= Set::empty());
    choice_points_helper(packet, &mut map);
    assert(point_names(map@) =~= Set::empty() + choice_names(*packet));
    map
}

/// Adds the fields that the choices of `packet` read to `map`.
pub fn choice_points_helper(packet: &LayoutPacketDef, map: &mut ChoicePoints)
    requires
        fresh_points(old(map)@),
    ensures
        fresh_points(final(map)@),
        point_names(final(map)@) == point_names(old(map)@) + choice_names(*packet),
    decreases packet,
{
    match packet {
        PacketDef::Leaf(_) => {
            assert(point_names(map@) =~= point_names(old(map)@) + choice_names(*packet));
        },
        PacketDef::Sequence(nm, packets) => {
            let mut i: usize = 0;
            assert(point_names(map@) =~= point_names(old(map)@) + choice_names_list(packets@, 0));
            while i < packets.len()
                invariant
                    i <= packets@.len(),
                    *packet == PacketDef::<Item>::Sequence(*nm, *packets),
                    fresh_points(map@),
                    point_names(map@) == point_names(old(map)@) + choice_names_list(packets@, i as int),
                decreases packets.len() - i,
            {
                proof {
                    let ghost e = *packet;
                    assert(decreases_to!(e => e->Sequence_1));
                    vstd::std_specs::vec::axiom_vec_decreases_to_view(*packets);
                    assert(decreases_to!(packets@ => packets@[i as int]));
                }
                choice_points_helper(&packets[i], map);
                assert(point_names(map@) =~= point_names(old(map)@) + choice_names_list(packets@, i + 1));
                i = i + 1;
            }
        },
        PacketDef::Subcom(nm, item, subcom) => {
            add_point(map, &item.name);
            let ghost after_item = point_names(map@);
            let mut i: usize = 0;
            assert(point_names(map@) =~= after_item + choice_names_branches(subcom@, 0));
            while i < subcom.len()
                invariant
                    i <= subcom@.len(),
                    *packet == PacketDef::<Item>::Subcom(*nm, *item, *subcom),
                    after_item == point_names(old(map)@).insert(item.name@),
                    fresh_points(map@),
                    point_names(map@) == after_item + choice_names_branches(subcom@, i as int),
                decreases subcom.len() - i,
            {
                proof {
                    let ghost e = *packet;
                    assert(decreases_to!(e => e->Subcom_2));
                    vstd::std_specs::vec::axiom_vec_decreases_to_view(*subcom);
                    assert(decreases_to!(subcom@ => subcom@[i as int]));
                    assert(decreases_to!(subcom@[i as int] => subcom@[i as int].1));
                }
                choice_points_helper(&subcom[i].1, map);
                assert(point_names(map@) =~= after_item + choice_names_branches(subcom@, i + 1));
                i = i + 1;
            }
            assert(point_names(map@) =~= point_names(old(map)@) + choice_names(*packet));
        },
        PacketDef::Array(_, size, elem) => {
            match size {
                ArrSize::Var(name) => {
                    add_point(map, name);
                },
                _ => {},
            }
            let ghost mid = point_names(map@);
            choice_points_helper(elem, map);
            assert(point_names(map@) =~= point_names(old(map)@) + choice_names(*packet));
        },
    }
}

} // verus!
