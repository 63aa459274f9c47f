//! The dynamic decoder: decodes a packet definition by walking it against the bytes,
//! sizing variable arrays and choosing branches from values decoded earlier.
use crate::decode::{decode_prim, prim_decode, DecodeError};
use crate::prim::{prim_bytes, Name};
use crate::types::{ArrSize, Item, LayoutPacketDef, PacketDef};
use crate::value::{
    int_of, lemma_lookup_model, lookup_model, map_model, model_insert, value_eq, EntryModel,
    MapModel, Value, ValueEntry, ValueMap,
};
use vstd::prelude::*;

verus! {

/// What a branch node does when its discriminant matches none of its labels.
#[derive(Clone, Copy, Debug, PartialEq, Eq, Structural)]
pub enum SubcomPolicy {
    /// Skip it: no bytes and no fields beyond the discriminant.
    Permissive,
    /// Fail with `NoBranchMatch`.
    Strict,
}

/// Lookup from the first `i` enclosing levels, innermost first.
pub open spec fn outer_lookup(outer: Seq<MapModel>, name: Seq<char>, i: int) -> Option<Value>
    decreases i,
{
    if i <= 0 || i > outer.len() {
        None
    } else {
        match lookup_model(outer[i - 1], name) {
            Some(v) => Some(v),
            None => outer_lookup(outer, name, i - 1),
        }
    }
}

/// Lookup in the state decoded so far: the current level, then the enclosing ones
/// from the innermost out.
pub open spec fn scoped_lookup(cur: MapModel, outer: Seq<MapModel>, name: Seq<char>) -> Option<Value> {
    match lookup_model(cur, name) {
        Some(v) => Some(v),
        None => outer_lookup(outer, name, outer.len() as int),
    }
}

/// The repeat count that a looked-up value gives: zero where the field is missing.
pub open spec fn array_count(v: Option<Value>) -> Result<nat, DecodeError> {
    match v {
        None => Ok(0),
        Some(x) => match int_of(x) {
            Some(n) => if 0 <= n <= usize::MAX {
                Ok(n as nat)
            } else {
                Err(DecodeError::BadArrayCount)
            },
            None => Err(DecodeError::BadArrayCount),
        },
    }
}

/// Decoding `p` at `pos` into the level `cur`, with `outer` the enclosing levels: the new
/// level and the position after it.
pub open spec fn dyn_decode(
    policy: SubcomPolicy,
    p: LayoutPacketDef,
    s: Seq<u8>,
    pos: int,
    outer: Seq<MapModel>,
    cur: MapModel,
) -> Result<(MapModel, int), DecodeError>
    decreases p, 0int,
{
    match p {
        PacketDef::Leaf(item) => match prim_decode(item.typ, s, pos) {
            Ok(v) => Ok((model_insert(cur, item.name@, EntryModel::Leaf(v)), pos + prim_bytes(item.typ))),
            Err(e) => Err(e),
        },
        PacketDef::Sequence(name, ps) => match dyn_list(policy, ps@, s, pos, outer.push(cur), Seq::empty(), ps@.len() as int) {
            Ok((sec, end)) => Ok((model_insert(cur, name@, EntryModel::Section(sec)), end)),
            Err(e) => Err(e),
        },
        PacketDef::Array(name, size, elem) => {
            let count = match size {
                ArrSize::Fixed(n) => Ok(n as nat),
                ArrSize::Var(r) => array_count(scoped_lookup(cur, outer, r@)),
            };
            match count {
                Ok(n) => match dyn_array(policy, *elem, s, pos, outer.push(cur), n as int) {
                    Ok((elems, end)) => Ok((model_insert(cur, name@, EntryModel::Array(elems)), end)),
                    Err(e) => Err(e),
                },
                Err(e) => Err(e),
            }
        },
        PacketDef::Subcom(_, disc, branches) => match prim_decode(disc.typ, s, pos) {
            Ok(v) => dyn_branch(
                policy,
                branches@,
                s,
                pos + prim_bytes(disc.typ),
                outer,
                model_insert(cur, disc.name@, EntryModel::Leaf(v)),
                v,
                0,
            ),
            Err(e) => Err(e),
        },
    }
}

/// The first `i` children of a sequence, decoded in order into `cur`.
pub open spec fn dyn_list(
    policy: SubcomPolicy,
    ps: Seq<LayoutPacketDef>,
    s: Seq<u8>,
    pos: int,
    outer: Seq<MapModel>,
    cur: MapModel,
    i: int,
) -> Result<(MapModel, int), DecodeError>
    decreases ps, i,
{
    if i <= 0 || i > ps.len() {
        Ok((cur, pos))
    } else {
        match dyn_list(policy, ps, s, pos, outer, cur, i - 1) {
            Ok((mid, at)) => dyn_decode(policy, ps[i - 1], s, at, outer, mid),
            Err(e) => Err(e),
        }
    }
}

/// The first `i` iterations of an array, each decoded into a level of its own.
pub open spec fn dyn_array(
    policy: SubcomPolicy,
    elem: LayoutPacketDef,
    s: Seq<u8>,
    pos: int,
    outer: Seq<MapModel>,
    i: int,
) -> Result<(Seq<MapModel>, int), DecodeError>
    decreases elem, i + 1,
{
    if i <= 0 {
        Ok((Seq::empty(), pos))
    } else {
        match dyn_array(policy, elem, s, pos, outer, i - 1) {
            Ok((ms, at)) => match dyn_decode(policy, elem, s, at, outer, Seq::empty()) {
                Ok((m, end)) => Ok((ms.push(m), end)),
                Err(e) => Err(e),
            },
            Err(e) => Err(e),
        }
    }
}

/// The branches from `i` on: the first whose label field, looked up in the state so far,
/// equals the discriminant `v` is decoded; where none does, nothing more is under the
/// permissive policy, and the strict one fails with `NoBranchMatch`.
pub open spec fn dyn_branch(
    policy: SubcomPolicy,
    bs: Seq<(Item, LayoutPacketDef)>,
    s: Seq<u8>,
    pos: int,
    outer: Seq<MapModel>,
    cur: MapModel,
    v: Value,
    i: int,
) -> Result<(MapModel, int), DecodeError>
    decreases bs, bs.len() - i,
{
    if i < 0 || i >= bs.len() {
        match policy {
            SubcomPolicy::Permissive => Ok((cur, pos)),
            SubcomPolicy::Strict => Err(DecodeError::NoBranchMatch),
        }
    } else if scoped_lookup(cur, outer, bs[i].0.name@) matches Some(label) && value_eq(label, v) {
        dyn_decode(policy, bs[i].1, s, pos, outer, cur)
    } else {
        dyn_branch(policy, bs, s, pos, outer, cur, v, i + 1)
    }
}

pub open spec fn outer_models(outer: Seq<&ValueMap>) -> Seq<MapModel> {
    Seq::new(outer.len(), |k: int| map_model(*outer[k]))
}

/// What `decode_layoutpacket_helper` promises.
pub open spec fn dyn_result(
    policy: SubcomPolicy,
    p: LayoutPacketDef,
    s: Seq<u8>,
    pos: int,
    outer: Seq<MapModel>,
    before: MapModel,
    after: MapModel,
    end: int,
    r: Result<(), DecodeError>,
) -> bool {
    match dyn_decode(policy, p, s, pos, outer, before) {
        Ok((m, e)) => r is Ok && after == m && end == e,
        Err(e) => r == Err::<(), DecodeError>(e),
    }
}

/// Lookup in the current level, then in the enclosing ones.
fn lookup_scoped(cur: &ValueMap, outer: &Vec<&ValueMap>, name: &Name) -> (r: Option<Value>)
    ensures
        r == scoped_lookup(map_model(*cur), outer_models(outer@), name@),
{
    proof {
        lemma_lookup_model(*cur, name@);
    }
    let here = cur.lookup(name);
    if here.is_some() {
        return here;
    }
    let ghost om = outer_models(outer@);
    let mut i: usize = outer.len();
    while i > 0
        invariant
            i <= outer@.len(),
            om == outer_models(outer@),
            lookup_model(map_model(*cur), name@) is None,
            outer_lookup(om, name@, om.len() as int) == outer_lookup(om, name@, i as int),
        decreases i,
    {
        let m: &ValueMap = outer[i - 1];
        proof {
            lemma_lookup_model(*m, name@);
        }
        let found = m.lookup(name);
        if found.is_some() {
            return found;
        }
        i = i - 1;
    }
    None
}

/// The repeat count of a variable array.
fn count_of(v: Option<Value>) -> (r: Result<usize, DecodeError>)
    ensures
        r matches Ok(n) ==> array_count(v) == Ok::<nat, DecodeError>(n as nat),
        r matches Err(e) ==> array_count(v) == Err::<nat, DecodeError>(e),
{
    match v {
        None => Ok(0),
        Some(x) => match x.value() {
            Some(n) => {
                if n < 0 || n > usize::MAX as i128 {
                    Err(DecodeError::BadArrayCount)
                } else {
                    Ok(n as usize)
                }
            },
            None => Err(DecodeError::BadArrayCount),
        },
    }
}


proof fn lemma_dyn_list_err(policy: SubcomPolicy, ps: Seq<LayoutPacketDef>, s: Seq<u8>, pos: int, outer: Seq<MapModel>, cur: MapModel, i: int, j: int)
    requires
        0 < i <= j <= ps.len(),
        dyn_list(policy, ps, s, pos, outer, cur, i) is Err,
    ensures
        dyn_list(policy, ps, s, pos, outer, cur, j) == dyn_list(policy, ps, s, pos, outer, cur, i),
    decreases j - i,
{
    if i < j {
        lemma_dyn_list_err(policy, ps, s, pos, outer, cur, i, j - 1);
    }
}

proof fn lemma_dyn_array_err(policy: SubcomPolicy, elem: LayoutPacketDef, s: Seq<u8>, pos: int, outer: Seq<MapModel>, i: int, j: int)
    requires
        0 < i <= j,
        dyn_array(policy, elem, s, pos, outer, i) is Err,
    ensures
        dyn_array(policy, elem, s, pos, outer, j) == dyn_array(policy, elem, s, pos, outer, i),
    decreases j - i,
{
    if i < j {
        lemma_dyn_array_err(policy, elem, s, pos, outer, i, j - 1);
    }
}

/// The enclosing levels with `cur` added as the innermost.
fn push_scope<'a>(outer: &Vec<&'a ValueMap>, cur: &'a ValueMap) -> (r: Vec<&'a ValueMap>)
    ensures
        outer_models(r@) == outer_models(outer@).push(map_model(*cur)),
{
    let mut r: Vec<&ValueMap> = Vec::new();
    let mut k: usize = 0;
    while k < outer.len()
        invariant
            k <= outer@.len(),
            r@ == outer@.subrange(0, k as int),
        decreases outer.len() - k,
    {
        r.push(outer[k]);
        assert(r@ =~= outer@.subrange(0, k + 1));
        k = k + 1;
    }
    r.push(cur);
    assert(r@ =~= outer@.push(cur));
    assert(outer_models(r@) =~= outer_models(outer@).push(map_model(*cur)));
    r
}

/// Decodes `layout_packet` at `*pos` into the level `map`, with `outer` the enclosing
/// levels, as `dyn_decode` has it.
pub fn decode_layoutpacket_helper(
    policy: SubcomPolicy,
    layout_packet: &LayoutPacketDef,
    bytes: &[u8],
    pos: &mut usize,
    outer: &Vec<&ValueMap>,
    map: &mut ValueMap,
) -> (r: Result<(), DecodeError>)
    ensures
        dyn_result(
            policy,
            *layout_packet,
            bytes@,
            *old(pos) as int,
            outer_models(outer@),
            map_model(*old(map)),
            map_model(*final(map)),
            *final(pos) as int,
            r,
        ),
    decreases layout_packet,
{
    let ghost pos0 = *pos as int;
    let ghost om = outer_models(outer@);
    let ghost before = map_model(*map);
    match layout_packet {
        PacketDef::Leaf(item) => match decode_prim(&item.typ, bytes, pos) {
            Ok(v) => {
                map.insert(item.name.clone(), ValueEntry::Leaf(v));
                Ok(())
            },
            Err(e) => Err(e),
        },
        PacketDef::Sequence(name, packets) => {
            let mut section = ValueMap::new(Vec::new());
            assert(map_model(section) =~= Seq::<(Seq<char>, EntryModel)>::empty());
            {
                let inner = push_scope(outer, &*map);
                let ghost im = outer_models(inner@);
                let mut i: usize = 0;
                while i < packets.len()
                    invariant
                        i <= packets@.len(),
                        *layout_packet == PacketDef::<Item>::Sequence(*name, *packets),
                        im == outer_models(inner@),
                        pos0 == *old(pos) as int,
                        om == outer_models(outer@),
                        before == map_model(*old(map)),
                        im == om.push(before),
                        dyn_list(policy, packets@, bytes@, pos0, im, Seq::empty(), i as int) == Ok::<(MapModel, int), DecodeError>(
                            (map_model(section), *pos as int),
                        ),
                    decreases packets.len() - i,
                {
                    proof {
                        let ghost e = *layout_packet;
                        assert(decreases_to!(e => e->Sequence_1));
                        vstd::std_specs::vec::axiom_vec_decreases_to_view(*packets);
                        assert(decreases_to!(packets@ => packets@[i as int]));
                    }
                    let res = decode_layoutpacket_helper(policy, &packets[i], bytes, pos, &inner, &mut section);
                    if res.is_err() {
                        proof {
                            lemma_dyn_list_err(policy, packets@, bytes@, pos0, im, Seq::empty(), i + 1, packets@.len() as int);
                        }
                        return res;
                    }
                    i = i + 1;
                }
            }
            map.insert(name.clone(), ValueEntry::Section(section));
            Ok(())
        },
        PacketDef::Array(name, size, elem) => {
            let count = match size {
                ArrSize::Fixed(n) => *n,
                ArrSize::Var(r) => match count_of(lookup_scoped(&*map, outer, r)) {
                    Ok(n) => n,
                    Err(e) => {
                        return Err(e);
                    },
                },
            };
            let mut elems: Vec<ValueMap> = Vec::new();
            {
                let inner = push_scope(outer, &*map);
                let ghost im = outer_models(inner@);
                let mut i: usize = 0;
                while i < count
                    invariant
                        i <= count,
                        *layout_packet == PacketDef::<Item>::Array(*name, *size, *elem),
                        im == outer_models(inner@),
                        pos0 == *old(pos) as int,
                        om == outer_models(outer@),
                        before == map_model(*old(map)),
                        im == om.push(before),
                        match *size {
                            ArrSize::Fixed(n) => count == n,
                            ArrSize::Var(r) => array_count(scoped_lookup(before, om, r@)) == Ok::<nat, DecodeError>(count as nat),
                        },
                        elems@.len() == i,
                        dyn_array(policy, **elem, bytes@, pos0, im, i as int) == Ok::<(Seq<MapModel>, int), DecodeError>(
                            (crate::value::maps_model(elems@, i as int), *pos as int),
                        ),
                    decreases count - i,
                {
                    proof {
                        let ghost e = *layout_packet;
                        assert(decreases_to!(e => e->Array_2));
                    }
                    let mut m = ValueMap::new(Vec::new());
                    assert(map_model(m) =~= Seq::<(Seq<char>, EntryModel)>::empty());
                    let res = decode_layoutpacket_helper(policy, elem, bytes, pos, &inner, &mut m);
                    if res.is_err() {
                        proof {
                            lemma_dyn_array_err(policy, **elem, bytes@, pos0, im, i + 1, count as int);
                        }
                        return res;
                    }
                    let ghost before_push = elems@;
                    elems.push(m);
                    proof {
                        crate::value::lemma_maps_model_prefix(elems@, before_push, i as int);
                    }
                    i = i + 1;
                }
            }
            map.insert(name.clone(), ValueEntry::Array(elems));
            Ok(())
        },
        PacketDef::Subcom(name, disc, branches) => {
            let v = match decode_prim(&disc.typ, bytes, pos) {
                Ok(v) => v,
                Err(e) => {
                    return Err(e);
                },
            };
            map.insert(disc.name.clone(), ValueEntry::Leaf(v.clone()));
            let ghost cur1 = map_model(*map);
            let ghost pos1 = *pos as int;
            let mut i: usize = 0;
            while i < branches.len()
                invariant
                    i <= branches@.len(),
                    *layout_packet == PacketDef::<Item>::Subcom(*name, *disc, *branches),
                    om == outer_models(outer@),
                    pos0 == *old(pos) as int,
                    before == map_model(*old(map)),
                    cur1 == map_model(*map),
                    pos1 == *pos as int,
                    dyn_decode(policy, *layout_packet, bytes@, pos0, om, before) == dyn_branch(policy, branches@, bytes@, pos1, om, cur1, v, i as int),
                decreases branches.len() - i,
            {
                let label = lookup_scoped(&*map, outer, &branches[i].0.name);
                let hit = match label {
                    Some(l) => l == v,
                    None => false,
                };
                if hit {
                    proof {
                        let ghost e = *layout_packet;
                        assert(decreases_to!(e => e->Subcom_2));
                        vstd::std_specs::vec::axiom_vec_decreases_to_view(*branches);
                        assert(decreases_to!(branches@ => branches@[i as int]));
                        assert(decreases_to!(branches@[i as int] => branches@[i as int].1));
                    }
                    return decode_layoutpacket_helper(policy, &branches[i].1, bytes, pos, outer, map);
                }
                i = i + 1;
            }
            match policy {
                SubcomPolicy::Permissive => Ok(()),
                SubcomPolicy::Strict => Err(DecodeError::NoBranchMatch),
            }
        },
    }
}

/// Decodes a whole packet definition from `*pos` into a fresh map, with `policy` for
/// branch nodes that match no label.
pub fn decode_layoutpacket_with(policy: SubcomPolicy, layout_packet: &LayoutPacketDef, bytes: &[u8], pos: &mut usize) -> (r: Result<ValueMap, DecodeError>)
    ensures
        match dyn_decode(policy, *layout_packet, bytes@, *old(pos) as int, Seq::empty(), Seq::empty()) {
            Ok((m, e)) => r matches Ok(vm) && map_model(vm) == m && *final(pos) == e,
            Err(e) => r == Err::<ValueMap, DecodeError>(e),
        },
{
    let mut map = ValueMap::new(Vec::new());
    let outer: Vec<&ValueMap> = Vec::new();
    assert(map_model(map) =~= Seq::<(Seq<char>, EntryModel)>::empty());
    assert(outer_models(outer@) =~= Seq::<MapModel>::empty());
    match decode_layoutpacket_helper(policy, layout_packet, bytes, pos, &outer, &mut map) {
        Ok(()) => Ok(map),
        Err(e) => Err(e),
    }
}


/// Decodes a whole packet definition from `*pos` into a fresh map; a branch node that
/// matches no label is skipped.
pub fn decode_layoutpacket(layout_packet: &LayoutPacketDef, bytes: &[u8], pos: &mut usize) -> (r: Result<ValueMap, DecodeError>)
    ensures
        match dyn_decode(SubcomPolicy::Permissive, *layout_packet, bytes@, *old(pos) as int, Seq::empty(), Seq::empty()) {
            Ok((m, e)) => r matches Ok(vm) && map_model(vm) == m && *final(pos) == e,
            Err(e) => r == Err::<ValueMap, DecodeError>(e),
        },
{
    decode_layoutpacket_with(SubcomPolicy::Permissive, layout_packet, bytes, pos)
}

/// A branch node whose discriminant matches none of its labels: under the permissive
/// policy it adds the discriminant alone to the output and consumes only the
/// discriminant's bytes; under the strict one it fails with `NoBranchMatch`.
pub proof fn lemma_subcom_skip(
    policy: SubcomPolicy,
    name: Name,
    disc: Item,
    branches: Vec<(Item, LayoutPacketDef)>,
    s: Seq<u8>,
    pos: int,
    outer: Seq<MapModel>,
    cur: MapModel,
)
    requires
        prim_decode(disc.typ, s, pos) is Ok,
        forall|i: int|
            0 <= i < branches@.len() ==> !(scoped_lookup(
                model_insert(cur, disc.name@, EntryModel::Leaf(prim_decode(disc.typ, s, pos)->Ok_0)),
                outer,
                (#[trigger] branches@[i]).0.name@,
            ) matches Some(l) && value_eq(l, prim_decode(disc.typ, s, pos)->Ok_0)),
    ensures
        policy == SubcomPolicy::Permissive ==> dyn_decode(policy, PacketDef::Subcom(name, disc, branches), s, pos, outer, cur)
            == Ok::<(MapModel, int), DecodeError>(
            (
                model_insert(cur, disc.name@, EntryModel::Leaf(prim_decode(disc.typ, s, pos)->Ok_0)),
                pos + prim_bytes(disc.typ),
            ),
        ),
        policy == SubcomPolicy::Strict ==> dyn_decode(policy, PacketDef::Subcom(name, disc, branches), s, pos, outer, cur)
            == Err::<(MapModel, int), DecodeError>(DecodeError::NoBranchMatch),
{
    let v = prim_decode(disc.typ, s, pos)->Ok_0;
    let cur1 = model_insert(cur, disc.name@, EntryModel::Leaf(v));
    lemma_branch_skip(policy, branches@, s, pos + prim_bytes(disc.typ), outer, cur1, v, 0);
}

proof fn lemma_branch_skip(
    policy: SubcomPolicy,
    bs: Seq<(Item, LayoutPacketDef)>,
    s: Seq<u8>,
    pos: int,
    outer: Seq<MapModel>,
    cur: MapModel,
    v: Value,
    i: int,
)
    requires
        0 <= i <= bs.len(),
        forall|k: int|
            0 <= k < bs.len() ==> !(scoped_lookup(cur, outer, (#[trigger] bs[k]).0.name@) matches Some(l)
                && value_eq(l, v)),
    ensures
        dyn_branch(policy, bs, s, pos, outer, cur, v, i) == dyn_branch(policy, bs, s, pos, outer, cur, v, bs.len() as int),
    decreases bs.len() - i,
{
    if i < bs.len() {
        assert(!(scoped_lookup(cur, outer, bs[i].0.name@) matches Some(l) && value_eq(l, v)));
        lemma_branch_skip(policy, bs, s, pos, outer, cur, v, i + 1);
    }
}

} // verus!
