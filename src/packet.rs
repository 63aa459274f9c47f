//! Static byte layout of packet definitions: sizes, names and the location compiler.
use crate::prim::{prim_bytes, same_prim, Name, NumBytes, Prim};
use crate::types::{ArrSize, Item, LayoutPacketDef, LocItem, LocLayout, LocPath, PacketDef};
use vstd::prelude::*;
use vstd::string::StringExecFns;

verus! {

/// A located field in the model: its path, its type and its byte offset.
pub struct LocSpec {
    pub path: Seq<Seq<char>>,
    pub typ: Prim,
    pub loc: int,
}

pub open spec fn path_view(p: Seq<Name>) -> Seq<Seq<char>> {
    p.map_values(|s: Name| s@)
}

/// A located item that is the model's located field.
pub open spec fn loc_matches(li: LocItem, ls: LocSpec) -> bool {
    &&& path_view(li.name@) == ls.path
    &&& same_prim(li.typ, ls.typ)
    &&& li.loc == ls.loc
}

pub open spec fn items_match(a: Seq<LocItem>, s: Seq<LocSpec>) -> bool {
    &&& a.len() == s.len()
    &&& forall|i: int| 0 <= i < a.len() ==> loc_matches(#[trigger] a[i], s[i])
}

pub open spec fn digit(d: nat) -> char {
    if d == 0 {
        '0'
    } else if d == 1 {
        '1'
    } else if d == 2 {
        '2'
    } else if d == 3 {
        '3'
    } else if d == 4 {
        '4'
    } else if d == 5 {
        '5'
    } else if d == 6 {
        '6'
    } else if d == 7 {
        '7'
    } else if d == 8 {
        '8'
    } else {
        '9'
    }
}

/// The decimal digits of `n`.
pub open spec fn decimal(n: nat) -> Seq<char>
    decreases n,
{
    if n < 10 {
        seq![digit(n)]
    } else {
        decimal(n / 10).push(digit(n % 10))
    }
}

/// The path segment of iteration `i` of the array `name`: `name[i]`.
pub open spec fn indexed(name: Seq<char>, i: nat) -> Seq<char> {
    name + seq!['['] + decimal(i) + seq![']']
}

/// The one-character text of the digit `d`.
fn digit_str(d: u64) -> (r: &'static str)
    requires
        d < 10,
    ensures
        r@ == seq![digit(d as nat)],
{
    match d {
        0 => {
            proof {
                reveal_strlit("0");
            }
            "0"
        },
        1 => {
            proof {
                reveal_strlit("1");
            }
            "1"
        },
        2 => {
            proof {
                reveal_strlit("2");
            }
            "2"
        },
        3 => {
            proof {
                reveal_strlit("3");
            }
            "3"
        },
        4 => {
            proof {
                reveal_strlit("4");
            }
            "4"
        },
        5 => {
            proof {
                reveal_strlit("5");
            }
            "5"
        },
        6 => {
            proof {
                reveal_strlit("6");
            }
            "6"
        },
        7 => {
            proof {
                reveal_strlit("7");
            }
            "7"
        },
        8 => {
            proof {
                reveal_strlit("8");
            }
            "8"
        },
        _ => {
            proof {
                reveal_strlit("9");
            }
            "9"
        },
    }
}

/// Appends the decimal digits of `n` to `s`.
fn append_decimal(s: &mut String, n: u64)
    ensures
        final(s)@ == old(s)@ + decimal(n as nat),
    decreases n,
{
    if n < 10 {
        s.append(digit_str(n));
    } else {
        append_decimal(s, n / 10);
        s.append(digit_str(n % 10));
        assert(decimal(n as nat) == decimal((n / 10) as nat).push(digit((n % 10) as nat)));
        assert(s@ =~= old(s)@ + decimal(n as nat));
    }
}

/// The path segment `name[index]`.
pub(crate) fn indexed_name(name: &Name, index: u64) -> (r: Name)
    ensures
        r@ == indexed(name@, index as nat),
{
    let mut r = name.clone();
    proof {
        reveal_strlit("[");
        reveal_strlit("]");
    }
    r.append("[");
    append_decimal(&mut r, index);
    r.append("]");
    assert(r@ =~= indexed(name@, index as nat));
    r
}

/// The located fields of `p` placed at `off` under `path`, and the offset after it;
/// none where `p` holds a branch or a variable array, or an offset passes `u64::MAX`.
pub open spec fn loc_node(p: LayoutPacketDef, path: Seq<Seq<char>>, off: int) -> Option<
    (Seq<LocSpec>, int),
>
    decreases p, 0int,
{
    match p {
        PacketDef::Leaf(item) => {
            let end = off + prim_bytes(item.typ);
            if end <= u64::MAX {
                Some((seq![LocSpec { path: path.push(item.name@), typ: item.typ, loc: off }], end))
            } else {
                None
            }
        },
        PacketDef::Sequence(name, ps) => loc_list(ps@, path.push(name@), off, ps@.len() as int),
        PacketDef::Array(name, ArrSize::Fixed(n), elem) => loc_array(*elem, name@, path, off, n as int),
        _ => None,
    }
}

/// The first `i` children of a sequence, one after the other from `off`.
pub open spec fn loc_list(ps: Seq<LayoutPacketDef>, path: Seq<Seq<char>>, off: int, i: int) -> Option<
    (Seq<LocSpec>, int),
>
    decreases ps, i,
{
    if i <= 0 || i > ps.len() {
        Some((Seq::empty(), off))
    } else {
        match loc_list(ps, path, off, i - 1) {
            None => None,
            Some((items, mid)) => match loc_node(ps[i - 1], path, mid) {
                None => None,
                Some((more, end)) => Some((items + more, end)),
            },
        }
    }
}

/// The first `i` iterations of a fixed array, iteration `j` under the segment `name[j]`.
pub open spec fn loc_array(elem: LayoutPacketDef, name: Seq<char>, path: Seq<Seq<char>>, off: int, i: int) -> Option<
    (Seq<LocSpec>, int),
>
    decreases elem, i + 1,
{
    if i <= 0 {
        Some((Seq::empty(), off))
    } else {
        match loc_array(elem, name, path, off, i - 1) {
            None => None,
            Some((items, mid)) => match loc_node(elem, path.push(indexed(name, (i - 1) as nat)), mid) {
                None => None,
                Some((more, end)) => Some((items + more, end)),
            },
        }
    }
}

/// The static size of a definition: leaves by their type, sequences by their sum, fixed
/// arrays by count times element, branches by their largest subtree. None for a
/// variable array, or where a size passes `u64::MAX`.
pub open spec fn packet_size(p: LayoutPacketDef) -> Option<int>
    decreases p, 0int,
{
    let s = match p {
        PacketDef::Leaf(item) => Some(prim_bytes(item.typ) as int),
        PacketDef::Sequence(_, ps) => size_sum(ps@, ps@.len() as int),
        PacketDef::Array(_, ArrSize::Fixed(n), elem) => match packet_size(*elem) {
            Some(k) => Some(n * k),
            None => None,
        },
        PacketDef::Array(_, ArrSize::Var(_), _) => None,
        PacketDef::Subcom(_, _, branches) => size_max(branches@, branches@.len() as int),
    };
    match s {
        Some(k) => if k <= u64::MAX {
            Some(k)
        } else {
            None
        },
        None => None,
    }
}

/// The sum of the sizes of the first `i` definitions.
pub open spec fn size_sum(ps: Seq<LayoutPacketDef>, i: int) -> Option<int>
    decreases ps, i,
{
    if i <= 0 || i > ps.len() {
        Some(0)
    } else {
        match (size_sum(ps, i - 1), packet_size(ps[i - 1])) {
            (Some(a), Some(b)) => if a + b <= u64::MAX {
                Some(a + b)
            } else {
                None
            },
            _ => None,
        }
    }
}

/// The largest size among the first `i` branch subtrees.
pub open spec fn size_max(bs: Seq<(Item, LayoutPacketDef)>, i: int) -> Option<int>
    decreases bs, i,
{
    if i <= 0 || i > bs.len() {
        Some(0)
    } else {
        match (size_max(bs, i - 1), packet_size(bs[i - 1].1)) {
            (Some(a), Some(b)) => Some(if a > b {
                a
            } else {
                b
            }),
            _ => None,
        }
    }
}

/// The names of the leaves of a definition.
pub open spec fn names_spec(p: LayoutPacketDef) -> Set<Seq<char>>
    decreases p, 0int,
{
    match p {
        PacketDef::Leaf(item) => set![item.name@],
        PacketDef::Sequence(_, ps) => names_list(ps@, ps@.len() as int),
        PacketDef::Array(_, _, elem) => names_spec(*elem),
        PacketDef::Subcom(_, _, branches) => names_branches(branches@, branches@.len() as int),
    }
}

pub open spec fn names_list(ps: Seq<LayoutPacketDef>, i: int) -> Set<Seq<char>>
    decreases ps, i,
{
    if i <= 0 || i > ps.len() {
        Set::empty()
    } else {
        names_list(ps, i - 1) + names_spec(ps[i - 1])
    }
}

pub open spec fn names_branches(bs: Seq<(Item, LayoutPacketDef)>, i: int) -> Set<Seq<char>>
    decreases bs, i,
{
    if i <= 0 || i > bs.len() {
        Set::empty()
    } else {
        names_branches(bs, i - 1) + names_spec(bs[i - 1].1)
    }
}

/// The names held, once each.
pub open spec fn distinct_names(v: Seq<Name>) -> bool {
    forall|i: int, j: int| 0 <= i < j < v.len() ==> (#[trigger] v[i])@ != (#[trigger] v[j])@
}

pub open spec fn name_set(v: Seq<Name>) -> Set<Seq<char>> {
    Set::new(|s: Seq<char>| exists|i: int| 0 <= i < v.len() && (#[trigger] v[i])@ == s)
}

/// Adds `name` to `names` unless it is there already.
pub fn push_unique(names: &mut Vec<Name>, name: &Name)
    requires
        distinct_names(old(names)@),
    ensures
        distinct_names(final(names)@),
        name_set(final(names)@) == name_set(old(names)@).insert(name@),
{
    let mut i: usize = 0;
    while i < names.len()
        invariant
            i <= names@.len(),
            names@ == old(names)@,
            distinct_names(names@),
            forall|j: int| 0 <= j < i ==> (#[trigger] names@[j])@ != name@,
        decreases names.len() - i,
    {
        if names[i] == *name {
            assert(name_set(names@) =~= name_set(names@).insert(name@));
            return ;
        }
        i = i + 1;
    }
    let ghost before = names@;
    names.push(name.clone());
    assert(name_set(names@) =~= name_set(before).insert(name@)) by {
        assert forall|s: Seq<char>| name_set(before).insert(name@).contains(s) implies name_set(
            names@,
        ).contains(s) by {
            if s != name@ {
                let k = choose|k: int| 0 <= k < before.len() && (#[trigger] before[k])@ == s;
                assert(names@[k] == before[k]);
            } else {
                assert(names@[before.len() as int] == *name);
            }
        }
    }
}

/// A copy of a path.
pub(crate) fn copy_path(p: &LocPath) -> (r: LocPath)
    ensures
        r@ == p@,
{
    let mut r: LocPath = Vec::new();
    let mut i: usize = 0;
    while i < p.len()
        invariant
            i <= p@.len(),
            r@ == p@.subrange(0, i as int),
        decreases p.len() - i,
    {
        r.push(p[i].clone());
        assert(r@ =~= p@.subrange(0, i + 1));
        i = i + 1;
    }
    assert(r@ =~= p@);
    r
}

proof fn lemma_match_append(a: Seq<LocItem>, sa: Seq<LocSpec>, b: Seq<LocItem>, sb: Seq<LocSpec>)
    requires
        items_match(a, sa),
        items_match(b, sb),
    ensures
        items_match(a + b, sa + sb),
{
    assert forall|i: int| 0 <= i < (a + b).len() implies loc_matches(#[trigger] (a + b)[i], (sa + sb)[i]) by {
        if i < a.len() {
            assert(loc_matches(a[i], sa[i]));
        } else {
            assert(loc_matches(b[i - a.len()], sb[i - a.len()]));
        }
    }
}

pub(crate) proof fn lemma_path_push(p: Seq<Name>, n: Name)
    ensures
        path_view(p.push(n)) == path_view(p).push(n@),
{
    assert(path_view(p.push(n)) =~= path_view(p).push(n@));
}


/// The located fields of `p` appended to `items` from `start` on, as `spec` has them.
/// `after` keeps `before` as its beginning.
pub open spec fn extends(before: Seq<LocItem>, after: Seq<LocItem>) -> bool {
    after.len() >= before.len() && after.subrange(0, before.len() as int) == before
}

pub(crate) proof fn lemma_extends_refl(a: Seq<LocItem>)
    ensures
        extends(a, a),
{
    assert(a.subrange(0, a.len() as int) =~= a);
}

pub(crate) proof fn lemma_extends_trans(a: Seq<LocItem>, b: Seq<LocItem>, c: Seq<LocItem>)
    requires
        extends(a, b),
        extends(b, c),
    ensures
        extends(a, c),
{
    assert(c.subrange(0, a.len() as int) =~= c.subrange(0, b.len() as int).subrange(0, a.len() as int));
}

pub open spec fn appended(before: Seq<LocItem>, after: Seq<LocItem>, spec: Seq<LocSpec>) -> bool {
    &&& after.len() == before.len() + spec.len()
    &&& after.subrange(0, before.len() as int) == before
    &&& items_match(after.subrange(before.len() as int, after.len() as int), spec)
}

pub(crate) proof fn lemma_appended_trans(
    a: Seq<LocItem>,
    b: Seq<LocItem>,
    c: Seq<LocItem>,
    sab: Seq<LocSpec>,
    sbc: Seq<LocSpec>,
)
    requires
        appended(a, b, sab),
        appended(b, c, sbc),
    ensures
        appended(a, c, sab + sbc),
{
    assert(c.subrange(0, a.len() as int) =~= c.subrange(0, b.len() as int).subrange(0, a.len() as int));
    assert(c.subrange(a.len() as int, c.len() as int) =~= b.subrange(a.len() as int, b.len() as int)
        + c.subrange(b.len() as int, c.len() as int)) by {
        assert(c.subrange(0, b.len() as int) == b);
        assert forall|i: int| 0 <= i < b.len() - a.len() implies c.subrange(a.len() as int, c.len() as int)[i]
            == #[trigger] b.subrange(a.len() as int, b.len() as int)[i] by {
            assert(c.subrange(0, b.len() as int)[a.len() + i] == b[a.len() + i]);
        }
    }
    lemma_match_append(
        b.subrange(a.len() as int, b.len() as int),
        sab,
        c.subrange(b.len() as int, c.len() as int),
        sbc,
    );
}

pub(crate) proof fn lemma_appended_empty(a: Seq<LocItem>)
    ensures
        appended(a, a, Seq::empty()),
{
    assert(a.subrange(0, a.len() as int) =~= a);
}

proof fn lemma_size_sum_none(ps: Seq<LayoutPacketDef>, i: int, j: int)
    requires
        0 < i <= j <= ps.len(),
        size_sum(ps, i) is None,
    ensures
        size_sum(ps, j) is None,
    decreases j - i,
{
    if i < j {
        lemma_size_sum_none(ps, i, j - 1);
    }
}

proof fn lemma_size_max_none(bs: Seq<(Item, LayoutPacketDef)>, i: int, j: int)
    requires
        0 < i <= j <= bs.len(),
        size_max(bs, i) is None,
    ensures
        size_max(bs, j) is None,
    decreases j - i,
{
    if i < j {
        lemma_size_max_none(bs, i, j - 1);
    }
}

impl PacketDef<Item> {
    /// The static size of the definition, as `packet_size` gives it.
    pub fn num_bytes(&self) -> (r: Option<u64>)
        ensures
            r matches Some(n) ==> packet_size(*self) == Some(n as int),
            r is None ==> packet_size(*self) is None,
        decreases self,
    {
        let s: Option<u64> = match self {
            PacketDef::Leaf(item) => Some(item.typ.num_bytes()),
            PacketDef::Sequence(nm, packets) => {
                let mut total: u64 = 0;
                let mut i: usize = 0;
                while i < packets.len()
                    invariant
                        i <= packets@.len(),
                        *self == PacketDef::<Item>::Sequence(*nm, *packets),
                        size_sum(packets@, i as int) == Some(total as int),
                    decreases packets.len() - i,
                {
                    proof {
                        vstd::std_specs::vec::axiom_vec_decreases_to_view(*packets);
                        assert(decreases_to!(*self => *packets));
                        assert(decreases_to!(packets@ => packets@[i as int]));
                    }
                    match packets[i].num_bytes() {
                        Some(k) => {
                            if total > u64::MAX - k {
                                proof {
                                    lemma_size_sum_none(packets@, i + 1, packets@.len() as int);
                                }
                                return None;
                            }
                            total = total + k;
                        },
                        None => {
                            proof {
                                lemma_size_sum_none(packets@, i + 1, packets@.len() as int);
                            }
                            return None;
                        },
                    }
                    i = i + 1;
                }
                Some(total)
            },
            PacketDef::Array(_, ArrSize::Fixed(n), elem) => match elem.num_bytes() {
                Some(k) => {
                    if k > 0 && *n as u64 > u64::MAX / k {
                        proof {
                            assert((*n as int) * (k as int) > u64::MAX) by (nonlinear_arith)
                                requires
                                    k > 0,
                                    *n as int > (u64::MAX as int) / (k as int),
                            ;
                        }
                        return None;
                    }
                    proof {
                        assert((*n as int) * (k as int) <= u64::MAX) by (nonlinear_arith)
                            requires
                                k == 0 || *n as int <= (u64::MAX as int) / (k as int),
                        ;
                    }
                    Some(*n as u64 * k)
                },
                None => None,
            },
            PacketDef::Array(_, ArrSize::Var(_), _) => None,
            PacketDef::Subcom(nm, it, pairs) => {
                let mut largest: u64 = 0;
                let mut i: usize = 0;
                while i < pairs.len()
                    invariant
                        i <= pairs@.len(),
                        *self == PacketDef::<Item>::Subcom(*nm, *it, *pairs),
                        size_max(pairs@, i as int) == Some(largest as int),
                    decreases pairs.len() - i,
                {
                    proof {
                        vstd::std_specs::vec::axiom_vec_decreases_to_view(*pairs);
                        assert(decreases_to!(*self => *pairs));
                        assert(decreases_to!(pairs@ => pairs@[i as int]));
                        assert(decreases_to!(pairs@[i as int] => pairs@[i as int].1));
                    }
                    match pairs[i].1.num_bytes() {
                        Some(k) => {
                            if k > largest {
                                largest = k;
                            }
                        },
                        None => {
                            proof {
                                lemma_size_max_none(pairs@, i + 1, pairs@.len() as int);
                            }
                            return None;
                        },
                    }
                    i = i + 1;
                }
                Some(largest)
            },
        };
        s
    }

    /// The names of the leaves, once each.
    pub fn names(&self) -> (r: Vec<Name>)
        ensures
            distinct_names(r@),
            name_set(r@) == names_spec(*self),
    {
        let mut out: Vec<Name> = Vec::new();
        assert(name_set(out@) =~= Set::empty());
        self.collect_names(&mut out);
        assert(name_set(out@) =~= Set::empty() + names_spec(*self));
        out
    }

    fn collect_names(&self, out: &mut Vec<Name>)
        requires
            distinct_names(old(out)@),
        ensures
            distinct_names(final(out)@),
            name_set(final(out)@) == name_set(old(out)@) + names_spec(*self),
        decreases self,
    {
        match self {
            PacketDef::Leaf(item) => {
                push_unique(out, &item.name);
                assert(name_set(out@) =~= name_set(old(out)@) + names_spec(*self));
            },
            PacketDef::Sequence(nm, packets) => {
                let mut i: usize = 0;
                assert(name_set(out@) =~= name_set(old(out)@) + names_list(packets@, 0));
                while i < packets.len()
                    invariant
                        i <= packets@.len(),
                        *self == PacketDef::<Item>::Sequence(*nm, *packets),
                        distinct_names(out@),
                        name_set(out@) == name_set(old(out)@) + names_list(packets@, i as int),
                    decreases packets.len() - i,
                {
                    proof {
                        vstd::std_specs::vec::axiom_vec_decreases_to_view(*packets);
                        let ghost e = *self;
                        assert(decreases_to!(e => e->Sequence_1));
                        assert(decreases_to!(packets@ => packets@[i as int]));
                    }
                    packets[i].collect_names(out);
                    assert(name_set(out@) =~= name_set(old(out)@) + names_list(packets@, i + 1));
                    i = i + 1;
                }
            },
            PacketDef::Array(_, _, elem) => {
                elem.collect_names(out);
            },
            PacketDef::Subcom(nm, it, pairs) => {
                let mut i: usize = 0;
                assert(name_set(out@) =~= name_set(old(out)@) + names_branches(pairs@, 0));
                while i < pairs.len()
                    invariant
                        i <= pairs@.len(),
                        *self == PacketDef::<Item>::Subcom(*nm, *it, *pairs),
                        distinct_names(out@),
                        name_set(out@) == name_set(old(out)@) + names_branches(pairs@, i as int),
                    decreases pairs.len() - i,
                {
                    proof {
                        vstd::std_specs::vec::axiom_vec_decreases_to_view(*pairs);
                        let ghost e = *self;
                        assert(decreases_to!(e => e->Subcom_2));
                        assert(decreases_to!(pairs@ => pairs@[i as int]));
                        assert(decreases_to!(pairs@[i as int] => pairs@[i as int].1));
                    }
                    pairs[i].1.collect_names(out);
                    assert(name_set(out@) =~= name_set(old(out)@) + names_branches(pairs@, i + 1));
                    i = i + 1;
                }
            },
        }
    }
}


/// What `locate_helper` promises for `p` placed at `off` under `path`.
pub open spec fn located_as(
    p: LayoutPacketDef,
    path: Seq<Name>,
    off: u64,
    before: Seq<LocItem>,
    after: Seq<LocItem>,
    end: u64,
    ok: bool,
) -> bool {
    &&& extends(before, after)
    &&& match loc_node(p, path_view(path), off as int) {
        Some((items, e)) => ok && end == e && appended(before, after, items),
        None => !ok,
    }
}

impl PacketDef<Item> {
    /// The location compiler: every leaf with its path and byte offset, in order; none
    /// where the definition holds a branch or a variable array.
    pub fn locate(&self) -> (r: Option<LocLayout>)
        ensures
            r is Some <==> loc_node(*self, Seq::empty(), 0) is Some,
            r matches Some(l) ==> items_match(l.loc_items@, loc_node(*self, Seq::empty(), 0).unwrap().0),
    {
        let mut offset: u64 = 0;
        let mut loc_layout = LocLayout::new();
        let mut loc_path: LocPath = Vec::new();
        let ghost before = loc_layout.loc_items@;
        proof {
            assert(path_view(loc_path@) =~= Seq::empty());
        }
        let result = PacketDef::<Item>::locate_helper(self, &mut offset, &mut loc_layout, &mut loc_path);
        if result {
            proof {
                let items = loc_node(*self, Seq::empty(), 0).unwrap().0;
                assert(loc_layout.loc_items@.subrange(0, loc_layout.loc_items@.len() as int) =~= loc_layout.loc_items@);
                assert(before.len() == 0);
            }
            Some(loc_layout)
        } else {
            None
        }
    }

    fn locate_helper(
        packet: &LayoutPacketDef,
        offset: &mut u64,
        loc_layout: &mut LocLayout,
        loc_path: &mut LocPath,
    ) -> (r: bool)
        ensures
            located_as(
                *packet,
                old(loc_path)@,
                *old(offset),
                old(loc_layout).loc_items@,
                final(loc_layout).loc_items@,
                *final(offset),
                r,
            ),
            final(loc_path)@ == old(loc_path)@,
        decreases packet,
    {
        let ghost path0 = loc_path@;
        let ghost items0 = loc_layout.loc_items@;
        match packet {
            PacketDef::Leaf(item) => {
                let w = item.typ.num_bytes();
                if *offset > u64::MAX - w {
                    proof {
                        lemma_extends_refl(items0);
                    }
                    return false;
                }
                let mut path = copy_path(loc_path);
                path.push(item.name.clone());
                proof {
                    lemma_path_push(path0, item.name);
                }
                let li = LocItem::new(path, item.typ.clone(), *offset);
                loc_layout.loc_items.push(li);
                *offset = *offset + w;
                proof {
                    let after = loc_layout.loc_items@;
                    assert(after.subrange(0, items0.len() as int) =~= items0);
                    let tail = after.subrange(items0.len() as int, after.len() as int);
                    let spec_items = loc_node(*packet, path_view(path0), *old(offset) as int).unwrap().0;
                    assert(tail.len() == 1 && tail[0] == li);
                    assert(loc_matches(tail[0], spec_items[0]));
                }
                true
            },
            PacketDef::Sequence(name, packets) => {
                loc_path.push(name.clone());
                proof {
                    lemma_path_push(path0, *name);
                    lemma_appended_empty(items0);
                }
                let ghost inner = path_view(path0).push(name@);
                let mut i: usize = 0;
                while i < packets.len()
                    invariant
                        i <= packets@.len(),
                        *packet == PacketDef::<Item>::Sequence(*name, *packets),
                        path0 == old(loc_path)@,
                        items0 == old(loc_layout).loc_items@,
                        inner == path_view(path0).push(name@),
                        loc_path@ == path0.push(*name),
                        path_view(loc_path@) == inner,
                        loc_list(packets@, inner, *old(offset) as int, i as int) matches Some((its, e)) && e
                            == *offset && appended(items0, loc_layout.loc_items@, its),
                    decreases packets.len() - i,
                {
                    proof {
                        let ghost e = *packet;
                        assert(decreases_to!(e => e->Sequence_1));
                        vstd::std_specs::vec::axiom_vec_decreases_to_view(*packets);
                        assert(decreases_to!(packets@ => packets@[i as int]));
                    }
                    let ghost mid_items = loc_layout.loc_items@;
                    let ghost mid = *offset;
                    let ok = PacketDef::<Item>::locate_helper(&packets[i], offset, loc_layout, loc_path);
                    if !ok {
                        loc_path.pop();
                        proof {
                            lemma_extends_trans(items0, mid_items, loc_layout.loc_items@);
                            assert(loc_node(packets@[i as int], inner, mid as int) is None);
                            assert(loc_list(packets@, inner, *old(offset) as int, i as int) == Some((loc_list(packets@, inner, *old(offset) as int, i as int).unwrap().0, mid as int)));
                            assert(loc_list(packets@, inner, *old(offset) as int, i + 1) is None);
                            lemma_loc_list_none(packets@, inner, *old(offset) as int, i + 1, packets@.len() as int);
                            assert(loc_path@ =~= path0);
                        }
                        return false;
                    }
                    proof {
                        let its = loc_list(packets@, inner, *old(offset) as int, i as int).unwrap().0;
                        let more = loc_node(packets@[i as int], inner, mid as int).unwrap().0;
                        lemma_appended_trans(items0, mid_items, loc_layout.loc_items@, its, more);
                    }
                    i = i + 1;
                }
                loc_path.pop();
                proof {
                    assert(loc_path@ =~= path0);
                }
                true
            },
            PacketDef::Array(name, ArrSize::Fixed(n), elem) => {
                proof {
                    lemma_appended_empty(items0);
                }
                let mut i: usize = 0;
                while i < *n
                    invariant
                        i <= *n,
                        *packet == PacketDef::<Item>::Array(*name, ArrSize::Fixed(*n), *elem),
                        path0 == old(loc_path)@,
                        items0 == old(loc_layout).loc_items@,
                        loc_path@ == path0,
                        loc_array(**elem, name@, path_view(path0), *old(offset) as int, i as int) matches Some((its, e))
                            && e == *offset && appended(items0, loc_layout.loc_items@, its),
                    decreases *n - i,
                {
                    let seg = indexed_name(name, i as u64);
                    loc_path.push(seg);
                    proof {
                        lemma_path_push(path0, seg);
                    }
                    let ghost mid_items = loc_layout.loc_items@;
                    let ghost mid = *offset;
                    proof {
                        let ghost e = *packet;
                        assert(decreases_to!(e => e->Array_2));
                    }
                    let ok = PacketDef::<Item>::locate_helper(elem, offset, loc_layout, loc_path);
                    loc_path.pop();
                    proof {
                        assert(loc_path@ =~= path0);
                    }
                    if !ok {
                        proof {
                            lemma_extends_trans(items0, mid_items, loc_layout.loc_items@);
                            lemma_loc_array_none(**elem, name@, path_view(path0), *old(offset) as int, i + 1, *n as int);
                        }
                        return false;
                    }
                    proof {
                        let its = loc_array(**elem, name@, path_view(path0), *old(offset) as int, i as int).unwrap().0;
                        let more = loc_node(**elem, path_view(path0).push(indexed(name@, i as nat)), mid as int).unwrap().0;
                        lemma_appended_trans(items0, mid_items, loc_layout.loc_items@, its, more);
                    }
                    i = i + 1;
                }
                true
            },
            _ => {
                proof {
                    lemma_extends_refl(items0);
                }
                false
            },
        }
    }
}

proof fn lemma_loc_list_none(ps: Seq<LayoutPacketDef>, path: Seq<Seq<char>>, off: int, i: int, j: int)
    requires
        0 < i <= j <= ps.len(),
        loc_list(ps, path, off, i) is None,
    ensures
        loc_list(ps, path, off, j) is None,
    decreases j - i,
{
    if i < j {
        lemma_loc_list_none(ps, path, off, i, j - 1);
    }
}

proof fn lemma_loc_array_none(elem: LayoutPacketDef, name: Seq<char>, path: Seq<Seq<char>>, off: int, i: int, j: int)
    requires
        0 < i <= j,
        loc_array(elem, name, path, off, i) is None,
    ensures
        loc_array(elem, name, path, off, j) is None,
    decreases j - i,
{
    if i < j {
        lemma_loc_array_none(elem, name, path, off, i, j - 1);
    }
}

} // verus!
