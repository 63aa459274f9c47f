//! Layouts: the non-conditional form of a definition, which a text schema describes.
use crate::decode::{decode_bits, decode_prim, fits, model_bit_fields, bit_fields_fit, field, prim_decode, DecodeError};
use crate::packet::{
    appended, copy_path, extends, lemma_extends_refl, lemma_extends_trans, distinct_names, indexed, indexed_name, lemma_appended_empty, lemma_appended_trans,
    lemma_path_push, loc_matches, name_set, path_view, push_unique, LocSpec,
};
use crate::prim::{prim_bytes, BitPrim, Name, NumBytes};
use crate::types::{Item, Loc, LocItem, LocLayout, LocPath};
use crate::value::{map_model, maps_model, model_insert, EntryModel, MapModel, ValueEntry, ValueMap};
use vstd::prelude::*;

verus! {

#[derive(Debug, PartialEq, Eq)]
pub enum Layout {
    Prim(Item),
    Sequence(Name, Vec<Layout>),
    /// Alternatives laid over the same bytes; the largest decides the size.
    All(Name, Vec<Layout>),
    Array(Name, u64, Box<Layout>),
    Bits(BitPrim),
}

/// A protocol: sequences of layouts and of branches on a located discriminant.
#[derive(Debug, PartialEq, Eq)]
pub enum Protocol<T> {
    Sequence(Vec<Protocol<T>>),
    Branch(LocItem, Vec<(LocItem, Protocol<T>)>),
    Layout(Layout),
    Leaf(T),
}

/// The size of a layout; none where a size passes `u64::MAX`.
pub open spec fn layout_size(l: Layout) -> Option<int>
    decreases l, 0int,
{
    let s = match l {
        Layout::Prim(item) => Some(prim_bytes(item.typ) as int),
        Layout::Sequence(_, ls) => layout_sum(ls@, ls@.len() as int),
        Layout::All(_, ls) => layout_max(ls@, ls@.len() as int),
        Layout::Array(_, n, elem) => match layout_size(*elem) {
            Some(k) => Some(n * k),
            None => None,
        },
        Layout::Bits(b) => Some(b.num_bytes as int),
    };
    match s {
        Some(k) => if k <= u64::MAX {
            Some(k)
        } else {
            None
        },
        None => None,
    }
}

pub open spec fn layout_sum(ls: Seq<Layout>, i: int) -> Option<int>
    decreases ls, i,
{
    if i <= 0 || i > ls.len() {
        Some(0)
    } else {
        match (layout_sum(ls, i - 1), layout_size(ls[i - 1])) {
            (Some(a), Some(b)) => if a + b <= u64::MAX {
                Some(a + b)
            } else {
                None
            },
            _ => None,
        }
    }
}

pub open spec fn layout_max(ls: Seq<Layout>, i: int) -> Option<int>
    decreases ls, i,
{
    if i <= 0 || i > ls.len() {
        Some(0)
    } else {
        match (layout_max(ls, i - 1), layout_size(ls[i - 1])) {
            (Some(a), Some(b)) => Some(if a > b {
                a
            } else {
                b
            }),
            _ => None,
        }
    }
}

/// The names of the primitives and bit fields of a layout.
pub open spec fn layout_names(l: Layout) -> Set<Seq<char>>
    decreases l, 0int,
{
    match l {
        Layout::Prim(item) => set![item.name@],
        Layout::Sequence(_, ls) => layout_names_list(ls@, ls@.len() as int),
        Layout::All(_, ls) => layout_names_list(ls@, ls@.len() as int),
        Layout::Array(_, _, elem) => layout_names(*elem),
        Layout::Bits(b) => bit_names(b.entries@, b.entries@.len() as int),
    }
}

pub open spec fn layout_names_list(ls: Seq<Layout>, i: int) -> Set<Seq<char>>
    decreases ls, i,
{
    if i <= 0 || i > ls.len() {
        Set::empty()
    } else {
        layout_names_list(ls, i - 1) + layout_names(ls[i - 1])
    }
}

pub open spec fn bit_names(es: Seq<(Name, u32, crate::prim::IntPrim)>, i: int) -> Set<Seq<char>>
    decreases i,
{
    if i <= 0 || i > es.len() {
        Set::empty()
    } else {
        bit_names(es, i - 1).insert(es[i - 1].0@)
    }
}

/// The located fields of a layout placed at `off` under `path`, and the offset after
/// it; none for bit fields, or where an offset passes `u64::MAX`.
pub open spec fn lay_loc(l: Layout, path: Seq<Seq<char>>, off: int) -> Option<(Seq<LocSpec>, int)>
    decreases l, 0int,
{
    match l {
        Layout::Prim(item) => {
            let end = off + prim_bytes(item.typ);
            if end <= u64::MAX {
                Some((seq![LocSpec { path: path.push(item.name@), typ: item.typ, loc: off }], end))
            } else {
                None
            }
        },
        Layout::Sequence(name, ls) => lay_loc_list(ls@, path.push(name@), off, ls@.len() as int),
        Layout::All(name, ls) => lay_loc_all(ls@, path.push(name@), off, ls@.len() as int),
        Layout::Array(name, n, elem) => lay_loc_array(*elem, name@, path, off, n as int),
        Layout::Bits(_) => None,
    }
}

pub open spec fn lay_loc_list(ls: Seq<Layout>, path: Seq<Seq<char>>, off: int, i: int) -> Option<(Seq<LocSpec>, int)>
    decreases ls, i,
{
    if i <= 0 || i > ls.len() {
        Some((Seq::empty(), off))
    } else {
        match lay_loc_list(ls, path, off, i - 1) {
            None => None,
            Some((items, mid)) => match lay_loc(ls[i - 1], path, mid) {
                None => None,
                Some((more, end)) => Some((items + more, end)),
            },
        }
    }
}

/// The first `i` alternatives, each from `off`; the offset after them is the furthest end.
pub open spec fn lay_loc_all(ls: Seq<Layout>, path: Seq<Seq<char>>, off: int, i: int) -> Option<(Seq<LocSpec>, int)>
    decreases ls, i,
{
    if i <= 0 || i > ls.len() {
        Some((Seq::empty(), off))
    } else {
        match lay_loc_all(ls, path, off, i - 1) {
            None => None,
            Some((items, far)) => match lay_loc(ls[i - 1], path, off) {
                None => None,
                Some((more, end)) => Some((items + more, if end > far {
                    end
                } else {
                    far
                })),
            },
        }
    }
}

pub open spec fn lay_loc_array(elem: Layout, name: Seq<char>, path: Seq<Seq<char>>, off: int, i: int) -> Option<
    (Seq<LocSpec>, int),
>
    decreases elem, i + 1,
{
    if i <= 0 {
        Some((Seq::empty(), off))
    } else {
        match lay_loc_array(elem, name, path, off, i - 1) {
            None => None,
            Some((items, mid)) => match lay_loc(elem, path.push(indexed(name, (i - 1) as nat)), mid) {
                None => None,
                Some((more, end)) => Some((items + more, end)),
            },
        }
    }
}

/// Decoding a layout at `pos` into the level `cur`: the new level and the position after.
pub open spec fn lay_decode(l: Layout, s: Seq<u8>, pos: int, cur: MapModel) -> Result<(MapModel, int), DecodeError>
    decreases l, 0int,
{
    match l {
        Layout::Prim(item) => match prim_decode(item.typ, s, pos) {
            Ok(v) => Ok((model_insert(cur, item.name@, EntryModel::Leaf(v)), pos + prim_bytes(item.typ))),
            Err(e) => Err(e),
        },
        Layout::Sequence(name, ls) => match lay_decode_list(ls@, s, pos, Seq::empty(), ls@.len() as int) {
            Ok((sec, end)) => Ok((model_insert(cur, name@, EntryModel::Section(sec)), end)),
            Err(e) => Err(e),
        },
        Layout::All(name, ls) => match lay_decode_all(ls@, s, pos, Seq::empty(), ls@.len() as int) {
            Ok((sec, end)) => Ok((model_insert(cur, name@, EntryModel::Section(sec)), end)),
            Err(e) => Err(e),
        },
        Layout::Array(name, n, elem) => match lay_decode_array(*elem, s, pos, n as int) {
            Ok((ms, end)) => Ok((model_insert(cur, name@, EntryModel::Array(ms)), end)),
            Err(e) => Err(e),
        },
        Layout::Bits(b) => if !fits(s, pos, b.num_bytes as nat) {
            Err(DecodeError::Truncated)
        } else if b.num_bytes * 8 > u64::MAX || !bit_fields_fit(b.entries@, b.num_bytes as nat) {
            Err(DecodeError::BadBitField)
        } else {
            Ok(
                (
                    model_bit_fields(cur, b.entries@, field(s, pos, b.num_bytes as nat), b.entries@.len() as int),
                    pos + b.num_bytes,
                ),
            )
        },
    }
}

pub open spec fn lay_decode_list(ls: Seq<Layout>, s: Seq<u8>, pos: int, cur: MapModel, i: int) -> Result<
    (MapModel, int),
    DecodeError,
>
    decreases ls, i,
{
    if i <= 0 || i > ls.len() {
        Ok((cur, pos))
    } else {
        match lay_decode_list(ls, s, pos, cur, i - 1) {
            Ok((mid, at)) => lay_decode(ls[i - 1], s, at, mid),
            Err(e) => Err(e),
        }
    }
}

/// The first `i` alternatives, each decoded from `pos` into the same level; the position
/// after them is the furthest one reached.
pub open spec fn lay_decode_all(ls: Seq<Layout>, s: Seq<u8>, pos: int, cur: MapModel, i: int) -> Result<
    (MapModel, int),
    DecodeError,
>
    decreases ls, i,
{
    if i <= 0 || i > ls.len() {
        Ok((cur, pos))
    } else {
        match lay_decode_all(ls, s, pos, cur, i - 1) {
            Ok((mid, far)) => match lay_decode(ls[i - 1], s, pos, mid) {
                Ok((after, end)) => Ok((after, if end > far {
                    end
                } else {
                    far
                })),
                Err(e) => Err(e),
            },
            Err(e) => Err(e),
        }
    }
}

pub open spec fn lay_decode_array(elem: Layout, s: Seq<u8>, pos: int, i: int) -> Result<(Seq<MapModel>, int), DecodeError>
    decreases elem, i + 1,
{
    if i <= 0 {
        Ok((Seq::empty(), pos))
    } else {
        match lay_decode_array(elem, s, pos, i - 1) {
            Ok((ms, at)) => match lay_decode(elem, s, at, Seq::empty()) {
                Ok((m, end)) => Ok((ms.push(m), end)),
                Err(e) => Err(e),
            },
            Err(e) => Err(e),
        }
    }
}


proof fn lemma_layout_sum_none(ls: Seq<Layout>, i: int, j: int)
    requires
        0 < i <= j <= ls.len(),
        layout_sum(ls, i) is None,
    ensures
        layout_sum(ls, j) is None,
    decreases j - i,
{
    if i < j {
        lemma_layout_sum_none(ls, i, j - 1);
    }
}

proof fn lemma_layout_max_none(ls: Seq<Layout>, i: int, j: int)
    requires
        0 < i <= j <= ls.len(),
        layout_max(ls, i) is None,
    ensures
        layout_max(ls, j) is None,
    decreases j - i,
{
    if i < j {
        lemma_layout_max_none(ls, i, j - 1);
    }
}

proof fn lemma_lay_loc_list_none(ls: Seq<Layout>, path: Seq<Seq<char>>, off: int, i: int, j: int)
    requires
        0 < i <= j <= ls.len(),
        lay_loc_list(ls, path, off, i) is None,
    ensures
        lay_loc_list(ls, path, off, j) is None,
    decreases j - i,
{
    if i < j {
        lemma_lay_loc_list_none(ls, path, off, i, j - 1);
    }
}

proof fn lemma_lay_loc_all_none(ls: Seq<Layout>, path: Seq<Seq<char>>, off: int, i: int, j: int)
    requires
        0 < i <= j <= ls.len(),
        lay_loc_all(ls, path, off, i) is None,
    ensures
        lay_loc_all(ls, path, off, j) is None,
    decreases j - i,
{
    if i < j {
        lemma_lay_loc_all_none(ls, path, off, i, j - 1);
    }
}

proof fn lemma_lay_loc_array_none(elem: Layout, name: Seq<char>, path: Seq<Seq<char>>, off: int, i: int, j: int)
    requires
        0 < i <= j,
        lay_loc_array(elem, name, path, off, i) is None,
    ensures
        lay_loc_array(elem, name, path, off, j) is None,
    decreases j - i,
{
    if i < j {
        lemma_lay_loc_array_none(elem, name, path, off, i, j - 1);
    }
}

proof fn lemma_lay_list_err(ls: Seq<Layout>, s: Seq<u8>, pos: int, cur: MapModel, i: int, j: int)
    requires
        0 < i <= j <= ls.len(),
        lay_decode_list(ls, s, pos, cur, i) is Err,
    ensures
        lay_decode_list(ls, s, pos, cur, j) == lay_decode_list(ls, s, pos, cur, i),
    decreases j - i,
{
    if i < j {
        lemma_lay_list_err(ls, s, pos, cur, i, j - 1);
    }
}

proof fn lemma_lay_all_err(ls: Seq<Layout>, s: Seq<u8>, pos: int, cur: MapModel, i: int, j: int)
    requires
        0 < i <= j <= ls.len(),
        lay_decode_all(ls, s, pos, cur, i) is Err,
    ensures
        lay_decode_all(ls, s, pos, cur, j) == lay_decode_all(ls, s, pos, cur, i),
    decreases j - i,
{
    if i < j {
        lemma_lay_all_err(ls, s, pos, cur, i, j - 1);
    }
}

proof fn lemma_lay_array_err(elem: Layout, s: Seq<u8>, pos: int, i: int, j: int)
    requires
        0 < i <= j,
        lay_decode_array(elem, s, pos, i) is Err,
    ensures
        lay_decode_array(elem, s, pos, j) == lay_decode_array(elem, s, pos, i),
    decreases j - i,
{
    if i < j {
        lemma_lay_array_err(elem, s, pos, i, j - 1);
    }
}

/// What `locate_loc` promises for `l` placed at `off` under `path`.
pub open spec fn lay_located_as(
    l: Layout,
    path: Seq<Name>,
    off: u64,
    before: Seq<LocItem>,
    after: Seq<LocItem>,
    end: u64,
    ok: bool,
) -> bool {
    &&& extends(before, after)
    &&& match lay_loc(l, path_view(path), off as int) {
        Some((items, e)) => ok && end == e && appended(before, after, items),
        None => !ok,
    }
}

impl Layout {
    /// The size of the layout, as `layout_size` gives it.
    pub fn num_bytes(&self) -> (r: Option<u64>)
        ensures
            r matches Some(n) ==> layout_size(*self) == Some(n as int),
            r is None ==> layout_size(*self) is None,
        decreases self,
    {
        match self {
            Layout::Prim(item) => Some(item.typ.num_bytes()),
            Layout::Sequence(nm, layouts) => {
                let mut total: u64 = 0;
                let mut i: usize = 0;
                while i < layouts.len()
                    invariant
                        i <= layouts@.len(),
                        *self == Layout::Sequence(*nm, *layouts),
                        layout_sum(layouts@, i as int) == Some(total as int),
                    decreases layouts.len() - i,
                {
                    proof {
                        let ghost e = *self;
                        assert(decreases_to!(e => e->Sequence_1));
                        vstd::std_specs::vec::axiom_vec_decreases_to_view(*layouts);
                        assert(decreases_to!(layouts@ => layouts@[i as int]));
                    }
                    match layouts[i].num_bytes() {
                        Some(k) => {
                            if total > u64::MAX - k {
                                proof {
                                    lemma_layout_sum_none(layouts@, i + 1, layouts@.len() as int);
                                }
                                return None;
                            }
                            total = total + k;
                        },
                        None => {
                            proof {
                                lemma_layout_sum_none(layouts@, i + 1, layouts@.len() as int);
                            }
                            return None;
                        },
                    }
                    i = i + 1;
                }
                Some(total)
            },
            Layout::All(nm, layouts) => {
                let mut largest: u64 = 0;
                let mut i: usize = 0;
                while i < layouts.len()
                    invariant
                        i <= layouts@.len(),
                        *self == Layout::All(*nm, *layouts),
                        layout_max(layouts@, i as int) == Some(largest as int),
                    decreases layouts.len() - i,
                {
                    proof {
                        let ghost e = *self;
                        assert(decreases_to!(e => e->All_1));
                        vstd::std_specs::vec::axiom_vec_decreases_to_view(*layouts);
                        assert(decreases_to!(layouts@ => layouts@[i as int]));
                    }
                    match layouts[i].num_bytes() {
                        Some(k) => {
                            if k > largest {
                                largest = k;
                            }
                        },
                        None => {
                            proof {
                                lemma_layout_max_none(layouts@, i + 1, layouts@.len() as int);
                            }
                            return None;
                        },
                    }
                    i = i + 1;
                }
                Some(largest)
            },
            Layout::Array(_, n, layout) => match layout.num_bytes() {
                Some(k) => {
                    if k > 0 && *n > u64::MAX / k {
                        proof {
                            assert((*n as int) * (k as int) > u64::MAX) by (nonlinear_arith)
                                requires
                                    k > 0,
                                    *n as int > (u64::MAX as int) / (k as int),
                            ;
                        }
                        return None;
                    }
                    proof {
                        assert((*n as int) * (k as int) <= u64::MAX) by (nonlinear_arith)
                            requires
                                k == 0 || *n as int <= (u64::MAX as int) / (k as int),
                        ;
                    }
                    Some(*n * k)
                },
                None => None,
            },
            Layout::Bits(bit_prim) => Some(bit_prim.num_bytes()),
        }
    }

    /// The names of the primitives and bit fields, once each.
    pub fn names(&self) -> (r: Vec<Name>)
        ensures
            distinct_names(r@),
            name_set(r@) == layout_names(*self),
    {
        let mut out: Vec<Name> = Vec::new();
        assert(name_set(out@) =~= Set::empty());
        self.collect_names(&mut out);
        assert(name_set(out@) =~= Set::empty() + layout_names(*self));
        out
    }

    fn collect_names(&self, out: &mut Vec<Name>)
        requires
            distinct_names(old(out)@),
        ensures
            distinct_names(final(out)@),
            name_set(final(out)@) == name_set(old(out)@) + layout_names(*self),
        decreases self,
    {
        match self {
            Layout::Prim(item) => {
                push_unique(out, &item.name);
                assert(name_set(out@) =~= name_set(old(out)@) + layout_names(*self));
            },
            Layout::Sequence(nm, layouts) => {
                let mut i: usize = 0;
                assert(name_set(out@) =~= name_set(old(out)@) + layout_names_list(layouts@, 0));
                while i < layouts.len()
                    invariant
                        i <= layouts@.len(),
                        *self == Layout::Sequence(*nm, *layouts),
                        distinct_names(out@),
                        name_set(out@) == name_set(old(out)@) + layout_names_list(layouts@, i as int),
                    decreases layouts.len() - i,
                {
                    proof {
                        let ghost e = *self;
                        assert(decreases_to!(e => e->Sequence_1));
                        vstd::std_specs::vec::axiom_vec_decreases_to_view(*layouts);
                        assert(decreases_to!(layouts@ => layouts@[i as int]));
                    }
                    layouts[i].collect_names(out);
                    assert(name_set(out@) =~= name_set(old(out)@) + layout_names_list(layouts@, i + 1));
                    i = i + 1;
                }
            },
            Layout::All(nm, layouts) => {
                let mut i: usize = 0;
                assert(name_set(out@) =~= name_set(old(out)@) + layout_names_list(layouts@, 0));
                while i < layouts.len()
                    invariant
                        i <= layouts@.len(),
                        *self == Layout::All(*nm, *layouts),
                        distinct_names(out@),
                        name_set(out@) == name_set(old(out)@) + layout_names_list(layouts@, i as int),
                    decreases layouts.len() - i,
                {
                    proof {
                        let ghost e = *self;
                        assert(decreases_to!(e => e->All_1));
                        vstd::std_specs::vec::axiom_vec_decreases_to_view(*layouts);
                        assert(decreases_to!(layouts@ => layouts@[i as int]));
                    }
                    layouts[i].collect_names(out);
                    assert(name_set(out@) =~= name_set(old(out)@) + layout_names_list(layouts@, i + 1));
                    i = i + 1;
                }
            },
            Layout::Array(_, _, layout) => {
                layout.collect_names(out);
            },
            Layout::Bits(bit_prim) => {
                let entries = &bit_prim.entries;
                let mut i: usize = 0;
                assert(name_set(out@) =~= name_set(old(out)@) + bit_names(entries@, 0));
                while i < entries.len()
                    invariant
                        i <= entries@.len(),
                        *self == Layout::Bits(*bit_prim),
                        *entries == bit_prim.entries,
                        distinct_names(out@),
                        name_set(out@) == name_set(old(out)@) + bit_names(entries@, i as int),
                    decreases entries.len() - i,
                {
                    push_unique(out, &entries[i].0);
                    assert(name_set(out@) =~= name_set(old(out)@) + bit_names(entries@, i + 1));
                    i = i + 1;
                }
            },
        }
    }
}


/// What `decode_layout` promises.
pub open spec fn lay_result(
    l: Layout,
    s: Seq<u8>,
    pos: int,
    before: MapModel,
    after: MapModel,
    end: int,
    r: Result<(), DecodeError>,
) -> bool {
    match lay_decode(l, s, pos, before) {
        Ok((m, e)) => r is Ok && after == m && end == e,
        Err(e) => r == Err::<(), DecodeError>(e),
    }
}

impl Layout {
    /// The located layout: every primitive with its path and byte offset, in order; none
    /// where the layout holds bit fields or an offset passes `u64::MAX`.
    pub fn locate(&self) -> (r: Option<LocLayout>)
        ensures
            r is Some <==> lay_loc(*self, Seq::empty(), 0) is Some,
            r matches Some(l) ==> crate::packet::items_match(l.loc_items@, lay_loc(*self, Seq::empty(), 0).unwrap().0),
    {
        let mut loc: Loc = 0;
        let mut loc_items: Vec<LocItem> = Vec::new();
        let path: LocPath = Vec::new();
        proof {
            assert(path_view(path@) =~= Seq::empty());
        }
        if self.locate_loc(&mut loc_items, &path, &mut loc) {
            proof {
                assert(loc_items@.subrange(0, loc_items@.len() as int) =~= loc_items@);
            }
            Some(LocLayout { loc_items: loc_items })
        } else {
            None
        }
    }

    /// Appends the located fields of the layout, placed at `*loc` under `path`, to
    /// `loc_items`, and moves `*loc` past it; false where it cannot be located.
    pub fn locate_loc(&self, loc_items: &mut Vec<LocItem>, path: &LocPath, loc: &mut Loc) -> (r: bool)
        ensures
            lay_located_as(*self, path@, *old(loc), old(loc_items)@, final(loc_items)@, *final(loc), r),
        decreases self,
    {
        let ghost items0 = loc_items@;
        match self {
            Layout::Prim(item) => {
                let w = item.typ.num_bytes();
                if *loc > u64::MAX - w {
                    proof {
                        lemma_extends_refl(items0);
                    }
                    return false;
                }
                let mut item_path = copy_path(path);
                item_path.push(item.name.clone());
                proof {
                    lemma_path_push(path@, item.name);
                }
                let li = LocItem::new(item_path, item.typ.clone(), *loc);
                loc_items.push(li);
                *loc = *loc + w;
                proof {
                    let after = loc_items@;
                    assert(after.subrange(0, items0.len() as int) =~= items0);
                    let tail = after.subrange(items0.len() as int, after.len() as int);
                    let spec_items = lay_loc(*self, path_view(path@), *old(loc) as int).unwrap().0;
                    assert(tail.len() == 1 && tail[0] == li);
                    assert(loc_matches(tail[0], spec_items[0]));
                }
                true
            },
            Layout::Sequence(name, layouts) => {
                let mut seq_path = copy_path(path);
                seq_path.push(name.clone());
                proof {
                    lemma_path_push(path@, *name);
                    lemma_appended_empty(items0);
                }
                let ghost inner = path_view(seq_path@);
                let mut i: usize = 0;
                while i < layouts.len()
                    invariant
                        i <= layouts@.len(),
                        *self == Layout::Sequence(*name, *layouts),
                        items0 == old(loc_items)@,
                        inner == path_view(seq_path@),
                        inner == path_view(path@).push(name@),
                        lay_loc_list(layouts@, inner, *old(loc) as int, i as int) matches Some((its, e)) && e == *loc
                            && appended(items0, loc_items@, its),
                    decreases layouts.len() - i,
                {
                    proof {
                        let ghost e = *self;
                        assert(decreases_to!(e => e->Sequence_1));
                        vstd::std_specs::vec::axiom_vec_decreases_to_view(*layouts);
                        assert(decreases_to!(layouts@ => layouts@[i as int]));
                    }
                    let ghost mid_items = loc_items@;
                    let ghost mid = *loc;
                    if !layouts[i].locate_loc(loc_items, &seq_path, loc) {
                        proof {
                            lemma_extends_trans(items0, mid_items, loc_items@);
                            lemma_lay_loc_list_none(layouts@, inner, *old(loc) as int, i + 1, layouts@.len() as int);
                        }
                        return false;
                    }
                    proof {
                        let its = lay_loc_list(layouts@, inner, *old(loc) as int, i as int).unwrap().0;
                        let more = lay_loc(layouts@[i as int], inner, mid as int).unwrap().0;
                        lemma_appended_trans(items0, mid_items, loc_items@, its, more);
                    }
                    i = i + 1;
                }
                true
            },
            Layout::All(name, layouts) => {
                let mut all_path = copy_path(path);
                all_path.push(name.clone());
                proof {
                    lemma_path_push(path@, *name);
                    lemma_appended_empty(items0);
                }
                let ghost inner = path_view(all_path@);
                let start = *loc;
                let mut far = start;
                let mut i: usize = 0;
                while i < layouts.len()
                    invariant
                        i <= layouts@.len(),
                        *self == Layout::All(*name, *layouts),
                        items0 == old(loc_items)@,
                        start == *old(loc),
                        inner == path_view(all_path@),
                        inner == path_view(path@).push(name@),
                        lay_loc_all(layouts@, inner, start as int, i as int) matches Some((its, e)) && e == far
                            && appended(items0, loc_items@, its),
                    decreases layouts.len() - i,
                {
                    proof {
                        let ghost e = *self;
                        assert(decreases_to!(e => e->All_1));
                        vstd::std_specs::vec::axiom_vec_decreases_to_view(*layouts);
                        assert(decreases_to!(layouts@ => layouts@[i as int]));
                    }
                    let ghost mid_items = loc_items@;
                    *loc = start;
                    if !layouts[i].locate_loc(loc_items, &all_path, loc) {
                        proof {
                            lemma_extends_trans(items0, mid_items, loc_items@);
                            lemma_lay_loc_all_none(layouts@, inner, start as int, i + 1, layouts@.len() as int);
                        }
                        return false;
                    }
                    proof {
                        let its = lay_loc_all(layouts@, inner, start as int, i as int).unwrap().0;
                        let more = lay_loc(layouts@[i as int], inner, start as int).unwrap().0;
                        lemma_appended_trans(items0, mid_items, loc_items@, its, more);
                    }
                    if *loc > far {
                        far = *loc;
                    }
                    i = i + 1;
                }
                *loc = far;
                true
            },
            Layout::Array(name, size, layout) => {
                proof {
                    lemma_appended_empty(items0);
                }
                let mut index: u64 = 0;
                while index < *size
                    invariant
                        index <= *size,
                        *self == Layout::Array(*name, *size, *layout),
                        items0 == old(loc_items)@,
                        lay_loc_array(**layout, name@, path_view(path@), *old(loc) as int, index as int) matches Some((its, e))
                            && e == *loc && appended(items0, loc_items@, its),
                    decreases *size - index,
                {
                    let mut array_path = copy_path(path);
                    let seg = indexed_name(name, index);
                    array_path.push(seg);
                    proof {
                        lemma_path_push(path@, seg);
                        let ghost e = *self;
                        assert(decreases_to!(e => e->Array_2));
                    }
                    let ghost mid_items = loc_items@;
                    let ghost mid = *loc;
                    if !layout.locate_loc(loc_items, &array_path, loc) {
                        proof {
                            lemma_extends_trans(items0, mid_items, loc_items@);
                            lemma_lay_loc_array_none(**layout, name@, path_view(path@), *old(loc) as int, index + 1, *size as int);
                        }
                        return false;
                    }
                    proof {
                        let its = lay_loc_array(**layout, name@, path_view(path@), *old(loc) as int, index as int).unwrap().0;
                        let more = lay_loc(**layout, path_view(path@).push(indexed(name@, index as nat)), mid as int).unwrap().0;
                        lemma_appended_trans(items0, mid_items, loc_items@, its, more);
                    }
                    index = index + 1;
                }
                true
            },
            Layout::Bits(_) => {
                proof {
                    lemma_extends_refl(items0);
                }
                false
            },
        }
    }
}

/// Decodes `layout` at `*pos` into the level `map`, as `lay_decode` has it.
pub fn decode_layout(layout: &Layout, bytes: &[u8], pos: &mut usize, map: &mut ValueMap) -> (r: Result<(), DecodeError>)
    ensures
        lay_result(*layout, bytes@, *old(pos) as int, map_model(*old(map)), map_model(*final(map)), *final(pos) as int, r),
    decreases layout,
{
    let ghost pos0 = *pos as int;
    let ghost before = map_model(*map);
    match layout {
        Layout::Prim(item) => match decode_prim(&item.typ, bytes, pos) {
            Ok(v) => {
                map.insert(item.name.clone(), ValueEntry::Leaf(v));
                Ok(())
            },
            Err(e) => Err(e),
        },
        Layout::Sequence(name, layouts) => {
            let mut section = ValueMap::new(Vec::new());
            assert(map_model(section) =~= Seq::<(Seq<char>, EntryModel)>::empty());
            let mut i: usize = 0;
            while i < layouts.len()
                invariant
                    i <= layouts@.len(),
                    *layout == Layout::Sequence(*name, *layouts),
                    pos0 == *old(pos) as int,
                    before == map_model(*old(map)),
                    lay_decode_list(layouts@, bytes@, pos0, Seq::empty(), i as int) == Ok::<(MapModel, int), DecodeError>(
                        (map_model(section), *pos as int),
                    ),
                decreases layouts.len() - i,
            {
                proof {
                    let ghost e = *layout;
                    assert(decreases_to!(e => e->Sequence_1));
                    vstd::std_specs::vec::axiom_vec_decreases_to_view(*layouts);
                    assert(decreases_to!(layouts@ => layouts@[i as int]));
                }
                let res = decode_layout(&layouts[i], bytes, pos, &mut section);
                if res.is_err() {
                    proof {
                        lemma_lay_list_err(layouts@, bytes@, pos0, Seq::empty(), i + 1, layouts@.len() as int);
                    }
                    return res;
                }
                i = i + 1;
            }
            map.insert(name.clone(), ValueEntry::Section(section));
            Ok(())
        },
        Layout::All(name, layouts) => {
            let mut all = ValueMap::new(Vec::new());
            assert(map_model(all) =~= Seq::<(Seq<char>, EntryModel)>::empty());
            let start = *pos;
            let mut far = start;
            let mut i: usize = 0;
            while i < layouts.len()
                invariant
                    i <= layouts@.len(),
                    *layout == Layout::All(*name, *layouts),
                    pos0 == *old(pos) as int,
                    start == pos0,
                    before == map_model(*old(map)),
                    lay_decode_all(layouts@, bytes@, pos0, Seq::empty(), i as int) == Ok::<(MapModel, int), DecodeError>(
                        (map_model(all), far as int),
                    ),
                decreases layouts.len() - i,
            {
                proof {
                    let ghost e = *layout;
                    assert(decreases_to!(e => e->All_1));
                    vstd::std_specs::vec::axiom_vec_decreases_to_view(*layouts);
                    assert(decreases_to!(layouts@ => layouts@[i as int]));
                }
                *pos = start;
                let res = decode_layout(&layouts[i], bytes, pos, &mut all);
                if res.is_err() {
                    proof {
                        lemma_lay_all_err(layouts@, bytes@, pos0, Seq::empty(), i + 1, layouts@.len() as int);
                    }
                    return res;
                }
                if *pos > far {
                    far = *pos;
                }
                i = i + 1;
            }
            *pos = far;
            map.insert(name.clone(), ValueEntry::Section(all));
            Ok(())
        },
        Layout::Array(name, size, elem) => {
            let mut elems: Vec<ValueMap> = Vec::new();
            let mut i: u64 = 0;
            while i < *size
                invariant
                    i <= *size,
                    *layout == Layout::Array(*name, *size, *elem),
                    pos0 == *old(pos) as int,
                    before == map_model(*old(map)),
                    elems@.len() == i,
                    lay_decode_array(**elem, bytes@, pos0, i as int) == Ok::<(Seq<MapModel>, int), DecodeError>(
                        (maps_model(elems@, i as int), *pos as int),
                    ),
                decreases *size - i,
            {
                proof {
                    let ghost e = *layout;
                    assert(decreases_to!(e => e->Array_2));
                }
                let mut m = ValueMap::new(Vec::new());
                assert(map_model(m) =~= Seq::<(Seq<char>, EntryModel)>::empty());
                let res = decode_layout(elem, bytes, pos, &mut m);
                if res.is_err() {
                    proof {
                        lemma_lay_array_err(**elem, bytes@, pos0, i + 1, *size as int);
                    }
                    return res;
                }
                let ghost before_push = elems@;
                elems.push(m);
                proof {
                    crate::value::lemma_maps_model_prefix(elems@, before_push, i as int);
                }
                i = i + 1;
            }
            map.insert(name.clone(), ValueEntry::Array(elems));
            Ok(())
        },
        Layout::Bits(bits) => {
            let len = bytes.len();
            if bits.num_bytes > len as u64 || *pos > len - bits.num_bytes as usize {
                return Err(DecodeError::Truncated);
            }
            if bits.num_bytes > u64::MAX / 8 {
                return Err(DecodeError::BadBitField);
            }
            decode_bits(bits, bytes, pos, map)
        },
    }
}

/// Decodes a whole layout from `*pos` into a fresh map.
pub fn decode_to_map(layout: &Layout, bytes: &[u8], pos: &mut usize) -> (r: Result<ValueMap, DecodeError>)
    ensures
        match lay_decode(*layout, bytes@, *old(pos) as int, Seq::empty()) {
            Ok((m, e)) => r matches Ok(vm) && map_model(vm) == m && *final(pos) == e,
            Err(e) => r == Err::<ValueMap, DecodeError>(e),
        },
{
    let mut map = ValueMap::new(Vec::new());
    assert(map_model(map) =~= Seq::<(Seq<char>, EntryModel)>::empty());
    match decode_layout(layout, bytes, pos, &mut map) {
        Ok(()) => Ok(map),
        Err(e) => Err(e),
    }
}

} // verus!
