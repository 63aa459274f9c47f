//! Decoded values and the hierarchical map that the dynamic decoder fills.
use crate::prim::Name;
use vstd::prelude::*;

verus! {

/// A decoded scalar. Floats are held as their IEEE-754 bit patterns.
#[derive(Debug)]
pub enum Value {
    U8(u8),
    U16(u16),
    U32(u32),
    U64(u64),
    I8(i8),
    I16(i16),
    I32(i32),
    I64(i64),
    F32(u32),
    F64(u64),
    Enum(Name, i64),
}

/// Equality of values; an enumeration's name is compared by its characters.
pub open spec fn value_eq(a: Value, b: Value) -> bool {
    match a {
        Value::U8(x) => b == Value::U8(x),
        Value::U16(x) => b == Value::U16(x),
        Value::U32(x) => b == Value::U32(x),
        Value::U64(x) => b == Value::U64(x),
        Value::I8(x) => b == Value::I8(x),
        Value::I16(x) => b == Value::I16(x),
        Value::I32(x) => b == Value::I32(x),
        Value::I64(x) => b == Value::I64(x),
        Value::F32(x) => b == Value::F32(x),
        Value::F64(x) => b == Value::F64(x),
        Value::Enum(n, x) => b matches Value::Enum(m, y) && n@ == m@ && x == y,
    }
}

fn same_value(a: &Value, b: &Value) -> (r: bool)
    ensures
        r == value_eq(*a, *b),
{
    match a {
        Value::U8(x) => match b {
            Value::U8(y) => *x == *y,
            _ => false,
        },
        Value::U16(x) => match b {
            Value::U16(y) => *x == *y,
            _ => false,
        },
        Value::U32(x) => match b {
            Value::U32(y) => *x == *y,
            _ => false,
        },
        Value::U64(x) => match b {
            Value::U64(y) => *x == *y,
            _ => false,
        },
        Value::I8(x) => match b {
            Value::I8(y) => *x == *y,
            _ => false,
        },
        Value::I16(x) => match b {
            Value::I16(y) => *x == *y,
            _ => false,
        },
        Value::I32(x) => match b {
            Value::I32(y) => *x == *y,
            _ => false,
        },
        Value::I64(x) => match b {
            Value::I64(y) => *x == *y,
            _ => false,
        },
        Value::F32(x) => match b {
            Value::F32(y) => *x == *y,
            _ => false,
        },
        Value::F64(x) => match b {
            Value::F64(y) => *x == *y,
            _ => false,
        },
        Value::Enum(n, x) => match b {
            Value::Enum(m, y) => *x == *y && *n == *m,
            _ => false,
        },
    }
}

impl PartialEq for Value {
    fn eq(&self, other: &Value) -> (r: bool) {
        same_value(self, other)
    }
}

impl vstd::std_specs::cmp::PartialEqSpecImpl for Value {
    open spec fn obeys_eq_spec() -> bool {
        true
    }

    open spec fn eq_spec(&self, other: &Value) -> bool {
        value_eq(*self, *other)
    }
}

impl Clone for Value {
    fn clone(&self) -> (r: Value)
        ensures
            r == *self,
    {
        match self {
            Value::U8(v) => Value::U8(*v),
            Value::U16(v) => Value::U16(*v),
            Value::U32(v) => Value::U32(*v),
            Value::U64(v) => Value::U64(*v),
            Value::I8(v) => Value::I8(*v),
            Value::I16(v) => Value::I16(*v),
            Value::I32(v) => Value::I32(*v),
            Value::I64(v) => Value::I64(*v),
            Value::F32(v) => Value::F32(*v),
            Value::F64(v) => Value::F64(*v),
            Value::Enum(n, v) => Value::Enum(n.clone(), *v),
        }
    }
}

/// The integer a value stands for: none for a float.
pub open spec fn int_of(v: Value) -> Option<int> {
    match v {
        Value::U8(x) => Some(x as int),
        Value::U16(x) => Some(x as int),
        Value::U32(x) => Some(x as int),
        Value::U64(x) => Some(x as int),
        Value::I8(x) => Some(x as int),
        Value::I16(x) => Some(x as int),
        Value::I32(x) => Some(x as int),
        Value::I64(x) => Some(x as int),
        Value::F32(_) => None,
        Value::F64(_) => None,
        Value::Enum(_, x) => Some(x as int),
    }
}

impl Value {
    /// The value as an integer, without loss; a float is refused rather than truncated.
    pub fn value(&self) -> (r: Option<i128>)
        ensures
            r matches Some(x) ==> int_of(*self) == Some(x as int),
            r is None ==> int_of(*self) is None,
    {
        match self {
            Value::U8(x) => Some(*x as i128),
            Value::U16(x) => Some(*x as i128),
            Value::U32(x) => Some(*x as i128),
            Value::U64(x) => Some(*x as i128),
            Value::I8(x) => Some(*x as i128),
            Value::I16(x) => Some(*x as i128),
            Value::I32(x) => Some(*x as i128),
            Value::I64(x) => Some(*x as i128),
            Value::F32(_) => None,
            Value::F64(_) => None,
            Value::Enum(_, x) => Some(*x as i128),
        }
    }
}

/// A level of decoded values, by name, in the order in which they were decoded.
#[derive(Debug)]
pub struct ValueMap {
    pub value_map: Vec<(Name, ValueEntry)>,
}

#[derive(Debug)]
pub enum ValueEntry {
    Leaf(Value),
    Section(ValueMap),
    Array(Vec<ValueMap>),
}

/// The index of `name` at this level, if it is there.
pub open spec fn index_of(es: Seq<(Name, ValueEntry)>, name: Seq<char>) -> Option<int>
    decreases es.len(),
{
    if es.len() == 0 {
        None
    } else if es.last().0@ == name {
        Some(es.len() - 1)
    } else {
        index_of(es.drop_last(), name)
    }
}

pub proof fn lemma_index_of_bounds(es: Seq<(Name, ValueEntry)>, name: Seq<char>)
    ensures
        index_of(es, name) matches Some(i) ==> 0 <= i < es.len() && es[i].0@ == name,
    decreases es.len(),
{
    if es.len() > 0 && es.last().0@ != name {
        lemma_index_of_bounds(es.drop_last(), name);
    }
}

/// The leaf value named `name` at this level.
pub open spec fn leaf_here(es: Seq<(Name, ValueEntry)>, name: Seq<char>) -> Option<Value> {
    match index_of(es, name) {
        Some(i) => match es[i].1 {
            ValueEntry::Leaf(v) => Some(v),
            _ => None,
        },
        None => None,
    }
}

/// Lookup by bare name: a leaf at this level first, then each section in order;
/// arrays are not searched, since their index would be ambiguous.
pub open spec fn lookup_spec(m: ValueMap, name: Seq<char>) -> Option<Value>
    decreases m, 1int,
{
    match leaf_here(m.value_map@, name) {
        Some(v) => Some(v),
        None => lookup_sections(m.value_map@, name, 0),
    }
}

pub open spec fn lookup_sections(es: Seq<(Name, ValueEntry)>, name: Seq<char>, i: int) -> Option<
    Value,
>
    decreases es, es.len() - i,
{
    if i < 0 || i >= es.len() {
        None
    } else {
        let rest = lookup_sections(es, name, i + 1);
        match es[i].1 {
            ValueEntry::Section(sub) => match lookup_spec(sub, name) {
                Some(v) => Some(v),
                None => rest,
            },
            _ => rest,
        }
    }
}


/// Every leaf value of a map, in order: a section's values where it stands, and an
/// array's values element by element.
pub open spec fn values_spec(m: ValueMap) -> Seq<Value>
    decreases m, 0int,
{
    entries_values(m.value_map@, m.value_map@.len() as int)
}

/// The values of the first `i` entries.
pub open spec fn entries_values(es: Seq<(Name, ValueEntry)>, i: int) -> Seq<Value>
    decreases es, i,
{
    if i <= 0 || i > es.len() {
        Seq::empty()
    } else {
        entries_values(es, i - 1) + entry_values(es[i - 1].1)
    }
}

pub open spec fn entry_values(e: ValueEntry) -> Seq<Value>
    decreases e, 0int,
{
    match e {
        ValueEntry::Leaf(v) => seq![v],
        ValueEntry::Section(sub) => values_spec(sub),
        ValueEntry::Array(ms) => maps_values(ms@, ms@.len() as int),
    }
}

/// The values of the first `i` maps of an array.
pub open spec fn maps_values(ms: Seq<ValueMap>, i: int) -> Seq<Value>
    decreases ms, i,
{
    if i <= 0 || i > ms.len() {
        Seq::empty()
    } else {
        maps_values(ms, i - 1) + values_spec(ms[i - 1])
    }
}

/// The position of `name` among the entries, as `index_of` gives it.
fn find_index(es: &Vec<(Name, ValueEntry)>, name: &Name) -> (r: Option<usize>)
    ensures
        r matches Some(i) ==> index_of(es@, name@) == Some(i as int),
        r is None ==> index_of(es@, name@) is None,
{
    let mut i: usize = es.len();
    assert(es@.subrange(0, i as int) =~= es@);
    while i > 0
        invariant
            i <= es.len(),
            index_of(es@, name@) == index_of(es@.subrange(0, i as int), name@),
        decreases i,
    {
        assert(es@.subrange(0, i as int).drop_last() =~= es@.subrange(0, i - 1));
        if es[i - 1].0 == *name {
            return Some(i - 1);
        }
        i = i - 1;
    }
    None
}

impl ValueMap {
    pub fn new(value_map: Vec<(Name, ValueEntry)>) -> (r: ValueMap)
        ensures
            r.value_map@ == value_map@,
    {
        ValueMap { value_map: value_map }
    }

    /// Sets `name` to `entry`: in place where the name is already present, else at the end.
    pub fn insert(&mut self, name: Name, entry: ValueEntry)
        ensures
            final(self).value_map@ == insert_spec(old(self).value_map@, name, entry),
            map_model(*final(self)) == model_insert(map_model(*old(self)), name@, entry_model(entry)),
    {
        proof {
            lemma_insert_model(self.value_map@, name, entry);
        }
        let found = find_index(&self.value_map, &name);
        proof {
            lemma_index_of_bounds(self.value_map@, name@);
        }
        match found {
            Some(i) => {
                self.value_map.set(i, (name, entry));
            },
            None => {
                self.value_map.push((name, entry));
            },
        }
    }

    /// All leaf values, in the order of `values_spec`.
    pub fn values(&self) -> (r: Vec<Value>)
        ensures
            r@ == values_spec(*self),
        decreases self,
    {
        let mut out: Vec<Value> = Vec::new();
        let mut i: usize = 0;
        while i < self.value_map.len()
            invariant
                i <= self.value_map.len(),
                out@ == entries_values(self.value_map@, i as int),
            decreases self.value_map.len() - i,
        {
            proof {
                assert(decreases_to!(self.value_map => self.value_map@[i as int]));
            }
            let ghost prefix = out@;
            assert(entries_values(self.value_map@, i + 1) == prefix + entry_values(self.value_map@[i as int].1));
            match &self.value_map[i].1 {
                ValueEntry::Leaf(v) => {
                    out.push(v.clone());
                },
                ValueEntry::Section(sub) => {
                    let mut vs = sub.values();
                    out.append(&mut vs);
                    assert(out@ == prefix + values_spec(*sub));
                },
                ValueEntry::Array(ms) => {
                    let mut j: usize = 0;
                    let ghost before = out@;
                    while j < ms.len()
                        invariant
                            j <= ms.len(),
                            i < self.value_map.len(),
                            self.value_map@[i as int].1 == ValueEntry::Array(*ms),
                            before == entries_values(self.value_map@, i as int),
                            out@ == before + maps_values(ms@, j as int),
                        decreases ms.len() - j,
                    {
                        proof {
                            assert(decreases_to!(self => self.value_map));
                            assert(decreases_to!(self.value_map => self.value_map[i as int]));
                            assert(decreases_to!(self.value_map[i as int] => self.value_map[i as int].1));
                            let entry = self.value_map[i as int].1;
                            assert(entry == ValueEntry::Array(*ms));
                            assert(decreases_to!(entry => entry->Array_0));
                            vstd::std_specs::vec::axiom_vec_decreases_to_view(*ms);
                            assert(decreases_to!(*ms => ms@));
                            assert(decreases_to!(ms@ => ms@[j as int]));
                        }
                        let mut vs = ms[j].values();
                        out.append(&mut vs);
                        proof {
                            assert(out@ =~= before + maps_values(ms@, j + 1));
                        }
                        j = j + 1;
                    }
                },
            }
            proof {
                assert(out@ =~= entries_values(self.value_map@, i + 1));
            }
            i = i + 1;
        }
        out
    }

    /// Looks a name up by the scoping rule of `lookup_spec`.
    pub fn lookup(&self, name: &Name) -> (r: Option<Value>)
        ensures
            r == lookup_spec(*self, name@),
        decreases self,
    {
        let found = find_index(&self.value_map, name);
        proof {
            lemma_index_of_bounds(self.value_map@, name@);
        }
        match found {
            Some(i) => match &self.value_map[i].1 {
                ValueEntry::Leaf(v) => {
                    return Some(v.clone());
                },
                _ => {},
            },
            None => {},
        }
        let mut i: usize = 0;
        while i < self.value_map.len()
            invariant
                i <= self.value_map.len(),
                leaf_here(self.value_map@, name@) is None,
                lookup_spec(*self, name@) == lookup_sections(self.value_map@, name@, i as int),
            decreases self.value_map.len() - i,
        {
            proof {
                assert(decreases_to!(self.value_map => self.value_map@[i as int]));
            }
            match &self.value_map[i].1 {
                ValueEntry::Section(sub) => {
                    let found = sub.lookup(name);
                    if found.is_some() {
                        return found;
                    }
                },
                _ => {},
            }
            i = i + 1;
        }
        None
    }
}

/// Setting a name at one level: replaced where it stands, else appended.
pub open spec fn insert_spec(es: Seq<(Name, ValueEntry)>, name: Name, entry: ValueEntry) -> Seq<
    (Name, ValueEntry),
> {
    match index_of(es, name@) {
        Some(i) => es.update(i, (name, entry)),
        None => es.push((name, entry)),
    }
}


/// The model of a decoded entry: maps as sequences of named entries.
pub enum EntryModel {
    Leaf(Value),
    Section(Seq<(Seq<char>, EntryModel)>),
    Array(Seq<Seq<(Seq<char>, EntryModel)>>),
}

pub type MapModel = Seq<(Seq<char>, EntryModel)>;

/// The model of a value map.
pub open spec fn map_model(m: ValueMap) -> MapModel
    decreases m, 0int,
{
    entries_model(m.value_map@, m.value_map@.len() as int)
}

/// The model of the first `i` entries.
pub open spec fn entries_model(es: Seq<(Name, ValueEntry)>, i: int) -> MapModel
    decreases es, i,
{
    if i <= 0 || i > es.len() {
        Seq::empty()
    } else {
        entries_model(es, i - 1).push((es[i - 1].0@, entry_model(es[i - 1].1)))
    }
}

pub open spec fn entry_model(e: ValueEntry) -> EntryModel
    decreases e, 0int,
{
    match e {
        ValueEntry::Leaf(v) => EntryModel::Leaf(v),
        ValueEntry::Section(sub) => EntryModel::Section(map_model(sub)),
        ValueEntry::Array(ms) => EntryModel::Array(maps_model(ms@, ms@.len() as int)),
    }
}

/// The models of the first `i` maps of an array.
pub open spec fn maps_model(ms: Seq<ValueMap>, i: int) -> Seq<MapModel>
    decreases ms, i,
{
    if i <= 0 || i > ms.len() {
        Seq::empty()
    } else {
        maps_model(ms, i - 1).push(map_model(ms[i - 1]))
    }
}

/// The position of `name` in a model, as `index_of` gives it.
pub open spec fn model_index(es: MapModel, name: Seq<char>) -> Option<int>
    decreases es.len(),
{
    if es.len() == 0 {
        None
    } else if es.last().0 == name {
        Some(es.len() - 1)
    } else {
        model_index(es.drop_last(), name)
    }
}

/// Setting `name` in a model: replaced where it stands, else appended.
pub open spec fn model_insert(es: MapModel, name: Seq<char>, e: EntryModel) -> MapModel {
    match model_index(es, name) {
        Some(i) => es.update(i, (name, e)),
        None => es.push((name, e)),
    }
}

/// Lookup by bare name in a model, by the rule of `lookup_spec`.
pub open spec fn lookup_model(es: MapModel, name: Seq<char>) -> Option<Value>
    decreases es, es.len() + 1,
{
    let here = match model_index(es, name) {
        Some(i) => match es[i].1 {
            EntryModel::Leaf(v) => Some(v),
            _ => None,
        },
        None => None,
    };
    match here {
        Some(v) => Some(v),
        None => lookup_model_sections(es, name, 0),
    }
}

pub open spec fn lookup_model_sections(es: MapModel, name: Seq<char>, i: int) -> Option<Value>
    decreases es, es.len() - i,
{
    if i < 0 || i >= es.len() {
        None
    } else {
        let rest = lookup_model_sections(es, name, i + 1);
        match es[i].1 {
            EntryModel::Section(sub) => match lookup_model(sub, name) {
                Some(v) => Some(v),
                None => rest,
            },
            _ => rest,
        }
    }
}

pub proof fn lemma_entries_model(es: Seq<(Name, ValueEntry)>, i: int)
    requires
        0 <= i <= es.len(),
    ensures
        entries_model(es, i).len() == i,
        forall|k: int|
            0 <= k < i ==> #[trigger] entries_model(es, i)[k] == (es[k].0@, entry_model(es[k].1)),
    decreases i,
{
    if i > 0 {
        lemma_entries_model(es, i - 1);
    }
}

proof fn lemma_model_index(es: Seq<(Name, ValueEntry)>, name: Seq<char>)
    ensures
        model_index(entries_model(es, es.len() as int), name) == index_of(es, name),
    decreases es.len(),
{
    lemma_entries_model(es, es.len() as int);
    if es.len() > 0 {
        let m = entries_model(es, es.len() as int);
        lemma_model_index(es.drop_last(), name);
        lemma_entries_model(es.drop_last(), es.len() - 1);
        assert(m.drop_last() =~= entries_model(es.drop_last(), es.len() - 1));
    }
}

/// Setting a name in a map sets it in the map's model.
pub proof fn lemma_insert_model(es: Seq<(Name, ValueEntry)>, name: Name, e: ValueEntry)
    ensures
        entries_model(insert_spec(es, name, e), insert_spec(es, name, e).len() as int) == model_insert(
            entries_model(es, es.len() as int),
            name@,
            entry_model(e),
        ),
{
    let after = insert_spec(es, name, e);
    lemma_model_index(es, name@);
    lemma_index_of_bounds(es, name@);
    lemma_entries_model(es, es.len() as int);
    lemma_entries_model(after, after.len() as int);
    assert(entries_model(after, after.len() as int) =~= model_insert(
        entries_model(es, es.len() as int),
        name@,
        entry_model(e),
    ));
}

pub proof fn lemma_lookup_model(m: ValueMap, name: Seq<char>)
    ensures
        lookup_model(map_model(m), name) == lookup_spec(m, name),
    decreases m, 1int,
{
    let es = m.value_map@;
    lemma_model_index(es, name);
    lemma_index_of_bounds(es, name);
    lemma_entries_model(es, es.len() as int);
    lemma_lookup_sections_model(es, name, 0);
}

proof fn lemma_lookup_sections_model(es: Seq<(Name, ValueEntry)>, name: Seq<char>, i: int)
    requires
        0 <= i <= es.len(),
    ensures
        lookup_model_sections(entries_model(es, es.len() as int), name, i) == lookup_sections(es, name, i),
    decreases es, es.len() - i,
{
    lemma_entries_model(es, es.len() as int);
    if i < es.len() {
        lemma_lookup_sections_model(es, name, i + 1);
        match es[i].1 {
            ValueEntry::Section(sub) => {
                lemma_lookup_model(sub, name);
            },
            _ => {},
        }
    }
}

/// Array models agree on a prefix where the maps do.
pub proof fn lemma_maps_model_prefix(a: Seq<ValueMap>, b: Seq<ValueMap>, i: int)
    requires
        0 <= i <= a.len(),
        i <= b.len(),
        forall|k: int| 0 <= k < i ==> a[k] == b[k],
    ensures
        maps_model(a, i) == maps_model(b, i),
    decreases i,
{
    if i > 0 {
        lemma_maps_model_prefix(a, b, i - 1);
    }
}

} // verus!
