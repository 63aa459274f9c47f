//! Text lines of comma-separated fields.
use crate::prim::Name;
use crate::layout::{layout_names, Layout};
use crate::packet::{distinct_names, name_set, names_spec};
use crate::types::{LayoutPacketDef, LocLayout};
use vstd::prelude::*;
use vstd::string::StringExecFns;

verus! {

/// Each field followed by a comma, then a line end.
pub open spec fn csv_spec(fields: Seq<Name>, i: int) -> Seq<char>
    decreases i,
{
    if i <= 0 || i > fields.len() {
        Seq::empty()
    } else {
        csv_spec(fields, i - 1) + fields[i - 1]@ + seq![',']
    }
}

/// A line of `fields`, each followed by a comma, ended by a line feed.
pub fn csv_line(fields: &Vec<Name>) -> (r: String)
    ensures
        r@ == csv_spec(fields@, fields@.len() as int) + seq!['\n'],
{
    let mut line = String::new();
    let mut i: usize = 0;
    while i < fields.len()
        invariant
            i <= fields@.len(),
            line@ == csv_spec(fields@, i as int),
        decreases fields.len() - i,
    {
        line.append(fields[i].as_str());
        proof {
            reveal_strlit(",");
        }
        line.append(",");
        i = i + 1;
    }
    proof {
        reveal_strlit("\n");
    }
    line.append("\n");
    line
}

/// The field names of a located layout: the last segment of each item's path, in order.
pub fn field_names(loc_layout: &LocLayout) -> (r: Vec<Name>)
    requires
        forall|i: int| 0 <= i < loc_layout.loc_items@.len() ==> (#[trigger] loc_layout.loc_items@[i]).name@.len() > 0,
    ensures
        r@.len() == loc_layout.loc_items@.len(),
        forall|i: int| 0 <= i < r@.len() ==> (#[trigger] r@[i])@ == loc_layout.loc_items@[i].name@.last()@,
{
    let mut names: Vec<Name> = Vec::new();
    let mut i: usize = 0;
    while i < loc_layout.loc_items.len()
        invariant
            i <= loc_layout.loc_items@.len(),
            forall|k: int| 0 <= k < loc_layout.loc_items@.len() ==> (#[trigger] loc_layout.loc_items@[k]).name@.len() > 0,
            names@.len() == i,
            forall|k: int| 0 <= k < i ==> (#[trigger] names@[k])@ == loc_layout.loc_items@[k].name@.last()@,
        decreases loc_layout.loc_items.len() - i,
    {
        let path = &loc_layout.loc_items[i].name;
        names.push(path[path.len() - 1].clone());
        i = i + 1;
    }
    names
}

/// The header line of a located layout: its field names, in order.
pub fn loclayout_csvheader(loc_layout: &LocLayout) -> (r: String)
    requires
        forall|i: int| 0 <= i < loc_layout.loc_items@.len() ==> (#[trigger] loc_layout.loc_items@[i]).name@.len() > 0,
    ensures
        exists|names: Seq<Name>|
            names.len() == loc_layout.loc_items@.len() && (forall|i: int|
                0 <= i < names.len() ==> (#[trigger] names[i])@ == loc_layout.loc_items@[i].name@.last()@) && r@
                == csv_spec(names, names.len() as int) + seq!['\n'],
{
    let names = field_names(loc_layout);
    csv_line(&names)
}


/// The header line of a definition: the names of its leaves, each once.
pub fn layoutpacket_csvheader(packet: &LayoutPacketDef) -> (r: String)
    ensures
        exists|names: Seq<Name>|
            distinct_names(names) && name_set(names) == names_spec(*packet) && r@ == csv_spec(names, names.len() as int)
                + seq!['\n'],
{
    let names = packet.names();
    csv_line(&names)
}

/// The header line of a layout: the names of its primitives and bit fields, each once.
pub fn layout_csvheader(layout: &Layout) -> (r: String)
    ensures
        exists|names: Seq<Name>|
            distinct_names(names) && name_set(names) == layout_names(*layout) && r@ == csv_spec(names, names.len() as int)
                + seq!['\n'],
{
    let names = layout.names();
    csv_line(&names)
}

} // verus!
