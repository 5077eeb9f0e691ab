//! Human-readable dumps of flag value and flag info files: their headers,
//! values and attribute bits.

use vstd::prelude::*;
use vstd::string::*;

use crate::flag_info::{FlagInfoHeader, FlagInfoList, FlagInfoNode};
use crate::flag_value::{FlagValueHeader, FlagValueList};
use crate::storage_file::HeaderView;
use crate::text::{decimal, push_char, push_decimal};

verus! {

/// The debug text of the file type byte read as a storage file type: the
/// type's name in `Ok(..)`, or the error of an unknown byte.
pub open spec fn file_type_text(t: u8) -> Seq<char> {
    if t == 0 {
        "Ok(PackageMap)"@
    } else if t == 1 {
        "Ok(FlagMap)"@
    } else if t == 2 {
        "Ok(FlagVal)"@
    } else if t == 3 {
        "Ok(FlagInfo)"@
    } else {
        "Err(Invalid storage file type)"@
    }
}

/// `true` or `false`.
pub open spec fn bool_text(b: bool) -> Seq<char> {
    if b {
        "true"@
    } else {
        "false"@
    }
}

/// Decimal text of a signed integer.
pub open spec fn int_text(v: i64) -> Seq<char> {
    if v < 0 {
        seq!['-'] + decimal((-v) as nat)
    } else {
        decimal(v as nat)
    }
}

/// The texts of the items, separated by `, `.
pub open spec fn joined(items: Seq<Seq<char>>) -> Seq<char>
    decreases items.len(),
{
    if items.len() == 0 {
        Seq::empty()
    } else if items.len() == 1 {
        items[0]
    } else {
        joined(items.drop_last()) + ", "@ + items.last()
    }
}

/// The debug text of a list of booleans: `[true, false]`.
pub open spec fn bools_text(v: Seq<bool>) -> Seq<char> {
    "["@ + joined(v.map_values(|b: bool| bool_text(b))) + "]"@
}

/// The debug text of a list of integers: `[1, -2]`.
pub open spec fn ints_text(v: Seq<i64>) -> Seq<char> {
    "["@ + joined(v.map_values(|x: i64| int_text(x))) + "]"@
}

/// The first line of a header dump: version, container, file type, size.
pub open spec fn header_first_line(h: HeaderView) -> Seq<char> {
    "Version: "@ + decimal(h.version as nat) + ", Container: "@ + h.container + ", File Type: "@
        + file_type_text(h.file_type) + ", File Size: "@ + decimal(h.file_size as nat) + "\n"@
}

/// The line of the integer flags of a header dump.
pub open spec fn header_int_line(h: HeaderView) -> Seq<char> {
    "Num of Int Flags: "@ + decimal(h.num_int as nat) + ", Int Value Offset: "@ + decimal(
        h.int_offset as nat,
    ) + "\n"@
}

/// The dump of a flag value header; the integer line only where there are
/// integer flags.
pub open spec fn value_header_text(h: HeaderView) -> Seq<char> {
    header_first_line(h) + "Num of Boolean Flags: "@ + decimal(h.num_boolean as nat)
        + ", Boolean Value Offset:"@ + decimal(h.boolean_offset as nat) + "\n"@ + if h.num_int > 0 {
        header_int_line(h)
    } else {
        Seq::empty()
    }
}

/// The dump of a flag info header; the integer line only from version 4.
pub open spec fn info_header_text(h: HeaderView) -> Seq<char> {
    header_first_line(h) + "Num of Boolean Flags: "@ + decimal(h.num_boolean as nat)
        + ", Boolean Flag Offset:"@ + decimal(h.boolean_offset as nat) + "\n"@ + if h.version >= 4 {
        header_int_line(h)
    } else {
        Seq::empty()
    }
}

/// The dump of a flag value list: its header, its boolean values and, if
/// any, its integer values.
pub open spec fn value_list_text(header: HeaderView, booleans: Seq<bool>, ints: Seq<i64>) -> Seq<
    char,
> {
    "Header:\n"@ + value_header_text(header) + "Boolean Values:\n"@ + bools_text(booleans) + "\n"@
        + if ints.len() > 0 {
        "Integer Values:\n"@ + ints_text(ints) + "\n"@
    } else {
        Seq::empty()
    }
}

/// The dump of the attribute bits of a flag.
pub open spec fn node_text(attributes: u8) -> Seq<char> {
    "readwrite: "@ + bool_text(attributes & 2 != 0) + ", server override: "@ + bool_text(
        attributes & 1 != 0,
    ) + ", local override: "@ + bool_text(attributes & 4 != 0) + "\n"@
}

/// The dumps of the nodes, one after the other.
pub open spec fn nodes_text(attributes: Seq<u8>) -> Seq<char>
    decreases attributes.len(),
{
    if attributes.len() == 0 {
        Seq::empty()
    } else {
        nodes_text(attributes.drop_last()) + node_text(attributes.last())
    }
}

/// The dump of a flag info list: its header, its boolean flags' nodes and,
/// from version 4, its integer flags' nodes.
pub open spec fn info_list_text(header: HeaderView, booleans: Seq<u8>, ints: Seq<u8>) -> Seq<char> {
    "Header:\n"@ + info_header_text(header) + "Boolean Flag Info:\n"@ + nodes_text(booleans)
        + if header.version >= 4 {
        "Integer Flag Info:\n"@ + nodes_text(ints)
    } else {
        Seq::empty()
    }
}

fn push_bool(s: &mut String, b: bool)
    ensures
        final(s)@ == old(s)@ + bool_text(b),
{
    if b {
        s.append("true");
    } else {
        s.append("false");
    }
}

fn push_int(s: &mut String, v: i64)
    ensures
        final(s)@ == old(s)@ + int_text(v),
{
    if v < 0 {
        push_char(s, '-');
        let m: u64 = ((-(v + 1)) as u64) + 1;
        assert(m == -v);
        push_decimal(s, m);
    } else {
        push_decimal(s, v as u64);
    }
}

fn push_file_type(s: &mut String, t: u8)
    ensures
        final(s)@ == old(s)@ + file_type_text(t),
{
    if t == 0 {
        s.append("Ok(PackageMap)");
    } else if t == 1 {
        s.append("Ok(FlagMap)");
    } else if t == 2 {
        s.append("Ok(FlagVal)");
    } else if t == 3 {
        s.append("Ok(FlagInfo)");
    } else {
        s.append("Err(Invalid storage file type)");
    }
}

fn push_bools(s: &mut String, v: &Vec<bool>)
    ensures
        final(s)@ == old(s)@ + bools_text(v@),
{
    let ghost start = s@;
    let ghost items = v@.map_values(|b: bool| bool_text(b));
    s.append("[");
    let mut i: usize = 0;
    assert(joined(items.take(0)) =~= Seq::<char>::empty());
    while i < v.len()
        invariant
            i <= v@.len(),
            items == v@.map_values(|b: bool| bool_text(b)),
            s@ == start + "["@ + joined(items.take(i as int)),
        decreases v@.len() - i,
    {
        if i > 0 {
            s.append(", ");
        }
        push_bool(s, v[i]);
        assert(items.take(i + 1).drop_last() =~= items.take(i as int));
        assert(i == 0 ==> items.take(1) =~= seq![items[0]]);
        assert(s@ =~= start + "["@ + joined(items.take(i + 1)));
        i = i + 1;
    }
    assert(items.take(i as int) =~= items);
    s.append("]");
}

fn push_ints(s: &mut String, v: &Vec<i64>)
    ensures
        final(s)@ == old(s)@ + ints_text(v@),
{
    let ghost start = s@;
    let ghost items = v@.map_values(|x: i64| int_text(x));
    s.append("[");
    let mut i: usize = 0;
    assert(joined(items.take(0)) =~= Seq::<char>::empty());
    while i < v.len()
        invariant
            i <= v@.len(),
            items == v@.map_values(|x: i64| int_text(x)),
            s@ == start + "["@ + joined(items.take(i as int)),
        decreases v@.len() - i,
    {
        if i > 0 {
            s.append(", ");
        }
        push_int(s, v[i]);
        assert(items.take(i + 1).drop_last() =~= items.take(i as int));
        assert(i == 0 ==> items.take(1) =~= seq![items[0]]);
        assert(s@ =~= start + "["@ + joined(items.take(i + 1)));
        i = i + 1;
    }
    assert(items.take(i as int) =~= items);
    s.append("]");
}

fn push_first_line(s: &mut String, Ghost(h): Ghost<HeaderView>, version: u32, container: &String, file_type: u8, file_size: u32)
    requires
        h.version == version,
        h.container == container@,
        h.file_type == file_type,
        h.file_size == file_size,
    ensures
        final(s)@ == old(s)@ + header_first_line(h),
{
    let ghost start = s@;
    s.append("Version: ");
    push_decimal(s, version as u64);
    s.append(", Container: ");
    s.append(container.as_str());
    s.append(", File Type: ");
    push_file_type(s, file_type);
    s.append(", File Size: ");
    push_decimal(s, file_size as u64);
    s.append("\n");
    assert(s@ =~= start + header_first_line(h));
}

fn push_int_line(s: &mut String, Ghost(h): Ghost<HeaderView>, num_int: u32, int_offset: u32)
    requires
        h.num_int == num_int,
        h.int_offset == int_offset,
    ensures
        final(s)@ == old(s)@ + header_int_line(h),
{
    let ghost start = s@;
    s.append("Num of Int Flags: ");
    push_decimal(s, num_int as u64);
    s.append(", Int Value Offset: ");
    push_decimal(s, int_offset as u64);
    s.append("\n");
    assert(s@ =~= start + header_int_line(h));
}

fn push_node(s: &mut String, attributes: u8)
    ensures
        final(s)@ == old(s)@ + node_text(attributes),
{
    let ghost start = s@;
    s.append("readwrite: ");
    push_bool(s, attributes & 2 != 0);
    s.append(", server override: ");
    push_bool(s, attributes & 1 != 0);
    s.append(", local override: ");
    push_bool(s, attributes & 4 != 0);
    s.append("\n");
    assert(s@ =~= start + node_text(attributes));
}

fn push_nodes(s: &mut String, nodes: &Vec<FlagInfoNode>)
    ensures
        final(s)@ == old(s)@ + nodes_text(nodes@.map_values(|n: FlagInfoNode| n.attributes)),
{
    let ghost start = s@;
    let ghost attrs = nodes@.map_values(|n: FlagInfoNode| n.attributes);
    let mut i: usize = 0;
    assert(nodes_text(attrs.take(0)) =~= Seq::<char>::empty());
    assert(start + Seq::<char>::empty() =~= start);
    while i < nodes.len()
        invariant
            i <= nodes@.len(),
            attrs == nodes@.map_values(|n: FlagInfoNode| n.attributes),
            s@ == start + nodes_text(attrs.take(i as int)),
        decreases nodes@.len() - i,
    {
        push_node(s, nodes[i].attributes);
        assert(attrs.take(i + 1).drop_last() =~= attrs.take(i as int));
        assert(s@ =~= start + nodes_text(attrs.take(i + 1)));
        i = i + 1;
    }
    assert(attrs.take(i as int) =~= attrs);
}

impl FlagValueHeader {
    /// The dump of the header: version, container, file type and size, the
    /// boolean flags and, if there are any, the integer flags.
    pub fn to_debug_string(&self) -> (res: String)
        ensures
            res@ == value_header_text(self@),
    {
        let mut s = String::new();
        push_first_line(
            &mut s,
            Ghost(self@),
            self.version,
            &self.container,
            self.file_type,
            self.file_size,
        );
        s.append("Num of Boolean Flags: ");
        push_decimal(&mut s, self.num_boolean_flags as u64);
        s.append(", Boolean Value Offset:");
        push_decimal(&mut s, self.boolean_value_offset as u64);
        s.append("\n");
        if self.num_int_flags > 0 {
            push_int_line(&mut s, Ghost(self@), self.num_int_flags, self.int_value_offset);
        }
        assert(s@ =~= value_header_text(self@));
        s
    }
}

impl FlagInfoHeader {
    /// The dump of the header: version, container, file type and size, the
    /// boolean flags and, from version 4, the integer flags.
    pub fn to_debug_string(&self) -> (res: String)
        ensures
            res@ == info_header_text(self@),
    {
        let mut s = String::new();
        push_first_line(
            &mut s,
            Ghost(self@),
            self.version,
            &self.container,
            self.file_type,
            self.file_size,
        );
        s.append("Num of Boolean Flags: ");
        push_decimal(&mut s, self.num_boolean_flags as u64);
        s.append(", Boolean Flag Offset:");
        push_decimal(&mut s, self.boolean_flag_offset as u64);
        s.append("\n");
        if self.version >= 4 {
            push_int_line(&mut s, Ghost(self@), self.num_int_flags, self.int_flag_offset);
        }
        assert(s@ =~= info_header_text(self@));
        s
    }
}

impl FlagValueList {
    /// The dump of the list: its header, its boolean values and, if there
    /// are any, its integer values.
    pub fn to_debug_string(&self) -> (res: String)
        ensures
            res@ == value_list_text(self.header@, self.booleans@, self.ints@),
    {
        let mut s = String::from_str("Header:\n");
        let h = self.header.to_debug_string();
        s.append(h.as_str());
        s.append("Boolean Values:\n");
        push_bools(&mut s, &self.booleans);
        s.append("\n");
        if self.ints.len() > 0 {
            s.append("Integer Values:\n");
            push_ints(&mut s, &self.ints);
            s.append("\n");
        }
        assert(s@ =~= value_list_text(self.header@, self.booleans@, self.ints@));
        s
    }
}

impl FlagInfoNode {
    /// The dump of the node: whether the flag is read-write, has a server
    /// override, has a local override.
    pub fn to_debug_string(&self) -> (res: String)
        ensures
            res@ == node_text(self.attributes),
    {
        let mut s = String::new();
        push_node(&mut s, self.attributes);
        assert(s@ =~= node_text(self.attributes));
        s
    }
}

impl FlagInfoList {
    /// The dump of the list: its header, its boolean flags' nodes and, from
    /// version 4, its integer flags' nodes.
    pub fn to_debug_string(&self) -> (res: String)
        ensures
            res@ == info_list_text(
                self.header@,
                self.boolean_nodes@.map_values(|n: FlagInfoNode| n.attributes),
                self.int_nodes@.map_values(|n: FlagInfoNode| n.attributes),
            ),
    {
        let mut s = String::from_str("Header:\n");
        let h = self.header.to_debug_string();
        s.append(h.as_str());
        s.append("Boolean Flag Info:\n");
        push_nodes(&mut s, &self.boolean_nodes);
        if self.header.version >= 4 {
            s.append("Integer Flag Info:\n");
            push_nodes(&mut s, &self.int_nodes);
        }
        assert(s@ =~= info_list_text(
            self.header@,
            self.boolean_nodes@.map_values(|n: FlagInfoNode| n.attributes),
            self.int_nodes@.map_values(|n: FlagInfoNode| n.attributes),
        ));
        s
    }
}

} // verus!
