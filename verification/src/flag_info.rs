//! The flag info file: a header, then one attribute byte per boolean flag
//! and (in version 4) one per integer flag. The attribute byte says whether
//! the flag is read-write and whether it has a server or a local override.

use vstd::bytes::*;
use vstd::prelude::*;
use vstd::slice::slice_subrange;
use vstd::string::*;

use crate::storage_file::{
    header_bytes, header_round_trips, higher_version_error, lemma_parse_header_bytes, parse_header,
    parse_header_fields, push_u32_le, push_bytes, read_str_from_bytes, read_u32_from_bytes,
    read_u8_from_bytes, result_view, u8_out_of_bounds_msg, AconfigStorageError, HeaderView,
    StorageErrorView, StorageFileType,
};

verus! {

/// Flag info header.
#[derive(Debug, PartialEq)]
pub struct FlagInfoHeader {
    pub version: u32,
    pub container: String,
    pub file_type: u8,
    pub file_size: u32,
    pub num_boolean_flags: u32,
    pub boolean_flag_offset: u32,
    pub num_int_flags: u32,
    pub int_flag_offset: u32,
}

impl View for FlagInfoHeader {
    type V = HeaderView;

    open spec fn view(&self) -> HeaderView {
        HeaderView {
            version: self.version,
            container: self.container@,
            file_type: self.file_type,
            file_size: self.file_size,
            num_boolean: self.num_boolean_flags,
            boolean_offset: self.boolean_flag_offset,
            num_int: self.num_int_flags,
            int_offset: self.int_flag_offset,
        }
    }
}

/// Message of the error for a file whose type byte is not that of a flag
/// info file.
pub open spec fn not_flag_info_file_msg() -> Seq<char> {
    "binary file is not a flag info file"@
}

/// Parsing a flag info header.
pub open spec fn parse_info_header(b: Seq<u8>) -> Result<HeaderView, StorageErrorView> {
    parse_header(b, StorageFileType::FlagInfo.spec_code(), not_flag_info_file_msg())
}

impl FlagInfoHeader {
    /// Serialize to bytes: version 4 in its own layout, every other version in
    /// the layout of version 1.
    pub fn into_bytes(&self) -> (res: Vec<u8>)
        ensures
            res@ == header_bytes(self@),
    {
        match self.version {
            1..=3 => self.to_bytes_v1(),
            4 => self.to_bytes_v4(),
            _ => self.to_bytes_v1(),
        }
    }

    fn to_bytes_v1(&self) -> (res: Vec<u8>)
        ensures
            res@ == crate::storage_file::header_v1_bytes(self@),
    {
        let mut result: Vec<u8> = Vec::new();
        push_u32_le(&mut result, self.version);
        let container_bytes = self.container.as_str().as_bytes();
        push_u32_le(&mut result, container_bytes.len() as u32);
        push_bytes(&mut result, container_bytes);
        result.push(self.file_type);
        push_u32_le(&mut result, self.file_size);
        push_u32_le(&mut result, self.num_boolean_flags);
        push_u32_le(&mut result, self.boolean_flag_offset);
        result
    }

    fn to_bytes_v4(&self) -> (res: Vec<u8>)
        ensures
            res@ == crate::storage_file::header_v4_bytes(self@),
    {
        let mut result = self.to_bytes_v1();
        push_u32_le(&mut result, self.num_int_flags);
        push_u32_le(&mut result, self.int_flag_offset);
        result
    }

    /// Deserialize from bytes.
    pub fn from_bytes(bytes: &[u8]) -> (res: Result<Self, AconfigStorageError>)
        ensures
            result_view(res) == parse_info_header(bytes@),
    {
        let mut head: usize = 0;
        let version = read_u32_from_bytes(bytes, &mut head)?;
        let header = match version {
            1..=3 => Self::from_bytes_v1(bytes, version, &mut head),
            4 => Self::from_bytes_v4(bytes, version, &mut head),
            _ => {
                return Err(higher_version_error(version));
            },
        }?;
        if header.file_type != StorageFileType::FlagInfo.code() {
            return Err(AconfigStorageError::BytesParseFail(
                String::from_str("binary file is not a flag info file"),
            ));
        }
        Ok(header)
    }

    fn from_bytes_v1(bytes: &[u8], version: u32, head: &mut usize) -> (res: Result<
        Self,
        AconfigStorageError,
    >)
        requires
            *old(head) == 4,
            version != 4,
        ensures
            result_view(res) == parse_header_fields(bytes@, version),
    {
        let container = read_str_from_bytes(bytes, head)?;
        let file_type = read_u8_from_bytes(bytes, head)?;
        let file_size = read_u32_from_bytes(bytes, head)?;
        let num_boolean_flags = read_u32_from_bytes(bytes, head)?;
        let boolean_flag_offset = read_u32_from_bytes(bytes, head)?;
        Ok(Self {
            version,
            container,
            file_type,
            file_size,
            num_boolean_flags,
            boolean_flag_offset,
            num_int_flags: 0,
            int_flag_offset: 0,
        })
    }

    fn from_bytes_v4(bytes: &[u8], version: u32, head: &mut usize) -> (res: Result<
        Self,
        AconfigStorageError,
    >)
        requires
            *old(head) == 4,
            version == 4,
        ensures
            result_view(res) == parse_header_fields(bytes@, version),
    {
        let container = read_str_from_bytes(bytes, head)?;
        let file_type = read_u8_from_bytes(bytes, head)?;
        let file_size = read_u32_from_bytes(bytes, head)?;
        let num_boolean_flags = read_u32_from_bytes(bytes, head)?;
        let boolean_flag_offset = read_u32_from_bytes(bytes, head)?;
        let num_int_flags = read_u32_from_bytes(bytes, head)?;
        let int_flag_offset = read_u32_from_bytes(bytes, head)?;
        Ok(Self {
            version,
            container,
            file_type,
            file_size,
            num_boolean_flags,
            boolean_flag_offset,
            num_int_flags,
            int_flag_offset,
        })
    }
}

/// Bit field for flag info.
#[derive(Clone, Copy, Debug, PartialEq, Eq)]
pub enum FlagInfoBit {
    HasServerOverride,
    IsReadWrite,
    HasLocalOverride,
}

impl FlagInfoBit {
    /// The bit of the attribute byte that the field occupies.
    pub open spec fn spec_mask(&self) -> u8 {
        match self {
            FlagInfoBit::HasServerOverride => 1,
            FlagInfoBit::IsReadWrite => 2,
            FlagInfoBit::HasLocalOverride => 4,
        }
    }

    /// The bit of the attribute byte that the field occupies.
    pub fn mask(&self) -> (m: u8)
        ensures
            m == self.spec_mask(),
    {
        match self {
            FlagInfoBit::HasServerOverride => 1,
            FlagInfoBit::IsReadWrite => 2,
            FlagInfoBit::HasLocalOverride => 4,
        }
    }
}

/// Flag info node: the attribute byte of one flag.
#[derive(Clone, Copy, Debug, PartialEq, Eq)]
pub struct FlagInfoNode {
    pub attributes: u8,
}

impl FlagInfoNode {
    /// Serialize to bytes: the attribute byte.
    pub fn into_bytes(&self) -> (res: Vec<u8>)
        ensures
            res@ == seq![self.attributes],
    {
        let mut result: Vec<u8> = Vec::new();
        result.push(self.attributes);
        result
    }

    /// Deserialize from bytes: the first byte is the attribute byte.
    pub fn from_bytes(bytes: &[u8]) -> (res: Result<Self, AconfigStorageError>)
        ensures
            bytes@.len() > 0 ==> res == Ok::<Self, AconfigStorageError>(
                FlagInfoNode { attributes: bytes@[0] },
            ),
            bytes@.len() == 0 ==> (res matches Err(e) && e@ == StorageErrorView::BytesParseFail(
                u8_out_of_bounds_msg(),
            )),
    {
        let mut head: usize = 0;
        let node = Self { attributes: read_u8_from_bytes(bytes, &mut head)? };
        Ok(node)
    }

    /// Create flag info node: read-write flags have the read-write bit set,
    /// other flags no bit.
    pub fn create(is_flag_rw: bool) -> (res: Self)
        ensures
            res.attributes == if is_flag_rw {
                FlagInfoBit::IsReadWrite.spec_mask()
            } else {
                0u8
            },
    {
        Self {
            attributes: if is_flag_rw {
                FlagInfoBit::IsReadWrite.mask()
            } else {
                0u8
            },
        }
    }
}

/// The attribute bytes of a sequence of nodes.
pub open spec fn node_attributes(s: Seq<FlagInfoNode>) -> Seq<u8> {
    s.map_values(|n: FlagInfoNode| n.attributes)
}

/// The mathematical value of a [`FlagInfoList`].
pub struct InfoListView {
    pub header: HeaderView,
    pub boolean_nodes: Seq<u8>,
    pub int_nodes: Seq<u8>,
}

/// Flag info list: the header and the attribute bytes of the flags.
#[derive(Debug, PartialEq)]
pub struct FlagInfoList {
    pub header: FlagInfoHeader,
    pub boolean_nodes: Vec<FlagInfoNode>,
    pub int_nodes: Vec<FlagInfoNode>,
}

impl View for FlagInfoList {
    type V = InfoListView;

    open spec fn view(&self) -> InfoListView {
        InfoListView {
            header: self.header@,
            boolean_nodes: node_attributes(self.boolean_nodes@),
            int_nodes: node_attributes(self.int_nodes@),
        }
    }
}

/// The serialized flag info file: the header, then the attribute bytes of
/// the boolean flags, then those of the integer flags.
pub open spec fn info_list_bytes(l: InfoListView) -> Seq<u8> {
    header_bytes(l.header) + l.boolean_nodes + l.int_nodes
}

/// Reading `count` attribute bytes from position `offset`.
pub open spec fn parse_nodes(b: Seq<u8>, offset: int, count: nat) -> Result<Seq<u8>, StorageErrorView> {
    if count == 0 {
        Ok(Seq::empty())
    } else if offset + count <= b.len() {
        Ok(b.subrange(offset, offset + count))
    } else {
        Err(StorageErrorView::BytesParseFail(u8_out_of_bounds_msg()))
    }
}

/// Parsing a flag info file: the header; the boolean nodes at the boolean
/// offset; and in version 4 and later the integer nodes at the integer offset.
pub open spec fn parse_info_list(b: Seq<u8>) -> Result<InfoListView, StorageErrorView> {
    match parse_info_header(b) {
        Err(e) => Err(e),
        Ok(h) => match parse_nodes(b, h.boolean_offset as int, h.num_boolean as nat) {
            Err(e) => Err(e),
            Ok(boolean_nodes) => if h.version >= 4 {
                match parse_nodes(b, h.int_offset as int, h.num_int as nat) {
                    Err(e) => Err(e),
                    Ok(int_nodes) => Ok(InfoListView { header: h, boolean_nodes, int_nodes }),
                }
            } else {
                Ok(InfoListView { header: h, boolean_nodes, int_nodes: Seq::empty() })
            },
        },
    }
}

/// A section of nodes does not start past the end of the bytes (starting
/// there is a panic of the parser).
pub open spec fn nodes_start_inside(b: Seq<u8>, offset: int, count: nat) -> bool {
    count > 0 ==> offset <= b.len()
}

/// The node sections that the parser reaches start inside the bytes.
pub open spec fn info_sections_fit(b: Seq<u8>) -> bool {
    match parse_info_header(b) {
        Ok(h) => {
            &&& nodes_start_inside(b, h.boolean_offset as int, h.num_boolean as nat)
            &&& (h.version >= 4 && parse_nodes(b, h.boolean_offset as int, h.num_boolean as nat) is Ok)
                ==> nodes_start_inside(b, h.int_offset as int, h.num_int as nat)
        },
        Err(_) => true,
    }
}

impl FlagInfoList {
    /// Serialize to bytes.
    pub fn into_bytes(&self) -> (res: Vec<u8>)
        ensures
            res@ == info_list_bytes(self@),
    {
        let mut result = self.header.into_bytes();
        push_nodes(&mut result, &self.boolean_nodes);
        push_nodes(&mut result, &self.int_nodes);
        result
    }

    /// Reads `count` nodes starting at `offset`.
    fn read_nodes(bytes: &[u8], offset: u32, count: u32) -> (res: Result<
        Vec<FlagInfoNode>,
        AconfigStorageError,
    >)
        requires
            nodes_start_inside(bytes@, offset as int, count as nat),
        ensures
            match parse_nodes(bytes@, offset as int, count as nat) {
                Ok(s) => res matches Ok(v) && node_attributes(v@) == s,
                Err(e) => res matches Err(r) && r@ == e,
            },
    {
        let mut nodes: Vec<FlagInfoNode> = Vec::new();
        let mut head = offset as usize;
        let mut i: u32 = 0;
        while i < count
            invariant
                i <= count,
                nodes_start_inside(bytes@, offset as int, count as nat),
                head == offset + i,
                count > 0 ==> head <= bytes@.len(),
                node_attributes(nodes@) =~= Seq::new(i as nat, |k: int| bytes@[offset + k]),
            decreases count - i,
        {
            let ghost old_nodes = nodes@;
            let rest = slice_subrange(bytes, head, bytes.len());
            let node = FlagInfoNode::from_bytes(rest)?;
            assert(node.attributes == bytes@[head as int]);
            head = head + node.into_bytes().len();
            nodes.push(node);
            assert(node_attributes(nodes@) =~= node_attributes(old_nodes).push(node.attributes));
            i = i + 1;
            assert(node_attributes(nodes@) =~= Seq::new(i as nat, |k: int| bytes@[offset + k]));
        }
        assert(count > 0 ==> bytes@.subrange(offset as int, offset + count) =~= Seq::new(
            count as nat,
            |k: int| bytes@[offset + k],
        ));
        Ok(nodes)
    }

    /// Deserialize from bytes.
    pub fn from_bytes(bytes: &[u8]) -> (res: Result<Self, AconfigStorageError>)
        requires
            info_sections_fit(bytes@),
        ensures
            result_view(res) == parse_info_list(bytes@),
    {
        let header = FlagInfoHeader::from_bytes(bytes)?;
        let boolean_info = Self::read_nodes(bytes, header.boolean_flag_offset, header.num_boolean_flags)?;
        let mut int_info: Vec<FlagInfoNode> = Vec::new();
        assert(node_attributes(int_info@) =~= Seq::<u8>::empty());
        if header.version >= 4 {
            int_info = Self::read_nodes(bytes, header.int_flag_offset, header.num_int_flags)?;
        }
        let list = Self { header, boolean_nodes: boolean_info, int_nodes: int_info };
        Ok(list)
    }
}

/// Appends the attribute byte of each node.
fn push_nodes(out: &mut Vec<u8>, nodes: &Vec<FlagInfoNode>)
    ensures
        final(out)@ == old(out)@ + node_attributes(nodes@),
{
    let mut i: usize = 0;
    while i < nodes.len()
        invariant
            i <= nodes@.len(),
            out@ == old(out)@ + node_attributes(nodes@.take(i as int)),
        decreases nodes@.len() - i,
    {
        let b = nodes[i].into_bytes();
        push_bytes(out, b.as_slice());
        i = i + 1;
        assert(node_attributes(nodes@.take(i as int)) == node_attributes(nodes@.take(i - 1))
            + seq![nodes@[i - 1].attributes]);
    }
    assert(nodes@.take(nodes@.len() as int) == nodes@);
}

/// A flag info list whose serialization parses back to it: its header
/// round-trips and is that of a flag info file; the boolean nodes follow the
/// header, one per announced boolean flag; in version 4 the integer nodes
/// follow them, one per announced integer flag, and before version 4 there
/// are none.
pub open spec fn info_list_round_trips(l: InfoListView) -> bool {
    &&& header_round_trips(l.header)
    &&& l.header.file_type == StorageFileType::FlagInfo.spec_code()
    &&& l.header.boolean_offset == header_bytes(l.header).len()
    &&& l.boolean_nodes.len() == l.header.num_boolean
    &&& if l.header.version == 4 {
        &&& l.header.int_offset == header_bytes(l.header).len() + l.boolean_nodes.len()
        &&& l.int_nodes.len() == l.header.num_int
    } else {
        l.int_nodes.len() == 0
    }
}

/// A serialized flag info header of a readable version parses back to
/// itself.
pub proof fn lemma_info_header_round_trip(h: HeaderView)
    requires
        header_round_trips(h),
        h.file_type == StorageFileType::FlagInfo.spec_code(),
    ensures
        parse_info_header(header_bytes(h)) == Ok::<HeaderView, StorageErrorView>(h),
{
    lemma_parse_header_bytes(h, Seq::empty(), not_flag_info_file_msg());
    assert(header_bytes(h) + Seq::<u8>::empty() == header_bytes(h));
}

/// A serialized flag info list parses back to itself, and the parser starts
/// no section past the end of it.
pub proof fn lemma_info_list_round_trip(l: InfoListView)
    requires
        info_list_round_trips(l),
    ensures
        info_sections_fit(info_list_bytes(l)),
        parse_info_list(info_list_bytes(l)) == Ok::<InfoListView, StorageErrorView>(l),
{
    let h = l.header;
    let hb = header_bytes(h);
    let b = info_list_bytes(l);
    assert(b == hb + (l.boolean_nodes + l.int_nodes));
    lemma_parse_header_bytes(h, l.boolean_nodes + l.int_nodes, not_flag_info_file_msg());
    let hl = hb.len() as int;
    let nb = l.boolean_nodes.len() as int;
    assert(b.subrange(hl, hl + nb) =~= l.boolean_nodes);
    assert(nb == 0 ==> l.boolean_nodes =~= Seq::<u8>::empty());
    if h.version == 4 {
        assert(b.subrange(hl + nb, hl + nb + l.int_nodes.len()) =~= l.int_nodes);
        assert(l.int_nodes.len() == 0 ==> l.int_nodes =~= Seq::<u8>::empty());
    } else {
        assert(l.int_nodes == Seq::<u8>::empty());
    }
}

/// The first four bytes of a serialized flag info list are its version.
pub proof fn lemma_info_list_version_first(l: InfoListView)
    ensures
        crate::storage_file::spec_read_u32(info_list_bytes(l), 0) == Ok::<u32, StorageErrorView>(
            l.header.version,
        ),
{
    let b = info_list_bytes(l);
    let rest = b.subrange(4, b.len() as int);
    lemma_auto_spec_u32_to_from_le_bytes();
    crate::storage_file::lemma_header_bytes_len(l.header);
    assert(b == Seq::<u8>::empty() + spec_u32_to_le_bytes(l.header.version) + rest);
    crate::storage_file::lemma_read_u32_written(Seq::empty(), l.header.version, rest);
}

} // verus!
