//! SCI0 resources: the resource map, the resource files and resource lookup.

use crate::bytes::{le_u16_at, le_u32_at, read_le_u16, read_le_u32};
use std::collections::HashMap;
use vstd::prelude::*;

pub mod decompress;

use decompress::{huffman_decode, spec_huffman_decode, CompressionType};

verus! {

broadcast use vstd::std_specs::hash::group_hash_axioms;

/// The kinds of SCI0 resources, numbered 0 to 11 in this order.
#[derive(Clone, Copy, Debug, PartialEq, Eq, Structural)]
pub enum ResourceType {
    View,
    Pic,
    Script,
    Text,
    Sound,
    Memory,
    Vocab,
    Font,
    Cursor,
    Patch,
    Bitmap,
    Palette,
}

/// The resource type with number `n` (meaningful for `n < 12`).
pub open spec fn resource_type_of(n: int) -> ResourceType {
    if n == 0 { ResourceType::View }
    else if n == 1 { ResourceType::Pic }
    else if n == 2 { ResourceType::Script }
    else if n == 3 { ResourceType::Text }
    else if n == 4 { ResourceType::Sound }
    else if n == 5 { ResourceType::Memory }
    else if n == 6 { ResourceType::Vocab }
    else if n == 7 { ResourceType::Font }
    else if n == 8 { ResourceType::Cursor }
    else if n == 9 { ResourceType::Patch }
    else if n == 10 { ResourceType::Bitmap }
    else { ResourceType::Palette }
}

impl ResourceType {
    /// The number of this resource type.
    pub open spec fn spec_number(self) -> u16 {
        match self {
            ResourceType::View => 0,
            ResourceType::Pic => 1,
            ResourceType::Script => 2,
            ResourceType::Text => 3,
            ResourceType::Sound => 4,
            ResourceType::Memory => 5,
            ResourceType::Vocab => 6,
            ResourceType::Font => 7,
            ResourceType::Cursor => 8,
            ResourceType::Patch => 9,
            ResourceType::Bitmap => 10,
            ResourceType::Palette => 11,
        }
    }

    /// The resource type with number `v`; `None` for numbers past 11.
    pub fn from_u16(v: u16) -> (t: Option<ResourceType>)
        ensures
            v < 12 ==> t == Some(resource_type_of(v as int)),
            v >= 12 ==> t is None,
    {
        match v {
            0 => Some(ResourceType::View),
            1 => Some(ResourceType::Pic),
            2 => Some(ResourceType::Script),
            3 => Some(ResourceType::Text),
            4 => Some(ResourceType::Sound),
            5 => Some(ResourceType::Memory),
            6 => Some(ResourceType::Vocab),
            7 => Some(ResourceType::Font),
            8 => Some(ResourceType::Cursor),
            9 => Some(ResourceType::Patch),
            10 => Some(ResourceType::Bitmap),
            11 => Some(ResourceType::Palette),
            _ => None,
        }
    }

    /// The number of this resource type.
    pub fn to_u16(&self) -> (v: u16)
        ensures
            v == self.spec_number(),
    {
        match self {
            ResourceType::View => 0,
            ResourceType::Pic => 1,
            ResourceType::Script => 2,
            ResourceType::Text => 3,
            ResourceType::Sound => 4,
            ResourceType::Memory => 5,
            ResourceType::Vocab => 6,
            ResourceType::Font => 7,
            ResourceType::Cursor => 8,
            ResourceType::Patch => 9,
            ResourceType::Bitmap => 10,
            ResourceType::Palette => 11,
        }
    }
}

/// Numbering and naming resource types agree both ways.
pub proof fn lemma_resource_type_numbering(t: ResourceType, n: int)
    ensures
        resource_type_of(t.spec_number() as int) == t,
        0 <= n < 12 ==> resource_type_of(n).spec_number() == n,
        t.spec_number() < 12,
{
}

/// Where the resource map places one resource.
#[derive(Clone, Copy, Debug, PartialEq, Eq, Structural)]
pub struct ResourceMapEntry {
    pub resource_type: ResourceType,
    pub resource_number: u16,
    pub resource_file_number: u8,
    pub resource_file_offset: u32,
}

/// A loaded resource, its data uncompressed.
pub struct Resource {
    pub resource_type: ResourceType,
    pub resource_number: u16,
    pub resource_data: Vec<u8>,
}

/// The resource identifier that `get_resource_key` builds: the type number in the
/// upper 5 bits over the resource number.
pub open spec fn spec_resource_key(resource_type: ResourceType, resource_number: u16) -> u16 {
    ((resource_type.spec_number() << 11u16) | resource_number) as u16
}

proof fn lemma_key_arith(t: u16, n: u16)
    requires
        t < 12,
        n < 2048,
    ensures
        ((t << 11u16) | n) as u16 == t * 2048 + n,
{
    assert(t < 12 && n < 2048 ==> ((t << 11u16) | n) as u16 == t * 2048 + n) by (bit_vector);
}

/// Splits a resource identifier into its type (upper 5 bits) and number (lower 11 bits).
pub fn parse_resource_id(value: u16) -> (r: (ResourceType, u16))
    requires
        value / 2048 < 12,
    ensures
        r.0 == resource_type_of((value / 2048) as int),
        r.1 == value % 2048,
{
    let resource_type = match ResourceType::from_u16(value / 2048) {
        Some(t) => t,
        None => ResourceType::Palette,
    };
    let resource_number = value % 2048;
    (resource_type, resource_number)
}

/// The identifier of the resource of the given type and number.
pub fn get_resource_key(resource_type: ResourceType, resource_number: u16) -> (key: u16)
    ensures
        key == spec_resource_key(resource_type, resource_number),
        resource_number < 2048 ==> key == resource_type.spec_number() * 2048 + resource_number,
{
    let t = resource_type.to_u16();
    proof {
        if resource_number < 2048 {
            lemma_key_arith(t, resource_number);
        }
    }
    t << 11 | resource_number
}

/// Building a key and splitting it again gives back the type and the number, for
/// every number that fits in the 11 bits of the key.
pub proof fn lemma_key_round_trip(resource_type: ResourceType, resource_number: u16)
    requires
        resource_number < 2048,
    ensures
        ({
            let key = spec_resource_key(resource_type, resource_number);
            &&& key / 2048 < 12
            &&& resource_type_of((key / 2048) as int) == resource_type
            &&& key % 2048 == resource_number
        }),
{
    lemma_key_arith(resource_type.spec_number(), resource_number);
}

/// Splitting a valid identifier and building the key again gives back the identifier.
pub proof fn lemma_id_round_trip(value: u16)
    requires
        value / 2048 < 12,
    ensures
        spec_resource_key(resource_type_of((value / 2048) as int), value % 2048) == value,
{
    lemma_key_arith(resource_type_of((value / 2048) as int).spec_number(), value % 2048);
}

/// Different (type, number) pairs with numbers below 2048 have different keys.
pub proof fn lemma_key_injective(t1: ResourceType, n1: u16, t2: ResourceType, n2: u16)
    requires
        n1 < 2048,
        n2 < 2048,
        spec_resource_key(t1, n1) == spec_resource_key(t2, n2),
    ensures
        t1 == t2,
        n1 == n2,
{
    lemma_key_round_trip(t1, n1);
    lemma_key_round_trip(t2, n2);
}

// ---------------------------------------------------------------------------
// The resource map: 6-byte records (a u16 identifier, then a u32 whose upper 6 bits
// are the resource file number and lower 26 bits the offset in that file), ended by
// a record of six 0xff bytes.

/// The identifier in record `k`.
pub open spec fn record_id(buf: Seq<u8>, k: int) -> u16 {
    le_u16_at(buf, 6 * k)
}

/// Record `k` is the end marker.
pub open spec fn record_is_end(buf: Seq<u8>, k: int) -> bool {
    forall|j: int| 0 <= j < 6 ==> #[trigger] buf[6 * k + j] == 0xffu8
}

/// The map entry that record `k` describes.
pub open spec fn record_entry(buf: Seq<u8>, k: int) -> ResourceMapEntry {
    let id = record_id(buf, k);
    let value = le_u32_at(buf, 6 * k + 2);
    ResourceMapEntry {
        resource_type: resource_type_of((id / 2048) as int),
        resource_number: (id % 2048) as u16,
        resource_file_number: (value / 67108864) as u8,
        resource_file_offset: (value % 67108864) as u32,
    }
}

/// The index of the end record, scanning from record `k`; `None` where the buffer
/// ends first or a record before it names an unknown resource type.
pub open spec fn map_end(buf: Seq<u8>, k: int) -> Option<int>
    decreases buf.len() - 6 * k,
{
    if k < 0 || 6 * k + 6 > buf.len() {
        None
    } else if record_is_end(buf, k) {
        Some(k)
    } else if record_id(buf, k) / 2048 >= 12 {
        None
    } else {
        map_end(buf, k + 1)
    }
}

/// The entries of the first `n` records, a later record of the same identifier
/// replacing an earlier one.
pub open spec fn map_prefix(buf: Seq<u8>, n: int) -> Map<u16, ResourceMapEntry>
    decreases n,
{
    if n <= 0 {
        Map::empty()
    } else {
        map_prefix(buf, n - 1).insert(record_id(buf, n - 1), record_entry(buf, n - 1))
    }
}

/// The resource map that the bytes of a RESOURCE.MAP file describe.
pub open spec fn spec_resource_map(buf: Seq<u8>) -> Option<Map<u16, ResourceMapEntry>> {
    match map_end(buf, 0) {
        Some(n) => Some(map_prefix(buf, n)),
        None => None,
    }
}

/// Reads an SCI0 resource map from the bytes of a RESOURCE.MAP file; `None` where
/// the end marker is missing or a record names an unknown resource type.
pub fn parse_resource_map(buffer: &[u8]) -> (entries: Option<HashMap<u16, ResourceMapEntry>>)
    ensures
        match entries {
            Some(m) => spec_resource_map(buffer@) == Some(m@),
            None => spec_resource_map(buffer@) is None,
        },
{
    let mut idx: usize = 0;
    let mut entries: HashMap<u16, ResourceMapEntry> = HashMap::new();
    let ghost total = map_end(buffer@, 0);
    loop
        invariant
            idx % 6 == 0,
            idx <= buffer@.len() + 6,
            total == map_end(buffer@, 0),
            total == map_end(buffer@, idx as int / 6),
            entries@ == map_prefix(buffer@, idx as int / 6),
        decreases buffer@.len() + 6 - idx,
    {
        let ghost k = idx as int / 6;
        assert(6 * k == idx);
        if idx > buffer.len() || buffer.len() - idx < 6 {
            return None;
        }
        let mut is_end = true;
        let mut j: usize = 0;
        while j < 6
            invariant
                j <= 6,
                idx + 6 <= buffer.len(),
                is_end <==> forall|i: int| 0 <= i < j ==> #[trigger] buffer@[idx + i] == 0xffu8,
            decreases 6 - j,
        {
            if buffer[idx + j] != 0xff {
                is_end = false;
            }
            j = j + 1;
        }
        if is_end {
            proof {
                assert(record_is_end(buffer@, k));
            }
            return Some(entries);
        }
        proof {
            assert(!record_is_end(buffer@, k));
        }
        let id = read_le_u16(buffer, idx);
        if id / 2048 >= 12 {
            return None;
        }
        let (resource_type, resource_number) = parse_resource_id(id);
        let value = read_le_u32(buffer, idx + 2);
        let resource_file_number = (value / 67108864) as u8;
        let resource_file_offset = value % 67108864;
        entries.insert(
            id,
            ResourceMapEntry {
                resource_type,
                resource_number,
                resource_file_number,
                resource_file_offset,
            },
        );
        idx = idx + 6;
        proof {
            assert(idx as int / 6 == k + 1);
        }
    }
}

// ---------------------------------------------------------------------------
// Resource files: each resource starts with an 8-byte header (identifier, compressed
// size counted from after that field, uncompressed size, compression method).

/// The uncompressed data of the resource that `entry` places in the resource file
/// `buf`; `None` where the header lies past the file, names another resource, gives
/// a size that does not fit, an unknown method, or data that does not decompress to
/// the stated size.
pub open spec fn spec_resource_data(buf: Seq<u8>, entry: ResourceMapEntry) -> Option<Seq<u8>> {
    let o = entry.resource_file_offset as int;
    if o + 8 > buf.len() {
        None
    } else {
        let id = le_u16_at(buf, o);
        let comp_size = le_u16_at(buf, o + 2) as int;
        let decomp_size = le_u16_at(buf, o + 4) as int;
        let method = le_u16_at(buf, o + 6);
        if id / 2048 >= 12 || resource_type_of((id / 2048) as int) != entry.resource_type || id % 2048
            != entry.resource_number {
            None
        } else if comp_size < 4 || o + 4 + comp_size > buf.len() {
            None
        } else {
            let compressed = buf.subrange(o + 8, o + 4 + comp_size);
            let data = if method == 0 {
                Some(compressed)
            } else if method == 1 {
                Some(Seq::new(decomp_size as nat, |i: int| 0u8))
            } else if method == 2 {
                spec_huffman_decode(compressed)
            } else {
                None
            };
            match data {
                Some(d) => if d.len() == decomp_size {
                    Some(d)
                } else {
                    None
                },
                None => None,
            }
        }
    }
}

/// Reads the resource that `entry` places in the resource file `buffer`.
pub fn load_resource(buffer: &[u8], entry: &ResourceMapEntry) -> (resource: Option<Resource>)
    ensures
        match resource {
            Some(r) => {
                &&& spec_resource_data(buffer@, *entry) == Some(r.resource_data@)
                &&& r.resource_type == entry.resource_type
                &&& r.resource_number == entry.resource_number
            },
            None => spec_resource_data(buffer@, *entry) is None,
        },
{
    let offset = entry.resource_file_offset as usize;
    if buffer.len() < 8 || offset > buffer.len() - 8 {
        return None;
    }
    let id = read_le_u16(buffer, offset);
    if id / 2048 >= 12 {
        return None;
    }
    let (resource_type, resource_number) = parse_resource_id(id);
    if resource_type != entry.resource_type || resource_number != entry.resource_number {
        return None;
    }
    let comp_size = read_le_u16(buffer, offset + 2) as usize;
    let decomp_size = read_le_u16(buffer, offset + 4) as usize;
    let method = read_le_u16(buffer, offset + 6);
    if comp_size < 4 || comp_size > buffer.len() - offset - 4 {
        return None;
    }
    let compressed_data = &buffer[offset + 8..offset + 4 + comp_size];
    let resource_data = match CompressionType::from_u16(method) {
        Some(CompressionType::Uncompressed) => vstd::slice::slice_to_vec(compressed_data),
        Some(CompressionType::LZW) => vec![0u8; decomp_size],
        Some(CompressionType::Huffman) => match huffman_decode(compressed_data) {
            Some(d) => d,
            None => return None,
        },
        None => return None,
    };
    proof {
        if method == 1 {
            assert(resource_data@ =~= Seq::new(decomp_size as nat, |i: int| 0u8));
        }
    }
    if resource_data.len() != decomp_size {
        return None;
    }
    Some(Resource { resource_type, resource_number, resource_data })
}

/// The resource of the given type and number, if it is loaded.
pub fn get_resource<'a>(
    resources: &'a HashMap<u16, Resource>,
    resource_type: ResourceType,
    resource_number: u16,
) -> (r: Option<&'a Resource>)
    ensures
        match r {
            Some(res) => {
                &&& resources@.contains_key(spec_resource_key(resource_type, resource_number))
                &&& *res == resources@[spec_resource_key(resource_type, resource_number)]
            },
            None => !resources@.contains_key(spec_resource_key(resource_type, resource_number)),
        },
{
    let id = get_resource_key(resource_type, resource_number);
    resources.get(&id)
}

/// The first `n` records of a map give an entry for exactly the identifiers they
/// name, each the entry of the last record that names it.
pub proof fn lemma_map_prefix_entries(buf: Seq<u8>, n: int, id: u16)
    requires
        n >= 0,
    ensures
        map_prefix(buf, n).contains_key(id) <==> exists|k: int| 0 <= k < n && #[trigger] record_id(buf, k) == id,
        map_prefix(buf, n).contains_key(id) ==> exists|k: int|
            0 <= k < n && #[trigger] record_id(buf, k) == id && map_prefix(buf, n)[id] == record_entry(buf, k)
                && forall|j: int| k < j < n ==> record_id(buf, j) != id,
    decreases n,
{
    if n > 0 {
        lemma_map_prefix_entries(buf, n - 1, id);
        if record_id(buf, n - 1) != id && map_prefix(buf, n).contains_key(id) {
            let k = choose|k: int|
                0 <= k < n - 1 && #[trigger] record_id(buf, k) == id && map_prefix(buf, n - 1)[id]
                    == record_entry(buf, k) && forall|j: int| k < j < n - 1 ==> record_id(buf, j) != id;
            assert(forall|j: int| k < j < n ==> record_id(buf, j) != id);
        }
        if exists|k: int| 0 <= k < n && #[trigger] record_id(buf, k) == id {
            let k = choose|k: int| 0 <= k < n && #[trigger] record_id(buf, k) == id;
            if k < n - 1 {
                assert(exists|k2: int| 0 <= k2 < n - 1 && #[trigger] record_id(buf, k2) == id);
            }
        }
    }
}

} // verus!
