//! The vocabulary resources that the p-machine reads: the names of selectors, the
//! names of opcodes, and the script that defines each class.

use crate::bytes::{le_u16_at, read_le_u16};
use crate::resource::Resource;
use crate::text::from_utf8;
use std::collections::HashMap;
use vstd::prelude::*;
use vstd::utf8::{decode_utf8, valid_utf8};

verus! {

broadcast use vstd::std_specs::hash::group_hash_axioms;

/// The UTF-8 text of `len` bytes at `start`, if it lies in the data and decodes.
pub open spec fn spec_text_at(data: Seq<u8>, start: int, len: int) -> Option<Seq<char>> {
    if start < 0 || len < 0 || start + len > data.len() || !valid_utf8(
        data.subrange(start, start + len),
    ) {
        None
    } else {
        Some(decode_utf8(data.subrange(start, start + len)))
    }
}

/// The name of selector `i`: the table after the count holds, for each selector,
/// the offset of a length-prefixed name.
pub open spec fn spec_selector_name(data: Seq<u8>, i: int) -> Option<Seq<char>> {
    let sel_offset = 2 * i + 2;
    if sel_offset + 2 > data.len() {
        None
    } else {
        let offset = le_u16_at(data, sel_offset) as int;
        if offset + 2 > data.len() {
            None
        } else {
            spec_text_at(data, offset + 2, le_u16_at(data, offset) as int)
        }
    }
}

/// The selector names of a vocabulary resource: the count in its first word is one
/// less than the number of names.
pub open spec fn spec_selector_names(data: Seq<u8>) -> Option<Map<u16, Seq<char>>> {
    if data.len() < 2 {
        None
    } else {
        let count = le_u16_at(data, 0) as int;
        if forall|i: int| 0 <= i <= count ==> #[trigger] spec_selector_name(data, i) is Some {
            Some(Map::new(|k: u16| k <= count, |k: u16| spec_selector_name(data, k as int).unwrap()))
        } else {
            None
        }
    }
}

/// Reads the UTF-8 text of `len` bytes at `start`.
fn read_text_at(data: &[u8], start: usize, len: usize) -> (s: Option<String>)
    ensures
        match s {
            Some(s) => spec_text_at(data@, start as int, len as int) == Some(s@),
            None => spec_text_at(data@, start as int, len as int) is None,
        },
{
    if start > data.len() || len > data.len() - start {
        return None;
    }
    from_utf8(&data[start..start + len])
}

/// Reads the name of selector `i`.
fn read_selector_name(data: &[u8], i: usize) -> (s: Option<String>)
    requires
        i <= 0xffff,
    ensures
        match s {
            Some(s) => spec_selector_name(data@, i as int) == Some(s@),
            None => spec_selector_name(data@, i as int) is None,
        },
{
    let sel_offset = i * 2 + 2;
    if sel_offset > data.len() || data.len() - sel_offset < 2 {
        return None;
    }
    let offset = read_le_u16(data, sel_offset) as usize;
    if offset > data.len() || data.len() - offset < 2 {
        return None;
    }
    let len = read_le_u16(data, offset) as usize;
    read_text_at(data, offset + 2, len)
}

/// The names of the selectors, each under its number.
pub fn load_vocab_selector_names(resource: &Resource) -> (names: Option<HashMap<u16, String>>)
    ensures
        match names {
            Some(n) => spec_selector_names(resource.resource_data@) == Some(
                n@.map_values(|s: String| s@),
            ),
            None => spec_selector_names(resource.resource_data@) is None,
        },
{
    let data = resource.resource_data.as_slice();
    if data.len() < 2 {
        return None;
    }
    let count = read_le_u16(data, 0) as usize;
    let mut names: HashMap<u16, String> = HashMap::new();
    let mut i: usize = 0;
    while i <= count
        invariant
            i <= count + 1,
            count <= 0xffff,
            data@ == resource.resource_data@,
            count == le_u16_at(data@, 0),
            data@.len() >= 2,
            forall|k: int| 0 <= k < i ==> #[trigger] spec_selector_name(data@, k) is Some,
            forall|k: u16| #[trigger] names@.contains_key(k) <==> k < i,
            forall|k: u16| #[trigger]
                names@.contains_key(k) ==> spec_selector_name(data@, k as int) == Some(names@[k]@),
        decreases count + 1 - i,
    {
        let name = match read_selector_name(data, i) {
            Some(s) => s,
            None => return None,
        };
        names.insert(i as u16, name);
        i = i + 1;
    }
    proof {
        let m = Map::new(
            |k: u16| k <= count,
            |k: u16| spec_selector_name(data@, k as int).unwrap(),
        );
        assert(m =~= names@.map_values(|s: String| s@));
    }
    Some(names)
}

/// The smallest selector number whose name is `name`.
pub fn find_selector(names: &HashMap<u16, String>, name: &String) -> (sel: Option<u16>)
    ensures
        match sel {
            Some(k) => names@.contains_key(k) && names@[k]@ == name@ && forall|j: u16|
                j < k && #[trigger] names@.contains_key(j) ==> names@[j]@ != name@,
            None => forall|j: u16| #[trigger] names@.contains_key(j) ==> names@[j]@ != name@,
        },
{
    let mut k: u32 = 0;
    while k < 65536
        invariant
            k <= 65536,
            forall|j: u16| j < k && #[trigger] names@.contains_key(j) ==> names@[j]@ != name@,
        decreases 65536 - k,
    {
        match names.get(&(k as u16)) {
            Some(s) => {
                if *s == *name {
                    return Some(k as u16);
                }
            },
            None => {},
        }
        k = k + 1;
    }
    None
}

/// The type and name of opcode `i`: the table after the count holds, for each
/// opcode, the offset of a record of a length that counts itself, a type, and the
/// name.
pub open spec fn spec_opcode(data: Seq<u8>, i: int) -> Option<(u16, Seq<char>)> {
    let op_offset = 2 * i + 2;
    if op_offset + 2 > data.len() {
        None
    } else {
        let offset = le_u16_at(data, op_offset) as int;
        if offset + 4 > data.len() || le_u16_at(data, offset) < 2 {
            None
        } else {
            match spec_text_at(data, offset + 4, le_u16_at(data, offset) - 2) {
                Some(name) => Some((le_u16_at(data, offset + 2), name)),
                None => None,
            }
        }
    }
}

/// The opcode names of a vocabulary resource, in opcode order.
pub open spec fn spec_opcode_names(data: Seq<u8>) -> Option<Seq<(u16, Seq<char>)>> {
    if data.len() < 2 {
        None
    } else {
        let count = le_u16_at(data, 0) as int;
        if forall|i: int| 0 <= i < count ==> #[trigger] spec_opcode(data, i) is Some {
            Some(Seq::new(count as nat, |i: int| spec_opcode(data, i).unwrap()))
        } else {
            None
        }
    }
}

/// The views of a list of opcode records.
pub open spec fn opcode_views(v: Seq<(u16, String)>) -> Seq<(u16, Seq<char>)> {
    v.map_values(|x: (u16, String)| (x.0, x.1@))
}

/// The type and name of each opcode.
pub fn load_vocab_opcode_names(resource: &Resource) -> (names: Option<Vec<(u16, String)>>)
    ensures
        match names {
            Some(n) => spec_opcode_names(resource.resource_data@) == Some(opcode_views(n@)),
            None => spec_opcode_names(resource.resource_data@) is None,
        },
{
    let data = resource.resource_data.as_slice();
    if data.len() < 2 {
        return None;
    }
    let count = read_le_u16(data, 0) as usize;
    let mut names: Vec<(u16, String)> = Vec::new();
    let mut i: usize = 0;
    while i < count
        invariant
            i <= count,
            count <= 0xffff,
            data@ == resource.resource_data@,
            count == le_u16_at(data@, 0),
            data@.len() >= 2,
            names@.len() == i,
            forall|k: int| 0 <= k < i ==> #[trigger] spec_opcode(data@, k) == Some(
                opcode_views(names@)[k],
            ),
        decreases count - i,
    {
        let op_offset = i * 2 + 2;
        if op_offset > data.len() || data.len() - op_offset < 2 {
            assert(spec_opcode(data@, i as int) is None);
            return None;
        }
        let offset = read_le_u16(data, op_offset) as usize;
        if offset > data.len() || data.len() - offset < 4 {
            assert(spec_opcode(data@, i as int) is None);
            return None;
        }
        let len = read_le_u16(data, offset) as usize;
        if len < 2 {
            assert(spec_opcode(data@, i as int) is None);
            return None;
        }
        let t = read_le_u16(data, offset + 2);
        let name = match read_text_at(data, offset + 4, len - 2) {
            Some(s) => s,
            None => {
                assert(spec_opcode(data@, i as int) is None);
                return None;
            },
        };
        let ghost before = names@;
        names.push((t, name));
        proof {
            assert forall|k: int| 0 <= k < i + 1 implies #[trigger] spec_opcode(data@, k) == Some(
                opcode_views(names@)[k],
            ) by {
                if k < i {
                    assert(opcode_views(names@)[k] == opcode_views(before)[k]);
                }
            }
        }
        i = i + 1;
    }
    proof {
        assert(Seq::new(count as nat, |i: int| spec_opcode(data@, i).unwrap()) =~= opcode_views(
            names@,
        ));
    }
    Some(names)
}

/// The script of each class: a list of (segment, script) words, whose segments must
/// be 0, the class number being the position in the list.
pub open spec fn spec_class_scripts(data: Seq<u8>) -> Option<Map<u16, u16>> {
    let n = data.len() / 4;
    if forall|i: int| 0 <= i < n ==> #[trigger] le_u16_at(data, 4 * i) == 0 {
        Some(Map::new(|k: u16| k < n, |k: u16| le_u16_at(data, 4 * k + 2)))
    } else {
        None
    }
}

/// The script that defines each class, under the class's number.
pub fn load_vocab_class_scripts(resource: &Resource) -> (scripts: Option<HashMap<u16, u16>>)
    requires
        resource.resource_data@.len() <= 0xffff,
    ensures
        match scripts {
            Some(s) => spec_class_scripts(resource.resource_data@) == Some(s@),
            None => spec_class_scripts(resource.resource_data@) is None,
        },
        (exists|i: int|
            0 <= i < resource.resource_data@.len() / 4 && #[trigger] le_u16_at(resource.resource_data@, 4 * i)
                != 0) ==> scripts is None,
{
    let data = resource.resource_data.as_slice();
    let n = data.len() / 4;
    let mut scripts: HashMap<u16, u16> = HashMap::new();
    let mut i: usize = 0;
    while i < n
        invariant
            i <= n,
            n == data@.len() / 4,
            data@.len() <= 0xffff,
            data@ == resource.resource_data@,
            forall|k: int| 0 <= k < i ==> #[trigger] le_u16_at(data@, 4 * k) == 0,
            forall|k: u16| #[trigger] scripts@.contains_key(k) <==> k < i,
            forall|k: u16| #[trigger]
                scripts@.contains_key(k) ==> scripts@[k] == le_u16_at(data@, 4 * k + 2),
        decreases n - i,
    {
        let offset = i * 4;
        let segment = read_le_u16(data, offset);
        if segment != 0 {
            assert(le_u16_at(data@, 4 * (i as int)) != 0);
            return None;
        }
        let script_num = read_le_u16(data, offset + 2);
        scripts.insert(i as u16, script_num);
        i = i + 1;
    }
    proof {
        let m = Map::new(|k: u16| k < n, |k: u16| le_u16_at(data@, 4 * k + 2));
        assert(m.dom() =~= scripts@.dom());
        assert forall|k: u16| #[trigger] m.contains_key(k) implies m[k] == scripts@[k] by {}
        assert(m =~= scripts@);
    }
    Some(scripts)
}

} // verus!
