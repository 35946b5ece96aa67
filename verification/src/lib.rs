//! A Sierra Creative Interpreter (SCI0) engine: resource decoding, picture and
//! view rendering, script parsing and the p-machine.

pub mod bits;
pub mod bytes;
pub mod graphics;
pub mod picture;
pub mod pmachine;
pub mod resource;
pub mod script;
pub mod text;
pub mod view;

use resource::{load_resource, spec_resource_data, Resource, ResourceMapEntry};
use std::collections::HashMap;
use vstd::prelude::*;

verus! {

broadcast use vstd::std_specs::hash::group_hash_axioms;

/// A loaded game: every resource of its resource map, keyed by identifier.
pub struct Game {
    pub resources: HashMap<u16, Resource>,
}

/// Why a game could not be loaded from its resource map and resource files.
#[derive(Clone, Copy, Debug, PartialEq, Eq, Structural)]
pub enum LoadError {
    /// The map places a resource in a resource file that was not supplied.
    MissingFile(u8),
    /// The resource with this identifier does not read back from its file.
    MalformedResource(u16),
}

/// Every resource of `map` reads back from its supplied resource file.
pub open spec fn all_resources_load(
    map: Map<u16, ResourceMapEntry>,
    files: Map<u8, Vec<u8>>,
) -> bool {
    forall|id: u16|
        #[trigger] map.contains_key(id) ==> files.contains_key(map[id].resource_file_number)
            && spec_resource_data(files[map[id].resource_file_number]@, map[id]) is Some
}

impl Game {
    /// Loads every resource that the resource map names from the resource files,
    /// `files` holding the bytes of RESOURCE.nnn under the file number nnn.
    pub fn load(
        map: &HashMap<u16, ResourceMapEntry>,
        files: &HashMap<u8, Vec<u8>>,
    ) -> (game: Result<Game, LoadError>)
        ensures
            game is Ok <==> all_resources_load(map@, files@),
            game matches Ok(g) ==> {
                &&& g.resources@.dom() == map@.dom()
                &&& forall|id: u16| #[trigger]
                    g.resources@.contains_key(id) ==> {
                        let e = map@[id];
                        let r = g.resources@[id];
                        &&& spec_resource_data(files@[e.resource_file_number]@, e) == Some(
                            r.resource_data@,
                        )
                        &&& r.resource_type == e.resource_type
                        &&& r.resource_number == e.resource_number
                    }
            },
            game matches Err(LoadError::MissingFile(f)) ==> !files@.contains_key(f) && exists|
                id: u16,
            | #[trigger] map@.contains_key(id) && map@[id].resource_file_number == f,
            game matches Err(LoadError::MalformedResource(id)) ==> {
                &&& map@.contains_key(id)
                &&& files@.contains_key(map@[id].resource_file_number)
                &&& spec_resource_data(files@[map@[id].resource_file_number]@, map@[id]) is None
            },
    {
        let mut resources: HashMap<u16, Resource> = HashMap::new();
        // Identifiers are walked in increasing order, so the outcome does not depend
        // on the order in which a hash map is walked.
        let mut next: u32 = 0;
        while next < 65536
            invariant
                next <= 65536,
                forall|i: u16| #[trigger]
                    resources@.contains_key(i) <==> (i < next && map@.contains_key(i)),
                forall|i: u16| #[trigger]
                    map@.contains_key(i) && i < next ==> {
                        let e = map@[i];
                        &&& files@.contains_key(e.resource_file_number)
                        &&& spec_resource_data(files@[e.resource_file_number]@, e) is Some
                    },
                forall|i: u16| #[trigger]
                    resources@.contains_key(i) ==> {
                        let e = map@[i];
                        let r = resources@[i];
                        &&& spec_resource_data(files@[e.resource_file_number]@, e) == Some(
                            r.resource_data@,
                        )
                        &&& r.resource_type == e.resource_type
                        &&& r.resource_number == e.resource_number
                    },
            decreases 65536 - next,
        {
            let id = next as u16;
            if let Some(entry) = map.get(&id) {
                let buffer = match files.get(&entry.resource_file_number) {
                    Some(b) => b,
                    None => return Err(LoadError::MissingFile(entry.resource_file_number)),
                };
                let resource = match load_resource(buffer.as_slice(), entry) {
                    Some(r) => r,
                    None => return Err(LoadError::MalformedResource(id)),
                };
                resources.insert(id, resource);
            }
            next = next + 1;
        }
        proof {
            assert(resources@.dom() =~= map@.dom());
        }
        Ok(Game { resources })
    }
}

/// Whether some resource of the map lies in resource file `f`.
pub open spec fn uses_file(map: Map<u16, ResourceMapEntry>, f: u8) -> bool {
    exists|id: u16| #[trigger] map.contains_key(id) && map[id].resource_file_number == f
}

/// The resource files that a resource map places resources in, each once, in
/// increasing order.
pub fn resource_file_numbers(map: &HashMap<u16, ResourceMapEntry>) -> (files: Vec<u8>)
    ensures
        forall|f: u8| files@.contains(f) <==> uses_file(map@, f),
        forall|i: int, j: int| 0 <= i < j < files@.len() ==> files@[i] < files@[j],
{
    let mut used: Vec<bool> = vec![false; 256];
    let mut next: u32 = 0;
    while next < 65536
        invariant
            next <= 65536,
            used@.len() == 256,
            forall|f: int|
                0 <= f < 256 ==> (#[trigger] used@[f] <==> exists|id: u16|
                    id < next && #[trigger] map@.contains_key(id) && map@[id].resource_file_number == f),
        decreases 65536 - next,
    {
        let id = next as u16;
        if let Some(entry) = map.get(&id) {
            let f = entry.resource_file_number as usize;
            used.set(f, true);
            proof {
                assert forall|g: int| 0 <= g < 256 implies (#[trigger] used@[g] <==> exists|k: u16|
                    k < next + 1 && #[trigger] map@.contains_key(k) && map@[k].resource_file_number
                        == g) by {
                    if g == f {
                        assert(map@.contains_key(id) && map@[id].resource_file_number == g);
                    } else if used@[g] {
                        let k = choose|k: u16| k < next && #[trigger] map@.contains_key(k)
                            && map@[k].resource_file_number == g;
                    } else {
                        if exists|k: u16|
                            k < next + 1 && #[trigger] map@.contains_key(k) && map@[k].resource_file_number
                                == g {
                            let k = choose|k: u16| k < next + 1 && #[trigger] map@.contains_key(k)
                                && map@[k].resource_file_number == g;
                            assert(k != id);
                        }
                    }
                }
            }
        } else {
            proof {
                assert forall|g: int| 0 <= g < 256 implies (#[trigger] used@[g] <==> exists|k: u16|
                    k < next + 1 && #[trigger] map@.contains_key(k) && map@[k].resource_file_number
                        == g) by {
                    if exists|k: u16|
                        k < next + 1 && #[trigger] map@.contains_key(k) && map@[k].resource_file_number
                            == g {
                        let k = choose|k: u16| k < next + 1 && #[trigger] map@.contains_key(k)
                            && map@[k].resource_file_number == g;
                        assert(k != id);
                    }
                }
            }
        }
        next = next + 1;
    }
    let mut files: Vec<u8> = Vec::new();
    let mut f: usize = 0;
    while f < 256
        invariant
            f <= 256,
            used@.len() == 256,
            forall|g: int|
                0 <= g < 256 ==> (#[trigger] used@[g] <==> exists|id: u16|
                    #[trigger] map@.contains_key(id) && map@[id].resource_file_number == g),
            forall|g: u8| files@.contains(g) <==> g < f && used@[g as int],
            forall|i: int, j: int| 0 <= i < j < files@.len() ==> files@[i] < files@[j],
            forall|i: int| 0 <= i < files@.len() ==> files@[i] < f,
        decreases 256 - f,
    {
        if used[f] {
            let ghost before = files@;
            files.push(f as u8);
            proof {
                assert forall|g: u8| files@.contains(g) <==> g < f + 1 && used@[g as int] by {
                    if g == f {
                        assert(files@[files@.len() - 1] == g);
                    } else if before.contains(g) {
                        let i = choose|i: int| 0 <= i < before.len() && before[i] == g;
                        assert(files@[i] == g);
                    } else if files@.contains(g) {
                        let i = choose|i: int| 0 <= i < files@.len() && files@[i] == g;
                        if i < before.len() {
                            assert(before[i] == g);
                        }
                    }
                }
            }
        } else {
            proof {
                assert forall|g: u8| files@.contains(g) <==> g < f + 1 && used@[g as int] by {
                    if g == f && files@.contains(g) {
                        let i = choose|i: int| 0 <= i < files@.len() && files@[i] == g;
                    }
                }
            }
        }
        f = f + 1;
    }
    proof {
        assert forall|g: u8| files@.contains(g) <==> uses_file(map@, g) by {
            assert(used@[g as int] <==> exists|id: u16|
                #[trigger] map@.contains_key(id) && map@[id].resource_file_number == g);
        }
    }
    files
}

} // verus!
