//! The p-machine's heap: its lists of nodes and the local variables of each script.

use super::register::{DblListNode, Id, Register};
use std::collections::{HashMap, VecDeque};
use vstd::prelude::*;

verus! {

broadcast use {vstd::std_specs::hash::group_hash_axioms, vstd::std_specs::vecdeque::group_vec_dequeue_axioms};

/// The lists, each under its number, the script variables, each under its
/// script's number, and the number that the next list gets.
pub struct Heap {
    pub dbllist_cache: HashMap<usize, VecDeque<DblListNode>>,
    pub script_local_variables: HashMap<u16, Vec<Register>>,
    pub next_list: usize,
}

/// The content of the heap.
pub struct HeapView {
    pub lists: Map<usize, Seq<DblListNode>>,
    pub locals: Map<u16, Seq<Register>>,
    pub next_list: usize,
}

impl View for Heap {
    type V = HeapView;

    open spec fn view(&self) -> HeapView {
        HeapView {
            lists: self.dbllist_cache@.map_values(|q: VecDeque<DblListNode>| q@),
            locals: self.script_local_variables@.map_values(|v: Vec<Register>| v@),
            next_list: self.next_list,
        }
    }
}

/// The position of the first node with key `key` from `i` on; the length where
/// there is none.
pub open spec fn key_index_from(nodes: Seq<DblListNode>, key: Id, i: int) -> int
    decreases nodes.len() - i,
{
    if i < 0 || i >= nodes.len() {
        nodes.len() as int
    } else if nodes[i].key == key {
        i
    } else {
        key_index_from(nodes, key, i + 1)
    }
}

/// The position of the first node with key `key`; the length where there is none.
pub open spec fn key_index(nodes: Seq<DblListNode>, key: Id) -> int {
    key_index_from(nodes, key, 0)
}

proof fn lemma_key_index_from(nodes: Seq<DblListNode>, key: Id, i: int)
    requires
        0 <= i <= nodes.len(),
    ensures
        i <= key_index_from(nodes, key, i) <= nodes.len(),
        key_index_from(nodes, key, i) < nodes.len() ==> nodes[key_index_from(nodes, key, i)].key == key,
        forall|j: int| i <= j < key_index_from(nodes, key, i) ==> nodes[j].key != key,
    decreases nodes.len() - i,
{
    if i < nodes.len() && nodes[i].key != key {
        lemma_key_index_from(nodes, key, i + 1);
    }
}

/// What `key_index` is: the first position of a node with the key, or the length.
pub proof fn lemma_key_index(nodes: Seq<DblListNode>, key: Id)
    ensures
        0 <= key_index(nodes, key) <= nodes.len(),
        key_index(nodes, key) < nodes.len() ==> nodes[key_index(nodes, key)].key == key,
        forall|j: int| 0 <= j < key_index(nodes, key) ==> nodes[j].key != key,
{
    lemma_key_index_from(nodes, key, 0);
}

/// What FindKey answers: the first node with the key, or 0.
pub open spec fn spec_find_key(nodes: Seq<DblListNode>, key: Id) -> Register {
    if key_index(nodes, key) < nodes.len() {
        Register::Node(nodes[key_index(nodes, key)])
    } else {
        Register::Value(0)
    }
}

/// The list without its first node with the key.
pub open spec fn spec_delete_key(nodes: Seq<DblListNode>, key: Id) -> Seq<DblListNode> {
    if key_index(nodes, key) < nodes.len() {
        nodes.remove(key_index(nodes, key))
    } else {
        nodes
    }
}

/// The node as it is placed in list `list` at position `index`.
pub open spec fn placed(node: DblListNode, list: usize, index: usize) -> DblListNode {
    DblListNode { list_id: list, list_index: index, ..node }
}

impl Heap {
    /// An empty heap; the first list gets number 1.
    pub fn new() -> (h: Heap)
        ensures
            h@.lists == Map::<usize, Seq<DblListNode>>::empty(),
            h@.locals == Map::<u16, Seq<Register>>::empty(),
            h@.next_list == 1,
    {
        let h = Heap {
            dbllist_cache: HashMap::new(),
            script_local_variables: HashMap::new(),
            next_list: 1,
        };
        assert(h@.lists =~= Map::<usize, Seq<DblListNode>>::empty());
        assert(h@.locals =~= Map::<u16, Seq<Register>>::empty());
        h
    }

    /// Makes a new empty list and gives its number.
    pub fn new_list(&mut self) -> (list: usize)
        requires
            old(self).next_list < usize::MAX,
        ensures
            list == old(self)@.next_list,
            final(self)@.lists == old(self)@.lists.insert(list, Seq::empty()),
            final(self)@.locals == old(self)@.locals,
            final(self)@.next_list == old(self)@.next_list + 1,
    {
        let id = self.next_list;
        self.next_list = self.next_list + 1;
        self.dbllist_cache.insert(id, VecDeque::new());
        proof {
            assert(self@.lists =~= old(self)@.lists.insert(id, Seq::empty()));
        }
        id
    }

    /// Drops a list.
    pub fn dispose_list(&mut self, list: usize)
        ensures
            final(self)@.lists == old(self)@.lists.remove(list),
            final(self)@.locals == old(self)@.locals,
            final(self)@.next_list == old(self)@.next_list,
    {
        self.dbllist_cache.remove(&list);
        proof {
            assert(self@.lists =~= old(self)@.lists.remove(list));
        }
    }

    /// The first node of a list, or 0 for an empty list or the null list.
    pub fn first_node(&self, list: usize) -> (r: Register)
        requires
            list != 0 ==> self@.lists.contains_key(list),
        ensures
            r == (if list == 0 || self@.lists[list].len() == 0 {
                Register::Value(0)
            } else {
                Register::Node(self@.lists[list][0])
            }),
    {
        if list == 0 {
            return Register::Value(0);
        }
        match self.dbllist_cache.get(&list) {
            Some(nodes) => {
                if nodes.len() > 0 {
                    Register::Node(nodes[0])
                } else {
                    Register::Value(0)
                }
            },
            None => Register::Value(0),
        }
    }

    /// The node after `node` in its list, by the position it was placed at, or 0.
    pub fn next_node(&self, node: DblListNode) -> (r: Register)
        requires
            self@.lists.contains_key(node.list_id),
            node.list_index < usize::MAX,
        ensures
            r == (if node.list_index + 1 < self@.lists[node.list_id].len() {
                Register::Node(self@.lists[node.list_id][node.list_index + 1])
            } else {
                Register::Value(0)
            }),
    {
        match self.dbllist_cache.get(&node.list_id) {
            Some(nodes) => {
                if node.list_index + 1 < nodes.len() {
                    Register::Node(nodes[node.list_index + 1])
                } else {
                    Register::Value(0)
                }
            },
            None => Register::Value(0),
        }
    }

    /// Puts `node` at the front of a list, placed at position 0; the null list
    /// answers 0 and is left as it is.
    pub fn add_to_front(&mut self, list: usize, node: DblListNode) -> (r: Option<Register>)
        requires
            list != 0 ==> old(self)@.lists.contains_key(list),
        ensures
            list == 0 ==> r == Some(Register::Value(0)) && final(self)@ == old(self)@,
            list != 0 ==> r is None && final(self)@.lists == old(self)@.lists.insert(
                list,
                seq![placed(node, list, 0)] + old(self)@.lists[list],
            ) && final(self)@.locals == old(self)@.locals && final(self)@.next_list == old(
                self,
            )@.next_list,
    {
        if list == 0 {
            return Some(Register::Value(0));
        }
        let mut nodes = match self.dbllist_cache.remove(&list) {
            Some(n) => n,
            None => VecDeque::new(),
        };
        nodes.push_front(DblListNode { list_id: list, list_index: 0, ..node });
        self.dbllist_cache.insert(list, nodes);
        proof {
            assert(self@.lists =~= old(self)@.lists.insert(
                list,
                seq![placed(node, list, 0)] + old(self)@.lists[list],
            ));
        }
        None
    }

    /// Puts `node` at the end of a list, placed at the list's length; the null list
    /// answers 0 and is left as it is.
    pub fn add_to_end(&mut self, list: usize, node: DblListNode) -> (r: Option<Register>)
        requires
            list != 0 ==> old(self)@.lists.contains_key(list),
        ensures
            list == 0 ==> r == Some(Register::Value(0)) && final(self)@ == old(self)@,
            list != 0 ==> r is None && final(self)@.lists == old(self)@.lists.insert(
                list,
                old(self)@.lists[list].push(
                    placed(node, list, old(self)@.lists[list].len() as usize),
                ),
            ) && final(self)@.locals == old(self)@.locals && final(self)@.next_list == old(
                self,
            )@.next_list,
    {
        if list == 0 {
            return Some(Register::Value(0));
        }
        let mut nodes = match self.dbllist_cache.remove(&list) {
            Some(n) => n,
            None => VecDeque::new(),
        };
        let index = nodes.len();
        nodes.push_back(DblListNode { list_id: list, list_index: index, ..node });
        self.dbllist_cache.insert(list, nodes);
        proof {
            assert(self@.lists =~= old(self)@.lists.insert(
                list,
                old(self)@.lists[list].push(placed(node, list, old(self)@.lists[list].len() as usize)),
            ));
        }
        None
    }

    /// The first node of a list with key `key`, or 0; the null list answers 0.
    pub fn find_key(&self, list: usize, key: Id) -> (r: Register)
        requires
            list != 0 ==> self@.lists.contains_key(list),
        ensures
            r == (if list == 0 {
                Register::Value(0)
            } else {
                spec_find_key(self@.lists[list], key)
            }),
    {
        if list == 0 {
            return Register::Value(0);
        }
        match self.dbllist_cache.get(&list) {
            Some(nodes) => {
                proof {
                    lemma_key_index(nodes@, key);
                    assert(self@.lists[list] == nodes@);
                }
                let mut i: usize = 0;
                while i < nodes.len()
                    invariant
                        i <= nodes@.len(),
                        list != 0,
                        self@.lists[list] == nodes@,
                        key_index_from(nodes@, key, 0) == key_index_from(nodes@, key, i as int),
                    decreases nodes@.len() - i,
                {
                    if nodes[i].key == key {
                        return Register::Node(nodes[i]);
                    }
                    i = i + 1;
                }
                Register::Value(0)
            },
            None => Register::Value(0),
        }
    }

    /// Removes the first node of a list with key `key`; the null list answers 0.
    pub fn delete_key(&mut self, list: usize, key: Id) -> (r: Option<Register>)
        requires
            list != 0 ==> old(self)@.lists.contains_key(list),
        ensures
            list == 0 ==> r == Some(Register::Value(0)) && final(self)@ == old(self)@,
            list != 0 ==> r is None && final(self)@.lists == old(self)@.lists.insert(
                list,
                spec_delete_key(old(self)@.lists[list], key),
            ) && final(self)@.locals == old(self)@.locals && final(self)@.next_list == old(
                self,
            )@.next_list,
    {
        if list == 0 {
            return Some(Register::Value(0));
        }
        let mut nodes = match self.dbllist_cache.remove(&list) {
            Some(n) => n,
            None => VecDeque::new(),
        };
        let ghost before = nodes@;
        proof {
            lemma_key_index(before, key);
        }
        let mut i: usize = 0;
        while i < nodes.len() && nodes[i].key != key
            invariant
                i <= nodes@.len(),
                nodes@ == before,
                key_index_from(before, key, 0) == key_index_from(before, key, i as int),
            decreases nodes@.len() - i,
        {
            i = i + 1;
        }
        assert(i == key_index(before, key));
        if i < nodes.len() {
            nodes.remove(i);
        }
        self.dbllist_cache.insert(list, nodes);
        proof {
            assert(self@.lists =~= old(self)@.lists.insert(list, spec_delete_key(before, key)));
        }
        None
    }

    /// The local variable `index` of script `script`.
    pub fn get_local(&self, script: u16, index: usize) -> (r: Register)
        requires
            self@.locals.contains_key(script),
            index < self@.locals[script].len(),
        ensures
            r == self@.locals[script][index as int],
    {
        match self.script_local_variables.get(&script) {
            Some(v) => v[index],
            None => Register::Undefined,
        }
    }

    /// Sets the local variable `index` of script `script`.
    pub fn set_local(&mut self, script: u16, index: usize, value: Register)
        requires
            old(self)@.locals.contains_key(script),
            index < old(self)@.locals[script].len(),
        ensures
            final(self)@.locals == old(self)@.locals.insert(
                script,
                old(self)@.locals[script].update(index as int, value),
            ),
            final(self)@.lists == old(self)@.lists,
            final(self)@.next_list == old(self)@.next_list,
    {
        let mut vars = match self.script_local_variables.remove(&script) {
            Some(v) => v,
            None => Vec::new(),
        };
        if index < vars.len() {
            vars.set(index, value);
        }
        self.script_local_variables.insert(script, vars);
        proof {
            assert(self@.locals =~= old(self)@.locals.insert(
                script,
                old(self)@.locals[script].update(index as int, value),
            ));
        }
    }
}

/// After a node is added at the end of a list, FindKey with its key finds the
/// first node with that key: the new node, placed last, where no earlier node has
/// the key.
pub proof fn lemma_find_key_after_add_to_end(nodes: Seq<DblListNode>, node: DblListNode, list: usize)
    requires
        nodes.len() < usize::MAX,
        forall|j: int| 0 <= j < nodes.len() ==> nodes[j].key != node.key,
    ensures
        spec_find_key(nodes.push(placed(node, list, nodes.len() as usize)), node.key) == Register::Node(
            placed(node, list, nodes.len() as usize),
        ),
{
    let after = nodes.push(placed(node, list, nodes.len() as usize));
    lemma_key_index(after, node.key);
    assert(after[nodes.len() as int].key == node.key);
    if key_index(after, node.key) < nodes.len() {
        assert(after[key_index(after, node.key)] == nodes[key_index(after, node.key)]);
    }
}

/// Deleting a key and then looking it up finds nothing, when the list held that
/// key at most once.
pub proof fn lemma_find_key_after_delete_key(nodes: Seq<DblListNode>, key: Id)
    requires
        forall|i: int, j: int| 0 <= i < j < nodes.len() && nodes[i].key == key ==> nodes[j].key != key,
    ensures
        spec_find_key(spec_delete_key(nodes, key), key) == Register::Value(0),
{
    lemma_key_index(nodes, key);
    let after = spec_delete_key(nodes, key);
    lemma_key_index(after, key);
    if key_index(after, key) < after.len() {
        let k = key_index(after, key);
        let d = key_index(nodes, key);
        if d < nodes.len() {
            if k < d {
                assert(after[k] == nodes[k]);
            } else {
                assert(after[k] == nodes[k + 1]);
            }
        } else {
            assert(after[k] == nodes[k]);
        }
    }
}

} // verus!
