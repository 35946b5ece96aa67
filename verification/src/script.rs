//! SCI0 script resources: blocks of objects, classes, strings, exports and local
//! variables.

use crate::bytes::{le_u16_at, read_le_u16};
use crate::resource::Resource;
use crate::text::{nul_at, read_c_string, spec_c_string};
use vstd::prelude::*;

verus! {

/// The kinds of script blocks, numbered 0 to 10 in this order.
#[derive(Clone, Copy, Debug, PartialEq, Eq, Structural)]
pub enum ScriptBlockType {
    Terminator,
    Object,
    Code,
    SynonymWordList,
    Said,
    Strings,
    Class,
    Exports,
    RelocationTable,
    PreloadTextFlag,
    LocalVariables,
}

impl ScriptBlockType {
    /// The block type with number `v`; `None` past 10.
    pub fn from_u16(v: u16) -> (t: Option<ScriptBlockType>)
        ensures
            t is Some <==> v <= 10,
            t matches Some(t) ==> t.spec_number() == v,
    {
        match v {
            0 => Some(ScriptBlockType::Terminator),
            1 => Some(ScriptBlockType::Object),
            2 => Some(ScriptBlockType::Code),
            3 => Some(ScriptBlockType::SynonymWordList),
            4 => Some(ScriptBlockType::Said),
            5 => Some(ScriptBlockType::Strings),
            6 => Some(ScriptBlockType::Class),
            7 => Some(ScriptBlockType::Exports),
            8 => Some(ScriptBlockType::RelocationTable),
            9 => Some(ScriptBlockType::PreloadTextFlag),
            10 => Some(ScriptBlockType::LocalVariables),
            _ => None,
        }
    }

    /// The number of this block type.
    pub open spec fn spec_number(self) -> u16 {
        match self {
            ScriptBlockType::Terminator => 0,
            ScriptBlockType::Object => 1,
            ScriptBlockType::Code => 2,
            ScriptBlockType::SynonymWordList => 3,
            ScriptBlockType::Said => 4,
            ScriptBlockType::Strings => 5,
            ScriptBlockType::Class => 6,
            ScriptBlockType::Exports => 7,
            ScriptBlockType::RelocationTable => 8,
            ScriptBlockType::PreloadTextFlag => 9,
            ScriptBlockType::LocalVariables => 10,
        }
    }
}

/// A string of a script's string table.
pub struct StringDefinition {
    /// Where the string starts in the script's data.
    pub offset: usize,
    pub string: String,
}

/// An object or a class of a script.
pub struct ClassDefinition {
    pub script_number: u16,
    /// Where the object's variables start in the script's data.
    pub offset: usize,
    pub species: u16,
    pub super_class: u16,
    pub info: u16,
    pub name: String,
    pub variables: Vec<u16>,
    pub variable_selectors: Vec<u16>,
    /// (selector, code offset) of each method.
    pub function_selectors: Vec<(u16, u16)>,
}

/// The content of a class definition.
pub struct ClassView {
    pub script_number: u16,
    pub offset: int,
    pub species: u16,
    pub super_class: u16,
    pub info: u16,
    pub name: Seq<char>,
    pub variables: Seq<u16>,
    pub variable_selectors: Seq<u16>,
    pub function_selectors: Seq<(u16, u16)>,
}

impl View for ClassDefinition {
    type V = ClassView;

    open spec fn view(&self) -> ClassView {
        ClassView {
            script_number: self.script_number,
            offset: self.offset as int,
            species: self.species,
            super_class: self.super_class,
            info: self.info,
            name: self.name@,
            variables: self.variables@,
            variable_selectors: self.variable_selectors@,
            function_selectors: self.function_selectors@,
        }
    }
}

impl ClassDefinition {
    /// The identifier of the object: its script number over its offset.
    pub fn id(&self) -> (id: usize)
        requires
            self.offset < 0xffff,
        ensures
            id == self.script_number * 65536 + self.offset,
    {
        assert((self.script_number as usize) * 65536 + self.offset <= usize::MAX) by (nonlinear_arith)
            requires
                self.script_number <= 0xffff,
                self.offset < 0xffff,
                usize::MAX >= 0xffffffff,
        ;
        (self.script_number as usize) * 65536 + self.offset
    }
}

/// `n` little-endian 16-bit values from `start` on.
pub open spec fn le_u16s(data: Seq<u8>, start: int, n: int) -> Seq<u16> {
    Seq::new(n as nat, |i: int| le_u16_at(data, start + 2 * i))
}

/// Reads `n` little-endian 16-bit values from `start` on.
fn read_le_u16s(data: &[u8], start: usize, n: usize) -> (v: Vec<u16>)
    requires
        start + 2 * n <= data@.len(),
    ensures
        v@ == le_u16s(data@, start as int, n as int),
{
    let mut v: Vec<u16> = Vec::new();
    let mut i: usize = 0;
    while i < n
        invariant
            i <= n,
            start + 2 * n <= data.len(),
            v@ == le_u16s(data@, start as int, i as int),
        decreases n - i,
    {
        v.push(read_le_u16(data, start + 2 * i));
        i = i + 1;
        assert(v@ =~= le_u16s(data@, start as int, i as int));
    }
    v
}

// ---------------------------------------------------------------------------
// Blocks: a type, a size that counts the 4 header bytes, then the block's data; a
// block of type 0 ends the list.

/// The blocks from byte `idx` on, as (type, start of the block's data, end of it).
pub open spec fn spec_blocks(data: Seq<u8>, idx: int) -> Option<Seq<(u16, int, int)>>
    decreases data.len() - idx,
{
    if idx < 0 || idx + 2 > data.len() || le_u16_at(data, idx) > 10 {
        None
    } else if le_u16_at(data, idx) == 0 {
        Some(Seq::empty())
    } else if idx + 4 > data.len() {
        None
    } else {
        let size = le_u16_at(data, idx + 2) as int;
        if size < 4 || idx + size > data.len() {
            None
        } else {
            match spec_blocks(data, idx + size) {
                Some(rest) => Some(seq![(le_u16_at(data, idx), idx + 4, idx + size)] + rest),
                None => None,
            }
        }
    }
}

/// Reads the list of blocks.
fn read_blocks(data: &[u8]) -> (blocks: Option<Vec<(u16, usize, usize)>>)
    ensures
        match blocks {
            Some(b) => spec_blocks(data@, 0) == Some(
                b@.map_values(|x: (u16, usize, usize)| (x.0, x.1 as int, x.2 as int)),
            ),
            None => spec_blocks(data@, 0) is None,
        },
        blocks matches Some(b) ==> forall|i: int|
            #![trigger b@[i]]
            0 <= i < b@.len() ==> b@[i].1 <= b@[i].2 <= data@.len() && 1 <= b@[i].0 <= 10,
{
    let ghost total = spec_blocks(data@, 0);
    let mut blocks: Vec<(u16, usize, usize)> = Vec::new();
    let mut idx: usize = 0;
    loop
        invariant
            idx <= data@.len(),
            total == spec_blocks(data@, 0),
            match spec_blocks(data@, idx as int) {
                Some(rest) => total == Some(
                    blocks@.map_values(|x: (u16, usize, usize)| (x.0, x.1 as int, x.2 as int)) + rest,
                ),
                None => total is None,
            },
            forall|i: int|
                #![trigger blocks@[i]]
                0 <= i < blocks@.len() ==> blocks@[i].1 <= blocks@[i].2 <= data@.len() && 1
                    <= blocks@[i].0 <= 10,
        decreases data@.len() - idx,
    {
        let ghost before = blocks@.map_values(|x: (u16, usize, usize)| (x.0, x.1 as int, x.2 as int));
        if data.len() - idx < 2 {
            return None;
        }
        let block_type = read_le_u16(data, idx);
        if block_type > 10 {
            return None;
        }
        if block_type == 0 {
            assert(before + Seq::<(u16, int, int)>::empty() =~= before);
            return Some(blocks);
        }
        if data.len() - idx < 4 {
            return None;
        }
        let block_size = read_le_u16(data, idx + 2) as usize;
        if block_size < 4 || block_size > data.len() - idx {
            return None;
        }
        blocks.push((block_type, idx + 4, idx + block_size));
        proof {
            let rest = spec_blocks(data@, idx + block_size);
            if let Some(r) = rest {
                assert(blocks@.map_values(|x: (u16, usize, usize)| (x.0, x.1 as int, x.2 as int))
                    =~= before.push((block_type, idx + 4, idx + block_size)));
                assert(before + (seq![(block_type, idx + 4, idx + block_size)] + r)
                    =~= before.push((block_type, idx + 4, idx + block_size)) + r);
            }
        }
        idx = idx + block_size;
    }
}

// ---------------------------------------------------------------------------
// Block contents.

/// The exports that the block from `bo` to `be` lists: a count, then that many u16s,
/// nothing more.
pub open spec fn spec_exports(data: Seq<u8>, bo: int, be: int) -> Option<Seq<u16>> {
    if be - bo < 2 || be - bo != 2 * le_u16_at(data, bo) + 2 {
        None
    } else {
        Some(le_u16s(data, bo + 2, le_u16_at(data, bo) as int))
    }
}

/// Parses an export block.
pub fn parse_export_block(data: &[u8], block: Option<(usize, usize)>) -> (exports: Option<Vec<u16>>)
    requires
        block matches Some(b) ==> b.0 <= b.1 <= data@.len(),
    ensures
        match block {
            Some(b) => match exports {
                Some(e) => spec_exports(data@, b.0 as int, b.1 as int) == Some(e@),
                None => spec_exports(data@, b.0 as int, b.1 as int) is None,
            },
            None => exports matches Some(e) && e@ == Seq::<u16>::empty(),
        },
        block matches Some(b) && (b.1 - b.0 < 2 || b.1 - b.0 != 2 * le_u16_at(data@, b.0 as int) + 2)
            ==> exports is None,
{
    match block {
        Some((bo, be)) => {
            if be - bo < 2 {
                return None;
            }
            let num_exports = read_le_u16(data, bo) as usize;
            if be - bo != num_exports * 2 + 2 {
                return None;
            }
            Some(read_le_u16s(data, bo + 2, num_exports))
        },
        None => Some(Vec::new()),
    }
}

/// The object or class whose block runs from `bo` to `be`: a magic number 0x1234,
/// a zero, the offset of the method table, the variables (the first four are the
/// species, the super class, the info and the offset of the name), for a class the
/// variable selectors, then the methods.
pub open spec fn spec_class_definition(
    data: Seq<u8>,
    number: u16,
    is_class: bool,
    bo: int,
    be: int,
) -> Option<ClassView> {
    let len = be - bo;
    if len < 8 || le_u16_at(data, bo) != 0x1234 || le_u16_at(data, bo + 2) != 0 {
        None
    } else {
        let fso = le_u16_at(data, bo + 4) as int;
        let nv = le_u16_at(data, bo + 6) as int;
        if 8 + 2 * nv > len || nv < 4 {
            None
        } else {
            let variables = le_u16s(data, bo + 8, nv);
            let name_offset = variables[3] as int;
            match spec_c_string(data, name_offset, data.len() as int) {
                None => None,
                Some(name) => if is_class && 8 + 4 * nv > len {
                    None
                } else if fso + 8 > len {
                    None
                } else {
                    let nf = le_u16_at(data, bo + fso + 6) as int;
                    let fto = fso + 8;
                    let cto = fto + 2 + 2 * nf;
                    if nf > 0 && cto + 2 * nf > len {
                        None
                    } else {
                        Some(
                            ClassView {
                                script_number: number,
                                offset: bo + 8,
                                species: variables[0],
                                super_class: variables[1],
                                info: variables[2],
                                name,
                                variables,
                                variable_selectors: if is_class {
                                    le_u16s(data, bo + 8 + 2 * nv, nv)
                                } else {
                                    Seq::empty()
                                },
                                function_selectors: Seq::new(
                                    nf as nat,
                                    |i: int|
                                        (
                                            le_u16_at(data, bo + fto + 2 * i),
                                            le_u16_at(data, bo + cto + 2 * i),
                                        ),
                                ),
                            },
                        )
                    }
                },
            }
        }
    }
}

/// Parses the object or class whose block runs from `bo` to `be`.
pub fn parse_class_definition(
    data: &[u8],
    number: u16,
    is_class: bool,
    bo: usize,
    be: usize,
) -> (class: Option<ClassDefinition>)
    requires
        bo <= be <= data@.len(),
    ensures
        match class {
            Some(c) => spec_class_definition(data@, number, is_class, bo as int, be as int) == Some(c@),
            None => spec_class_definition(data@, number, is_class, bo as int, be as int) is None,
        },
{
    let len = be - bo;
    if len < 8 || read_le_u16(data, bo) != 0x1234 || read_le_u16(data, bo + 2) != 0 {
        return None;
    }
    let func_selector_offset = read_le_u16(data, bo + 4) as usize;
    let num_variables = read_le_u16(data, bo + 6) as usize;
    if 8 + 2 * num_variables > len || num_variables < 4 {
        return None;
    }
    let variables = read_le_u16s(data, bo + 8, num_variables);
    let species = variables[0];
    let super_class = variables[1];
    let info = variables[2];
    let name_offset = variables[3] as usize;
    let name = match read_c_string(data, name_offset, data.len()) {
        Some((s, _)) => s,
        None => return None,
    };
    let variable_selectors = if is_class {
        if 8 + 4 * num_variables > len {
            return None;
        }
        read_le_u16s(data, bo + 8 + 2 * num_variables, num_variables)
    } else {
        Vec::new()
    };
    if func_selector_offset + 8 > len {
        return None;
    }
    let num_functions = read_le_u16(data, bo + func_selector_offset + 6) as usize;
    let func_table_offset = func_selector_offset + 8;
    let code_table_offset = func_table_offset + 2 + num_functions * 2;
    if num_functions > 0 && code_table_offset + 2 * num_functions > len {
        return None;
    }
    let ghost funcs = Seq::new(
        num_functions as nat,
        |i: int|
            (
                le_u16_at(data@, bo + func_table_offset + 2 * i),
                le_u16_at(data@, bo + code_table_offset + 2 * i),
            ),
    );
    let mut function_selectors: Vec<(u16, u16)> = Vec::new();
    let mut i: usize = 0;
    while i < num_functions
        invariant
            i <= num_functions,
            bo <= be <= data@.len(),
            len == be - bo,
            num_functions > 0 ==> code_table_offset + 2 * num_functions <= len,
            func_table_offset + 2 + 2 * num_functions == code_table_offset,
            funcs == Seq::new(
                num_functions as nat,
                |i: int|
                    (
                        le_u16_at(data@, bo + func_table_offset + 2 * i),
                        le_u16_at(data@, bo + code_table_offset + 2 * i),
                    ),
            ),
            function_selectors@ == funcs.subrange(0, i as int),
        decreases num_functions - i,
    {
        let index = i * 2;
        let selector = read_le_u16(data, bo + func_table_offset + index);
        let code_offset = read_le_u16(data, bo + code_table_offset + index);
        function_selectors.push((selector, code_offset));
        i = i + 1;
        assert(function_selectors@ =~= funcs.subrange(0, i as int));
    }
    assert(function_selectors@ =~= funcs);
    Some(
        ClassDefinition {
            script_number: number,
            offset: bo + 8,
            species,
            super_class,
            info,
            name,
            variables,
            variable_selectors,
            function_selectors,
        },
    )
}

} // verus!

verus! {

// ---------------------------------------------------------------------------
// Strings, local variables and the checks on the other blocks.

/// The strings of the string block that ends at `be`, from `pos` on: each ends at a
/// nul byte inside the block and is UTF-8; each is listed with its offset.
pub open spec fn spec_strings(data: Seq<u8>, pos: int, be: int) -> Option<Seq<(int, Seq<char>)>>
    decreases be - pos,
{
    if pos >= be {
        Some(Seq::empty())
    } else {
        match (spec_c_string(data, pos, be), nul_at(data, pos, be)) {
            (Some(s), Some(j)) => {
                proof {
                    crate::text::lemma_nul_at_bounds(data, pos, be);
                }
                match spec_strings(data, j + 1, be) {
                    Some(rest) => Some(seq![(pos, s)] + rest),
                    None => None,
                }
            },
            _ => None,
        }
    }
}

/// The view of a string definition: its offset and its characters.
pub open spec fn string_view(s: StringDefinition) -> (int, Seq<char>) {
    (s.offset as int, s.string@)
}

/// Parses the strings of the block from `bo` to `be` and appends them to `strings`.
fn parse_strings(data: &[u8], bo: usize, be: usize, strings: &mut Vec<StringDefinition>) -> (ok: bool)
    requires
        bo <= be <= data@.len(),
    ensures
        ok <==> spec_strings(data@, bo as int, be as int) is Some,
        ok ==> final(strings)@.map_values(|s: StringDefinition| string_view(s)) == old(
            strings,
        )@.map_values(|s: StringDefinition| string_view(s)) + spec_strings(
            data@,
            bo as int,
            be as int,
        ).unwrap(),
{
    let ghost start = strings@.map_values(|s: StringDefinition| string_view(s));
    let mut index = bo;
    while index < be
        invariant
            bo <= index,
            be <= data@.len(),
            spec_strings(data@, bo as int, be as int) is Some <==> spec_strings(
                data@,
                index as int,
                be as int,
            ) is Some,
            spec_strings(data@, index as int, be as int) is Some ==> spec_strings(
                data@,
                bo as int,
                be as int,
            ).unwrap() == strings@.map_values(|s: StringDefinition| string_view(s)).subrange(
                start.len() as int,
                strings@.len() as int,
            ) + spec_strings(data@, index as int, be as int).unwrap(),
            start.len() <= strings@.len(),
            strings@.map_values(|s: StringDefinition| string_view(s)).subrange(
                0,
                start.len() as int,
            ) == start,
        decreases be - index,
    {
        let ghost before = strings@.map_values(|s: StringDefinition| string_view(s));
        let (string, n) = match read_c_string(data, index, be) {
            Some(r) => r,
            None => return false,
        };
        proof {
            crate::text::lemma_nul_at_bounds(data@, index as int, be as int);
        }
        strings.push(StringDefinition { offset: index, string });
        proof {
            let after = strings@.map_values(|s: StringDefinition| string_view(s));
            assert(after =~= before.push((index as int, spec_c_string(data@, index as int, be as int).unwrap())));
            assert(after.subrange(0, start.len() as int) =~= before.subrange(0, start.len() as int));
            let rest = spec_strings(data@, index + n + 1, be as int);
            if rest is Some {
                assert(after.subrange(start.len() as int, after.len() as int)
                    =~= before.subrange(start.len() as int, before.len() as int).push(
                    (index as int, spec_c_string(data@, index as int, be as int).unwrap())));
                assert(before.subrange(start.len() as int, before.len() as int) + (seq![
                    (index as int, spec_c_string(data@, index as int, be as int).unwrap())] + rest.unwrap())
                    =~= after.subrange(start.len() as int, after.len() as int) + rest.unwrap());
            }
        }
        index = index + n + 1;
    }
    proof {
        let after = strings@.map_values(|s: StringDefinition| string_view(s));
        assert(after =~= after.subrange(0, start.len() as int) + after.subrange(start.len() as int, after.len() as int));
        assert(after.subrange(start.len() as int, after.len() as int) + Seq::<(int, Seq<char>)>::empty()
            =~= after.subrange(start.len() as int, after.len() as int));
    }
    true
}

} // verus!

verus! {

/// The local variables that a block from `bo` to `be` holds: its 16-bit words, of
/// which it must hold a whole number.
pub open spec fn spec_local_variables(data: Seq<u8>, bo: int, be: int) -> Option<Seq<u16>> {
    if (be - bo) % 2 != 0 {
        None
    } else {
        Some(le_u16s(data, bo, (be - bo) / 2))
    }
}

/// What the blocks of a script give, as they are read in order.
pub struct ScriptContents {
    pub classes: Seq<ClassView>,
    pub objects: Seq<ClassView>,
    pub strings: Seq<(int, Seq<char>)>,
    pub variables: Seq<u16>,
}

/// The contents after the block of type `t` from `bo` to `be` is read. A synonym
/// word list is not supported; a relocation table must hold its count and that many
/// words; a pre-load text flag must be empty. Code, said specs and exports add
/// nothing here.
pub open spec fn spec_block_step(
    data: Seq<u8>,
    number: u16,
    acc: ScriptContents,
    t: u16,
    bo: int,
    be: int,
) -> Option<ScriptContents> {
    if t == 1 || t == 6 {
        match spec_class_definition(data, number, t == 6, bo, be) {
            Some(c) => if t == 1 {
                Some(ScriptContents { objects: acc.objects.push(c), ..acc })
            } else {
                Some(ScriptContents { classes: acc.classes.push(c), ..acc })
            },
            None => None,
        }
    } else if t == 3 {
        None
    } else if t == 5 {
        match spec_strings(data, bo, be) {
            Some(s) => Some(ScriptContents { strings: acc.strings + s, ..acc }),
            None => None,
        }
    } else if t == 8 {
        if be - bo < 2 || 2 * le_u16_at(data, bo) + 2 != be - bo {
            None
        } else {
            Some(acc)
        }
    } else if t == 9 {
        if bo != be {
            None
        } else {
            Some(acc)
        }
    } else if t == 10 {
        match spec_local_variables(data, bo, be) {
            Some(v) => Some(ScriptContents { variables: v, ..acc }),
            None => None,
        }
    } else {
        Some(acc)
    }
}

/// The contents after the first `n` blocks are read.
pub open spec fn spec_blocks_fold(
    data: Seq<u8>,
    number: u16,
    blocks: Seq<(u16, int, int)>,
    n: int,
) -> Option<ScriptContents>
    decreases n,
{
    if n <= 0 {
        Some(
            ScriptContents {
                classes: Seq::empty(),
                objects: Seq::empty(),
                strings: Seq::empty(),
                variables: Seq::empty(),
            },
        )
    } else {
        match spec_blocks_fold(data, number, blocks, n - 1) {
            Some(acc) => spec_block_step(
                data,
                number,
                acc,
                blocks[n - 1].0,
                blocks[n - 1].1,
                blocks[n - 1].2,
            ),
            None => None,
        }
    }
}

proof fn lemma_fold_fails_on(data: Seq<u8>, number: u16, blocks: Seq<(u16, int, int)>, i: int, n: int)
    requires
        0 <= i <= n,
        spec_blocks_fold(data, number, blocks, i) is None,
    ensures
        spec_blocks_fold(data, number, blocks, n) is None,
    decreases n - i,
{
    if i < n {
        lemma_fold_fails_on(data, number, blocks, i, n - 1);
    }
}

/// The data and end of the first block of type `t` from the `i`-th block on.
pub open spec fn first_block_of_type(blocks: Seq<(u16, int, int)>, t: u16, i: int) -> Option<(int, int)>
    decreases blocks.len() - i,
{
    if i < 0 || i >= blocks.len() {
        None
    } else if blocks[i].0 == t {
        Some((blocks[i].1, blocks[i].2))
    } else {
        first_block_of_type(blocks, t, i + 1)
    }
}

/// A parsed script.
pub struct Script {
    pub number: u16,
    pub exports: Vec<u16>,
    pub variables: Vec<u16>,
    pub classes: Vec<ClassDefinition>,
    pub objects: Vec<ClassDefinition>,
    pub strings: Vec<StringDefinition>,
    pub main_object_offset: Option<usize>,
    pub data: Vec<u8>,
}

/// The content of a script.
pub struct ScriptView {
    pub number: u16,
    pub exports: Seq<u16>,
    pub variables: Seq<u16>,
    pub classes: Seq<ClassView>,
    pub objects: Seq<ClassView>,
    pub strings: Seq<(int, Seq<char>)>,
    pub main_object_offset: Option<int>,
    pub data: Seq<u8>,
}

/// The views of a list of class definitions.
pub open spec fn class_views(v: Seq<ClassDefinition>) -> Seq<ClassView> {
    v.map_values(|c: ClassDefinition| c@)
}

/// The views of a list of string definitions.
pub open spec fn string_views(v: Seq<StringDefinition>) -> Seq<(int, Seq<char>)> {
    v.map_values(|s: StringDefinition| string_view(s))
}

impl View for Script {
    type V = ScriptView;

    open spec fn view(&self) -> ScriptView {
        ScriptView {
            number: self.number,
            exports: self.exports@,
            variables: self.variables@,
            classes: class_views(self.classes@),
            objects: class_views(self.objects@),
            strings: string_views(self.strings@),
            main_object_offset: match self.main_object_offset {
                Some(o) => Some(o as int),
                None => None,
            },
            data: self.data@,
        }
    }
}

/// The script that resource `number` with data `data` holds. Its exports come from
/// its first export block (none without one); script 0 must export its main
/// object, at the offset of its first export.
pub open spec fn spec_script(number: u16, data: Seq<u8>) -> Option<ScriptView> {
    match spec_blocks(data, 0) {
        None => None,
        Some(blocks) => {
            let exports = match first_block_of_type(blocks, 7, 0) {
                Some((bo, be)) => spec_exports(data, bo, be),
                None => Some(Seq::empty()),
            };
            match (exports, spec_blocks_fold(data, number, blocks, blocks.len() as int)) {
                (Some(exports), Some(acc)) => if number == 0 && exports.len() == 0 {
                    None
                } else {
                    Some(
                        ScriptView {
                            number,
                            exports,
                            variables: acc.variables,
                            classes: acc.classes,
                            objects: acc.objects,
                            strings: acc.strings,
                            main_object_offset: if number == 0 {
                                Some(exports[0] as int)
                            } else {
                                None
                            },
                            data,
                        },
                    )
                },
                _ => None,
            }
        },
    }
}

/// Whether a block of type `t` with data from `bo` to `be` is refused whatever
/// comes before it: a synonym word list, a relocation table whose length is not
/// its count's, or a pre-load text flag with data.
pub open spec fn block_refused(data: Seq<u8>, t: u16, bo: int, be: int) -> bool {
    t == 3 || (t == 8 && (be - bo < 2 || 2 * le_u16_at(data, bo) + 2 != be - bo)) || (t == 9 && bo != be)
}

proof fn lemma_refused_block_fails(data: Seq<u8>, number: u16, blocks: Seq<(u16, int, int)>, i: int)
    requires
        0 <= i < blocks.len(),
        block_refused(data, blocks[i].0, blocks[i].1, blocks[i].2),
    ensures
        spec_blocks_fold(data, number, blocks, blocks.len() as int) is None,
{
    assert(spec_blocks_fold(data, number, blocks, i + 1) is None);
    lemma_fold_fails_on(data, number, blocks, i + 1, blocks.len() as int);
}

/// The first block of type `t`, as its data's start and end.
fn find_first_block(blocks: &Vec<(u16, usize, usize)>, t: u16) -> (found: Option<(usize, usize)>)
    ensures
        match found {
            Some((bo, be)) => first_block_of_type(
                blocks@.map_values(|x: (u16, usize, usize)| (x.0, x.1 as int, x.2 as int)),
                t,
                0,
            ) == Some((bo as int, be as int)),
            None => first_block_of_type(
                blocks@.map_values(|x: (u16, usize, usize)| (x.0, x.1 as int, x.2 as int)),
                t,
                0,
            ) is None,
        },
        found matches Some((bo, be)) ==> exists|k: int|
            0 <= k < blocks@.len() && #[trigger] blocks@[k] == (t, bo, be),
{
    let ghost bs = blocks@.map_values(|x: (u16, usize, usize)| (x.0, x.1 as int, x.2 as int));
    let mut i: usize = 0;
    while i < blocks.len()
        invariant
            i <= blocks@.len(),
            bs == blocks@.map_values(|x: (u16, usize, usize)| (x.0, x.1 as int, x.2 as int)),
            first_block_of_type(bs, t, 0) == first_block_of_type(bs, t, i as int),
        decreases blocks@.len() - i,
    {
        let (bt, bo, be) = blocks[i];
        if bt == t {
            return Some((bo, be));
        }
        i = i + 1;
    }
    None
}

impl Script {
    /// Parses the script that a script resource holds; `None` where its blocks are
    /// malformed or of a kind that is not supported.
    pub fn load(resource: &Resource) -> (script: Option<Script>)
        ensures
            match script {
                Some(s) => spec_script(resource.resource_number, resource.resource_data@) == Some(
                    s@,
                ),
                None => spec_script(resource.resource_number, resource.resource_data@) is None,
            },
            spec_blocks(resource.resource_data@, 0) is None ==> script is None,
            spec_blocks(resource.resource_data@, 0) matches Some(blocks) && (exists|i: int|
                0 <= i < blocks.len() && #[trigger] block_refused(
                    resource.resource_data@,
                    blocks[i].0,
                    blocks[i].1,
                    blocks[i].2,
                )) ==> script is None,
    {
        proof {
            if let Some(blocks) = spec_blocks(resource.resource_data@, 0) {
                if exists|i: int|
                    0 <= i < blocks.len() && #[trigger] block_refused(
                        resource.resource_data@,
                        blocks[i].0,
                        blocks[i].1,
                        blocks[i].2,
                    ) {
                    let i = choose|i: int|
                        0 <= i < blocks.len() && #[trigger] block_refused(
                            resource.resource_data@,
                            blocks[i].0,
                            blocks[i].1,
                            blocks[i].2,
                        );
                    lemma_refused_block_fails(resource.resource_data@, resource.resource_number, blocks, i);
                }
            }
        }
        let number = resource.resource_number;
        let data = resource.resource_data.clone();
        let d = data.as_slice();
        assert(d@ == resource.resource_data@);
        let blocks = match read_blocks(d) {
            Some(b) => b,
            None => return None,
        };
        let ghost bs = blocks@.map_values(|x: (u16, usize, usize)| (x.0, x.1 as int, x.2 as int));
        let export_block = find_first_block(&blocks, 7);
        proof {
            if let Some((bo, be)) = export_block {
                let k = choose|k: int| 0 <= k < blocks@.len() && #[trigger] blocks@[k] == (7u16, bo, be);
                assert(blocks@[k].1 <= blocks@[k].2 <= d@.len());
            }
        }
        let exports = parse_export_block(d, export_block);
        let exports = match exports {
            Some(e) => e,
            None => return None,
        };
        let mut classes: Vec<ClassDefinition> = Vec::new();
        let mut objects: Vec<ClassDefinition> = Vec::new();
        let mut strings: Vec<StringDefinition> = Vec::new();
        let mut variables: Vec<u16> = Vec::new();
        let mut i: usize = 0;
        assert(class_views(classes@) =~= Seq::<ClassView>::empty());
        assert(class_views(objects@) =~= Seq::<ClassView>::empty());
        assert(string_views(strings@) =~= Seq::<(int, Seq<char>)>::empty());
        while i < blocks.len()
            invariant
                i <= blocks@.len(),
                d@ == resource.resource_data@,
                number == resource.resource_number,
                bs == blocks@.map_values(|x: (u16, usize, usize)| (x.0, x.1 as int, x.2 as int)),
                spec_blocks(d@, 0) == Some(bs),
                forall|k: int| 0 <= k < blocks@.len() ==> #[trigger] blocks@[k].1 <= blocks@[k].2
                    <= d@.len() && 1 <= blocks@[k].0 <= 10,
                spec_blocks_fold(d@, number, bs, i as int) == Some(
                    ScriptContents {
                        classes: class_views(classes@),
                        objects: class_views(objects@),
                        strings: string_views(strings@),
                        variables: variables@,
                    },
                ),
            decreases blocks@.len() - i,
        {
            let (t, bo, be) = blocks[i];
            let ghost acc = spec_blocks_fold(d@, number, bs, i as int).unwrap();
            assert(bs[i as int] == (t, bo as int, be as int));
            if t == 1 || t == 6 {
                match parse_class_definition(d, number, t == 6, bo, be) {
                    Some(c) => {
                        if t == 1 {
                            objects.push(c);
                            assert(class_views(objects@) =~= acc.objects.push(c@));
                        } else {
                            classes.push(c);
                            assert(class_views(classes@) =~= acc.classes.push(c@));
                        }
                    },
                    None => {
                        proof {
                            lemma_fold_fails_on(d@, number, bs, i + 1, bs.len() as int);
                        }
                        return None;
                    },
                }
            } else if t == 3 {
                proof {
                    lemma_fold_fails_on(d@, number, bs, i + 1, bs.len() as int);
                }
                return None;
            } else if t == 5 {
                if !parse_strings(d, bo, be, &mut strings) {
                    proof {
                        lemma_fold_fails_on(d@, number, bs, i + 1, bs.len() as int);
                    }
                    return None;
                }
            } else if t == 8 {
                if be - bo < 2 || 2 * (read_le_u16(d, bo) as usize) + 2 != be - bo {
                    proof {
                        lemma_fold_fails_on(d@, number, bs, i + 1, bs.len() as int);
                    }
                    return None;
                }
            } else if t == 9 {
                if bo != be {
                    proof {
                        lemma_fold_fails_on(d@, number, bs, i + 1, bs.len() as int);
                    }
                    return None;
                }
            } else if t == 10 {
                if (be - bo) % 2 != 0 {
                    proof {
                        lemma_fold_fails_on(d@, number, bs, i + 1, bs.len() as int);
                    }
                    return None;
                }
                variables = read_le_u16s(d, bo, (be - bo) / 2);
            }
            i = i + 1;
        }
        if number == 0 && exports.len() == 0 {
            return None;
        }
        let main_object_offset = if number == 0 {
            Some(exports[0] as usize)
        } else {
            None
        };
        Some(
            Script {
                number,
                exports,
                variables,
                classes,
                objects,
                strings,
                main_object_offset,
                data,
            },
        )
    }
}

/// The position of the first object at `offset`, if any.
fn find_object(objects: &Vec<ClassDefinition>, offset: usize) -> (k: Option<usize>)
    ensures
        match k {
            Some(k) => k < objects@.len() && objects@[k as int].offset == offset && forall|j: int|
                0 <= j < k ==> #[trigger] objects@[j].offset != offset,
            None => forall|j: int| 0 <= j < objects@.len() ==> #[trigger] objects@[j].offset != offset,
        },
{
    let mut i: usize = 0;
    while i < objects.len()
        invariant
            i <= objects@.len(),
            forall|j: int| 0 <= j < i ==> #[trigger] objects@[j].offset != offset,
        decreases objects@.len() - i,
    {
        if objects[i].offset == offset {
            return Some(i);
        }
        i = i + 1;
    }
    None
}

impl Script {
    /// The main object of script 0, which its first export locates.
    pub fn get_main_object(&self) -> (object: &ClassDefinition)
        requires
            self.main_object_offset is Some,
            exists|j: int|
                0 <= j < self.objects@.len() && #[trigger] self.objects@[j].offset
                    == self.main_object_offset.unwrap(),
        ensures
            exists|k: int|
                0 <= k < self.objects@.len() && *object == #[trigger] self.objects@[k]
                    && object.offset == self.main_object_offset.unwrap() && forall|j: int|
                    0 <= j < k ==> #[trigger] self.objects@[j].offset != object.offset,
    {
        let offset = match self.main_object_offset {
            Some(o) => o,
            None => 0,
        };
        self.get_object(offset)
    }

    /// The first class of the given species.
    pub fn get_class(&self, species: u16) -> (class: &ClassDefinition)
        requires
            exists|j: int| 0 <= j < self.classes@.len() && #[trigger] self.classes@[j].species == species,
        ensures
            exists|k: int|
                0 <= k < self.classes@.len() && *class == #[trigger] self.classes@[k] && class.species
                    == species && forall|j: int|
                    0 <= j < k ==> #[trigger] self.classes@[j].species != species,
    {
        let mut i: usize = 0;
        while i < self.classes.len()
            invariant
                i <= self.classes@.len(),
                forall|j: int| 0 <= j < i ==> #[trigger] self.classes@[j].species != species,
                exists|j: int| 0 <= j < self.classes@.len() && #[trigger] self.classes@[j].species == species,
            decreases self.classes@.len() - i,
        {
            if self.classes[i].species == species {
                return &self.classes[i];
            }
            i = i + 1;
        }
        proof {
            let j = choose|j: int| 0 <= j < self.classes@.len() && #[trigger] self.classes@[j].species == species;
            assert(self.classes@[j].species != species);
        }
        &self.classes[0]
    }

    /// The first object at the given offset.
    pub fn get_object(&self, offset: usize) -> (object: &ClassDefinition)
        requires
            exists|j: int| 0 <= j < self.objects@.len() && #[trigger] self.objects@[j].offset == offset,
        ensures
            exists|k: int|
                0 <= k < self.objects@.len() && *object == #[trigger] self.objects@[k] && object.offset
                    == offset && forall|j: int|
                    0 <= j < k ==> #[trigger] self.objects@[j].offset != offset,
    {
        match find_object(&self.objects, offset) {
            Some(k) => &self.objects[k],
            None => {
                proof {
                    let j = choose|j: int| 0 <= j < self.objects@.len() && #[trigger] self.objects@[j].offset == offset;
                    assert(self.objects@[j].offset != offset);
                }
                &self.objects[0]
            },
        }
    }

    /// The first string at the given offset, if any.
    pub fn get_string_by_offset(&self, offset: usize) -> (string: Option<&StringDefinition>)
        ensures
            match string {
                Some(s) => exists|k: int|
                    0 <= k < self.strings@.len() && *s == #[trigger] self.strings@[k] && s.offset == offset
                        && forall|j: int| 0 <= j < k ==> #[trigger] self.strings@[j].offset != offset,
                None => forall|j: int|
                    0 <= j < self.strings@.len() ==> #[trigger] self.strings@[j].offset != offset,
            },
    {
        let mut i: usize = 0;
        while i < self.strings.len()
            invariant
                i <= self.strings@.len(),
                forall|j: int| 0 <= j < i ==> #[trigger] self.strings@[j].offset != offset,
            decreases self.strings@.len() - i,
        {
            if self.strings[i].offset == offset {
                return Some(&self.strings[i]);
            }
            i = i + 1;
        }
        None
    }

    /// The first object at the given offset, if any.
    pub fn get_object_by_offset(&self, offset: usize) -> (object: Option<&ClassDefinition>)
        ensures
            match object {
                Some(o) => exists|k: int|
                    0 <= k < self.objects@.len() && *o == #[trigger] self.objects@[k] && o.offset == offset
                        && forall|j: int| 0 <= j < k ==> #[trigger] self.objects@[j].offset != offset,
                None => forall|j: int|
                    0 <= j < self.objects@.len() ==> #[trigger] self.objects@[j].offset != offset,
            },
    {
        match find_object(&self.objects, offset) {
            Some(k) => Some(&self.objects[k]),
            None => None,
        }
    }
}

} // verus!
