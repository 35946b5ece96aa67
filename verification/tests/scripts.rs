use sci::resource::{Resource, ResourceType};
use sci::script::{parse_export_block, Script, ScriptBlockType};

fn w(v: u16) -> [u8; 2] {
    v.to_le_bytes()
}

fn block(t: u16, data: &[u8]) -> Vec<u8> {
    let mut b = w(t).to_vec();
    b.extend_from_slice(&w((data.len() + 4) as u16));
    b.extend_from_slice(data);
    b
}

fn words(ws: &[u16]) -> Vec<u8> {
    ws.iter().flat_map(|v| v.to_le_bytes()).collect()
}

/// Script 0: exports its object at 20, which answers selector 0x20 at 0x40.
fn main_script() -> Resource {
    let mut d = block(7, &words(&[1, 20]));
    d.extend(block(1, &words(&[0x1234, 0, 10, 4, 5, 0xffff, 0, 40, 1, 0x20, 0, 0x40])));
    d.extend(block(5, b"obj\0"));
    d.extend(block(10, &words(&[3, 0xffff])));
    d.extend(w(0));
    Resource { resource_type: ResourceType::Script, resource_number: 0, resource_data: d }
}

/// Script 1: a class of species 7 with four property selectors.
fn class_script() -> Resource {
    let mut d = block(6, &words(&[0x1234, 0, 18, 4, 7, 0xffff, 0x8000, 34, 0x10, 0x11, 0x12, 0x13, 0]));
    d.extend(block(5, b"cls\0"));
    d.extend(w(0));
    Resource { resource_type: ResourceType::Script, resource_number: 1, resource_data: d }
}

#[test]
fn script_block_types() {
    assert_eq!(ScriptBlockType::from_u16(7), Some(ScriptBlockType::Exports));
    assert_eq!(ScriptBlockType::from_u16(11), None);
}

#[test]
fn script_loads_exports_objects_strings_and_variables() {
    let s = Script::load(&main_script()).unwrap();
    assert_eq!(s.number, 0);
    assert_eq!(s.exports, vec![20]);
    assert_eq!(s.main_object_offset, Some(20));
    assert_eq!(s.variables, vec![3, 0xffff]);
    assert_eq!(s.objects.len(), 1);
    assert_eq!(s.classes.len(), 0);
    let o = &s.objects[0];
    assert_eq!(o.offset, 20);
    assert_eq!(o.species, 5);
    assert_eq!(o.super_class, 0xffff);
    assert_eq!(o.name, "obj");
    assert_eq!(o.variables, vec![5, 0xffff, 0, 40]);
    assert!(o.variable_selectors.is_empty());
    assert_eq!(o.function_selectors, vec![(0x20, 0x40)]);
    assert_eq!(o.id(), 20);
    assert_eq!(s.strings.len(), 1);
    assert_eq!(s.strings[0].offset, 40);
    assert_eq!(s.strings[0].string, "obj");
}

#[test]
fn script_lookups_by_offset() {
    let s = Script::load(&main_script()).unwrap();
    assert_eq!(s.get_main_object().species, 5);
    assert_eq!(s.get_object(20).name, "obj");
    assert!(s.get_object_by_offset(20).is_some());
    assert!(s.get_object_by_offset(21).is_none());
    assert_eq!(s.get_string_by_offset(40).unwrap().string, "obj");
    assert!(s.get_string_by_offset(41).is_none());
}

#[test]
fn class_block_lists_property_selectors() {
    let s = Script::load(&class_script()).unwrap();
    assert_eq!(s.main_object_offset, None);
    assert!(s.exports.is_empty());
    let c = s.get_class(7);
    assert_eq!(c.name, "cls");
    assert_eq!(c.info, 0x8000);
    assert_eq!(c.offset, 12);
    assert_eq!(c.variable_selectors, vec![0x10, 0x11, 0x12, 0x13]);
    assert!(c.function_selectors.is_empty());
    assert_eq!(c.id(), (1 << 16) | 12);
}

#[test]
fn synonym_word_list_is_not_supported() {
    let mut d = block(3, &[0, 0]);
    d.extend(w(0));
    let r = Resource { resource_type: ResourceType::Script, resource_number: 2, resource_data: d };
    assert!(Script::load(&r).is_none());
}

#[test]
fn local_variables_of_odd_length_are_refused() {
    let mut d = block(10, &[1, 2, 3]);
    d.extend(w(0));
    let r = Resource { resource_type: ResourceType::Script, resource_number: 2, resource_data: d };
    assert!(Script::load(&r).is_none());
}

#[test]
fn script_zero_needs_an_export() {
    let d = w(0).to_vec();
    let r = Resource { resource_type: ResourceType::Script, resource_number: 0, resource_data: d };
    assert!(Script::load(&r).is_none());
    let d = w(0).to_vec();
    let r = Resource { resource_type: ResourceType::Script, resource_number: 3, resource_data: d };
    assert!(Script::load(&r).is_some());
}

#[test]
fn export_block_parses_count_and_entries() {
    let data = words(&[2, 10, 20]);
    assert_eq!(parse_export_block(&data, Some((0, 6))), Some(vec![10, 20]));
    assert_eq!(parse_export_block(&data, Some((0, 4))), None);
    assert_eq!(parse_export_block(&data, None), Some(vec![]));
}
