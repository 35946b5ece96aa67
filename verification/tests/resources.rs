use sci::resource::{
    get_resource, get_resource_key, load_resource, parse_resource_id, parse_resource_map,
    ResourceMapEntry, ResourceType,
};
use sci::resource::decompress::{huffman_decode, CompressionType};
use sci::{Game, LoadError};
use std::collections::HashMap;

fn map_record(id: u16, file: u8, offset: u32) -> Vec<u8> {
    let value: u32 = ((file as u32) << 26) | offset;
    let mut r = id.to_le_bytes().to_vec();
    r.extend_from_slice(&value.to_le_bytes());
    r
}

fn end_record() -> Vec<u8> {
    vec![0xff; 6]
}

fn resource_bytes(id: u16, method: u16, decomp: u16, data: &[u8]) -> Vec<u8> {
    let mut r = id.to_le_bytes().to_vec();
    r.extend_from_slice(&((data.len() + 4) as u16).to_le_bytes());
    r.extend_from_slice(&decomp.to_le_bytes());
    r.extend_from_slice(&method.to_le_bytes());
    r.extend_from_slice(data);
    r
}

#[test]
fn resource_key_packs_type_over_number() {
    assert_eq!(get_resource_key(ResourceType::Script, 0), 0x1000);
    assert_eq!(get_resource_key(ResourceType::Vocab, 997), (6 << 11) | 997);
    assert_eq!(get_resource_key(ResourceType::View, 5), 5);
}

#[test]
fn resource_id_round_trips_through_key() {
    let (t, n) = parse_resource_id(0x1003);
    assert_eq!(t, ResourceType::Script);
    assert_eq!(n, 3);
    let key = get_resource_key(ResourceType::Pic, 2047);
    assert_eq!(parse_resource_id(key), (ResourceType::Pic, 2047));
}

#[test]
fn resource_type_numbers() {
    assert_eq!(ResourceType::from_u16(6), Some(ResourceType::Vocab));
    assert_eq!(ResourceType::from_u16(12), None);
    assert_eq!(ResourceType::Palette.to_u16(), 11);
}

#[test]
fn resource_map_reads_records_until_end_marker() {
    let mut buf = map_record(0x0805, 0, 0);
    buf.extend(map_record(0x1000, 3, 100));
    buf.extend(end_record());
    let map = parse_resource_map(&buf).unwrap();
    assert_eq!(map.len(), 2);
    let pic = map.get(&0x0805).unwrap();
    assert_eq!(pic.resource_type, ResourceType::Pic);
    assert_eq!(pic.resource_number, 5);
    assert_eq!(pic.resource_file_number, 0);
    assert_eq!(pic.resource_file_offset, 0);
    let script = map.get(&0x1000).unwrap();
    assert_eq!(script.resource_type, ResourceType::Script);
    assert_eq!(script.resource_number, 0);
    assert_eq!(script.resource_file_number, 3);
    assert_eq!(script.resource_file_offset, 100);
}

#[test]
fn resource_map_later_record_replaces_earlier() {
    let mut buf = map_record(0x0805, 0, 10);
    buf.extend(map_record(0x0805, 1, 20));
    buf.extend(end_record());
    let map = parse_resource_map(&buf).unwrap();
    assert_eq!(map.len(), 1);
    assert_eq!(map.get(&0x0805).unwrap().resource_file_offset, 20);
}

#[test]
fn resource_map_without_end_marker_is_refused() {
    let buf = map_record(0x0805, 0, 0);
    assert!(parse_resource_map(&buf).is_none());
}

#[test]
fn resource_map_with_unknown_type_is_refused() {
    let mut buf = map_record(12 << 11, 0, 0);
    buf.extend(end_record());
    assert!(parse_resource_map(&buf).is_none());
}

#[test]
fn uncompressed_resource_loads() {
    let file = resource_bytes(0x0805, 0, 3, &[7, 8, 9]);
    let entry = ResourceMapEntry {
        resource_type: ResourceType::Pic,
        resource_number: 5,
        resource_file_number: 0,
        resource_file_offset: 0,
    };
    let r = load_resource(&file, &entry).unwrap();
    assert_eq!(r.resource_type, ResourceType::Pic);
    assert_eq!(r.resource_number, 5);
    assert_eq!(r.resource_data, vec![7, 8, 9]);
}

#[test]
fn lzw_resource_loads_as_zeros() {
    let file = resource_bytes(0x0805, 1, 4, &[1, 2]);
    let entry = ResourceMapEntry {
        resource_type: ResourceType::Pic,
        resource_number: 5,
        resource_file_number: 0,
        resource_file_offset: 0,
    };
    assert_eq!(load_resource(&file, &entry).unwrap().resource_data, vec![0, 0, 0, 0]);
}

#[test]
fn resource_with_other_identifier_is_refused() {
    let file = resource_bytes(0x0806, 0, 3, &[7, 8, 9]);
    let entry = ResourceMapEntry {
        resource_type: ResourceType::Pic,
        resource_number: 5,
        resource_file_number: 0,
        resource_file_offset: 0,
    };
    assert!(load_resource(&file, &entry).is_none());
}

#[test]
fn resource_of_wrong_size_is_refused() {
    let file = resource_bytes(0x0805, 0, 4, &[7, 8, 9]);
    let entry = ResourceMapEntry {
        resource_type: ResourceType::Pic,
        resource_number: 5,
        resource_file_number: 0,
        resource_file_offset: 0,
    };
    assert!(load_resource(&file, &entry).is_none());
}

#[test]
fn huffman_stream_decodes_leaves_and_literals() {
    let data = [2u8, 0xaa, 0x00, 0x10, 0x78, 0x00, 0x50, 0x75, 0x40];
    assert_eq!(huffman_decode(&data), Some(vec![0x78, 0x41]));
}

#[test]
fn huffman_stream_cut_short_is_refused() {
    let data = [2u8, 0xaa, 0x00, 0x10, 0x78, 0x00, 0x50];
    assert_eq!(huffman_decode(&data), None);
}

#[test]
fn compression_types() {
    assert_eq!(CompressionType::from_u16(0), Some(CompressionType::Uncompressed));
    assert_eq!(CompressionType::from_u16(2), Some(CompressionType::Huffman));
    assert_eq!(CompressionType::from_u16(3), None);
}

#[test]
fn huffman_resource_loads() {
    let compressed = [2u8, 0xaa, 0x00, 0x10, 0x78, 0x00, 0x50, 0x75, 0x40];
    let file = resource_bytes(0x0805, 2, 2, &compressed);
    let entry = ResourceMapEntry {
        resource_type: ResourceType::Pic,
        resource_number: 5,
        resource_file_number: 0,
        resource_file_offset: 0,
    };
    assert_eq!(load_resource(&file, &entry).unwrap().resource_data, vec![0x78, 0x41]);
}

#[test]
fn game_loads_every_mapped_resource() {
    let mut buf = map_record(0x0805, 0, 0);
    buf.extend(map_record(0x1000, 0, 11));
    buf.extend(end_record());
    let map = parse_resource_map(&buf).unwrap();
    let mut file = resource_bytes(0x0805, 0, 3, &[7, 8, 9]);
    file.extend(resource_bytes(0x1000, 0, 1, &[5]));
    let mut files = HashMap::new();
    files.insert(0u8, file);
    let game = Game::load(&map, &files).ok().unwrap();
    assert_eq!(game.resources.len(), 2);
    let pic = get_resource(&game.resources, ResourceType::Pic, 5).unwrap();
    assert_eq!(pic.resource_data, vec![7, 8, 9]);
    let script = get_resource(&game.resources, ResourceType::Script, 0).unwrap();
    assert_eq!(script.resource_data, vec![5]);
    assert!(get_resource(&game.resources, ResourceType::View, 5).is_none());
}

#[test]
fn game_load_reports_missing_file() {
    let mut buf = map_record(0x0805, 2, 0);
    buf.extend(end_record());
    let map = parse_resource_map(&buf).unwrap();
    let files = HashMap::new();
    assert_eq!(Game::load(&map, &files).err(), Some(LoadError::MissingFile(2)));
}

#[test]
fn game_load_reports_malformed_resource() {
    let mut buf = map_record(0x0805, 0, 0);
    buf.extend(end_record());
    let map = parse_resource_map(&buf).unwrap();
    let mut files = HashMap::new();
    files.insert(0u8, vec![1, 2, 3]);
    assert_eq!(Game::load(&map, &files).err(), Some(LoadError::MalformedResource(0x0805)));
}

#[test]
fn resource_files_listed_once_in_order() {
    let mut buf = map_record(0x0805, 3, 0);
    buf.extend(map_record(0x0806, 1, 0));
    buf.extend(map_record(0x0807, 3, 10));
    buf.extend(end_record());
    let map = parse_resource_map(&buf).unwrap();
    assert_eq!(sci::resource_file_numbers(&map), vec![1, 3]);
}
