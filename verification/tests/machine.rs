use sci::pmachine::context::{stack_marker, ExecutionContext, StackMarker};
use sci::pmachine::engine::{Action, Engine};
use sci::pmachine::heap::Heap;
use sci::pmachine::kernel::{do_bresen, init_bresen, kernel_random, BresenInit, BresenStep};
use sci::pmachine::calls::{ticks_from_millis, ticks_from_nanos, time_of_day, wait_nanos};
use sci::pmachine::machine::Machine;
use sci::pmachine::object::{ObjectInstance, ObjectType};
use sci::pmachine::register::{DblListNode, Id, Register, VariableType};
use sci::pmachine::vocab::{
    find_selector, load_vocab_class_scripts, load_vocab_opcode_names, load_vocab_selector_names,
};
use sci::resource::{get_resource_key, Resource, ResourceType};
use std::collections::HashMap;

fn id(s: u16, o: usize) -> Id {
    Id { script_number: s, offset: o }
}

fn ctx(code: Vec<u8>) -> ExecutionContext {
    ExecutionContext {
        current_obj: id(0, 0),
        script: 0,
        ip: 0,
        code,
        stack_params: 0,
        stack_temps: 0,
        stack_unwind: 0,
    }
}

fn object() -> ObjectInstance {
    let mut funcs = HashMap::new();
    funcs.insert(3u16, (0u16, 0x40u16));
    ObjectInstance {
        id: id(0, 20),
        name: "ego".to_string(),
        species: 5,
        object_type: ObjectType::Object,
        variables: vec![Register::Value(1), Register::Value(2), Register::Value(3)],
        var_selectors: vec![10, 11, 10],
        func_selectors: funcs,
    }
}

fn resource(t: ResourceType, n: u16, data: Vec<u8>) -> Resource {
    Resource { resource_type: t, resource_number: n, resource_data: data }
}

#[test]
fn register_accessors() {
    assert_eq!(Register::Value(-4).to_i16(), -4);
    assert_eq!(Register::Value(4).to_u16(), 4);
    assert_eq!(Register::Object(id(1, 2)).to_obj(), id(1, 2));
    assert!(Register::Object(id(1, 2)).is_obj());
    assert!(!Register::Value(0).is_obj());
    assert_eq!(Register::DblList(3).to_dbllist(), 3);
    assert_eq!(Register::String(id(1, 2), 5).to_string(), (id(1, 2), 5));
    assert!(Register::Value(0).is_zero_or_null());
    assert!(Register::DblList(0).is_zero_or_null());
    assert!(!Register::Object(id(0, 0)).is_zero_or_null());
    assert_eq!(VariableType::from_u16(2), Some(VariableType::Temporary));
    assert_eq!(VariableType::from_u16(4), None);
}

#[test]
fn register_arithmetic() {
    let mut r = Register::Value(5);
    r.add_reg(Register::Value(-7));
    assert_eq!(r, Register::Value(-2));
    let mut s = Register::Value(3);
    s.add_reg(Register::String(id(1, 2), 4));
    assert_eq!(s, Register::String(id(1, 2), 7));
    let mut v = Register::Value(100);
    v.add(27);
    assert_eq!(v, Register::Value(127));
    v.sub(27);
    assert_eq!(v, Register::Value(100));
}

#[test]
fn context_reads_operands() {
    let mut c = ctx(vec![0x05, 0xff, 0x34, 0x12, 0xfe, 0xff]);
    assert_eq!(c.read_u8(), 5);
    assert_eq!(c.read_i8(), -1);
    assert_eq!(c.read_i16(), 0x1234);
    assert_eq!(c.ip, 4);
    assert_eq!(c.read_i16(), -2);
    let mut d = ctx(vec![0x10, 0x00, 0x07]);
    assert_eq!(d.read_u16(), 16);
    assert_eq!(d.read_u16_or_u8(1), 7);
    let mut e = ctx(vec![0x02, 0x00]);
    assert_eq!(e.read_u16_or_u8(0), 2);
}

#[test]
fn context_jumps() {
    let mut c = ctx(vec![]);
    c.ip = 10;
    c.jump(-4);
    assert_eq!(c.ip, 6);
    c.jump(100);
    assert_eq!(c.ip, 106);
    c.stack_params = 2;
    c.stack_temps = 5;
    assert_eq!(c.num_params(), 3);
}

#[test]
fn object_properties_by_selector_and_offset() {
    let mut o = object();
    assert!(o.has_var_selector(11));
    assert!(!o.has_var_selector(12));
    assert_eq!(o.get_property(10), Register::Value(1));
    o.set_property(10, Register::Value(9));
    assert_eq!(o.get_property(10), Register::Value(9));
    assert_eq!(o.get_property(11), Register::Value(2));
    assert_eq!(o.get_property_by_offset(4), Register::Value(3));
    o.set_property_by_offset(2, Register::Value(8));
    assert_eq!(o.get_property(11), Register::Value(8));
    assert_eq!(o.get_func_selector(3), (0, 0x40));
    assert!(o.has_property_value(10));
    assert!(!o.has_property_value(12));
}

#[test]
fn object_clone_gets_clone_identity() {
    let o = object();
    let c = o.kernel_clone(7);
    assert_eq!(c.id, id(1000, 7));
    assert_eq!(c.object_type, ObjectType::Clone);
    assert_eq!(c.name, "ego");
    assert_eq!(c.variables, o.variables);
    assert_eq!(c.var_selectors, o.var_selectors);
    assert_eq!(c.func_selectors, o.func_selectors);
    assert_eq!(ObjectType::from_u16(0x8000), Some(ObjectType::Class));
    assert_eq!(ObjectType::from_u16(2), None);
}

#[test]
fn heap_lists_keep_nodes_in_order() {
    let mut h = Heap::new();
    let l = h.new_list();
    assert_eq!(l, 1);
    assert_eq!(h.new_list(), 2);
    let a = DblListNode { key: id(0, 1), value: id(0, 10), list_id: 0, list_index: 0 };
    let b = DblListNode { key: id(0, 2), value: id(0, 20), list_id: 0, list_index: 0 };
    assert_eq!(h.first_node(l), Register::Value(0));
    assert_eq!(h.add_to_end(l, a), None);
    assert_eq!(h.add_to_end(l, b), None);
    let first = h.first_node(l);
    assert_eq!(first, Register::Node(DblListNode { list_id: 1, list_index: 0, ..a }));
    let second = h.next_node(first.to_node());
    assert_eq!(second, Register::Node(DblListNode { list_id: 1, list_index: 1, ..b }));
    assert_eq!(h.next_node(second.to_node()), Register::Value(0));
    assert_eq!(h.find_key(l, id(0, 2)), second);
    assert_eq!(h.find_key(l, id(0, 3)), Register::Value(0));
    assert_eq!(h.delete_key(l, id(0, 1)), None);
    assert_eq!(h.find_key(l, id(0, 1)), Register::Value(0));
    assert_eq!(h.add_to_front(l, a), None);
    assert_eq!(h.first_node(l), Register::Node(DblListNode { list_id: 1, list_index: 0, ..a }));
    h.dispose_list(l);
    assert!(!h.dbllist_cache.contains_key(&l));
}

#[test]
fn heap_null_list_answers_zero() {
    let mut h = Heap::new();
    let a = DblListNode { key: id(0, 1), value: id(0, 10), list_id: 0, list_index: 0 };
    assert_eq!(h.add_to_end(0, a), Some(Register::Value(0)));
    assert_eq!(h.add_to_front(0, a), Some(Register::Value(0)));
    assert_eq!(h.find_key(0, id(0, 1)), Register::Value(0));
    assert_eq!(h.delete_key(0, id(0, 1)), Some(Register::Value(0)));
    assert_eq!(h.first_node(0), Register::Value(0));
}

#[test]
fn heap_script_variables() {
    let mut h = Heap::new();
    h.script_local_variables.insert(4, vec![Register::Value(0), Register::Value(1)]);
    h.set_local(4, 1, Register::Value(9));
    assert_eq!(h.get_local(4, 1), Register::Value(9));
    assert_eq!(h.get_local(4, 0), Register::Value(0));
}

fn selector_vocab() -> Vec<u8> {
    let mut d = vec![1, 0, 6, 0, 12, 0];
    d.extend([4, 0]);
    d.extend(b"play");
    d.extend([4, 0]);
    d.extend(b"doit");
    d
}

#[test]
fn selector_names_count_one_more_than_stated() {
    let names = load_vocab_selector_names(&resource(ResourceType::Vocab, 997, selector_vocab())).unwrap();
    assert_eq!(names.len(), 2);
    assert_eq!(names.get(&0).unwrap(), "play");
    assert_eq!(names.get(&1).unwrap(), "doit");
    assert_eq!(find_selector(&names, &"doit".to_string()), Some(1));
    assert_eq!(find_selector(&names, &"quit".to_string()), None);
}

#[test]
fn selector_names_cut_short_are_refused() {
    let mut d = selector_vocab();
    d.truncate(14);
    assert!(load_vocab_selector_names(&resource(ResourceType::Vocab, 997, d)).is_none());
}

#[test]
fn opcode_names_read_type_and_name() {
    let mut d = vec![1, 0, 4, 0, 5, 0, 2, 0];
    d.extend(b"add");
    let names = load_vocab_opcode_names(&resource(ResourceType::Vocab, 998, d)).unwrap();
    assert_eq!(names, vec![(2, "add".to_string())]);
}

#[test]
fn class_scripts_map_class_numbers() {
    let d = vec![0, 0, 3, 0, 0, 0, 9, 0, 1];
    let m = load_vocab_class_scripts(&resource(ResourceType::Vocab, 996, d)).unwrap();
    assert_eq!(m.len(), 2);
    assert_eq!(m.get(&0), Some(&3));
    assert_eq!(m.get(&1), Some(&9));
    let bad = vec![1, 0, 3, 0];
    assert!(load_vocab_class_scripts(&resource(ResourceType::Vocab, 996, bad)).is_none());
}

#[test]
fn bresen_walk_along_x() {
    let w = init_bresen(10, 2, 0, 0, 3, 2, 1).unwrap();
    assert!(w.x_axis);
    assert_eq!((w.step_dx, w.step_dy), (3, 0));
    assert_eq!(w.minor_axis_incr, 1);
    assert_eq!((w.i1, w.i2, w.di), (12, -20, 2));
    let s = do_bresen(10, 2, 0, 0, w).unwrap();
    assert_eq!(s, BresenStep { client_x: 3, client_y: 1, di: -18 });
    let near = do_bresen(10, 2, 8, 2, w).unwrap();
    assert_eq!(near, BresenStep { client_x: 10, client_y: 2, di: 2 });
}

#[test]
fn bresen_without_distance_fails() {
    assert_eq!(init_bresen(5, 5, 5, 5, 3, 2, 1), None);
}

#[test]
fn bresen_step_bumps_minor_axis() {
    let w = BresenInit { step_dx: 2, step_dy: 0, i1: 4, i2: -6, di: 1, x_axis: true, minor_axis_incr: 1 };
    assert_eq!(do_bresen(20, 20, 0, 0, w), Some(BresenStep { client_x: 2, client_y: 1, di: -5 }));
}

#[test]
fn kernel_time_conversions() {
    assert_eq!(ticks_from_millis(1000), 60);
    assert_eq!(ticks_from_millis(1500), 90);
    assert_eq!(time_of_day(3, 4, 5), (3 << 12) | (4 << 6) | 5);
    assert_eq!(time_of_day(12, 0, 0), -16384);
    assert_eq!(wait_nanos(2), Some(33333332));
    assert_eq!(wait_nanos(-1), None);
    assert_eq!(wait_nanos(258), None);
    assert_eq!(ticks_from_nanos(16666666 * 3), 3);
}

#[test]
fn kernel_random_stays_in_range() {
    for _ in 0..50 {
        let v = kernel_random(-3, 4).unwrap();
        assert!((-3..=4).contains(&v));
    }
    assert_eq!(kernel_random(2, 2), Some(2));
    assert_eq!(kernel_random(3, 2), None);
}

fn w(v: u16) -> [u8; 2] {
    v.to_le_bytes()
}

fn block(t: u16, data: &[u8]) -> Vec<u8> {
    let mut b = w(t).to_vec();
    b.extend_from_slice(&w((data.len() + 4) as u16));
    b.extend_from_slice(data);
    b
}

fn words(ws: &[u16]) -> Vec<u8> {
    ws.iter().flat_map(|v| v.to_le_bytes()).collect()
}

/// A game whose script 0 holds class 0, the game object (of class 0) at 50, whose
/// `play` method is `code`, and five global variables.
fn game(code: &[u8]) -> HashMap<u16, Resource> {
    game_with_species(code, 0)
}

/// The same game, the game object's first property (selector 0x10) being `species`.
fn game_with_species(code: &[u8], species: u16) -> HashMap<u16, Resource> {
    assert_eq!(code.len(), 10);
    let mut s = block(7, &words(&[1, 50]));
    s.extend(block(6, &words(&[0x1234, 0, 18, 4, 0, 0xffff, 0x8000, 84, 0x10, 0x11, 0x12, 0x13, 0])));
    s.extend(block(1, &words(&[0x1234, 0, 10, 4, species, 0, 0, 84, 1, 0, 0, 70])));
    s.extend(block(2, code));
    s.extend(block(5, b"game\0"));
    s.extend(block(10, &words(&[0, 0, 0, 0, 0])));
    s.extend(w(0));
    let mut r = HashMap::new();
    r.insert(get_resource_key(ResourceType::Script, 0), resource(ResourceType::Script, 0, s));
    r.insert(get_resource_key(ResourceType::Vocab, 996), resource(ResourceType::Vocab, 996, vec![0, 0, 0, 0]));
    r.insert(get_resource_key(ResourceType::Vocab, 997), resource(ResourceType::Vocab, 997, selector_vocab()));
    r.insert(get_resource_key(ResourceType::Vocab, 998), resource(ResourceType::Vocab, 998, vec![0, 0]));
    r
}

#[test]
fn machine_runs_play_method_to_its_end() {
    // ldi 5; push; ldi 7; add; sag 1; ret
    let resources = game(&[0x34, 0x05, 0x00, 0x36, 0x35, 0x07, 0x02, 0xa1, 0x01, 0x48]);
    let m = Machine::init(&resources).unwrap();
    assert_eq!(m.play_selector, 0);
    assert_eq!(m.doit_selector, 1);
    let mut e = Engine::new(m);
    assert!(e.start());
    assert_eq!(e.m.objects.len(), 2);
    let a = e.run(1000);
    assert!(matches!(a, Action::Finished));
    assert_eq!(e.m.ax, Register::Value(12));
    assert_eq!(e.m.heap.get_local(0, 1), Register::Value(12));
    assert!(e.m.stack.is_empty());
}

#[test]
fn machine_asks_the_caller_to_wait() {
    // pushi 1; pushi 5; callk Wait, one parameter; ret; then padding
    let resources = game(&[0x39, 0x01, 0x39, 0x05, 0x43, 0x45, 0x02, 0x48, 0x00, 0x00]);
    let m = Machine::init(&resources).unwrap();
    let mut e = Engine::new(m);
    assert!(e.start());
    let a = e.run(1000);
    assert!(matches!(a, Action::Wait(5)));
    assert!(e.resume_wait(3, true));
    assert_eq!(e.m.ax, Register::Value(3));
    assert_eq!(e.m.heap.get_local(0, 4), Register::Value(1));
    assert!(e.m.stack.is_empty());
    assert!(matches!(e.run(1000), Action::Finished));
}

#[test]
fn machine_faults_on_unknown_opcode() {
    let resources = game(&[0x01, 0x48, 0, 0, 0, 0, 0, 0, 0, 0]);
    let m = Machine::init(&resources).unwrap();
    let mut e = Engine::new(m);
    assert!(e.start());
    assert!(matches!(e.run(1000), Action::Fault));
}

#[test]
fn machine_without_vocabulary_does_not_start() {
    let mut resources = game(&[0x48, 0, 0, 0, 0, 0, 0, 0, 0, 0]);
    resources.remove(&get_resource_key(ResourceType::Vocab, 997));
    assert!(Machine::init(&resources).is_none());
}

#[test]
fn stack_dump_markers() {
    let mut c = ctx(vec![]);
    c.stack_params = 2;
    c.stack_temps = 5;
    assert_eq!(stack_marker(2, &c), StackMarker::Params);
    assert_eq!(stack_marker(5, &c), StackMarker::Temps);
    assert_eq!(stack_marker(3, &c), StackMarker::Plain);
    c.stack_temps = 2;
    assert_eq!(stack_marker(2, &c), StackMarker::ParamsAndTemps);
}

#[test]
fn property_written_reads_back() {
    let mut o = object();
    o.set_property(11, Register::Object(id(3, 4)));
    assert_eq!(o.get_property(11), Register::Object(id(3, 4)));
    assert_eq!(o.get_property(10), Register::Value(1));
}

#[test]
fn find_key_finds_node_added_at_end() {
    let mut h = Heap::new();
    let l = h.new_list();
    let a = DblListNode { key: id(0, 7), value: id(0, 70), list_id: 0, list_index: 0 };
    h.add_to_end(l, a);
    assert_eq!(h.find_key(l, id(0, 7)), Register::Node(DblListNode { list_id: l, list_index: 0, ..a }));
}

fn run_to_end(resources: &HashMap<u16, Resource>) -> Engine<'_> {
    let m = Machine::init(resources).unwrap();
    let mut e = Engine::new(m);
    assert!(e.start());
    let a = e.run(1000);
    assert!(matches!(a, Action::Finished), "{:?}", a);
    e
}

#[test]
fn machine_calls_a_local_procedure() {
    // push0; call +1 with no parameters; ret; then the procedure: ldi 9; ret
    let resources = game(&[0x76, 0x40, 0x01, 0x00, 0x00, 0x48, 0x35, 0x09, 0x48, 0x00]);
    let e = run_to_end(&resources);
    assert_eq!(e.m.ax, Register::Value(9));
    assert!(e.m.stack.is_empty());
}

#[test]
fn machine_sends_a_property_read_to_itself() {
    // pushi 0x10; push0; self with 4 bytes of frame; ret
    let resources = game_with_species(&[0x39, 0x10, 0x76, 0x54, 0x04, 0x48, 0, 0, 0, 0], 7);
    let e = run_to_end(&resources);
    assert_eq!(e.m.ax, Register::Value(7));
    assert!(e.m.stack.is_empty());
}

#[test]
fn machine_sends_a_property_write_to_itself() {
    // pushi 0x11; push1; pushi 42; self with 6 bytes of frame; ret
    let resources = game(&[0x39, 0x11, 0x78, 0x39, 42, 0x54, 0x06, 0x48, 0, 0]);
    let e = run_to_end(&resources);
    let k = e.m.find_object(id(0, 50)).unwrap();
    assert_eq!(e.m.objects[k].get_property(0x11), Register::Value(42));
}

#[test]
fn machine_makes_a_list_through_the_kernel() {
    // push0; callk NewList with no parameters; ret
    let resources = game(&[0x76, 0x43, 0x32, 0x00, 0x48, 0, 0, 0, 0, 0]);
    let e = run_to_end(&resources);
    assert_eq!(e.m.ax, Register::DblList(1));
    assert!(e.m.heap.dbllist_cache.contains_key(&1));
}

#[test]
fn machine_loads_a_class_object() {
    // class 0; ret
    let resources = game(&[0x51, 0x00, 0x48, 0, 0, 0, 0, 0, 0, 0]);
    let e = run_to_end(&resources);
    assert_eq!(e.m.ax, Register::Object(id(0, 20)));
}

#[test]
fn machine_loads_a_string_address() {
    // lofsa to the string at 84, the code starting at 70 so that the operand ends
    // at 73: +11; ret
    let resources = game(&[0x72, 11, 0x00, 0x48, 0, 0, 0, 0, 0, 0]);
    let e = run_to_end(&resources);
    assert_eq!(e.m.ax, Register::String(id(0, 84), 0));
}

#[test]
fn machine_draws_a_random_number_in_range() {
    // pushi 2; pushi 3; pushi 5; callk Random with two parameters; ret
    let resources = game(&[0x39, 0x02, 0x39, 0x03, 0x39, 0x05, 0x43, 0x40, 0x04, 0x48]);
    let e = run_to_end(&resources);
    match e.m.ax {
        Register::Value(v) => assert!((3..=5).contains(&v)),
        other => panic!("not a value: {:?}", other),
    }
    assert!(e.m.stack.is_empty());
}

#[test]
fn machine_asks_the_caller_for_the_time() {
    // push0; callk GetTime with no parameters; ret
    let resources = game(&[0x76, 0x43, 0x46, 0x00, 0x48, 0, 0, 0, 0, 0]);
    let m = Machine::init(&resources).unwrap();
    let mut e = Engine::new(m);
    assert!(e.start());
    assert!(matches!(e.run(1000), Action::GetTime(false)));
    assert!(!e.resume_wait(1, false));
    assert!(e.resume_time(77));
    assert_eq!(e.m.ax, Register::Value(77));
    assert!(matches!(e.run(1000), Action::Finished));
}

#[test]
fn machine_clones_the_running_object() {
    // push1; pushSelf; callk Clone with one parameter; ret
    let resources = game(&[0x78, 0x7c, 0x43, 0x04, 0x02, 0x48, 0, 0, 0, 0]);
    let e = run_to_end(&resources);
    assert_eq!(e.m.ax, Register::Object(id(1000, 1)));
    assert_eq!(e.m.objects.len(), 3);
    assert_eq!(e.m.clone_counter, 2);
    let k = e.m.find_object(id(1000, 1)).unwrap();
    assert_eq!(e.m.objects[k].object_type, ObjectType::Clone);
    assert_eq!(e.m.objects[k].species, e.m.objects[e.m.find_object(id(0, 50)).unwrap()].species);
}

#[test]
fn machine_sets_the_background_picture() {
    // push1; pushi 7; callk DrawPic with one parameter; ret
    let resources = game(&[0x78, 0x39, 0x07, 0x43, 0x08, 0x02, 0x48, 0, 0, 0]);
    let e = run_to_end(&resources);
    assert_eq!(e.m.background.pic_number, 7);
    assert_eq!(e.m.background.animation, -1);
    assert!(e.m.background.clear);
    assert_eq!(e.m.background.pic_not_valid, 1);
}

#[test]
fn machine_faults_on_a_load_before_the_script() {
    // lofsa to an offset before the start of the script: -100; ret
    let resources = game(&[0x72, 0x9c, 0xff, 0x48, 0, 0, 0, 0, 0, 0]);
    let m = Machine::init(&resources).unwrap();
    let mut e = Engine::new(m);
    assert!(e.start());
    assert!(matches!(e.run(1000), Action::Fault));
}
