use bwms::answers::{
    as_signed, bits_answer, hash_answer, length_answer, name_answer, number_answer, text_answer,
    BitOp, HashOp, TextOp,
};
use bwms::calls::{
    build_cname_dynarray, call_bytecode, call_frame, call_func, call_ptr, from_tdbid_code,
    params_start, read_params, read_params_consuming, read_params_inner, red_string_read,
    red_string_write_inline, write_cstring_inline_ret, write_handle_ret, write_pod_i64,
    write_uint_ret, Arg, FrameRegs, ParamAction, ParamEvent, PodWrite, RedString,
};
use bwms::forge::{
    build_native_func, build_property, dynarray_push_ptr, fix_embedded_allocator_vtables, grow_to, register_method,
    method_array, register_type_alias, register_type_instantiable_with_parent, register_type_min,
    register_type_with_prop, registered, DynArray, ForgeError, PropClass, PropClassStep, Routes,
    CCLASS_SIZE,
};
use bwms::hashes::{fnv1a32, fnv1a64, murmur3_32, tweak_db_id};
use bwms::memory::{Memory, Region};
use bwms::reflect::{
    class_getters, dump_class, dump_props, find_member, fn_param_type, from_tdbid, inner_type,
    param_type_cname, probe_report, probe_row_line, round_trip, prop_get_bool, prop_get_u32, prop_row_line, prop_set_bool,
    prop_set_u32, prop_value_offset, raw_row_line, reflection_probe_cls,
    resolve_class_via_validator_getclass, type_name_getname, type_name_hash, type_size, IdMaker,
    NameCall, Probe, ProbeRow, PropRow, RawRow, Registry,
};
use bwms::rtti::{
    class_getter, cname, derives_from_iscriptable, field_ptr, find_property_in_class,
    fn_ret_type, fn_returns_void, new_object, param_count, props_array, resolve_any, resolve_enum_value,
    resolve_in_class, resolve_prop_in_class, scriptable_setup, value_holder_size, AllocPlan, Field,
    ResolvedFn,
};
use bwms::targets::{static_thunks, Image, IMAGE_BASE};

fn image(size: usize, words: &[(usize, u64)]) -> Vec<u8> {
    let mut v = vec![0u8; size];
    for (off, w) in words {
        v[*off..*off + 8].copy_from_slice(&w.to_le_bytes());
    }
    v
}

fn put32(v: &mut [u8], off: usize, w: u32) {
    v[off..off + 4].copy_from_slice(&w.to_le_bytes());
}

fn word(v: &[u8], off: usize) -> u64 {
    u64::from_le_bytes(v[off..off + 8].try_into().unwrap())
}

fn word32(v: &[u8], off: usize) -> u32 {
    u32::from_le_bytes(v[off..off + 4].try_into().unwrap())
}

fn memory(parts: Vec<(u64, Vec<u8>)>) -> Memory {
    Memory { regions: parts.into_iter().map(|(base, bytes)| Region { base, bytes }).collect() }
}

// ---- texts in the engine's layout ----

fn read_back(v: &[u8]) -> String {
    red_string_read(&RedString { slot: v.to_vec(), heap: None })
}

#[test]
fn roundtrip_write_read_cstring_inline() {
    let buf = write_cstring_inline_ret("hello").unwrap();
    assert_eq!(read_back(&buf), "hello".to_string());
}

#[test]
fn roundtrip_string_vazia() {
    let buf = write_cstring_inline_ret("").unwrap();
    assert_eq!(buf, vec![0u8; 0x20]);
    assert_eq!(read_back(&buf), String::new());
}

#[test]
fn roundtrip_multibyte() {
    let buf = write_cstring_inline_ret("café!").unwrap();
    assert_eq!(read_back(&buf), "café!".to_string());
}

#[test]
fn recusa_string_longa_demais_pro_sso() {
    let s19 = "a".repeat(19);
    let s20 = "a".repeat(20);
    assert!(write_cstring_inline_ret(&s19).is_some());
    assert!(write_cstring_inline_ret(&s20).is_none());
}

#[test]
fn short_string_layout() {
    let buf = write_cstring_inline_ret("abc").unwrap();
    assert_eq!(buf.len(), 0x20);
    assert_eq!(&buf[0..4], b"abc\0");
    assert_eq!(word32(&buf, 0x14), 3);
}

#[test]
fn long_strings_lie_behind_a_pointer() {
    let mut slot = vec![0u8; 0x20];
    put32(&mut slot, 0x14, 0x4000_0000 + 25);
    let text = b"a text of twenty five ch.".to_vec();
    assert_eq!(text.len(), 25);
    let s = RedString { slot: slot.clone(), heap: Some(text) };
    assert_eq!(red_string_read(&s), "a text of twenty five ch.");
    assert_eq!(red_string_read(&RedString { slot: slot.clone(), heap: None }), "");
    put32(&mut slot, 0x14, 100_001);
    assert_eq!(red_string_read(&RedString { slot, heap: None }), "");
    assert_eq!(red_string_read(&RedString { slot: vec![0; 8], heap: None }), "");
}

#[test]
fn broken_utf8_in_memory_is_replaced() {
    let mut slot = vec![0u8; 0x20];
    slot[0] = b'a';
    slot[1] = 0xFF;
    slot[2] = b'b';
    put32(&mut slot, 0x14, 3);
    assert_eq!(red_string_read(&RedString { slot, heap: None }), "a\u{FFFD}b");
}

// ---- results ----

#[test]
fn unsigned_results_by_width() {
    assert_eq!(write_uint_ret(0x1122_3344_5566_7788, 1), vec![0x88]);
    assert_eq!(write_uint_ret(0x1122_3344_5566_7788, 2), vec![0x88, 0x77]);
    assert_eq!(write_uint_ret(0x1122_3344_5566_7788, 4), vec![0x88, 0x77, 0x66, 0x55]);
    assert_eq!(write_uint_ret(0x1122_3344_5566_7788, 8).len(), 8);
    assert_eq!(write_uint_ret(1, 3).len(), 8);
}

#[test]
fn handles_have_no_owner() {
    let v = write_handle_ret(0x1234);
    assert_eq!(v.len(), 16);
    assert_eq!(word(&v, 0), 0x1234);
    assert_eq!(word(&v, 8), 0);
}

#[test]
fn plain_results_by_type() {
    assert!(matches!(write_pod_i64(cname("Bool"), 1, -7), PodWrite::Bytes(b) if b == vec![1]));
    assert!(matches!(write_pod_i64(cname("Bool"), 1, 0), PodWrite::Bytes(b) if b == vec![0]));
    assert!(matches!(write_pod_i64(cname("Int8"), 1, -1), PodWrite::Bytes(b) if b == vec![0xFF]));
    assert!(matches!(write_pod_i64(cname("Uint16"), 2, 0x12345), PodWrite::Bytes(b) if b == vec![0x45, 0x23]));
    assert!(matches!(write_pod_i64(cname("Int32"), 4, -2), PodWrite::Bytes(b) if b == vec![0xFE, 0xFF, 0xFF, 0xFF]));
    assert!(matches!(write_pod_i64(cname("Int64"), 8, i64::MIN), PodWrite::Bytes(b) if b == i64::MIN.to_le_bytes().to_vec()));
    assert!(matches!(write_pod_i64(cname("Float"), 4, 1), PodWrite::Float));
    assert!(matches!(write_pod_i64(cname("Double"), 8, 1), PodWrite::Double));
    assert!(matches!(write_pod_i64(cname("Int32"), 8, 1), PodWrite::Refused));
    assert!(matches!(write_pod_i64(cname("String"), 0x20, 1), PodWrite::Refused));
}

#[test]
fn arrays_of_names_have_capacity_then_size() {
    assert_eq!(build_cname_dynarray(0, 0), Some(vec![0u8; 16]));
    assert_eq!(build_cname_dynarray(0, 3), None);
    let v = build_cname_dynarray(0xABCD, 3).unwrap();
    assert_eq!(word(&v, 0), 0xABCD);
    assert_eq!(word32(&v, 8), 3);
    assert_eq!(word32(&v, 12), 3);
}

// ---- calls ----

#[test]
fn arguments_of_a_call() {
    let args = vec![
        Arg::I32(7),
        Arg::Str("oi".to_string()),
        Arg::Handle(0x11, 0x22),
        Arg::Bool(true),
        Arg::Str("a".repeat(30)),
        Arg::Tdb([1, 2, 3, 4, 5, 6, 7, 8]),
        Arg::F32(1.5f32.to_bits()),
    ];
    let types = vec![100, 101, 102, 103, 104, 105, 106];
    let parts = call_func(7, true, &types, &args).unwrap();
    assert_eq!(parts.locals.len(), 0x40 + 7 * 0x20);
    assert_eq!(word32(&parts.locals, 0x20), 7);
    assert_eq!(read_back(&parts.locals[0x40..0x60]), "oi");
    assert_eq!(word(&parts.locals, 0x60), 0x11);
    assert_eq!(word(&parts.locals, 0x68), 0x22);
    assert_eq!(parts.locals[0x80], 1);
    assert_eq!(&parts.locals[0xA0..0xC0], &[0u8; 0x20]);
    assert_eq!(&parts.locals[0xC0..0xC8], &[1, 2, 3, 4, 5, 6, 7, 8]);
    assert_eq!(f32::from_bits(word32(&parts.locals, 0xE0)), 1.5);
    assert_eq!(parts.properties.len(), 7);
    assert_eq!(word(&parts.properties[2], 0), 102);
    assert_eq!(word32(&parts.properties[2], 0x20), 0x60);
    assert_eq!(parts.properties[2].len(), 0x30);
}

#[test]
fn too_many_arguments_are_refused() {
    let args = vec![Arg::I32(1), Arg::I32(2)];
    let types = vec![1, 2];
    assert!(call_func(1, true, &types, &args).is_none());
    assert!(call_func(2, false, &types, &args).is_none());
    assert!(call_func(0, false, &vec![], &vec![]).is_some());
}

#[test]
fn code_and_frame_of_a_call() {
    let code = call_bytecode(&vec![0xAABB, 0xCCDD]);
    assert_eq!(code.len(), 16 + 18);
    assert_eq!(code[0], 0x18);
    assert_eq!(word(&code, 1), 0xAABB);
    assert_eq!(code[9], 0x18);
    assert_eq!(word(&code, 10), 0xCCDD);
    assert_eq!(code[18], 0x26);
    assert!(code[19..].iter().all(|b| *b == 0));
    let frame = call_frame(1, 2, 3);
    assert_eq!(frame.len(), 0x90);
    assert_eq!((word(&frame, 0), word(&frame, 0x10), word(&frame, 0x18), word(&frame, 0x40)), (1, 2, 2, 3));
}

#[test]
fn code_of_an_item_id() {
    let code = from_tdbid_code("Items.money");
    assert_eq!(code.len(), 16);
    assert_eq!(code[0], 0x11);
    assert_eq!(word(&code, 1), tweak_db_id("Items.money"));
    assert_eq!(code[9], 0x26);
}

fn regs() -> FrameRegs {
    FrameRegs { code: 0x5000, current: 255, data: 9, data_type: 9 }
}

#[test]
fn parameters_are_read_and_the_frame_is_put_back() {
    let mut run = params_start(true, true, 2, regs(), false).unwrap();
    let a = read_params_inner(&mut run, ParamEvent::Instance(true));
    let fetched = FrameRegs { code: 0x5000, current: 0, data: 0, data_type: 0 };
    assert!(a == ParamAction::Fetch(fetched));
    let a = read_params_inner(&mut run, ParamEvent::Code(true));
    assert!(a == ParamAction::LookUp(FrameRegs { code: 0x5001, ..fetched }));
    let a = read_params_inner(&mut run, ParamEvent::Handler { addr: 0x2_0000, mapped: true, ertti: 15 });
    assert!(a == ParamAction::Run { script_ref: true });
    let after = FrameRegs { code: 0x5009, ..fetched };
    let a = read_params_inner(&mut run, ParamEvent::Ran { regs: after, tname: 77, raw: Some(42) });
    assert!(a == ParamAction::Instance { free: true, index: 1 });
    read_params_inner(&mut run, ParamEvent::Instance(true));
    read_params_inner(&mut run, ParamEvent::Code(true));
    read_params_inner(&mut run, ParamEvent::Handler { addr: 0x2_0000, mapped: true, ertti: 0 });
    let a = read_params_inner(&mut run, ParamEvent::Ran { regs: after, tname: cname("Int32"), raw: Some(42) });
    assert!(a == ParamAction::Finish { free: true, regs: regs() });
    assert_eq!(run.values, vec![(0, 77), (42, cname("Int32"))]);
}

#[test]
fn parameters_of_an_answered_call_stay_taken() {
    let mut run = params_start(true, true, 1, regs(), true).unwrap();
    let a = read_params_inner(&mut run, ParamEvent::Instance(false));
    assert!(a == ParamAction::Finish { free: false, regs: regs() });
    read_params_inner(&mut run, ParamEvent::Instance(true));
    let a = read_params_inner(&mut run, ParamEvent::Code(false));
    assert!(matches!(a, ParamAction::Finish { free: true, regs } if regs.current == 0));
    let a = read_params_inner(&mut run, ParamEvent::Handler { addr: 5, mapped: true, ertti: 0 });
    assert!(matches!(a, ParamAction::Finish { free: true, .. }));
    let done = FrameRegs { code: 0x6000, current: 1, data: 0, data_type: 0 };
    let a = read_params_inner(&mut run, ParamEvent::Ran { regs: done, tname: 1, raw: None });
    assert!(a == ParamAction::Finish { free: true, regs: done });
}

#[test]
fn implausible_calls_are_not_read() {
    assert!(params_start(true, true, 0, regs(), false).is_none());
    assert!(params_start(true, true, 17, regs(), false).is_none());
    assert!(params_start(false, true, 1, regs(), false).is_none());
    assert!(params_start(true, false, 1, regs(), false).is_none());
    assert!(params_start(true, true, 16, regs(), false).is_some());
}

#[test]
fn hooks_and_handlers_start_alike() {
    let mut hook = read_params(true, true, 1, regs()).unwrap();
    let mut own = read_params_consuming(true, true, 1, regs()).unwrap();
    assert!(read_params(true, true, 17, regs()).is_none());
    assert!(read_params_consuming(false, true, 1, regs()).is_none());
    let done = FrameRegs { code: 0x6000, current: 1, data: 0, data_type: 0 };
    let a = read_params_inner(&mut hook, ParamEvent::Ran { regs: done, tname: 1, raw: None });
    assert!(a == ParamAction::Finish { free: true, regs: regs() });
    let a = read_params_inner(&mut own, ParamEvent::Ran { regs: done, tname: 1, raw: None });
    assert!(a == ParamAction::Finish { free: true, regs: done });
}

#[test]
fn a_call_returns_its_pointer() {
    let mut b = [0u8; 16];
    b[0] = 0x34;
    b[1] = 0x12;
    b[8] = 0xff;
    assert_eq!(call_ptr(&Some(b)), 0x1234);
    assert_eq!(call_ptr(&None), 0);
    assert_eq!(red_string_write_inline("abc"), write_cstring_inline_ret("abc"));
    assert!(red_string_write_inline("12345678901234567890").is_none());
}

#[test]
fn methods_go_behind_those_of_the_class() {
    let mut a = DynArray { buffer: 1, cap: 2, size: 1, slots: vec![7, 0] };
    assert!(!register_method(0, 8, &mut a, 2));
    assert!(!register_method(0x2_0000, 0, &mut a, 2));
    assert!(register_method(0x2_0000, 8, &mut a, 0));
    assert!(!register_method(0x2_0000, 9, &mut a, 0));
    assert!(register_method(0x2_0000, 9, &mut a, 2));
    assert_eq!((a.size, &a.slots[..3]), (3, &[7u64, 8, 9][..]));
}

// ---- classes in memory ----

const CLS: u64 = 0x10_0000;
const BASE: u64 = 0x20_0000;

/// A class that derives from another, with a method, a static method and two
/// properties.
fn two_classes() -> Memory {
    let mut cls = image(
        0x100,
        &[(0, 0x70_0000), (0x10, BASE), (0x18, cname("Derived")), (0x28, 0x30_0000), (0x48, 0x31_0000), (0x58, 0x32_0000)],
    );
    put32(&mut cls, 0x30, 2);
    put32(&mut cls, 0x34, 2);
    put32(&mut cls, 0x50, 1);
    put32(&mut cls, 0x60, 1);
    let mut base = image(0x100, &[(0, 0x70_0000), (0x18, cname("IScriptable")), (0x48, 0x33_0000)]);
    put32(&mut base, 0x50, 1);
    let props = image(16, &[(0, 0x40_0000), (8, 0x41_0000)]);
    let mut p0 = image(0x30, &[(0, 0x60_0000), (8, cname("health"))]);
    put32(&mut p0, 0x20, 0x48);
    let mut p1 = image(0x30, &[(0, 0x61_0000), (8, cname("label"))]);
    put32(&mut p1, 0x20, 0x50);
    let methods = image(8, &[(0, 0x50_0000)]);
    let statics = image(8, &[(0, 0x51_0000)]);
    let inherited = image(8, &[(0, 0x52_0000)]);
    let mut f0 = image(0xC0, &[(0x10, cname("Heal")), (0x18, 0x53_0000), (0x28, 0x54_0000)]);
    put32(&mut f0, 0x30, 1);
    let f1 = image(0xC0, &[(0x10, cname("Make"))]);
    let f2 = image(0xC0, &[(0x10, cname("Tick"))]);
    let ret = image(8, &[(0, 0x62_0000)]);
    let params = image(8, &[(0, 0x40_0000)]);
    let ty = image(0x20, &[(0, 0x70_0000), (0x10, 0x1111), (0x18, 0x2222)]);
    let vt = image(0xC0, &[(0x10, 0x8_0000), (0x18, 0x9_0000)]);
    let mut obj = image(0x80, &[(0, 0x70_0000)]);
    put32(&mut obj, 0x48, 0xCAFE);
    memory(vec![
        (CLS, cls),
        (BASE, base),
        (0x30_0000, props),
        (0x40_0000, p0),
        (0x41_0000, p1),
        (0x31_0000, methods),
        (0x32_0000, statics),
        (0x33_0000, inherited),
        (0x50_0000, f0),
        (0x51_0000, f1),
        (0x52_0000, f2),
        (0x53_0000, ret),
        (0x54_0000, params),
        (0x60_0000, ty),
        (0x70_0000, vt),
        (0x90_0000, obj),
    ])
}

#[test]
fn methods_are_found_up_the_chain() {
    let m = two_classes();
    assert!(resolve_in_class(&m, CLS, cname("Heal")) == Some(ResolvedFn { func: 0x50_0000, ret_type: 0x62_0000, is_static: false }));
    assert!(resolve_in_class(&m, CLS, cname("Make")) == Some(ResolvedFn { func: 0x51_0000, ret_type: 0, is_static: true }));
    assert!(resolve_in_class(&m, CLS, cname("Tick")).unwrap().func == 0x52_0000);
    assert!(resolve_in_class(&m, BASE, cname("Heal")).is_none());
    assert!(resolve_in_class(&m, 0, cname("Heal")).is_none());
    assert!(resolve_any(&m, &vec![0, BASE, CLS], cname("Heal")).is_some());
    assert!(resolve_any(&m, &vec![BASE], cname("Heal")).is_none());
    assert_eq!(param_count(&m, 0x50_0000), 1);
    assert!(!fn_returns_void(&m, 0x50_0000));
    assert!(fn_returns_void(&m, 0x51_0000));
    assert_eq!(fn_ret_type(&m, 0), 0);
    assert_eq!(fn_ret_type(&m, 0x9_0000_0000), 0);
    assert!(fn_ret_type(&m, 0x50_0000) != 0);
    assert_eq!(fn_ret_type(&m, 0x51_0000), 0);
}

#[test]
fn a_chain_that_loops_ends() {
    let m = memory(vec![(CLS, image(0x100, &[(0x10, CLS)]))]);
    assert!(resolve_in_class(&m, CLS, cname("Heal")).is_none());
    assert!(!derives_from_iscriptable(&m, CLS));
}

#[test]
fn properties_are_found() {
    let m = two_classes();
    assert_eq!(props_array(&m, CLS), Some((0x30_0000, 2)));
    assert_eq!(props_array(&m, BASE), None);
    assert_eq!(find_property_in_class(&m, CLS, "label"), Some(0x41_0000));
    assert_eq!(find_property_in_class(&m, CLS, "absent"), None);
    assert!(resolve_prop_in_class(&m, CLS, cname("health")) == Some(Field { offset: 0x48, ty: 0x60_0000, in_holder: false }));
    assert_eq!(prop_value_offset(&m, 0x40_0000), 0x48);
    assert_eq!(find_member(&m, 0x90_0000, CLS, "health"), Some(0x90_0048));
    assert_eq!(find_member(&m, 0, CLS, "health"), None);
    assert_eq!(find_member(&m, 0x90_0000, CLS, "absent"), None);
    assert_eq!(field_ptr(&m, 0x90_0000, 0x48, false), Some(0x90_0048));
    assert!(derives_from_iscriptable(&m, CLS));
    assert_eq!(value_holder_size(&m, CLS, &vec![]), 0);
    assert_eq!(scriptable_setup(&m, CLS, &vec![], 0), (true, 0));
}

#[test]
fn enum_values_by_name() {
    let mut en = image(0x60, &[(0x28, 0x30_0000), (0x38, 0x31_0000)]);
    put32(&mut en, 0x30, 2);
    let names = image(16, &[(0, cname("Low")), (8, cname("High"))]);
    let values = image(16, &[(0, 3), (8, 9)]);
    let m = memory(vec![(CLS, en), (0x30_0000, names), (0x31_0000, values)]);
    assert_eq!(resolve_enum_value(&m, CLS, "Low"), Some(3));
    assert_eq!(resolve_enum_value(&m, CLS, "High"), Some(9));
    assert_eq!(resolve_enum_value(&m, CLS, "None"), None);
    assert_eq!(resolve_enum_value(&m, 0, "Low"), None);
}

#[test]
fn objects_are_planned() {
    assert!(new_object(0x2_0000, 0x2_0000, 100, 0x2_0000, 12) == Some(AllocPlan { size: 100, align: 16 }));
    assert!(new_object(0x2_0000, 0x2_0000, 100, 0, 64) == Some(AllocPlan { size: 100, align: 8 }));
    assert!(new_object(0x2_0000, 0x2_0000, 9, 0x2_0000, 0x8000_0001) == Some(AllocPlan { size: 9, align: 0 }));
    assert!(new_object(0x2_0000, 0x2_0000, 0, 0, 8).is_none());
    assert!(new_object(0x2_0000, 0x2_0000, 1_000_001, 0, 8).is_none());
    assert!(new_object(0, 0x2_0000, 100, 0, 8).is_none());
}

#[test]
fn the_class_of_an_object_is_asked_of_the_program() {
    let program = Image { slide: 0x4000, size: 0xA00_0000 };
    let code = program.rebase(0x1_0218_0000);
    let m = memory(vec![(0x90_0000, image(0x10, &[(0, 0x70_0000)])), (0x70_0000, image(0x20, &[(8, code)]))]);
    assert_eq!(class_getter(&m, 0x90_0000, program), Some(code));
    assert_eq!(class_getter(&m, 0, program), None);
    assert_eq!(class_getter(&m, 0x90_0000, Image { slide: 0x4000, size: 0x10 }), None);
}

#[test]
fn addresses_of_the_program() {
    let program = Image { slide: 0x10_0000, size: 0x1000 };
    assert_eq!(program.rebase(IMAGE_BASE + 0x10), 0x1_0010_0010);
    assert_eq!(program.un_rebase(0x1_0010_0010), IMAGE_BASE + 0x10);
    assert_eq!(program.un_rebase(0x1_0010_1000), 0);
    assert_eq!(program.un_rebase(0x7fff_0000), 0);
    let thunks = static_thunks();
    assert_eq!(thunks.len(), 8);
    assert_eq!(thunks[3].name, "ActionLocomotionParameters::funcSetDoJump");
    assert_eq!(thunks[7].vmaddr, 0x1_0118_f2cc);
}

#[test]
fn types_and_their_getters() {
    let m = two_classes();
    assert_eq!(inner_type(&m, 0x60_0000), 0x1111);
    assert_eq!(type_name_hash(&m, 0x60_0000), 0x2222);
    assert_eq!(type_name_getname(&m, 0x60_0000), Some(0x8_0000));
    assert_eq!(type_size(&m, 0x60_0000), Some(0x9_0000));
    assert_eq!(type_size(&m, 0), None);
    assert_eq!(type_name_getname(&m, 0x61_0000), None);
    assert_eq!(param_type_cname(&m, 0x54_0000, 0), 0x60_0000);
    assert_eq!(param_type_cname(&m, 0, 0), 0);
    assert_eq!(fn_param_type(&m, 0x50_0000, 0), 0x60_0000);
    assert_eq!(fn_param_type(&m, 0, 0), 0);
}

#[test]
fn values_of_properties_read_back() {
    let mut obj = vec![0xEEu8; 0x20];
    prop_set_u32(&mut obj, 8, 0xDEAD_BEEF);
    assert_eq!(prop_get_u32(&obj, 8), 0xDEAD_BEEF);
    assert_eq!(obj[7], 0xEE);
    assert_eq!(obj[12], 0xEE);
    prop_set_u32(&mut obj, 8, 1.5f32.to_bits());
    assert_eq!(f32::from_bits(prop_get_u32(&obj, 8)), 1.5);
    prop_set_bool(&mut obj, 3, true);
    assert!(prop_get_bool(&obj, 3));
    prop_set_bool(&mut obj, 3, false);
    assert!(!prop_get_bool(&obj, 3));
}

#[test]
fn a_probe_of_properties() {
    let m = two_classes();
    match reflection_probe_cls(&m, CLS, 0x90_0000) {
        Probe::Found { cls, count, rows, value } => {
            assert_eq!((cls, count, rows.len()), (CLS, 2, 2));
            assert_eq!(rows[0].name, cname("health"));
            assert_eq!(rows[1].offset, 0x50);
            assert_eq!(value, Some(0xCAFE));
        }
        _ => panic!("no properties"),
    }
    assert!(matches!(reflection_probe_cls(&m, 5, 0), Probe::NoClass));
    assert!(matches!(reflection_probe_cls(&m, BASE, 0), Probe::Raw { table: None, words } if words.len() == 1 && words[0].off == 0x48));
    let none = probe_report("x", 5, 0, &Probe::NoClass, &vec![], true);
    assert_eq!(none, "[refl] 'x': cls inválido");
    let raw = reflection_probe_cls(&m, BASE, 0);
    let text = probe_report("b", BASE, 0, &raw, &vec!["n".to_string()], true);
    assert!(text.starts_with("[refl] 'b': cls=0x") && text.contains("obj=0x0\n  props NÃO localizada"));
    assert_eq!(round_trip(0x48), (0xDEAD_BEEF, 0x3FC0_0000));
}

#[test]
fn lines_of_a_probe() {
    let row = ProbeRow { index: 3, prop: 0, name: 0, offset: 0x48, ty: 0x600 };
    assert_eq!(probe_row_line(row, "health"), "    [03] 'health' vo=0x48 ty=0x600\n");
    let raw = RawRow { off: 0x18, ptr: 0x5000, count: 12, name: 0, offset: 7 };
    assert_eq!(raw_row_line(raw, "x"), "    +0x18: ptr=0x5000 count=12 e0.name='x' e0.vo=0x7\n");
}

#[test]
fn dumps_of_classes() {
    let m = two_classes();
    let program = Image { slide: 0, size: 0 };
    assert_eq!(dump_class(&m, "Nope", 0, program, None, None), "[rttidump] classe 'Nope' NAO encontrada no registry");
    assert_eq!(dump_class(&m, "Odd", 0x77_0000, program, None, None), "[rttidump] 'Odd': cls=0x770000 mas vtbl=NULL");
    let text = dump_class(&m, "Derived", CLS, program, Some(16), None);
    let mut lines = text.lines();
    assert_eq!(lines.next().unwrap(), "[rttidump] 'Derived': cls=0x100000 (static 0x0) vtbl static 0x0");
    assert_eq!(lines.next().unwrap(), "  vtbl+0x00 = static 0x0");
    assert_eq!(text.lines().count(), 26);
    assert_eq!(text.lines().last().unwrap(), "  -> GetSize@0x10(cls) = 16");
    assert_eq!(class_getters(&m, CLS), (Some(0x8_0000), Some(0x9_0000)));
}

#[test]
fn dumps_of_properties_need_a_known_name() {
    let m = two_classes();
    let tables = dump_props(&m, CLS);
    assert_eq!(tables.len(), 1);
    assert_eq!((tables[0].off, tables[0].count), (0x28, 2));
    assert_eq!(tables[0].rows[0].hit, None);
    assert_eq!(tables[0].rows[1].hit, Some((0, 1)));
    assert_eq!(dump_props(&m, BASE).len(), 0);
    let row = PropRow { index: 11, words: vec![1, 2, 3, 4, 5, 255], hit: Some((1, 4)) };
    assert_eq!(prop_row_line(&row), "  [11] q0=0x1 q1=0x2 q2=0x3 q3=0x4 q4=0x5 q5=0xff <== q[4]==cname(\"eventName\")\n");
}

#[test]
fn the_registry_must_be_complete() {
    let m = memory(vec![(0x1000, image(8, &[(0, 0x2000)])), (0x2000, image(0x30, &[(0x10, 7), (0x18, 8), (0x20, 9)]))]);
    let r = Registry::obtain(&m, 0x1000).unwrap();
    assert_eq!((r.raw(), r.get_class, r.get_enum), (0x1000, 7, 8));
    assert_eq!(r.vtbl_slot(&m, 0x20), 9);
    assert_eq!(r.vtbl_slot(&m, 0x30), 0);
    assert!(Registry::obtain(&m, 0).is_none());
    assert!(Registry::obtain(&m, 0x2000).is_none());
}

#[test]
fn names_are_looked_up_by_the_engine() {
    let funcs = image(0xa8, &[(0, 0x3_0000), (0x10, 7), (0x18, 8), (0x30, 0x3_0030), (0xa0, 0x3_00a0)]);
    let m = memory(vec![(0x1000, image(8, &[(0, 0x2000)])), (0x2000, funcs)]);
    let r = Registry::obtain(&m, 0x1000).unwrap();
    let call = |func: u64, name: &str| NameCall { func, this: 0x1000, name: cname(name) };
    assert_eq!(r.class_by_name("A"), call(7, "A"));
    assert_eq!(r.enum_by_name("B"), call(8, "B"));
    assert_eq!(r.get_function(&m, "Cos"), Some(call(0x3_0030, "Cos")));
    assert_eq!(r.get_type(&m, "Int32"), Some(call(0x3_0000, "Int32")));
    assert_eq!(r.call_register_function(&m), Some(0x3_00a0));
    let bare = memory(vec![(0x1000, image(8, &[(0, 0x2000)])), (0x2000, image(0x20, &[(0x10, 7), (0x18, 8)]))]);
    assert_eq!(r.get_function(&bare, "Cos"), None);
    assert_eq!(r.get_type(&bare, "Int32"), None);
    assert_eq!(r.call_register_function(&bare), None);
}

#[test]
fn the_validator_finds_classes() {
    let m = memory(vec![(0x1000, image(8, &[(0, 0x2000)])), (0x2000, image(0x110, &[(0x108, 0x3_0000)]))]);
    assert_eq!(
        resolve_class_via_validator_getclass(&m, 0x1000, "Codeware"),
        Some(NameCall { func: 0x3_0000, this: 0x1000, name: cname("Codeware") })
    );
    assert_eq!(resolve_class_via_validator_getclass(&m, 0, "Codeware"), None);
    assert_eq!(resolve_class_via_validator_getclass(&m, 0x2108, "Codeware"), None);
}

#[test]
fn item_ids_are_made_by_what_was_seen() {
    let seen = IdMaker { func: 1, ctx: 2, ret: 3 };
    assert_eq!(from_tdbid(seen, None, None), Some(seen));
    let unseen = IdMaker { func: 1, ctx: 0, ret: 3 };
    assert_eq!(from_tdbid(unseen, Some((4, 5)), Some((6, 7))), Some(IdMaker { func: 4, ctx: 0, ret: 5 }));
    assert_eq!(from_tdbid(unseen, None, Some((6, 7))), Some(IdMaker { func: 6, ctx: 0, ret: 7 }));
    assert_eq!(from_tdbid(unseen, None, None), None);
}

// ---- functions and classes made by hand ----

#[test]
fn images_of_natives() {
    let m = memory(vec![(0x2_0000, image(8, &[(0, 0xABC)]))]);
    let f = build_native_func(&m, 0x2_0000, "Full", "Short", true).unwrap();
    assert_eq!(f.len(), 0xC0);
    assert_eq!((word(&f, 0), word(&f, 8), word(&f, 0x10)), (0xABC, cname("Full"), cname("Short")));
    assert_eq!(word32(&f, 0xA8), 5);
    assert_eq!(word(&f, 0xB0), 0);
    assert_eq!(word32(&build_native_func(&m, 0x2_0000, "F", "S", false).unwrap(), 0xA8), 1);
    assert!(build_native_func(&m, 5, "F", "S", true).is_none());
    assert!(build_native_func(&m, 0x3_0000, "F", "S", true).is_none());
    assert_eq!(method_array(CLS, true), Some(CLS + 0x58));
    assert_eq!(method_array(CLS, false), Some(CLS + 0x48));
    assert_eq!(method_array(0, false), None);
}

#[test]
fn routes_go_to_the_first_handler() {
    let mut r = Routes::new();
    assert_eq!(r.route_native(5), None);
    r.add_route(5, 50);
    r.add_route(6, 60);
    r.add_route(5, 51);
    assert_eq!(r.route_native(5), Some(50));
    assert_eq!(r.route_native(6), Some(60));
    assert_eq!(r.route_native(7), None);
    r.add_route(0, 9);
    assert_eq!(r.route_native(0), None);
}

#[test]
fn pointer_arrays_grow() {
    let mut a = DynArray { buffer: 1, cap: 3, size: 2, slots: vec![10, 20, 0] };
    assert_eq!(grow_to(&a), None);
    assert_eq!(dynarray_push_ptr(&mut a, 30, 0), Some(2));
    assert_eq!((a.buffer, a.cap, a.size), (1, 3, 3));
    assert_eq!(grow_to(&a), Some(7));
    assert_eq!(dynarray_push_ptr(&mut a, 40, 0), None);
    assert_eq!(a.slots, vec![10, 20, 30]);
    assert_eq!(dynarray_push_ptr(&mut a, 40, 2), Some(3));
    assert_eq!((a.buffer, a.cap, a.size), (2, 7, 4));
    assert_eq!(&a.slots[0..4], &[10, 20, 30, 40]);
    let mut e = DynArray { buffer: 0, cap: 0, size: 0, slots: vec![] };
    assert_eq!(grow_to(&e), Some(4));
    assert_eq!(dynarray_push_ptr(&mut e, 1, 3), Some(0));
    assert_eq!(e.cap, 4);
    let big = DynArray { buffer: 1, cap: 10, size: 10, slots: vec![0; 10] };
    assert_eq!(grow_to(&big), Some(20));
}

fn donor() -> Memory {
    let mut d = image(0x400, &[(0, 0x5555), (0x78 + 0x28, 0x6_0000), (0xA8 + 0x28, 0x7_0000), (0xD8 + 0x28, 4)]);
    put32(&mut d, 0x68, 0x90);
    put32(&mut d, 0x74, 16);
    put32(&mut d, 0xA8 + 0x20, 0xFFFF_FFFF);
    put32(&mut d, 0x108, 1);
    d[0x108 + 0x28..0x108 + 0x30].copy_from_slice(&0x8_0000u64.to_le_bytes());
    memory(vec![(CLS, d)])
}

#[test]
fn abstract_classes() {
    let m = donor();
    let v = register_type_min(&m, "New", 0, &vec![0, CLS], 0x9_0000).unwrap();
    assert_eq!(v.len(), CCLASS_SIZE);
    assert_eq!((word(&v, 0), word(&v, 0x10), word(&v, 0x18)), (0x5555, 0x9_0000, cname("New")));
    assert_eq!((word32(&v, 0x68), word32(&v, 0x70), word32(&v, 0x74)), (0x40, 3, 8));
    assert_eq!((word(&v, 0xA0), word(&v, 0xD0)), (0x6_0000, 0x7_0000));
    assert_eq!((word(&v, 0x100), word(&v, 0x130)), (0, 0));
    let orphan = register_type_min(&m, "New", 0, &vec![CLS], 0).unwrap();
    assert_eq!(word(&orphan, 0x10), 0);
    assert_eq!(register_type_min(&m, "New", CLS, &vec![CLS], 0), Err(ForgeError::Exists));
    assert_eq!(register_type_min(&m, "New", 0, &vec![0, 1], 0), Err(ForgeError::NoSource));
    assert_eq!(register_type_min(&m, "New", 0, &vec![0x99_0000], 0), Err(ForgeError::BadSource));
}

#[test]
fn classes_with_objects() {
    let m = donor();
    let v = register_type_alias(&m, "Twin", 0, CLS).unwrap();
    assert_eq!((word(&v, 0), word(&v, 0x10), word(&v, 0x18)), (0x5555, 0, cname("Twin")));
    assert_eq!((word32(&v, 0x68), word32(&v, 0x6C), word32(&v, 0x70), word32(&v, 0x74)), (0x90, 0x90, 2, 16));
    assert_eq!(word(&v, 0xA0), 0);
    assert_eq!(register_type_alias(&m, "Twin", CLS, CLS), Err(ForgeError::Exists));
    assert_eq!(register_type_alias(&m, "Twin", 0, 7), Err(ForgeError::NoSource));
    let mut bad = image(0x100, &[(0, 1)]);
    put32(&mut bad, 0x68, 0x10001);
    assert_eq!(register_type_alias(&memory(vec![(CLS, bad)]), "Twin", 0, CLS), Err(ForgeError::BadSource));
    let w = register_type_instantiable_with_parent(&m, "Kid", 0, CLS, 0x9_0000).unwrap();
    assert_eq!((word(&w, 0x10), word(&w, 0xA0)), (0x9_0000, 0x6_0000));
    assert_eq!(register_type_instantiable_with_parent(&m, "Kid", 0, CLS, 0), Err(ForgeError::NoParent));
}

#[test]
fn classes_with_a_property() {
    let m = donor();
    let mut st = PropClass { existing: 0, src: CLS, ftype: 3, class: None, property: None, buffer: None, slot: None, back: None };
    assert!(matches!(register_type_with_prop(&m, "Own", "speed", st), PropClassStep::Refused(ForgeError::NoType)));
    st.ftype = 0xA_0000;
    assert!(matches!(register_type_with_prop(&m, "Own", "speed", st), PropClassStep::MakeClass));
    st.class = Some(0);
    assert!(matches!(register_type_with_prop(&m, "Own", "speed", st), PropClassStep::Done(None)));
    st.class = Some(0xB_0000);
    assert!(matches!(register_type_with_prop(&m, "Own", "speed", st), PropClassStep::MakeProperty));
    st.property = Some(0);
    assert!(matches!(register_type_with_prop(&m, "Own", "speed", st), PropClassStep::Done(None)));
    st.property = Some(0xC_0000);
    assert!(matches!(register_type_with_prop(&m, "Own", "speed", st), PropClassStep::MakeBuffer { slots: 4 }));
    st.buffer = Some(0xD_0000);
    assert!(matches!(register_type_with_prop(&m, "Own", "speed", st), PropClassStep::FindRegister));
    st.slot = Some(9);
    assert!(matches!(register_type_with_prop(&m, "Own", "speed", st), PropClassStep::Done(None)));
    st.slot = Some(0xE_0000);
    match register_type_with_prop(&m, "Own", "speed", st) {
        PropClassStep::Register { func, class, property, array } => {
            assert_eq!(func, 0xE_0000);
            assert_eq!((word32(&class, 0x68), word32(&class, 0x6C)), (0x98, 0x98));
            assert_eq!((word(&class, 0x28), word32(&class, 0x30), word32(&class, 0x34)), (0xD_0000, 4, 1));
            assert_eq!((word(&property, 0x18), word32(&property, 0x20)), (0xB_0000, 0x90));
            assert_eq!(array, vec![0xC_0000]);
        }
        _ => panic!("not registered"),
    }
    st.buffer = Some(0);
    assert!(matches!(register_type_with_prop(&m, "Own", "speed", st), PropClassStep::Register { array, .. } if array.is_empty()));
    st.back = Some(0x2_0000);
    assert!(matches!(register_type_with_prop(&m, "Own", "speed", st), PropClassStep::Done(Some(0xB_0000))));
    let p = build_property(0xA_0000, "speed", 0xB_0000, 0x90);
    assert_eq!(p.len(), 0x30);
    assert_eq!((word(&p, 0), word(&p, 8), word(&p, 0x18), word32(&p, 0x20)), (0xA_0000, cname("speed"), 0xB_0000, 0x90));
    assert_eq!(registered(5, 0x2_0000), Some(5));
    assert_eq!(registered(5, 0), None);
}

#[test]
fn an_implausible_alignment_becomes_eight() {
    let mut d = image(0x100, &[(0, 1)]);
    put32(&mut d, 0x68, 8);
    put32(&mut d, 0x74, 65);
    let v = register_type_alias(&memory(vec![(CLS, d)]), "T", 0, CLS).unwrap();
    assert_eq!(word32(&v, 0x74), 8);
}

#[test]
fn allocators_come_from_empty_slots_alone() {
    let m = donor();
    let mut v = vec![0u8; CCLASS_SIZE];
    fix_embedded_allocator_vtables(&m, &mut v, CLS);
    let set: Vec<usize> = (0..CCLASS_SIZE).step_by(8).filter(|o| word(&v, *o) != 0).collect();
    assert_eq!(set, vec![0xA0, 0xD0]);
}

// ---- answers ----

#[test]
fn natives_on_bits() {
    assert_eq!(bits_answer(BitOp::Test, 1, &vec![0b1010, 1]), vec![1]);
    assert_eq!(bits_answer(BitOp::Test, 1, &vec![0x100, 8]), vec![0]);
    assert_eq!(bits_answer(BitOp::Assign, 2, &vec![0, 9, 1]), vec![0, 2]);
    assert_eq!(bits_answer(BitOp::ShiftLeft, 1, &vec![0xFF, 4]), vec![0xF0]);
    assert_eq!(bits_answer(BitOp::ShiftRight, 4, &vec![0b1000, 3]), vec![1, 0, 0, 0]);
    assert_eq!(bits_answer(BitOp::Test, 8, &vec![]), vec![0]);
    assert_eq!(as_signed(0xFFFF_FFFF), -1);
    assert_eq!(as_signed(0x1_0000_0005), 5);
}

#[test]
fn natives_on_hashes_have_default_seeds() {
    let t = vec![Some("hello".to_string())];
    assert_eq!(hash_answer(HashOp::Fnv64, &vec![], &t), fnv1a64(b"hello").to_le_bytes().to_vec());
    assert_eq!(hash_answer(HashOp::Fnv32, &vec![0], &t), fnv1a32(b"hello").to_le_bytes().to_vec());
    assert_eq!(hash_answer(HashOp::Murmur, &vec![0, 9], &t), murmur3_32(b"hello", 9).to_le_bytes().to_vec());
    assert_eq!(hash_answer(HashOp::Murmur, &vec![], &vec![None]), murmur3_32(b"", 0x5eed_ba5e).to_le_bytes().to_vec());
}

#[test]
fn natives_on_numbers() {
    let t = |s: &str| vec![Some(s.to_string())];
    assert_eq!(number_answer(true, 1, &vec![], &t("-1")), vec![0xFF]);
    assert_eq!(number_answer(false, 2, &vec![0, 16], &t("0x1234")), vec![0x34, 0x12]);
    assert_eq!(number_answer(true, 4, &vec![], &t("12x")), vec![0, 0, 0, 0]);
    assert_eq!(number_answer(true, 8, &vec![], &vec![]), vec![0; 8]);
}

#[test]
fn natives_on_texts() {
    let t = vec![Some("CAFÉ com leite".to_string())];
    assert_eq!(read_back(&text_answer(TextOp::Left, &vec![0, 4], &t).unwrap()), "CAFÉ");
    assert_eq!(read_back(&text_answer(TextOp::Right, &vec![0, 5], &t).unwrap()), "leite");
    assert_eq!(read_back(&text_answer(TextOp::Mid, &vec![0, 5, 3], &t).unwrap()), "com");
    assert_eq!(read_back(&text_answer(TextOp::Lower, &vec![], &t).unwrap()), "café com leite");
    assert_eq!(read_back(&text_answer(TextOp::Upper, &vec![], &t).unwrap()), "CAFÉ COM LEITE");
    assert!(text_answer(TextOp::Lower, &vec![], &vec![Some("x".repeat(20))]).is_none());
    assert_eq!(length_answer(&t), vec![14, 0, 0, 0]);
    assert_eq!(name_answer(&vec![0x1234]), 0x1234u64.to_le_bytes().to_vec());
}

#[test]
fn a_found_probe_is_reported() {
    let row = ProbeRow { index: 0, prop: 0x5000, name: 7, offset: 0x48, ty: 0x600 };
    let p = Probe::Found { cls: 0x9000, count: 1, rows: vec![row], value: Some(5) };
    assert_eq!(
        probe_report("hp", 0x9000, 0x7000, &p, &vec!["health".to_string()], true),
        "[refl] 'hp': cls=0x9000 obj=0x7000\n  props @ cls=0x9000 count=1\n    [00] 'health' vo=0x48 ty=0x600\n  GET(obj vivo vo=0x48) = 0x5 (read-only — prova get em objeto real)\n  round-trip(fake vo=0x48): u32 0xDEADBEEF->0xdeadbeef OK=true | f32 1.5->1.5 OK=true\n"
    );
}

#[test]
fn calls_with_too_many_arguments_are_refused() {
    let args = vec![Arg::CName(1), Arg::CName(2)];
    assert!(call_func(1, true, &vec![7], &args).is_none());
    assert!(call_func(2, false, &vec![], &args).is_none());
    assert!(call_func(2, true, &vec![7, 8], &args).is_some());
}
