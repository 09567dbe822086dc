use bwms::boot::{
    area_name, auto_continue, cpvr_mode_next, cpvr_mode_prev, cpvr_read_mode, cpvr_write_mode,
    deref_input_ctx, fire_lever_direct, item_name, log_due, marker_flag, marker_signed,
    marker_unsigned, proceed, read_start_state, require, splash_ends_at_menu, switched_on,
    StartState,
};
use bwms::callbacks::{
    accepts, register_handled,
    carried, dispatched, get_service, key_state,
    make_entitylifecycleevent_arg, make_gamesessionevent_arg, make_keyinputevent_arg,
    make_resourceevent_arg, session_state, ByObject, Callback, Callbacks, Handlers,
    KeyState, ServiceStep, ServiceWorld, SessionState,
};
use bwms::classes::{base_class, class_outcome, class_report, single_object, ClassOutcome, ForgedClass, Single};
use bwms::flats::{
    create_record_rt, dump_line, get_flat_value, needs_getter, singleton, Candidate, CreateState,
    CreateStep,
};
use bwms::forge::Routes;
use bwms::hashes::{record_type_key, resource_path_hash, tweak_db_id};
use bwms::hooks::{
    bind_finished, bind_orch_hook, bink_open_replacement, branch_reach, capture, capture_wanted,
    exec_end, exec_replacement, getfn_hook, guard_hook, in_game, phase_dispatcher_replacement,
    provide_blackwallping, selfboot_if_needed, BindState, Captured, ExecAnswer, ExecCall, ExecEnd,
    ExecState, HookDecision, MethodRing, Provided, Provision, EXEC_PROLOGUE, RING_SIZE,
};
use bwms::links::{index_growth, reslink_stat, Factories, Links};
use bwms::handlers::{answer_call, handler, route_natives, Answer, Handler};
use bwms::live::{count_line, dump_report, dump_singleton, live_flat, once_if_marked, probe_flat, write_flat, CountAt};
use bwms::memory::{Memory, Region};
use bwms::natives::{
    compose_params, name_prototypes, native_list, prototypes, smoke_prototypes, probe, register_all, register_argful_by_types,
    register_codeware_facade, register_global, register_global_argful, register_smoke,
    regmethod_selftest, set_params, Params, RegisterPlan,
};
use bwms::probes::{
    dprobe_pathlike, drain_ring, drain_sweep, dump_factory_index, initarch_replacement, is_cbnz,
    is_movz, opened_pattern, prologue_matches, read_path_arg, scan_file_names, test_relocator, test_vtable_pool,
    HookCycle, PathIn, RelocVerdict, SweepSlot,
};
use std::collections::HashSet;

fn image(size: usize, words: &[(usize, u64)]) -> Vec<u8> {
    let mut v = vec![0u8; size];
    for (off, w) in words {
        v[*off..*off + 8].copy_from_slice(&w.to_le_bytes());
    }
    v
}

fn put32(v: &mut [u8], off: usize, w: u32) {
    v[off..off + 4].copy_from_slice(&w.to_le_bytes());
}

fn memory(parts: Vec<(u64, Vec<u8>)>) -> Memory {
    Memory { regions: parts.into_iter().map(|(base, bytes)| Region { base, bytes }).collect() }
}

// ---- callbacks ----

#[test]
fn callbacks_are_registered_and_removed() {
    let mut c = Callbacks::new();
    assert!(!c.register_callback(0, 0x2_0000, 3));
    assert!(!c.register_callback(1, 0, 3));
    assert!(!c.register_callback(1, 0x2_0000, 0));
    assert!(c.register_callback(1, 0x2_0000, 10));
    assert!(c.register_callback(1, 0x2_0000, 11));
    assert!(c.register_callback(1, 0x3_0000, 10));
    assert!(c.register_callback(2, 0x2_0000, 10));
    assert!(c.register_callback(1, 5, 10));
    assert_eq!(c.fire_event_args_by_hash(1), vec![(0x2_0000, 10), (0x2_0000, 11), (0x3_0000, 10)]);
    assert_eq!(c.unregister_callback(1, 0x2_0000, 11), 1);
    assert_eq!(c.fire_event_args_by_hash(1), vec![(0x2_0000, 10), (0x3_0000, 10)]);
    assert_eq!(c.unregister_callback(1, 0x2_0000, 0), 1);
    assert_eq!(c.fire_event_args_by_hash(1), vec![(0x3_0000, 10)]);
    assert_eq!(c.fire_event_args_by_hash(2), vec![(0x2_0000, 10)]);
    assert_eq!(c.unregister_callback(9, 9, 9), 0);
}

#[test]
fn events_fire_by_name() {
    let mut c = Callbacks::new();
    assert!(c.register_callback(bwms::rtti::cname("Session/Ready"), 0x2_0000, 10));
    assert_eq!(c.fire_event("Session/Ready"), vec![(0x2_0000, 10)]);
    assert_eq!(c.fire_event_args("Session/Ready"), vec![(0x2_0000, 10)]);
    assert!(c.fire_event("Session/End").is_empty());
    assert_eq!(dispatched(&vec![true, false, true]), 2);
    assert_eq!(dispatched(&vec![]), 0);
}

#[test]
fn registrations_are_reported() {
    let protos = vec![0, 0x2_0000];
    assert!(register_smoke(&vec![0, 5], true, 0x2_0000, None).starts_with("[reg] nenhum global"));
    assert!(register_smoke(&protos, false, 0, None).ends_with("registro FALHOU ✗"));
    assert!(register_smoke(&protos, true, 0, None).contains("re-resolve falhou"));
    assert!(register_smoke(&protos, true, 0x2_0000, None).contains("call_func não completou"));
    assert!(register_smoke(&protos, true, 0x2_0000, Some(1)).contains("(Bool retornado = 1). Routing-hook OK"));
    assert_eq!(
        register_codeware_facade(true, true, false),
        "[reg] Codeware.Version=true Codeware.Require=false (precisa do .reds do Codeware carregado p/ a classe existir)"
    );
    assert_eq!(
        register_codeware_facade(false, true, true),
        "[reg] sem protótipo de método (AddGodMode não resolveu)"
    );
}

#[test]
fn handlers_steer_their_callback() {
    let mut c = Callbacks::new();
    let mut h = Handlers::new();
    c.register_callback(1, 0x2_0000, 10);
    c.register_callback(1, 0x2_0000, 11);
    h.track(0x9000, Callback { event: 1, target: 0x2_0000, function: 10 });
    assert!(h.is_registered(0x9000));
    assert!(!h.is_registered(0x9001));
    assert!(h.has_target(0x9000, 77));
    assert!(h.add_target(0x9000, 5));
    assert!(h.add_target(0x9000, 5));
    assert!(!h.add_target(0x9000, 0));
    assert!(!h.add_target(0x9001, 5));
    assert!(h.has_target(0x9000, 5));
    assert!(!h.has_target(0x9000, 77));
    h.remove_target(0x9000, 5);
    assert!(h.has_target(0x9000, 77));
    h.set_run_mode(0x9000, 2);
    h.set_lifetime(0x9000, 3);
    assert_eq!((h.list[0].1.run_mode, h.list[0].1.lifetime), (2, 3));
    assert_eq!(h.unregister(0x9000, &mut c), 1);
    assert!(!h.is_registered(0x9000));
    assert_eq!(c.fire_event_args_by_hash(1), vec![(0x2_0000, 11)]);
    assert_eq!(h.unregister(0x9001, &mut c), 0);
}

#[test]
fn events_carry_values() {
    let mut keys: ByObject<KeyState> = ByObject::new();
    keys.put(7, KeyState { action: 2, key: 99, shift: true, control: false, alt: true });
    assert_eq!(key_state(&keys, 7).key, 99);
    assert_eq!(key_state(&keys, 8), KeyState { action: 0, key: 0, shift: false, control: false, alt: false });
    let mut sessions: ByObject<SessionState> = ByObject::new();
    sessions.put(1, SessionState { pregame: false, restored: true });
    assert!(session_state(&sessions, 1).restored);
    assert!(!session_state(&sessions, 2).restored);
    let mut paths: ByObject<u64> = ByObject::new();
    paths.put(3, 0xABCD);
    assert_eq!((carried(&paths, 3), carried(&paths, 4)), (0xABCD, 0));
}

#[test]
fn events_are_made_of_objects() {
    let mut keys: ByObject<KeyState> = ByObject::new();
    assert_eq!(make_keyinputevent_arg(&mut keys, 0, 99, true, false, true), None);
    assert_eq!(make_keyinputevent_arg(&mut keys, 7, 99, true, false, true), Some(7));
    assert_eq!(key_state(&keys, 7), KeyState { action: 2, key: 99, shift: true, control: false, alt: true });
    let mut sessions: ByObject<SessionState> = ByObject::new();
    assert_eq!(make_gamesessionevent_arg(&mut sessions, 1, true, false), Some(1));
    assert_eq!(session_state(&sessions, 1), SessionState { pregame: true, restored: false });
    let mut values: ByObject<u64> = ByObject::new();
    assert_eq!(make_entitylifecycleevent_arg(&mut values, 3, 0xE0), Some(3));
    assert_eq!(make_resourceevent_arg(&mut values, 4, 0xAB), Some(4));
    assert_eq!(make_resourceevent_arg(&mut values, 0, 0xAC), None);
    assert_eq!((carried(&values, 3), carried(&values, 4), values.list.len()), (0xE0, 0xAB, 2));
}

#[test]
fn services_are_made_once() {
    let mut s: ByObject<u64> = ByObject::new();
    let none = ServiceWorld { registry: false, class: 0, base: 0, made_class: None, made_instance: None };
    assert_eq!(get_service(&mut s, 0, none), ServiceStep::Answer { instance: 0, cached: false });
    assert_eq!(get_service(&mut s, 5, none), ServiceStep::Answer { instance: 0, cached: false });
    let mut w = ServiceWorld { registry: true, base: 0x2_0000, ..none };
    assert_eq!(get_service(&mut s, 5, w), ServiceStep::MakeClass);
    w.made_class = Some(0x3_0000);
    assert_eq!(get_service(&mut s, 5, w), ServiceStep::MakeInstance);
    w.made_instance = Some(0x4_0000);
    assert_eq!(get_service(&mut s, 5, w), ServiceStep::Answer { instance: 0x4_0000, cached: false });
    assert_eq!(get_service(&mut s, 5, none), ServiceStep::Answer { instance: 0x4_0000, cached: true });
    let orphan = ServiceWorld { registry: true, ..none };
    assert_eq!(get_service(&mut s, 6, orphan), ServiceStep::Answer { instance: 0, cached: false });
}

// ---- classes ----

#[test]
fn forged_classes() {
    assert_eq!(ForgedClass::KeyInputEvent.name(), "KeyInputEvent");
    assert_eq!(ForgedClass::KeyInputEvent.parent(), "CallbackSystemEvent");
    assert_eq!(ForgedClass::KeyInputEvent.methods(), vec!["GetKey", "IsShiftDown", "IsControlDown", "IsAltDown"]);
    assert_eq!(ForgedClass::CallbackSystem.parent(), "IGameSystem");
    assert!(!ForgedClass::ScriptableService.is_instantiable());
    assert_eq!(class_outcome(ForgedClass::CallbackSystem, 0, 1, true), ClassOutcome::NoParent);
    assert_eq!(class_outcome(ForgedClass::CallbackSystem, 0x2_0000, 0, true), ClassOutcome::NoClass);
    assert_eq!(class_outcome(ForgedClass::CallbackSystem, 0x2_0000, 1, false), ClassOutcome::NoPrototype);
    assert_eq!(class_outcome(ForgedClass::CallbackSystem, 0x2_0000, 1, true), ClassOutcome::Made);
    assert_eq!(class_outcome(ForgedClass::ScriptableService, 0, 1, false), ClassOutcome::Made);
    assert_eq!(base_class(0, 0x2_0000, 3), 0x2_0000);
    assert_eq!(base_class(0x5_0000, 0x2_0000, 3), 0x5_0000);
    assert_eq!(base_class(0, 0, 3), 3);
}

#[test]
fn single_objects_are_made_once() {
    let mut kept = 0;
    assert_eq!(single_object(&mut kept, false, None), Single::Answer(0));
    assert_eq!(single_object(&mut kept, true, None), Single::Make);
    assert_eq!(single_object(&mut kept, true, Some(0)), Single::Answer(0));
    assert_eq!(single_object(&mut kept, true, Some(7)), Single::Answer(7));
    assert_eq!(single_object(&mut kept, true, Some(8)), Single::Answer(7));
}

// ---- links ----

#[test]
fn redirects_of_resources() {
    let mut l = Links::new();
    assert_eq!(l.reslink_lookup(5), 5);
    l.reslink_add(5, 50);
    l.reslink_add(6, 60);
    l.reslink_add(5, 51);
    assert_eq!(l.pairs, vec![(6, 60), (5, 51)]);
    assert_eq!(l.reslink_lookup(5), 51);
    assert_eq!(l.reslink_lookup(6), 60);
    assert_eq!(l.reslink_lookup(7), 7);
    assert_eq!(reslink_stat(&l), (2, 2, true));
    l.reslink_set(1, 2);
    assert_eq!(l.pairs, vec![(1, 2)]);
    assert_eq!(reslink_stat(&l), (1, 0, false));
}

#[test]
fn redirects_from_a_file() {
    let mut l = Links::new();
    let n = l.reslink_file("# comment\n\n base/a.ent | base\\b.ent \nno bar\nBASE/A.ENT|base\\c.ent\n");
    assert_eq!(n, 2);
    assert_eq!(l.pairs, vec![(resource_path_hash("base\\a.ent"), resource_path_hash("base\\c.ent"))]);
    l.reslink_path("x", "y");
    assert_eq!(l.reslink_lookup(resource_path_hash("X")), resource_path_hash("y"));
}

#[test]
fn watched_paths_are_seen() {
    let mut l = Links::new();
    l.reslink_watch("base\\watched.ent");
    let h = resource_path_hash("base\\watched.ent");
    assert!(!l.seen);
    assert_eq!(l.reslink_lookup(1), 1);
    assert!(!l.seen);
    assert_eq!(l.reslink_lookup(h), h);
    assert!(l.seen);
}

#[test]
fn tables_of_items() {
    let mut f = Factories::new();
    assert_eq!(f.factory_file("mod\\a.csv\n# no\n\nmod\\b.csv\nMOD/a.csv\n"), 3);
    assert_eq!(f.paths, vec![resource_path_hash("mod\\a.csv"), resource_path_hash("mod\\b.csv")]);
    f.factory_add("mod\\b.csv");
    assert_eq!(f.paths.len(), 2);
    assert_eq!(f.factory_replacement(0xf94f_aab4_ff97_393a), f.paths);
    assert!(f.factory_replacement(0x433d_7809_2c64_2133).is_empty());
    assert_eq!(resource_path_hash("base\\gameplay\\factories\\items\\object_pool_budgets.csv"), 0x433d_7809_2c64_2133);
}

#[test]
fn growth_of_an_index() {
    assert_eq!(index_growth(&vec![1, 5, 9, 0], &vec![1, 7, 3, 200_000]), vec![(4, 5, 7)]);
    assert!(index_growth(&vec![], &vec![]).is_empty());
}

// ---- probes ----

#[test]
fn hashes_of_paths_are_told_from_pointers() {
    assert!(dprobe_pathlike(0xf94f_aab4_ff97_393a));
    assert!(!dprobe_pathlike(0));
    assert!(!dprobe_pathlike(0xffff_ffff));
    assert!(!dprobe_pathlike(0x10_0000_0000_00));
    assert!(!dprobe_pathlike(0x7fff_1234_5678));
    assert!(dprobe_pathlike(0x1800_0000_0000));
}

#[test]
fn rings_are_drained_by_frequency() {
    let ring = [9, 0, 7, 9, 7, 3, 0, 9, 2];
    let (n, top) = drain_ring(&ring, false, 3);
    assert_eq!(n, 4);
    let v: Vec<(u64, u64)> = top.iter().map(|t| (t.value, t.count)).collect();
    assert_eq!(v, vec![(9, 3), (7, 2), (2, 1)]);
    let p = 0xf94f_aab4_ff97_393a;
    let (n, top) = drain_ring(&[1, p, 2, p], true, 64);
    assert_eq!((n, top[0].value, top[0].count), (1, p, 2));
    assert_eq!(drain_ring(&[], false, 5).0, 0);
}

#[test]
fn watched_functions_are_reported() {
    let p = 0xf94f_aab4_ff97_393a;
    let m = memory(vec![(0x2000, image(8, &[(0, p)]))]);
    let slot = |index, count, x0, x1, x2| SweepSlot { index, count, x0, x1, x2 };
    let r = drain_sweep(&m, 0x55, &vec![slot(0, 2, 0x55, 0, p), slot(1, 0, 0, 0, 0), slot(2, 9, 0, 0x2000, 5), slot(3, 2, 1, 2, 3)]);
    let order: Vec<usize> = r.iter().map(|l| l.slot.index).collect();
    assert_eq!(order, vec![2, 0, 3]);
    assert_eq!(r[0].path, PathIn::X1(p));
    assert_eq!(r[1].path, PathIn::X2(p));
    assert_eq!(r[2].path, PathIn::Nowhere);
    assert!(r[1].is_depot && !r[0].is_depot);
}

#[test]
fn arrays_in_an_index() {
    let mut idx = image(0x400, &[(0x10, 0x9000), (0x40, 0x1_0500_0000)]);
    put32(&mut idx, 0x18, 8);
    put32(&mut idx, 0x1C, 3);
    put32(&mut idx, 0x48, 8);
    put32(&mut idx, 0x4C, 3);
    let m = memory(vec![(0x2000, idx), (0x9000, vec![0; 8])]);
    let v = dump_factory_index(&m, 0, 0x2000).unwrap();
    assert_eq!(v.len(), 1);
    assert_eq!((v[0].off, v[0].ptr, v[0].cap, v[0].count), (0x10, 0x9000, 8, 3));
    assert!(dump_factory_index(&m, 0, 0).is_none());
    assert!(dump_factory_index(&m, 0, 0x9000).is_none());
}

#[test]
fn texts_in_memory() {
    let mut base = image(0x80, &[(0x10, 0x9000)]);
    base[0x40..0x52].copy_from_slice(b"basegame_1.archive");
    let mut text = b"dir/content".to_vec();
    text.push(0);
    let m = memory(vec![(0x2000, base), (0x9000, text)]);
    assert_eq!(read_path_arg(&m, 0), "<null>");
    assert_eq!(read_path_arg(&m, 0x2040), "basegame_1.archive");
    assert_eq!(read_path_arg(&m, 0x2010), "(via ptr) dir/content");
    assert_eq!(read_path_arg(&m, 0x2020), "<não-string>");
    let found = scan_file_names(&m, 0x2000);
    assert_eq!(found[0], (0x10, "(via ptr) dir/content".to_string()));
    assert_eq!(found[1], (0x40, "basegame_1.archive".to_string()));
    assert!(scan_file_names(&m, 0).is_empty());
    assert_eq!(opened_pattern(&m, 0x2040 - 0x78), Some(("basegame_1.archive".to_string(), false)));
    assert_eq!(opened_pattern(&m, 0x2010 - 0x78), Some(("(via ptr) dir/content".to_string(), true)));
}

#[test]
fn sets_of_archives() {
    let mut depot = image(0x80, &[(0x68, 0x9000)]);
    put32(&mut depot, 0x74, 5);
    let m = memory(vec![(0x2000, depot), (0x9000, image(0x150, &[(0, 1), (8, 2), (0x140, 3), (0x148, 4)]))]);
    let s = initarch_replacement(&m, 0x2000).unwrap();
    assert_eq!((s.entries, s.count), (0x9000, 5));
    assert_eq!(s.heads, vec![(1, 2), (3, 4)]);
    assert!(initarch_replacement(&m, 0).is_none());
}

#[test]
fn code_is_checked_before_it_is_hooked() {
    let expected: [u32; 4] = [0x90046d48, 0x910f6108, 0xb9402100, 0xd65f03c0];
    let mut code = Vec::new();
    for e in expected {
        code.extend_from_slice(&e.to_le_bytes());
    }
    assert!(prologue_matches(&code, &expected));
    assert!(!prologue_matches(&code[..12], &expected));
    let mut other = code.clone();
    other[15] ^= 1;
    assert!(!prologue_matches(&other, &expected));
    assert!(is_movz(0xD280_0001) && !is_movz(0x90046d48));
    assert!(is_cbnz(0xB500_0061) && !is_cbnz(0xB400_0061));
    let cycle = |first: u32, after: &Vec<u8>| Some(HookCycle { first, after: after.clone() });
    let v = |c, a, b| test_relocator(&c, &expected, false, &a, &b);
    assert_eq!(v(None, None, None), RelocVerdict::Unreadable);
    assert_eq!(v(Some(other.clone()), None, None), RelocVerdict::Changed);
    assert_eq!(v(Some(code.clone()), None, None), RelocVerdict::NotHooked);
    assert_eq!(
        v(Some(code.clone()), cycle(0xD280_0001, &code), cycle(0xD280_0001, &other)),
        RelocVerdict::Done { relocated: true, restored: true, again: Some(false) }
    );
    assert_eq!(
        v(Some(code.clone()), cycle(1, &other), None),
        RelocVerdict::Done { relocated: false, restored: false, again: None }
    );
    assert!(test_vtable_pool(1, 2, Some(1), 2, 1, 9, 9));
    assert!(!test_vtable_pool(1, 2, Some(1), 2, 1, 9, 8));
    assert!(!test_vtable_pool(1, 2, None, 2, 1, 9, 9));
}

// ---- hooks ----

#[test]
fn the_runtime_installs_itself_in_the_game_alone() {
    let here = vec!["/usr/lib/x.dylib".to_string(), "/Games/Cyberpunk2077".to_string()];
    let elsewhere = vec!["/bin/test".to_string()];
    assert!(in_game(&here) && !in_game(&elsewhere));
    assert_eq!(selfboot_if_needed(true, &here, Some(EXEC_PROLOGUE)), HookDecision::Idle);
    assert_eq!(selfboot_if_needed(false, &elsewhere, Some(EXEC_PROLOGUE)), HookDecision::Idle);
    assert_eq!(selfboot_if_needed(false, &here, None), HookDecision::Unreadable);
    assert_eq!(selfboot_if_needed(false, &here, Some(5)), HookDecision::Changed(5));
    assert_eq!(selfboot_if_needed(false, &here, Some(EXEC_PROLOGUE)), HookDecision::Install);
    assert_eq!(guard_hook(false, Some(1), 1), HookDecision::Idle);
    assert_eq!(branch_reach(0x800_0000, 0), (128, false));
    assert_eq!(branch_reach(0, 0x7FF_FFFF), (127, true));
}

fn exec_state() -> ExecState {
    ExecState { override_name: 0, override_value: 0, wanted: 0, wanted_ctx: 0, wanted_ret: 0, routes: Routes::new(), calls: 0 }
}

#[test]
fn calls_of_the_engine_are_answered() {
    let mut st = exec_state();
    let call = ExecCall { func: 5, ctx: 6, ret: 7, out: 8, method: Some(9) };
    assert_eq!(exec_replacement(&mut st, call), ExecAnswer::Forward { tick: true });
    assert_eq!(exec_replacement(&mut st, call), ExecAnswer::Forward { tick: false });
    st.calls = 2048;
    assert_eq!(exec_replacement(&mut st, call), ExecAnswer::Forward { tick: true });
    st.wanted = 5;
    exec_replacement(&mut st, call);
    assert_eq!((st.wanted_ctx, st.wanted_ret), (6, 7));
    exec_replacement(&mut st, ExecCall { ctx: 66, ..call });
    assert_eq!(st.wanted_ctx, 6);
    st.routes.add_route(5, 50);
    let before = st.calls;
    assert_eq!(exec_replacement(&mut st, call), ExecAnswer::Route(50));
    assert_eq!(st.calls, before);
    st.override_name = 9;
    st.override_value = -3;
    assert_eq!(exec_replacement(&mut st, call), ExecAnswer::Override(-3));
    assert_eq!(exec_replacement(&mut st, ExecCall { out: 0, ..call }), ExecAnswer::Route(50));
    assert_eq!(exec_end(true, 1, 1), ExecEnd::Suppressed);
    assert_eq!(exec_end(false, 0, 1), ExecEnd::NoEngine);
    assert_eq!(exec_end(false, 1, 0), ExecEnd::Call { watch_after: false });
}

#[test]
fn the_player_is_found_by_class() {
    assert!(capture_wanted(5, 6, 7, true));
    assert!(!capture_wanted(0, 6, 7, true) && !capture_wanted(6, 6, 7, true) && !capture_wanted(7, 6, 7, true));
    assert!(!capture_wanted(5, 6, 7, false));
    assert_eq!(capture(1, 1, 2), Captured::Transactions);
    assert_eq!(capture(2, 1, 2), Captured::Player);
    assert_eq!(capture(2, 0, 2), Captured::Nothing);
    assert_eq!(capture(3, 1, 2), Captured::Nothing);
}

#[test]
fn the_last_methods_are_remembered() {
    let mut ring = MethodRing::new();
    assert!(ring.dump().is_empty());
    for i in 1..=3 {
        ring.discovery_ring(i);
    }
    assert_eq!(ring.dump(), vec![1, 2, 3]);
    for i in 4..=600u64 {
        ring.discovery_ring(i);
    }
    let all = ring.dump();
    assert_eq!(all.len(), RING_SIZE);
    assert_eq!((all[0], all[511]), (89, 600));
}

#[test]
fn natives_on_demand() {
    assert_eq!(getfn_hook(0, 5, 1, 1), Provided::Missing);
    assert_eq!(getfn_hook(1, 5, 1, 1), Provided::Found(5));
    assert_eq!(getfn_hook(1, 0, 1, 1), Provided::Ours);
    assert_eq!(getfn_hook(1, 0, 2, 1), Provided::Missing);
    assert_eq!(provide_blackwallping(9, 0, &vec![]), Provision::Cached(9));
    assert_eq!(provide_blackwallping(0, 0, &vec![0x2_0000]), Provision::Nothing);
    assert_eq!(provide_blackwallping(0, 1, &vec![0, 0x2_0000, 0x3_0000]), Provision::Make(0x2_0000));
    assert_eq!(provide_blackwallping(0, 1, &vec![0]), Provision::Nothing);
    let mut st = BindState { done: false, running: false };
    assert!(bind_orch_hook(&mut st));
    assert!(!bind_orch_hook(&mut st));
    bind_finished(&mut st);
    assert!(!bind_orch_hook(&mut st));
}

#[test]
fn the_start_is_shortened() {
    assert_eq!(phase_dispatcher_replacement(Some(1), true), Some(3));
    assert_eq!(phase_dispatcher_replacement(Some(2), true), Some(3));
    assert_eq!(phase_dispatcher_replacement(Some(4), true), Some(4));
    assert_eq!(phase_dispatcher_replacement(Some(1), false), Some(1));
    assert_eq!(phase_dispatcher_replacement(None, true), None);
    let mut n = 0;
    for _ in 0..6 {
        assert!(bink_open_replacement(&mut n, 1, 0, true));
    }
    assert!(!bink_open_replacement(&mut n, 1, 0, true));
    assert!(!bink_open_replacement(&mut n, 1, 5, true));
    assert_eq!(n, 7);
}

// ---- boot ----

#[test]
fn switches_of_the_start() {
    let t = |s: &str| Some(s.to_string());
    assert!(auto_continue(false, true) && !auto_continue(true, true) && !auto_continue(false, false));
    assert!(switched_on(true, false) && !switched_on(false, false));
    assert!(splash_ends_at_menu(false, false) && !splash_ends_at_menu(false, true));
    assert_eq!((marker_flag(&t(" 1\n")), marker_flag(&t("2")), marker_flag(&None)), (1, 0, 0));
    assert_eq!((marker_signed(&t("-150\n")), marker_signed(&t("x")), marker_signed(&None)), (-150, 0, 0));
    assert_eq!((marker_unsigned(&t("3")), marker_unsigned(&t("-3")), marker_unsigned(&None)), (3, 0, 0));
    assert!(log_due(0) && log_due(360) && !log_due(1));
}

#[test]
fn modes_are_kept_in_range() {
    let t = |s: &str| Some(s.to_string());
    assert_eq!(cpvr_read_mode(&t("2")), 2);
    assert_eq!(cpvr_read_mode(&t("9")), 3);
    assert_eq!(cpvr_read_mode(&t("-4")), 0);
    assert_eq!(cpvr_read_mode(&None), 0);
    assert_eq!(cpvr_write_mode(7), ("3".to_string(), true));
    assert_eq!(cpvr_write_mode(0), ("0".to_string(), false));
    assert_eq!((cpvr_mode_next(3), cpvr_mode_next(1), cpvr_mode_prev(0), cpvr_mode_prev(2)), (3, 2, 0, 1));
    for m in 0..=3 {
        assert_eq!(cpvr_read_mode(&Some(cpvr_write_mode(m).0)), m);
    }
}

#[test]
fn clothes_have_names() {
    assert_eq!((area_name(1), area_name(6), area_name(7)), ("OuterChest", "Face", "?"));
    assert_eq!(item_name(tweak_db_id("Items.Fixer_01_Set_TShirt")), "Items.Fixer_01_Set_TShirt");
    assert_eq!(item_name(0), "(outro/vazio)");
}

fn start(state: u8, phase: u8, guard: u8) -> Memory {
    let mut sm = image(0x108, &[(0x70, 0x3000)]);
    sm[0xd4] = state;
    sm[0x84] = phase;
    sm[0xe8] = guard;
    memory(vec![
        (0x2000, sm),
        (0x3000, image(0x290, &[(0x288, 0x4000)])),
        (0x4000, image(0x20, &[(0x18, 0x5000)])),
        (0x5000, image(0x1b8, &[(0x1b0, 0x6000)])),
        (0x6000, vec![0; 0x573]),
    ])
}

#[test]
fn the_lever_fires_once_and_only_at_rest() {
    let m = start(1, 1, 0);
    assert_eq!(deref_input_ctx(&m, 0x2000), 0x6000);
    assert_eq!(read_start_state(&m, 0x2000), Some(StartState { state: 1, phase: 1, guard: 0 }));
    let mut done = false;
    assert!(!fire_lever_direct(&m, false, 0x2000, &mut done));
    assert!(!fire_lever_direct(&m, true, 0, &mut done));
    assert!(!fire_lever_direct(&start(2, 1, 0), true, 0x2000, &mut done));
    assert!(!fire_lever_direct(&start(1, 0, 0), true, 0x2000, &mut done));
    assert!(!fire_lever_direct(&start(1, 1, 1), true, 0x2000, &mut done));
    assert!(!done);
    assert!(fire_lever_direct(&m, true, 0x2000, &mut done));
    assert!(!fire_lever_direct(&m, true, 0x2000, &mut done));
    let mut once = false;
    assert!(!proceed(&m, false, 0x2000, &mut once));
    assert!(proceed(&start(4, 1, 0), true, 0x2000, &mut once));
    assert!(!proceed(&m, true, 0x2000, &mut once));
}

#[test]
fn versions_are_compared() {
    assert!(require((1, 0, 0), (1, 0, 0)));
    assert!(require((1, 0, 0), (0, 9, 9)));
    assert!(!require((1, 0, 0), (1, 0, 1)));
    assert!(!require((1, 0, 0), (1, 1, 0)));
    assert!(!require((1, 9, 9), (2, 0, 0)));
}

// ---- natives ----

#[test]
fn every_native_has_its_own_name() {
    let all = native_list(true, true);
    assert_eq!(all.len(), 9 + 10 + 6 + 8 + 10 + 1 + 3 + 3 + 16 + 3 + 8 + 6 + 8 + 6);
    let names: HashSet<&str> = all.iter().map(|n| n.name).collect();
    assert_eq!(names.len(), all.len());
    assert_eq!(all[0].name, "BlackwallPing");
    assert_eq!(all.last().unwrap().name, "BwmsPollerTick");
    assert!(all.iter().any(|n| n.name == "BitSet16" && matches!(&n.params, Params::Types(t) if *t == vec!["Uint16", "Int32", "Bool"])));
    let fewer = native_list(false, false);
    assert_eq!(fewer.len(), all.len() - 13);
    assert!(fewer.iter().all(|n| !n.name.starts_with("BwmsCpvr") && n.name != "BwmsGetPlayerField"));
}

#[test]
fn natives_are_registered_once() {
    let mut registered = false;
    assert!(matches!(register_all(&mut registered, false, &vec![0x2_0000], &vec![], false), RegisterPlan::Later));
    assert!(matches!(register_all(&mut registered, true, &vec![0], &vec![], false), RegisterPlan::Later));
    assert!(!registered);
    match register_all(&mut registered, true, &vec![0, 0x2_0000], &vec![0x3_0000], false) {
        RegisterPlan::Now { proto, name_proto, natives } => {
            assert_eq!((proto, name_proto), (0x2_0000, Some(0x3_0000)));
            assert!(natives.iter().any(|n| n.name == "BwmsSetPlayerField"));
        }
        _ => panic!("not registered"),
    }
    assert!(registered);
    assert!(matches!(register_all(&mut registered, true, &vec![0x2_0000], &vec![], false), RegisterPlan::Already));
    assert!(register_global(1, 0x2_0000, 0x2_0000));
    assert!(!register_global(0, 0x2_0000, 0x2_0000));
    assert!(!register_global(1, 0, 0x2_0000));
    assert!(register_argful_by_types(0, 0) && !register_argful_by_types(0, 1) && register_argful_by_types(5, 1));
    assert!(regmethod_selftest(1, 2) && !regmethod_selftest(1, 1) && !regmethod_selftest(1, 0));
}

#[test]
fn parameters_are_borrowed() {
    let mut f = image(0xC0, &[(0x28, 0x9000)]);
    put32(&mut f, 0x30, 2);
    let m = memory(vec![(0x2_0000, f), (0x9000, image(16, &[(0, 11), (8, 22)]))]);
    assert_eq!(compose_params(&m, &vec![(0x2_0000, 1), (0x2_0000, 0), (0x5_0000, 0)]), vec![22, 11, 0]);
    let mut v = vec![0u8; 0xC0];
    register_global_argful(&m, &mut v, 0x2_0000);
    assert_eq!(v[0x28..0x30], 0x9000u64.to_le_bytes());
    assert_eq!(v[0x30], 2);
    let mut w = vec![7u8; 0xC0];
    register_global_argful(&m, &mut w, 0);
    assert_eq!(w, vec![7u8; 0xC0]);
    set_params(&mut w, 1, 2);
    assert_eq!((w[0x28], w[0x30], w[0x27], w[0x34]), (1, 2, 7, 7));
}

#[test]
fn the_layout_of_a_native() {
    let m = memory(vec![(0x2_0000, image(0xC0, &[(0, 0x9000), (0x10, 77), (0x18, 0x9000)])), (0x9000, vec![0; 8])]);
    let t = probe(&m, 0x2_0000, 77).unwrap();
    let lines: Vec<&str> = t.lines().collect();
    assert_eq!(lines.len(), 24);
    assert_eq!(lines[0], "  +0x00: 0x0000000000009000 <- vtable (clonar esta)");
    assert_eq!(lines[2], "  +0x10: 0x000000000000004d <- shortName(CName) casou");
    assert_eq!(lines[3], "  +0x18: 0x0000000000009000 PTR(handler?)");
    assert!(probe(&m, 0x9000, 0).is_none());
}

// ---- the live database ----

fn flat_entry(name: &str, offset: u64) -> u64 {
    let b = offset.to_be_bytes();
    (tweak_db_id(name) & 0xFF_FFFF_FFFF) | (b[5] as u64) << 40 | (b[6] as u64) << 48 | (b[7] as u64) << 56
}

fn sorted_entries(names: &[(&str, u64)]) -> Vec<u64> {
    let mut v: Vec<u64> = names.iter().map(|(n, o)| flat_entry(n, *o)).collect();
    v.sort_by_key(|e| (e & 0xFFFF_FFFF, (e >> 32) & 0xFF));
    v
}

#[test]
fn flats_are_found_by_halving() {
    let names = [("Items.a.x", 0x10), ("Items.b.x", 0x010203), ("Items.c.x", 0x40), ("Items.d.x", 0x58)];
    let entries = sorted_entries(&names);
    for (n, o) in names {
        assert_eq!(get_flat_value(&entries, n), Some(o as u32));
    }
    assert_eq!(get_flat_value(&entries, "Items.e.x"), None);
    assert_eq!(get_flat_value(&[], "Items.a.x"), None);
}

#[test]
fn flats_in_memory() {
    let entries = sorted_entries(&[("Items.a.x", 0x10), ("Items.b.x", 0x20)]);
    let mut t = image(0x168, &[(0x40, 0x9000), (0x148, 0xA000)]);
    put32(&mut t, 0x48, 2);
    let mut buf = image(0x40, &[(0x20, 0x1234)]);
    put32(&mut buf, 0x28, 77);
    put32(&mut buf, 0x30, 88);
    let m = memory(vec![(0x2000, t), (0x9000, image(16, &[(0, entries[0]), (8, entries[1])])), (0xA000, buf)]);
    assert_eq!(live_flat(&m, 0x2000, "Items.b.x"), Some(0xA020));
    assert_eq!(live_flat(&m, 0x2000, "Items.z.x"), None);
    assert_eq!(live_flat(&m, 0x7000, "Items.b.x"), None);
    let p = probe_flat(&m, 0x2000, "Items.b.x").unwrap();
    assert_eq!((p.vtable, p.at8, p.at16), (0x1234, 77, 88));
    assert_eq!(write_flat(&m, true, 0x2000, "Items.b.x", 8), Some(0xA028));
    assert_eq!(write_flat(&m, false, 0x2000, "Items.b.x", 8), None);
    let mut done = false;
    assert!(!once_if_marked(&mut done, false));
    assert!(once_if_marked(&mut done, true));
    assert!(!once_if_marked(&mut done, true));
}

#[test]
fn counts_are_found_two_steps_away() {
    let t = image(0x168, &[(0x18, 0x2_0000)]);
    let mut first = image(0x140, &[(0x20, 0x9_0000)]);
    put32(&mut first, 0x40, 176_198);
    let mut second = image(0x140, &[]);
    put32(&mut second, 0x10, 500_000);
    put32(&mut second, 0x14, 500_001);
    let m = memory(vec![(0x1000, t), (0x2_0000, first), (0x9_0000, second)]);
    let (lines, counts) = dump_singleton(&m, 0x1000);
    assert_eq!(lines.len(), 45);
    assert_eq!(lines[3], "[tdb]   +0x018: 0x0000000000020000  (lo=131072 hi=0)");
    assert_eq!(
        counts,
        vec![
            CountAt { root: 0x18, inner: None, off: 0x40, count: 176_198 },
            CountAt { root: 0x18, inner: Some(0x20), off: 0x10, count: 500_000 },
        ]
    );
    assert_eq!(dump_line(8, None), "[tdb]   +0x008: (não mapeado)");
    assert_eq!(dump_line(0, Some(176_198)), "[tdb]   +0x000: 0x000000000002b046  (lo=176198 hi=0) <== ~N_RECORDS (records-map?)");
}

#[test]
fn the_live_instance_is_chosen() {
    let c = |addr, buffer| Candidate { addr, readable: true, buffer };
    assert!(!needs_getter(Some(c(1, 2))));
    assert!(needs_getter(Some(c(1, 0))) && needs_getter(None));
    assert_eq!(singleton(Some(c(1, 2)), c(3, 4), None), Some(1));
    assert_eq!(singleton(Some(c(1, 0)), c(3, 4), None), Some(3));
    assert_eq!(singleton(Some(c(1, 0)), c(3, 0), Some(c(5, 0))), Some(5));
    assert_eq!(singleton(None, c(0, 0), None), None);
}

#[test]
fn a_record_is_created_once() {
    let id = tweak_db_id("Items.New");
    let mut st = CreateState { available: false, loaded: false, before: None, created: false, after: None };
    let step = |st: CreateState| create_record_rt("gamedataWeaponItem_Record", "Items.New", st);
    assert!(step(st) == CreateStep::Wait);
    st.available = true;
    st.loaded = true;
    assert!(step(st) == CreateStep::AskBefore { id });
    st.before = Some(true);
    assert!(step(st) == CreateStep::Taken);
    st.before = Some(false);
    assert!(step(st) == CreateStep::Create { id, type_hash: record_type_key("gamedataWeaponItem_Record") });
    st.created = true;
    assert!(step(st) == CreateStep::AskAfter { id });
    st.after = Some(true);
    assert!(step(st) == CreateStep::Done { created: true });
}

#[test]
fn the_pinned_index_is_preferred() {
    let m = memory(vec![(0x2000, image(0x400, &[(0x10, 0x9000)])), (0x9000, vec![0; 16])]);
    assert_eq!(dump_factory_index(&m, 0x2000, 0x7777).map(|v| v.len()), dump_factory_index(&m, 0, 0x2000).map(|v| v.len()));
    assert!(dump_factory_index(&m, 0x7777, 0x2000).is_none());
    assert!(dump_factory_index(&m, 0, 0).is_none());
}

#[test]
fn callbacks_are_registered_with_their_handler() {
    let mut c = Callbacks::new();
    let mut h = Handlers::new();
    assert!(accepts(1, 2, 3) && !accepts(0, 2, 3) && !accepts(1, 0, 3) && !accepts(1, 2, 0));
    assert_eq!(register_handled(&mut c, &mut h, 0, 0x2_0000, 3, 0x9000), 0);
    assert_eq!((c.list.len(), h.list.len()), (0, 0));
    assert_eq!(register_handled(&mut c, &mut h, 1, 0x2_0000, 3, 0), 0);
    assert_eq!((c.list.len(), h.list.len()), (1, 0));
    assert_eq!(register_handled(&mut c, &mut h, 1, 0x2_0000, 4, 0x9000), 0x9000);
    assert_eq!((c.list.len(), h.list.len()), (2, 1));
    assert!(h.is_registered(0x9000));
}

#[test]
fn natives_are_answered_by_name() {
    let natives = native_list(false, true);
    let funcs: Vec<u64> = (0..natives.len() as u64).map(|i| if i == 0 { 0 } else { 0x1000 + i }).collect();
    let routes = route_natives(&funcs);
    let at = natives.iter().position(|n| n.name == "BitTest8").unwrap();
    match answer_call(&natives, &routes, funcs[at], &vec![0b1010, 1], &vec![]) {
        Some((i, Answer::Bytes(b))) => assert_eq!((i, b), (at, vec![1])),
        _ => panic!("not answered"),
    }
    let at = natives.iter().position(|n| n.name == "ParseInt32").unwrap();
    match answer_call(&natives, &routes, funcs[at], &vec![0], &vec![Some("42".to_string())]) {
        Some((_, Answer::Bytes(b))) => assert_eq!(b, vec![42, 0, 0, 0]),
        _ => panic!("not answered"),
    }
    let at = natives.iter().position(|n| n.name == "UTF8StrUpper").unwrap();
    let long = Some("abcdefghijklmnopqrstuvwxyz".to_string());
    assert!(matches!(answer_call(&natives, &routes, funcs[at], &vec![0], &vec![long]), Some((_, Answer::TooLong))));
    assert!(matches!(answer_call(&natives, &routes, funcs[1], &vec![], &vec![]), Some((1, Answer::Own))));
    assert!(answer_call(&natives, &routes, 0, &vec![], &vec![]).is_none());
    assert!(answer_call(&natives, &routes, 5, &vec![], &vec![]).is_none());
    assert_eq!(handler("Murmur3"), Handler::Hash(bwms::answers::HashOp::Murmur));
    assert_eq!(handler("BwmsProceed"), Handler::Own);
}

#[test]
fn classes_are_reported() {
    let r = |c, o, oks: &[bool]| class_report(c, o, &oks.to_vec());
    assert_eq!(r(ForgedClass::ScriptableService, ClassOutcome::Made, &[]), "[reg] ScriptableService: forjada=true");
    assert_eq!(r(ForgedClass::ScriptableService, ClassOutcome::NoClass, &[]), "[reg] ScriptableService: forjada=false");
    assert_eq!(
        r(ForgedClass::GameSessionEvent, ClassOutcome::Made, &[true, false]),
        "[reg] GameSessionEvent: classe=OK (INSTANCIÁVEL, parent=CallbackSystemEvent real) IsRestored=true IsPreGame=false"
    );
    assert_eq!(
        r(ForgedClass::ResourceEvent, ClassOutcome::NoPrototype, &[]),
        "[reg] register_resourceevent: classe=OK mas sem protótipo — GetPath NÃO registrado"
    );
    assert_eq!(
        r(ForgedClass::CallbackSystem, ClassOutcome::NoParent, &[]),
        "[reg] register_callbacksystem: 'IGameSystem' não resolveu por NENHUMA via (nem forja)"
    );
}

#[test]
fn the_dump_is_whole() {
    let m = memory(vec![]);
    assert_eq!(dump_report(&m, None), vec!["[tdb] singleton indisponível (TweakDB não carregada ainda?)"]);
    let lines = dump_report(&m, Some(0x1000));
    assert_eq!(lines.len(), 48);
    assert_eq!(lines[0], "[tdb] singleton @ 0x1000 — dump 0x00..0x168:");
    assert_eq!(lines[1], "[tdb]   +0x000: (não mapeado)");
    assert_eq!(lines[47], "[tdb] dump fim L2.");
    assert_eq!(
        count_line(CountAt { root: 0x18, inner: Some(0x20), off: 0x10, count: 500_000 }),
        "[tdb] L2 s+0x018->P1+0x20->P2+0x10 = 500000 (contagem? records/flats)"
    );
}

#[test]
fn what_is_looked_up_in_the_engine() {
    assert_eq!(prototypes(), vec!["Cos", "Sin", "AbsF", "SqrtF", "LogF"]);
    assert_eq!(name_prototypes(), vec!["NameToString", "IsNameValid", "StringToName"]);
    assert_eq!(smoke_prototypes()[5..], ["TanF", "AsinF"]);
    assert_eq!(
        bwms::forge::sources(),
        vec!["gameuiInGameMenuGameController", "ScriptableSystem", "GameObject", "IScriptable", "PlayerPuppet", "gameObject"]
    );
}
