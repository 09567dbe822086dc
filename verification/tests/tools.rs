use bwms::activation::{
    activate_all, apply_all_tweaks, collect_tweaks, compile_redscript, has_ext, tool_step,
    RunOutcome, Slot, StepResult, Tweak, TweakState, TweakStep,
};
use bwms::bindings::{cmd_status, mod_files, Target};
use bwms::calendar::{civil_from_days, today_iso};
use bwms::cursor::encode_lp_string;
use bwms::encode::encode_array;
use bwms::hashes::{fnv1a64, tweak_db_id};
use bwms::listing::{
    applied_lines, classify_flow, apply_text, report_code, list_text, deploy_lines, library_listing,
    purge_line, suggestion_lines, find_tool, install_flow, installed_line, print_report, run,
    Category, LibraryMod, LoaderVerb, ModReport, TypedInstall, TypedStep,
};
use bwms::manager::{
    class_label, cmd_nexus_import, cmd_plan_or_install, command_of, compat_label, decode_key,
    files_line, find_category, game_root, import_info, install_file, install_progress, mod_line, open_source, parse_id_arg, remove_staged,
    render, single_subdir, step_line, tui_step, ApplyReport, Compat, Entry, FileKind, FlowStep,
    ImportFlow, ImportStep, Imported, InstallFlow, Key, ModClass, ModState, Place, RemoveFlow, RemoveStep,
    RuntimeParts, SourceFlow, SourceStep, TuiAction, Verb,
};
use bwms::commands::{
    cmd_apply, cmd_classify, cmd_list, cmd_nexus_deploy, cmd_nexus_list, cmd_nexus_remove,
    cmd_remove, cmd_suggest, cmd_tui, install_staged, unknown_command, ApplyFlow, CommandStep,
    DeployReport, RemoveCommand, StagedFlow, StagedStep, Suggestion,
};
use bwms::names::NameDb;
use bwms::order::{sorted_positions, text_before, TextKey};
use bwms::tweakdb::{FlatValue, TweakDb, MAGIC};
use bwms::webapi::{
    api_apply, edit_result, api_areas, api_backup, api_find, api_install, api_record, api_records, api_status,
    api_uninstall, flat_names, must_write, property_of, read_ops, record_rows, sort_texts, ApplyState, ApplyStep, EditResult,
    SetOutcome, InstallState,
    InstallStep, RecordRow,
};
use bwms::webui::{
    content_length, jerror, jok, jstr, parse_query, parse_request_line, percent_decode,
    response_header, route, Route,
};

fn s(t: &str) -> String {
    t.to_string()
}

// ---- order ----

#[test]
fn texts_are_sorted_stably() {
    assert!(text_before("a", "ab") && text_before("a", "b") && !text_before("b", "a"));
    assert!(!text_before("a", "a") && text_before("Z", "a") && text_before("z", "é"));
    let items: Vec<TextKey> = ["b", "a", "c", "a"].iter().map(|t| TextKey { text: s(t) }).collect();
    assert_eq!(sorted_positions(&items), vec![1, 3, 0, 2]);
    assert_eq!(sort_texts(vec![s("b"), s("a")]), vec![s("a"), s("b")]);
}

// ---- the web interface ----

#[test]
fn json_texts_are_escaped() {
    assert_eq!(jstr("a\"b\\c\nd\u{1}é"), "\"a\\\"b\\\\c\\nd\\u0001é\"");
    assert_eq!(jok("feito"), "{\"ok\":true,\"msg\":\"feito\"}");
    assert_eq!(jerror("ruim"), "{\"ok\":false,\"error\":\"ruim\"}");
}

#[test]
fn queries_are_decoded() {
    assert_eq!(percent_decode("a+b%20c%C3%A9"), "a b cé");
    assert_eq!(percent_decode("100%"), "100%");
    assert_eq!(percent_decode("%zz"), "%zz");
    assert_eq!(parse_query("q=a+b&yaml&x=1=2"), vec![(s("q"), s("a b")), (s("yaml"), s("")), (s("x"), s("1=2"))]);
    assert_eq!(percent_decode("%ff"), "\u{FFFD}");
}

#[test]
fn requests_are_routed() {
    let to = |line: &str| route(&parse_request_line(line));
    assert!(matches!(to("GET / HTTP/1.1"), Route::Index));
    assert!(matches!(to("GET /api/find?q=Items%2EA HTTP/1.1"), Route::Find { q } if q == "Items.A"));
    assert!(matches!(to("GET /api/records?like=x HTTP/1.1"), Route::Records { class: None, like: Some(l), key: None } if l == "x"));
    assert!(matches!(to("POST /api/check?yaml HTTP/1.1"), Route::Apply { yaml: true, check_only: true }));
    assert!(matches!(to("POST /api/apply HTTP/1.1"), Route::Apply { yaml: false, check_only: false }));
    assert!(matches!(to("GET /api/apply HTTP/1.1"), Route::NotFound));
    assert!(matches!(to(""), Route::NotFound));
    assert!(matches!(to("GET"), Route::Index));
}

#[test]
fn heads_of_requests_and_responses() {
    let h = vec![s("Host: x"), s("Content-Length: 12"), s("content-length:  34 ")];
    assert_eq!(content_length(&h), 34);
    assert_eq!(content_length(&vec![s("Content-Length: x")]), 0);
    assert_eq!(content_length(&vec![]), 0);
    assert_eq!(
        response_header(404, "text/plain", 5),
        "HTTP/1.1 404 Not Found\r\nContent-Type: text/plain\r\nContent-Length: 5\r\nConnection: close\r\nCache-Control: no-store\r\n\r\n"
    );
    assert!(response_header(200, "a", 0).starts_with("HTTP/1.1 200 OK\r\n"));
}

fn put32(out: &mut Vec<u8>, v: u32) {
    out.extend_from_slice(&v.to_le_bytes());
}

fn put64(out: &mut Vec<u8>, v: u64) {
    out.extend_from_slice(&v.to_le_bytes());
}

fn names() -> NameDb {
    let list = ["Items.A", "Items.A.damage", "Items.B", "Vehicle.X", "Vehicle.X.speed"];
    let mut d = Vec::new();
    put32(&mut d, 0x0BB1_DB57);
    put32(&mut d, 1);
    put32(&mut d, list.len() as u32);
    put32(&mut d, 0);
    put32(&mut d, 0);
    for n in list {
        d.extend(encode_lp_string(n));
    }
    NameDb::load(&d).ok().unwrap()
}

fn database() -> TweakDb {
    let mut d = Vec::new();
    put32(&mut d, MAGIC);
    put32(&mut d, 8);
    put32(&mut d, 4);
    put32(&mut d, 1);
    for _ in 0..4 {
        put32(&mut d, 0);
    }
    let flats = d.len() as u32;
    put32(&mut d, 1);
    put64(&mut d, fnv1a64(b"array:String"));
    put32(&mut d, 1);
    put32(&mut d, 2);
    let slot = d.len();
    put32(&mut d, 0);
    let group = d.len() as u32;
    d[slot..slot + 4].copy_from_slice(&group.to_le_bytes());
    put32(&mut d, 1);
    d.extend(encode_array(&[encode_lp_string("a")]));
    put32(&mut d, 2);
    for n in ["Items.A.damage", "Vehicle.X.speed"] {
        put64(&mut d, tweak_db_id(n));
        put32(&mut d, 0);
    }
    let records = d.len() as u32;
    put32(&mut d, 3);
    for (n, key) in [("Items.A", 7u32), ("Items.B", 7), ("Vehicle.X", 9)] {
        put64(&mut d, tweak_db_id(n));
        put32(&mut d, key);
    }
    let queries = d.len() as u32;
    put32(&mut d, 0);
    let tags = d.len() as u32;
    put32(&mut d, 0);
    for (i, off) in [flats, records, queries, tags].iter().enumerate() {
        d[16 + 4 * i..20 + 4 * i].copy_from_slice(&off.to_le_bytes());
    }
    TweakDb::open(d).unwrap()
}

#[test]
fn answers_of_the_web_interface() {
    assert_eq!(api_status("/x", false, false, false), "{\"target\":\"/x\",\"target_exists\":false,\"pristine\":false,\"state\":\"sem-alvo\"}");
    assert!(api_status("/x", true, false, false).contains("\"state\":\"vanilla\""));
    assert!(api_status("/x", true, true, true).contains("\"state\":\"vanilla\""));
    assert!(api_status("/x", true, true, false).contains("\"state\":\"modificado\""));
    let (db, n) = (database(), names());
    assert_eq!(api_find(&n, "items"), "{\"total\":3,\"hits\":[\"Items.A\",\"Items.A.damage\",\"Items.B\"]}");
    assert_eq!(api_find(&n, "  "), "{\"hits\":[]}");
    assert_eq!(flat_names(&db, &n).len(), 2);
    assert_eq!(api_areas(&db, &n), "{\"areas\":[{\"area\":\"Items\",\"count\":1},{\"area\":\"Vehicle\",\"count\":1}]}");
    let one = api_records(&db, &n, &None, &Some(s("Items.A")), &None);
    assert!(one.contains("Items.A") && one.contains("Items.B") && !one.contains("Vehicle.X"));
    let all = api_records(&db, &n, &None, &None, &None);
    assert!(all.starts_with("{\"mode\":\"histogram\""));
}

#[test]
fn records_are_shown_by_property() {
    assert_eq!(property_of("Items.A.damage", "Items.A"), Some(s("damage")));
    assert_eq!(property_of("Items.AB.damage", "Items.A"), None);
    let rows = vec![RecordRow { prop: s("damage"), label: s("Float"), value: s("1") }];
    assert!(api_record("Items.A", &rows).contains("{\"prop\":\"damage\",\"type\":\"Float\",\"value\":\"1\"}"));
}

#[test]
fn rows_of_a_record() {
    let rows = record_rows(&database(), &names(), "Items.A");
    assert_eq!(rows.len(), 1);
    assert_eq!((rows[0].0.as_str(), rows[0].1.as_str()), ("damage", "array:CString"));
    assert_eq!(rows[0].2, FlatValue::Array(vec![FlatValue::Str(s("a"))]));
    assert_eq!(record_rows(&database(), &names(), "Vehicle.X")[0].0, "speed");
    assert!(record_rows(&database(), &names(), "Items").len() == 1);
    assert!(record_rows(&database(), &names(), "Items.B").is_empty());
}

#[test]
fn edits_are_reported() {
    let good = || vec![EditResult { flat: s("a"), ok: true, detail: s("") }];
    let mut st = ApplyState { is_yaml: true, check_only: false, model: None, edits: None, results: None, out: s("/o"), written: None };
    assert!(matches!(api_apply("a: 1\n", &st), ApplyStep::LoadModel));
    st.model = Some(Err(s("x")));
    assert!(matches!(api_apply("a: 1\n", &st), ApplyStep::Answer(t) if t == "{\"ok\":false,\"error\":\"modelo: x\"}"));
    st.model = Some(Ok(()));
    assert!(matches!(api_apply("a: 1\n", &st), ApplyStep::ApplyOps(ops) if ops.len() == 1));
    assert!(matches!(api_apply("- a\n", &st), ApplyStep::Answer(t) if t.contains("\"ok\":false")));
    st.is_yaml = false;
    assert!(matches!(api_apply("", &st), ApplyStep::ReadEdits));
    st.edits = Some(Err(s("ruim")));
    assert!(matches!(api_apply("", &st), ApplyStep::Answer(t) if t == "{\"ok\":false,\"error\":\"ruim\"}"));
    st.edits = Some(Ok(()));
    assert!(matches!(api_apply("", &st), ApplyStep::ApplyEdits));
    st.results = Some(vec![edit_result("a", &SetOutcome::Applied(s("Int32"))), edit_result("b", &SetOutcome::NotFound)]);
    match api_apply("", &st) {
        ApplyStep::Answer(t) => assert_eq!(
            t,
            "{\"ok\":1,\"fail\":1,\"wrote\":false,\"results\":[{\"flat\":\"a\",\"ok\":true,\"detail\":\"Int32\"},{\"flat\":\"b\",\"ok\":false,\"detail\":\"flat inexistente\"}]}"
        ),
        _ => panic!("no answer"),
    }
    assert_eq!(edit_result("c", &SetOutcome::NotEditable { ty: s("Color"), reason: s("r") }).detail, "Color: r");
    st.results = Some(good());
    assert!(matches!(api_apply("", &st), ApplyStep::Write));
    st.written = Some(Err(s("disco")));
    assert!(matches!(api_apply("", &st), ApplyStep::Answer(t) if t.contains("gravando /o: disco")));
    st.written = Some(Ok(9));
    assert!(matches!(api_apply("", &st), ApplyStep::Answer(t) if t.contains("\"wrote\":true,\"out\":\"/o\",\"bytes\":9")));
    st.check_only = true;
    assert!(matches!(api_apply("", &st), ApplyStep::Answer(t) if t.contains("\"wrote\":false")));
    assert!(must_write(&good(), false) && !must_write(&good(), true) && must_write(&vec![], false));
    let bad = vec![EditResult { flat: s("b"), ok: false, detail: s("x") }];
    assert!(!must_write(&bad, false));
}

#[test]
fn sent_documents_become_operations() {
    assert_eq!(read_ops("Items.A.damage: 10\n").ok().unwrap().len(), 1);
    assert!(read_ops("- a\n").err().unwrap().contains("o documento precisa ser um mapa"));
    assert!(read_ops("a:\n\tb: 1\n").err().unwrap().starts_with("{\"ok\":false,\"error\":\"YAML: linha 2"));
}

#[test]
fn an_installation_saves_the_original_first() {
    let mut st = InstallState { patched: false, target: true, checked: None, pristine: false, saved: None, copied: None };
    assert!(matches!(api_install(&st), InstallStep::Answer(t) if t.contains("nada para instalar")));
    st.patched = true;
    assert!(matches!(api_install(&st), InstallStep::Check));
    st.checked = Some(Ok(()));
    assert!(matches!(api_install(&st), InstallStep::SavePristine));
    st.saved = Some(Err(s("disco")));
    assert!(matches!(api_install(&st), InstallStep::Answer(t) if t.contains("salvando pristino: disco")));
    st.saved = Some(Ok(()));
    assert!(matches!(api_install(&st), InstallStep::Copy));
    st.copied = Some(Ok(()));
    assert!(matches!(api_install(&st), InstallStep::Answer(t) if t.contains("instalado")));
    st.target = false;
    assert!(matches!(api_install(&st), InstallStep::Answer(t) if t.contains("CP77_DIR")));
    assert!(matches!(api_uninstall(false, &None), InstallStep::Answer(_)));
    assert!(matches!(api_uninstall(true, &None), InstallStep::Copy));
    assert!(matches!(api_uninstall(true, &Some(Ok(()))), InstallStep::Answer(t) if t.contains("vanilla restaurado")));
    assert!(matches!(api_backup(true, "/b", &Some(Ok(()))), InstallStep::Answer(t) if t.contains("backup: /b")));
    assert!(matches!(api_backup(false, "/b", &None), InstallStep::Answer(_)));
}

// ---- activation ----

fn ok_step(t: &str) -> StepResult {
    StepResult { step: s(t), ok: true, detail: s("") }
}

#[test]
fn tools_report_their_step() {
    let r = tool_step("redscript", "scc", &None, "ok");
    assert!(!r.ok && r.detail == "scc não encontrado — bundle/instale o runtime");
    assert!(tool_step("redscript", "scc", &Some(RunOutcome::Success), "feito").detail == "feito");
    assert!(!tool_step("x", "y", &Some(RunOutcome::Failed { stderr: s("ruim\nmais") }), "").ok);
    assert!(!tool_step("x", "y", &Some(RunOutcome::NotRun { error: s("e") }), "").ok);
    assert!(has_ext(&vec![s("r6/a.reds")], "reds") && !has_ext(&vec![s("r6/a.txt")], "reds"));
    assert!(compile_redscript(&vec![s("a.txt")], &None).is_none());
    assert!(compile_redscript(&vec![s("a.reds")], &None).is_some());
    assert_eq!(activate_all(Some(ok_step("a")), None).len(), 1);
    assert_eq!(activate_all(Some(ok_step("a")), Some(ok_step("b"))).len(), 2);
}

#[test]
fn tweaks_are_collected() {
    let t = collect_tweaks(&vec![s("b.yaml"), s("a.toml"), s("x.txt"), s("c.yml")]);
    let v: Vec<(&str, bool)> = t.iter().map(|t| (t.path.as_str(), t.toml)).collect();
    assert_eq!(v, vec![("a.toml", true), ("b.yaml", false), ("c.yml", false)]);
}

#[test]
fn tweaks_are_rebuilt_from_vanilla() {
    let files = vec![Tweak { path: s("a.yaml"), toml: false }, Tweak { path: s("b.toml"), toml: true }];
    let mut st = TweakState { live: false, backup: false, saved: None, restored: None, tool: None, applied: vec![], staged: None, installed: None };
    assert!(matches!(apply_all_tweaks(&files, &st), TweakStep::Done(r) if !r.ok));
    st.live = true;
    assert!(matches!(apply_all_tweaks(&files, &st), TweakStep::Backup));
    st.saved = Some(Err(s("x")));
    assert!(matches!(apply_all_tweaks(&files, &st), TweakStep::Done(r) if r.detail == "backup do tweakdb.bin falhou: x"));
    st.saved = Some(Ok(()));
    assert!(matches!(apply_all_tweaks(&vec![], &st), TweakStep::Restore));
    assert!(matches!(apply_all_tweaks(&files, &st), TweakStep::FindTool));
    st.tool = Some(false);
    assert!(matches!(apply_all_tweaks(&files, &st), TweakStep::Done(r) if r.detail.starts_with("tweakdb-tool")));
    st.tool = Some(true);
    assert!(matches!(apply_all_tweaks(&files, &st), TweakStep::Apply { index: 0, toml: false, from: Slot::Vanilla, to: Slot::A }));
    st.applied.push(RunOutcome::Success);
    assert!(matches!(apply_all_tweaks(&files, &st), TweakStep::Apply { index: 1, toml: true, from: Slot::A, to: Slot::B }));
    st.applied.push(RunOutcome::Failed { stderr: s("erro 1\nerro 2") });
    assert!(matches!(apply_all_tweaks(&files, &st), TweakStep::Done(r) if r.detail == "apply-toml falhou em b.toml: erro 1"));
    st.applied[1] = RunOutcome::Success;
    assert!(matches!(apply_all_tweaks(&files, &st), TweakStep::Stage { from: Slot::B }));
    st.staged = Some(Ok(()));
    assert!(matches!(apply_all_tweaks(&files, &st), TweakStep::Install));
    st.installed = Some(Ok(()));
    assert!(matches!(apply_all_tweaks(&files, &st), TweakStep::Done(r) if r.ok && r.detail == "2 tweak(s) reconstruídos sobre o vanilla → tweakdb.bin"));
    st.restored = Some(Ok(()));
    assert!(matches!(apply_all_tweaks(&vec![], &st), TweakStep::Done(r) if r.ok));
}

// ---- the calendar ----

#[test]
fn days_become_dates() {
    assert_eq!(today_iso(0), "1970-01-01");
    assert_eq!(today_iso(951_782_400), "2000-02-29");
    assert_eq!(today_iso(1_709_164_800), "2024-02-29");
    assert_eq!(today_iso(4_107_542_400), "2100-03-01");
    let d = civil_from_days(365);
    assert_eq!((d.year, d.month, d.day), (1971, 1, 1));
}

// ---- the mod manager ----

fn place(p: &str, is_dir: bool) -> Option<Place> {
    Some(Place { path: s(p), is_dir })
}

#[test]
fn the_game_is_looked_for() {
    assert_eq!(game_root(&place("/a", true), &place("/b", true), &None), Some(s("/a")));
    assert_eq!(game_root(&place("/a", false), &place("/b", true), &None), Some(s("/b")));
    assert_eq!(game_root(&None, &None, &place("/c", true)), Some(s("/c")));
    assert_eq!(game_root(&None, &None, &place("/c", false)), None);
}

#[test]
fn commands_are_read() {
    let c = |a: &[&str]| command_of(&a.iter().map(|x| s(x)).collect());
    assert!(c(&["cp77-mods"]) == Verb::Tui);
    assert!(c(&["cp77-mods", "install", "x"]) == Verb::Install);
    assert!(c(&["cp77-mods", "nexus", "deploy"]) == Verb::NexusDeploy);
    assert!(c(&["cp77-mods", "nexus"]) == Verb::NexusUsage);
    assert!(c(&["cp77-mods", "--help"]) == Verb::Help);
    assert!(c(&["cp77-mods", "nada"]) == Verb::Unknown);
}

#[test]
fn packages_with_risks_are_blocked() {
    let mut st = InstallFlow { has_input: false, do_install: true, opened: None, game: false, name: None, notes: vec![s("n1")], risks: 0, staged: None, applied: None, activated: None };
    assert!(matches!(cmd_plan_or_install(&st), FlowStep::Exit { code: 2, message } if message == "uso: cp77-mods install <pasta|.zip> [game]"));
    st.has_input = true;
    assert!(matches!(cmd_plan_or_install(&st), FlowStep::Open));
    st.opened = Some(Err(s("x")));
    assert!(matches!(cmd_plan_or_install(&st), FlowStep::Exit { code: 1, message } if message == "erro: x"));
    st.opened = Some(Ok(()));
    assert!(matches!(cmd_plan_or_install(&st), FlowStep::Exit { code: 1, .. }));
    st.game = true;
    assert!(matches!(cmd_plan_or_install(&st), FlowStep::Classify));
    st.name = Some(s("Mod"));
    st.risks = 2;
    assert!(matches!(cmd_plan_or_install(&st), FlowStep::Exit { code: 3, .. }));
    st.risks = 0;
    st.do_install = false;
    assert!(matches!(cmd_plan_or_install(&st), FlowStep::Exit { code: 0, message } if message.starts_with("(dry-run)")));
    st.do_install = true;
    assert!(matches!(cmd_plan_or_install(&st), FlowStep::Stage));
    st.staged = Some(Ok(s("BWMS/mods/instalados/Mod")));
    assert!(matches!(cmd_plan_or_install(&st), FlowStep::Apply));
    st.applied = Some(Ok(ApplyReport { copied: 3, removed: 1, xl_pending: 2, reslink_pairs: 0 }));
    assert!(matches!(cmd_plan_or_install(&st), FlowStep::Activate));
    assert_eq!(
        install_progress(&st),
        vec!["MOD: Mod", "  · n1", "✓ staged: BWMS/mods/instalados/Mod", "✓ aplicado: 3 arquivo(s), 1 removido(s), 2 .xl pendente(s) do runtime ArchiveXL."]
    );
    st.activated = Some(vec![StepResult { step: s("redscript"), ok: true, detail: s("ok") }]);
    assert_eq!(install_progress(&st)[4], "  ✓ redscript — ok");
    assert!(matches!(cmd_plan_or_install(&st), FlowStep::Exit { code: 0, .. }));
}

fn a_mod(name: &str, active: bool, favorite: bool) -> ModState {
    ModState { name: s(name), category: s("roupas"), label: s("Roupas"), active, favorite }
}

#[test]
fn mods_are_listed() {
    assert_eq!(mod_line(&a_mod("Casaco", true, true)), "  [x]★ Casaco — Roupas");
    assert_eq!(mod_line(&a_mod("Casaco", false, false)), "  [ ]  Casaco — Roupas");
    assert_eq!(step_line(&ok_step("redscript")), "  ✓ redscript — ");
    let mods = vec![a_mod("Casaco", true, false)];
    assert_eq!(find_category(&mods, "CASACO"), Some(s("roupas")));
    assert_eq!(find_category(&mods, "x"), None);
    assert_eq!(list_text(&mods), "MODS (1 no staging):\n  [x]  Casaco — Roupas\n");
    assert!(list_text(&vec![]).starts_with("(nenhum mod no staging"));
    assert!(apply_text(&vec![]).contains("(vazio"));
    assert!(apply_text(&mods).ends_with("  [x]  Casaco — Roupas\n"));
    assert_eq!(applied_lines(2, 1, 0), "✓ sincronizado: 2 arquivo(s) ativo(s) (archive/Mac/content + r6/tweaks + r6/scripts), 1 removido(s).\n");
    assert!(applied_lines(2, 1, 3).contains("  ⚠ 3 .archive.xl pendente(s)"));
}

#[test]
fn mods_are_removed() {
    let mut st = RemoveFlow { category: None, deleted: None, applied: None, activated: false };
    assert!(matches!(remove_staged("M", "/d", &st), RemoveStep::Done { ok: false, message } if message == "'M' não está no staging"));
    st.category = Some(s("roupas"));
    assert!(matches!(remove_staged("M", "/d", &st), RemoveStep::Delete { category } if category == "roupas"));
    st.deleted = Some(Err(s("x")));
    assert!(matches!(remove_staged("M", "/d", &st), RemoveStep::Done { ok: false, message } if message == "erro ao apagar /d: x"));
    st.deleted = Some(Ok(()));
    assert!(matches!(remove_staged("M", "/d", &st), RemoveStep::Apply));
    st.applied = Some(Err(s("y")));
    assert!(matches!(remove_staged("M", "/d", &st), RemoveStep::Done { ok: false, message } if message == "erro ao sincronizar: y"));
    st.applied = Some(Ok(4));
    assert!(matches!(remove_staged("M", "/d", &st), RemoveStep::Activate));
    st.activated = true;
    assert!(matches!(remove_staged("M", "/d", &st), RemoveStep::Done { ok: true, message } if message == "removido: M (4 arquivo(s) tirados)"));
}

#[test]
fn imports_into_the_library() {
    assert_eq!(parse_id_arg(&Some(s("nxm://x")), Some((5, 6))), (Some(5), Some(6)));
    assert_eq!(parse_id_arg(&Some(s("nxm://x")), None), (None, None));
    assert_eq!(parse_id_arg(&Some(s("123")), None), (Some(123), None));
    assert_eq!(parse_id_arg(&Some(s("x")), None), (None, None));
    assert_eq!(parse_id_arg(&None, None), (None, None));
    let mut st = ImportFlow { has_source: false, opened: None, game: true, risks: None, imported: None };
    assert!(matches!(cmd_nexus_import(&st), ImportStep::Exit { code: 2, .. }));
    st.has_source = true;
    assert!(matches!(cmd_nexus_import(&st), ImportStep::Open));
    st.opened = Some(Ok(()));
    assert!(matches!(cmd_nexus_import(&st), ImportStep::Classify));
    st.risks = Some(vec![s("a"), s("b")]);
    assert!(matches!(cmd_nexus_import(&st), ImportStep::Exit { code: 3, lines } if lines == vec!["⚠ importação BLOQUEADA por 2 risco(s):", "  ! a", "  ! b"]));
    st.risks = Some(vec![]);
    assert!(matches!(cmd_nexus_import(&st), ImportStep::Import));
    st.imported = Some(Err(s("x")));
    assert!(matches!(cmd_nexus_import(&st), ImportStep::Exit { code: 1, .. }));
    st.imported = Some(Ok(Imported { unique_id: s("m-1"), version: s(""), repository: s("nexus"), key: Some((5, 6)) }));
    match cmd_nexus_import(&st) {
        ImportStep::Exit { code, lines } => {
            assert_eq!(code, 0);
            assert_eq!(
                lines,
                vec![
                    "✓ importado pra biblioteca: m-1",
                    "  versão: ?  ·  repo: nexus",
                    "  nexus: mods/5/files/6",
                    "  pasta: BWMS/nexus/mods/m-1/",
                    "  próximo: `cp77-mods nexus deploy` p/ aplicar no jogo.",
                ]
            );
        }
        _ => panic!("not finished"),
    }
    assert_eq!(install_file(&None), "mod");
    let info = import_info(&install_file(&Some(s("m-1.zip"))), (s("m"), s("1")), (Some(5), None), "2026-01-02", "visual");
    assert_eq!((info.name.as_str(), info.author.as_str(), info.version.as_str()), ("m", "Unknown", "1"));
    assert_eq!((info.mod_id, info.file_id), (Some(5), None));
    assert_eq!((info.installation_file.as_str(), info.installed_at.as_str(), info.category.as_str()), ("m-1.zip", "2026-01-02", "visual"));
}

#[test]
fn packages_are_opened() {
    let at = |is_dir: bool, exists: bool| SourceFlow { is_dir, exists, made: None, unpacked: None, entries: None };
    assert!(matches!(open_source("/x", &at(true, true)), SourceStep::Directory));
    assert!(matches!(open_source("/x", &at(false, false)), SourceStep::Fail(m) if m == "'/x' não existe."));
    assert!(matches!(open_source("/x.rar", &at(false, true)), SourceStep::Fail(m) if m == "'/x.rar' não é pasta nem .zip."));
    let mut st = at(false, true);
    assert!(matches!(open_source("/x.ZIP", &st), SourceStep::MakeDirectory));
    st.made = Some(Err(s("cheio")));
    assert!(matches!(open_source("/x.ZIP", &st), SourceStep::Fail(m) if m == "criando tmp: cheio"));
    st.made = Some(Ok(()));
    assert!(matches!(open_source("/x.ZIP", &st), SourceStep::Unpack));
    st.unpacked = Some(Err(s("nada")));
    assert!(matches!(open_source("/x.ZIP", &st), SourceStep::Fail(m) if m == "falha ao rodar unzip (nada) — extraia o .zip manualmente e aponte a pasta"));
    st.unpacked = Some(Ok(false));
    assert!(matches!(open_source("/x.ZIP", &st), SourceStep::Fail(m) if m == "unzip retornou erro (zip corrompido?)."));
    st.unpacked = Some(Ok(true));
    assert!(matches!(open_source("/x.ZIP", &st), SourceStep::ListEntries));
    st.entries = Some(None);
    assert!(matches!(open_source("/x.ZIP", &st), SourceStep::Unpacked { sub: None }));
    st.entries = Some(Some(vec![Entry { name: s(".x"), is_dir: true }, Entry { name: s("Mod"), is_dir: true }]));
    assert!(matches!(open_source("/x.ZIP", &st), SourceStep::Unpacked { sub: Some(1) }));
    let e = |n: &str, is_dir| Entry { name: s(n), is_dir };
    assert_eq!(single_subdir(&vec![e(".DS_Store", false), e("Mod", true)]), Some(1));
    assert_eq!(single_subdir(&vec![e("Mod", true), e("b", true)]), None);
    assert_eq!(single_subdir(&vec![e("Mod", false)]), None);
}

#[test]
fn keys_move_the_selection() {
    assert!(decode_key(Some(0x1b), Some((b'[', b'A'))) == Key::Up);
    assert!(decode_key(Some(0x1b), Some((b'[', b'B'))) == Key::Down);
    assert!(decode_key(Some(0x1b), None) == Key::Char('q'));
    assert!(decode_key(Some(b'i'), None) == Key::Char('i'));
    assert!(decode_key(None, None) == Key::Other);
    assert!(tui_step(5, 3, Key::Up) == (1, TuiAction::Redraw));
    assert!(tui_step(2, 3, Key::Down) == (2, TuiAction::Redraw));
    assert!(tui_step(0, 3, Key::Down) == (1, TuiAction::Redraw));
    assert!(tui_step(1, 3, Key::Char('r')) == (1, TuiAction::Remove { index: 1 }));
    assert!(tui_step(0, 0, Key::Char('r')) == (0, TuiAction::Redraw));
    assert!(tui_step(0, 0, Key::Char('q')).1 == TuiAction::Quit);
}

#[test]
fn the_screen_is_drawn() {
    let parts = RuntimeParts { tweakdb: true, redscript: false, input: true, console: true };
    let mods = vec![a_mod("A", true, false), a_mod("B", false, false)];
    let t = render("/jogo", parts, &mods, 1, "pronto");
    assert!(t.contains("/jogo") && t.contains("Mods no staging (2)"));
    assert!(t.contains("   [x] A — Roupas\n") && t.contains("\x1b[7m ▸ [ ] B — Roupas \x1b[0m\n"));
    assert!(t.contains("\x1b[31m✗\x1b[0m redscript") && t.ends_with("\n\x1b[36m pronto\x1b[0m\n"));
    assert!(render("/jogo", parts, &vec![], 0, "").contains("(nenhum — aperte [i] pra instalar)"));
}

fn report(risks: Vec<String>) -> ModReport {
    ModReport {
        name: s("Mod"),
        class: ModClass::Script,
        compat: Compat::Universal,
        kinds: vec![FileKind::Archive, FileKind::Redscript, FileKind::Redscript],
        deps: vec![],
        risks,
        notes: vec![],
    }
}

#[test]
fn packages_are_reported() {
    assert_eq!(
        print_report(&report(vec![])),
        "MOD: Mod\nClasse : Script (redscript/CET — roda no jogo)\nCompat : ✓ Universal (mesmo arquivo Win/Mac)\nArquivos: 3 total  (archive 1, content 0, .xl 0, .reds 2, .lua 0, tweak 0, nativo 0)\nDependências: nenhuma\nRisco: nenhum (seguro p/ instalar pela ferramenta)\n"
    );
    let mut r = report(vec![s("script"), s("dll")]);
    r.deps.push((s("Codeware"), s("natives")));
    r.notes.push(s("nota"));
    let t = print_report(&r);
    assert!(t.contains("Dependências:\n  - Codeware — natives\n"));
    assert!(t.contains("⚠ RISCO (2) — revisar antes de instalar:\n  ! script\n  ! dll\n"));
    assert!(t.ends_with("Notas:\n  • nota\n"));
    assert_eq!((report_code(&r), report_code(&report(vec![]))), (3, 0));
    assert_eq!(class_label(ModClass::Unknown), "Desconhecido (nada reconhecido)");
    assert!(compat_label(Compat::MacAdapter).starts_with("◈"));
    assert!(files_line(&vec![FileKind::Other]).starts_with("Arquivos: 1 total"));
}

#[test]
fn categories_are_suggested() {
    let cats = vec![Category { slug: s("roupas"), label: s("Roupas") }, Category { slug: s("carros"), label: s("Carros") }];
    let t = suggestion_lines("Mod", "Carros", 80, "nome", &cats, "carros");
    assert!(t.starts_with("MOD: Mod\nCategoria sugerida: Carros  (confiança 80%)\nMotivo: nome\n"));
    assert!(t.ends_with("    Roupas (roupas)\n  → Carros (carros)\n"));
}

#[test]
fn the_library_is_listed() {
    let mods = vec![
        LibraryMod { id: s("a"), version: s("1.2"), enabled: true, key: Some((5, 6)) },
        LibraryMod { id: s("b"), version: s(""), enabled: false, key: None },
    ];
    assert_eq!(library_listing(&mods), "Biblioteca (2 mod(s)):\n  ● a  v1.2  [ativo]  (mods/5/files/6)\n  ○ b  v?  [inativo]  (manual)\n");
    assert!(library_listing(&vec![]).starts_with("(biblioteca vazia"));
    assert!(deploy_lines(3, 2, 1, &vec![s("x")]).contains("⚠ 1 conflito(s) (dois mods no mesmo arquivo):\n  ! x\n"));
    assert!(!deploy_lines(3, 2, 1, &vec![]).contains("⚠"));
    assert_eq!(purge_line("a", 0, false), (false, s("mod 'a' não estava na biblioteca.")));
    assert!(purge_line("a", 2, false).0 && purge_line("a", 0, true).0);
}

#[test]
fn typed_paths_are_installed() {
    let mut st = TypedInstall { opened: None, risks: None, installed: None };
    assert!(matches!(install_flow("", &st), TypedStep::Say(t) if t == "cancelado"));
    assert!(matches!(install_flow("/x", &st), TypedStep::Open));
    st.opened = Some(Err(s("x")));
    assert!(matches!(install_flow("/x", &st), TypedStep::Say(t) if t == "erro: x"));
    st.opened = Some(Ok(()));
    assert!(matches!(install_flow("/x", &st), TypedStep::Classify));
    st.risks = Some(2);
    assert!(matches!(install_flow("/x", &st), TypedStep::Say(t) if t == "BLOQUEADO: 2 risco(s) — use `classify` no terminal pra ver"));
    st.risks = Some(0);
    assert!(matches!(install_flow("/x", &st), TypedStep::Install));
    st.installed = Some(Ok(s("M: 3")));
    assert!(matches!(install_flow("/x", &st), TypedStep::Say(t) if t == "instalado M: 3"));
    st.installed = Some(Err(s("disco")));
    assert!(matches!(install_flow("/x", &st), TypedStep::Say(t) if t == "falhou: disco"));
    assert!(matches!(classify_flow("", &None, &None), TypedStep::Say(_)));
    assert!(matches!(classify_flow("/x", &None, &None), TypedStep::Open));
    assert!(matches!(classify_flow("/x", &Some(Ok(())), &None), TypedStep::Classify));
    assert!(matches!(classify_flow("/x", &Some(Err(s("e"))), &None), TypedStep::Say(t) if t == "erro: e"));
    let rep = ModReport {
        name: s("M"),
        class: ModClass::RedMod,
        compat: Compat::Universal,
        kinds: vec![],
        deps: vec![(s("a"), s("b"))],
        risks: vec![],
        notes: vec![],
    };
    assert!(matches!(classify_flow("/x", &Some(Ok(())), &Some(rep)), TypedStep::Say(t) if t == "M: RedMod, 0 arquivo(s), 1 dep(s), 0 risco(s)"));
    assert_eq!(installed_line("M", 3, 0, 2), "M: 3 arquivo(s), 2 ativação(ões)");
    assert_eq!(installed_line("M", 3, 1, 2), "M: 3 arquivo(s), 1 .xl pendente(s), 2 ativação(ões)");
}

#[test]
fn tools_are_looked_for() {
    assert_eq!(find_tool(&Some(s("/bin")), &None, "scc"), vec![s("/bin/scc")]);
    let all = find_tool(&Some(s("/bin")), &Some(s("/r")), "scc");
    assert_eq!(all.len(), 5);
    assert_eq!(all[1], "/r/scc/target/release/scc");
    assert_eq!(all[4], "/r/dist/cp77-mac-tools/redscript-macos/engine/tools/scc");
}

#[test]
fn arguments_of_the_key_loader() {
    let r = |a: &[&str]| run(&a.iter().map(|x| s(x)).collect());
    assert_eq!(r(&[]), Ok((LoaderVerb::Help, None)));
    assert_eq!(r(&["merge", "--game", "/g"]), Ok((LoaderVerb::Merge, Some(s("/g")))));
    assert_eq!(r(&["--game", "/g", "status"]), Ok((LoaderVerb::Status, Some(s("/g")))));
    assert_eq!(r(&["restore", "-h", "x", "y"]), Ok((LoaderVerb::Help, None)));
    assert_eq!(r(&["--game"]), Err(s("--game exige <dir>")));
    assert_eq!(r(&["merge", "x"]), Err(s("argumento inesperado: 'x'")));
    assert_eq!(r(&["nada"]), Err(s("comando desconhecido 'nada'. Use --help.")));
}

#[test]
fn files_of_bindings() {
    let f = |a: &[&str]| mod_files(&a.iter().map(|x| s(x)).collect());
    assert_eq!(f(&["/i/b.XML", "/i/a.xml", "/i/x.txt", "/i/xml"]), vec![s("/i/a.xml"), s("/i/b.XML")]);
    assert_eq!(cmd_status(Target::UserMappings, true, false, false), "inputUserMappings: base ok · pristino — · vanilla");
    assert_eq!(cmd_status(Target::Contexts, false, true, true), "inputContexts: base AUSENTE · pristino ok · MESCLADO");
}

// ---- commands ----

fn exit(step: CommandStep) -> (u8, String, String) {
    match step {
        CommandStep::Exit { code, out, err } => (code, out, err),
        _ => panic!("not finished"),
    }
}

#[test]
fn apply_lists_synchronises_and_activates() {
    let mut st = ApplyFlow { game: false, mods: None, applied: None, activated: None };
    assert_eq!(exit(cmd_apply(&st)).0, 1);
    st.game = true;
    assert!(matches!(cmd_apply(&st), CommandStep::Reconcile));
    st.mods = Some(vec![a_mod("Casaco", true, false)]);
    assert!(matches!(cmd_apply(&st), CommandStep::Apply));
    st.applied = Some(Err(s("x")));
    let (code, out, err) = exit(cmd_apply(&st));
    assert_eq!((code, err.as_str()), (1, "✗ erro ao sincronizar: x\n"));
    assert!(out.ends_with("  [x]  Casaco — Roupas\n"));
    st.applied = Some(Ok(ApplyReport { copied: 2, removed: 1, xl_pending: 0, reslink_pairs: 0 }));
    assert!(matches!(cmd_apply(&st), CommandStep::Activate));
    st.activated = Some(vec![ok_step("redscript")]);
    let (code, out, err) = exit(cmd_apply(&st));
    assert_eq!((code, err.as_str()), (0, ""));
    assert!(out.contains("✓ sincronizado: 2 arquivo(s)") && out.contains("  ✓ redscript — \n"));
    assert!(out.ends_with("cheats/runtime são ao vivo)\n"));
}

#[test]
fn remove_deletes_synchronises_and_activates() {
    let mut st = RemoveCommand { name: None, game: false, mods: None, deleted: None, applied: None, activated: None };
    assert_eq!(exit(cmd_remove("/d", &st)), (2, s(""), s("uso: cp77-mods remove <nome> [game]\n")));
    st.name = Some(s("CASACO"));
    assert_eq!(exit(cmd_remove("/d", &st)), (1, s(""), s("erro: raiz do jogo não encontrada.\n")));
    st.game = true;
    assert!(matches!(cmd_remove("/d", &st), CommandStep::Reconcile));
    st.mods = Some(vec![]);
    assert_eq!(exit(cmd_remove("/d", &st)).2, "erro: 'CASACO' não está no staging (veja `list`).\n");
    st.mods = Some(vec![a_mod("Casaco", true, false)]);
    assert!(matches!(cmd_remove("/d", &st), CommandStep::Delete { category } if category == "roupas"));
    st.deleted = Some(Err(s("x")));
    assert_eq!(exit(cmd_remove("/d", &st)), (1, s(""), s("erro ao apagar /d: x\n")));
    st.deleted = Some(Ok(()));
    assert!(matches!(cmd_remove("/d", &st), CommandStep::Apply));
    st.applied = Some(Err(s("y")));
    assert_eq!(exit(cmd_remove("/d", &st)).2, "erro ao sincronizar remoção: y\n");
    st.applied = Some(Ok(4));
    assert!(matches!(cmd_remove("/d", &st), CommandStep::Activate));
    st.activated = Some(vec![ok_step("TweakDB")]);
    assert_eq!(exit(cmd_remove("/d", &st)), (0, s("✓ 'CASACO' removido (4 arquivo(s) tirados do jogo, removal-safe).\n  ✓ TweakDB — \n"), s("")));
}

#[test]
fn installing_into_the_staging_area() {
    let mut st = StagedFlow { staged: None, applied: None, activated: None };
    assert!(matches!(install_staged("M", &st), StagedStep::Stage));
    st.staged = Some(Err(s("x")));
    assert!(matches!(install_staged("M", &st), StagedStep::Done(Err(e)) if e == "staging: x"));
    st.staged = Some(Ok(()));
    assert!(matches!(install_staged("M", &st), StagedStep::Apply));
    st.applied = Some(Err(s("y")));
    assert!(matches!(install_staged("M", &st), StagedStep::Done(Err(e)) if e == "apply: y"));
    st.applied = Some(Ok(ApplyReport { copied: 3, removed: 0, xl_pending: 1, reslink_pairs: 0 }));
    assert!(matches!(install_staged("M", &st), StagedStep::Activate));
    let failed = StepResult { step: s("TweakDB"), ok: false, detail: s("") };
    st.activated = Some(vec![ok_step("redscript"), failed]);
    assert!(matches!(install_staged("M", &st), StagedStep::Done(Ok(t)) if t == "M: 3 arquivo(s), 1 .xl pendente(s), 1 ativação(ões)"));
}

#[test]
fn commands_exit_with_codes() {
    assert_eq!(exit(cmd_list(false, &None)).0, 1);
    assert!(matches!(cmd_list(true, &None), CommandStep::Reconcile));
    assert_eq!(exit(cmd_list(true, &Some(vec![]))).0, 0);
    assert_eq!(exit(cmd_nexus_list(false, &None)).0, 2);
    assert!(matches!(cmd_nexus_list(true, &None), CommandStep::ReadLibrary));
    assert!(exit(cmd_nexus_list(true, &Some(vec![]))).1.starts_with("(biblioteca vazia"));
    assert_eq!(exit(cmd_nexus_deploy(false, &None)).0, 2);
    assert!(matches!(cmd_nexus_deploy(true, &None), CommandStep::Deploy));
    assert_eq!(exit(cmd_nexus_deploy(true, &Some(Err(s("x"))))), (1, s(""), s("✗ deploy falhou: x\n")));
    let rep = DeployReport { deployed: 3, mods: 2, removed: 1, conflicts: vec![] };
    assert_eq!(exit(cmd_nexus_deploy(true, &Some(Ok(rep)))).0, 0);
    assert_eq!(exit(cmd_nexus_remove(&None, true, None)).0, 2);
    assert_eq!(exit(cmd_nexus_remove(&Some(s("a")), false, None)).0, 2);
    assert!(matches!(cmd_nexus_remove(&Some(s("a")), true, None), CommandStep::Purge));
    assert_eq!(exit(cmd_nexus_remove(&Some(s("a")), true, Some((0, false)))), (1, s(""), s("mod 'a' não estava na biblioteca.\n")));
    assert_eq!(exit(cmd_nexus_remove(&Some(s("a")), true, Some((0, true)))).0, 0);
    assert_eq!(exit(cmd_tui(false, false, "USO")), (1, s("USO"), s("erro: raiz do jogo não encontrada. Defina CP77_DIR ou: cp77-mods tui <game>\n")));
    assert!(matches!(cmd_tui(true, false, ""), CommandStep::Interface));
    assert_eq!(exit(cmd_tui(true, true, "")).0, 0);
    assert_eq!(exit(unknown_command(&Some(s("x")))), (2, s(""), s("comando desconhecido 'x'. Use --help.\n")));
    assert_eq!(exit(unknown_command(&None)).0, 2);
}

#[test]
fn packages_are_looked_at() {
    let path = Some(s("/p"));
    assert_eq!(exit(cmd_classify(&None, &None, &None)).0, 2);
    assert!(matches!(cmd_classify(&path, &None, &None), CommandStep::Open));
    assert_eq!(exit(cmd_classify(&path, &Some(Err(s("x"))), &None)), (1, s(""), s("erro: x\n")));
    assert!(matches!(cmd_classify(&path, &Some(Ok(())), &None), CommandStep::Classify));
    assert_eq!(exit(cmd_classify(&path, &Some(Ok(())), &Some(report(vec![s("r")])))).0, 3);
    assert_eq!(exit(cmd_classify(&path, &Some(Ok(())), &Some(report(vec![])))).0, 0);
    assert_eq!(exit(cmd_suggest(&None, &None, &None, &vec![])).0, 2);
    assert!(matches!(cmd_suggest(&path, &None, &None, &vec![]), CommandStep::Open));
    assert_eq!(exit(cmd_suggest(&path, &Some(Err(s("x"))), &None, &vec![])).0, 1);
    assert!(matches!(cmd_suggest(&path, &Some(Ok(())), &None, &vec![]), CommandStep::Suggest));
    let found = Suggestion { name: s("M"), category: s("carros"), label: s("Carros"), confidence: 80, reason: s("nome") };
    let cats = vec![Category { slug: s("carros"), label: s("Carros") }];
    assert!(exit(cmd_suggest(&path, &Some(Ok(())), &Some(found), &cats)).1.contains("  → Carros (carros)\n"));
}
