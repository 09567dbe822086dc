//! What the manager of mods makes of its arguments, of paths and of keys.
use vstd::prelude::*;

use crate::activation::{
    extension, file_name, input_slot, last_index, next_tweak_step, output_slot, tool_result,
    tweak_format, tweaks_among, RunOutcome, Slot, StepResult, TweakState, TweakStepV,
};
use crate::commands::went_well;
use crate::encode::lowercase;
use crate::manager::{
    category_of, flow_step_of, ids_of, import_step_of, is_only_subdir, kind_count, mod_index,
    root_of, tui_step_of, verb_of, visible, visible_count, Entry, FileKind, FlowStepV, ImportFlow,
    ImportStepV, InstallFlow, Key, ModState, Place, TuiAction, Verb,
};
use crate::number_laws::decimal_digits_read_back;
use crate::text::{dec, has_prefix};

verus! {

// ---- arguments -------------------------------------------------------------

/// The game is where the argument says, else where the environment says, else where
/// it usually is; a place that is no directory does not count.
pub proof fn the_first_usable_place_counts(a: Option<Place>, b: Option<Place>, c: Option<Place>)
    ensures
        a is Some && (a->0).is_dir ==> root_of(a, b, c) == Some((a->0).path@),
        !(a is Some && (a->0).is_dir) && b is Some && (b->0).is_dir ==> root_of(a, b, c) == Some(
            (b->0).path@,
        ),
        !(a is Some && (a->0).is_dir) && !(b is Some && (b->0).is_dir) && c is Some && (c->0).is_dir
            ==> root_of(a, b, c) == Some((c->0).path@),
        !(a is Some && (a->0).is_dir) && !(b is Some && (b->0).is_dir) && !(c is Some && (
        c->0).is_dir) ==> root_of(a, b, c) is None,
{
}

proof fn lemma_words()
    ensures
        "classify"@.len() == 8,
        "suggest"@.len() == 7 && "suggest"@[0] == 's',
        "apply"@.len() == 5 && "apply"@[0] == 'a',
        "plan"@.len() == 4 && "plan"@[0] == 'p',
        "install"@.len() == 7 && "install"@[0] == 'i',
        "list"@.len() == 4 && "list"@[0] == 'l',
        "remove"@.len() == 6 && "remove"@[0] == 'r',
        "nexus"@.len() == 5 && "nexus"@[0] == 'n',
        "tui"@.len() == 3,
        "-h"@.len() == 2,
        "--help"@.len() == 6 && "--help"@[0] == '-',
        "help"@.len() == 4 && "help"@[0] == 'h',
        "import"@.len() == 6 && "import"@[0] == 'i',
        "deploy"@.len() == 6 && "deploy"@[0] == 'd',
{
    reveal_strlit("classify");
    reveal_strlit("suggest");
    reveal_strlit("apply");
    reveal_strlit("plan");
    reveal_strlit("install");
    reveal_strlit("list");
    reveal_strlit("remove");
    reveal_strlit("nexus");
    reveal_strlit("tui");
    reveal_strlit("-h");
    reveal_strlit("--help");
    reveal_strlit("help");
    reveal_strlit("import");
    reveal_strlit("deploy");
}

/// Every word is the command of its name; without a word the interface opens, and
/// another word is no command.
pub proof fn words_are_commands(second: Option<Seq<char>>, s: Seq<char>)
    ensures
        verb_of(None, second) == Verb::Tui,
        verb_of(Some("classify"@), second) == Verb::Classify,
        verb_of(Some("suggest"@), second) == Verb::Suggest,
        verb_of(Some("apply"@), second) == Verb::Apply,
        verb_of(Some("plan"@), second) == Verb::Plan,
        verb_of(Some("install"@), second) == Verb::Install,
        verb_of(Some("list"@), second) == Verb::List,
        verb_of(Some("remove"@), second) == Verb::Remove,
        verb_of(Some("tui"@), second) == Verb::Tui,
        verb_of(Some("-h"@), second) == Verb::Help,
        verb_of(Some("--help"@), second) == Verb::Help,
        verb_of(Some("help"@), second) == Verb::Help,
        verb_of(Some("nexus"@), Some("import"@)) == Verb::NexusImport,
        verb_of(Some("nexus"@), Some("list"@)) == Verb::NexusList,
        verb_of(Some("nexus"@), Some("deploy"@)) == Verb::NexusDeploy,
        verb_of(Some("nexus"@), Some("remove"@)) == Verb::NexusRemove,
        verb_of(Some("nexus"@), None) == Verb::NexusUsage,
        s != "classify"@ && s != "suggest"@ && s != "apply"@ && s != "plan"@ && s != "install"@ && s
            != "list"@ && s != "remove"@ && s != "nexus"@ && s != "tui"@ && s != "-h"@ && s
            != "--help"@ && s != "help"@ ==> verb_of(Some(s), second) == Verb::Unknown,
{
    lemma_words();
}

// ---- paths -----------------------------------------------------------------

proof fn lemma_last(a: Seq<char>, c: char, n: Seq<char>, i: int)
    requires
        !n.contains(c),
        0 <= i <= n.len(),
    ensures
        last_index(a + seq![c] + n, c, a.len() + 1 + i) == a.len(),
    decreases i,
{
    let s = a + seq![c] + n;
    if i > 0 {
        assert(s[a.len() + i] == n[i - 1]);
        assert(n.contains(n[i - 1]));
        lemma_last(a, c, n, i - 1);
    } else {
        assert(s[a.len() as int] == c);
    }
}

proof fn lemma_nowhere(n: Seq<char>, c: char, i: int)
    requires
        !n.contains(c),
        0 <= i <= n.len(),
    ensures
        last_index(n, c, i) == -1,
    decreases i,
{
    if i > 0 {
        assert(n.contains(n[i - 1]));
        lemma_nowhere(n, c, i - 1);
    }
}

/// The name of a file is what stands behind the last slash, or the whole path.
pub proof fn names_stand_behind_the_last_slash(p: Seq<char>, n: Seq<char>)
    requires
        !n.contains('/'),
    ensures
        file_name(p + seq!['/'] + n) == n,
        file_name(n) == n,
{
    lemma_last(p, '/', n, n.len() as int);
    assert((p + seq!['/'] + n).skip(p.len() as int + 1) =~= n);
    lemma_nowhere(n, '/', n.len() as int);
    assert(n.skip(0) =~= n);
}

/// The extension of a file is what stands behind the last dot of its name; a name
/// without a dot, or with one only at its start, has none.
pub proof fn extensions_stand_behind_the_last_dot(b: Seq<char>, e: Seq<char>)
    requires
        !b.contains('/'),
        !e.contains('/'),
        !e.contains('.'),
    ensures
        b.len() > 0 ==> extension(b + seq!['.'] + e) == Some(e),
        extension(seq!['.'] + e) is None,
        extension(e) is None,
{
    let n = b + seq!['.'] + e;
    assert(!n.contains('/')) by {
        if n.contains('/') {
            let k = choose|k: int| 0 <= k < n.len() && n[k] == '/';
            if k < b.len() {
                assert(b[k] == '/');
            } else {
                assert(e[k - b.len() - 1] == '/');
            }
        }
    }
    names_stand_behind_the_last_slash(Seq::empty(), n);
    lemma_last(b, '.', e, e.len() as int);
    assert(n.skip(b.len() as int + 1) =~= e);
    let none = Seq::<char>::empty();
    let h = seq!['.'] + e;
    assert(h =~= none + seq!['.'] + e);
    assert(!h.contains('/')) by {
        if h.contains('/') {
            let k = choose|k: int| 0 <= k < h.len() && h[k] == '/';
            assert(e[k - 1] == '/');
        }
    }
    names_stand_behind_the_last_slash(none, h);
    lemma_last(none, '.', e, e.len() as int);
    names_stand_behind_the_last_slash(none, e);
    lemma_nowhere(e, '.', e.len() as int);
}

/// A tweak is known by its extension, which says its format too.
pub proof fn tweaks_are_known_by_their_extension(path: Seq<char>)
    ensures
        extension(path) == Some("yaml"@) || extension(path) == Some("yml"@) || extension(path)
            == Some("tweak"@) ==> tweak_format(path) == Some(false),
        extension(path) == Some("toml"@) ==> tweak_format(path) == Some(true),
        tweak_format(path) is Some ==> extension(path) == Some("yaml"@) || extension(path) == Some(
            "yml"@,
        ) || extension(path) == Some("tweak"@) || extension(path) == Some("toml"@),
{
    reveal_strlit("yaml");
    reveal_strlit("yml");
    reveal_strlit("tweak");
    reveal_strlit("toml");
    assert("yaml"@.len() == 4 && "yaml"@[0] == 'y');
    assert("yml"@.len() == 3);
    assert("tweak"@.len() == 5);
    assert("toml"@.len() == 4 && "toml"@[0] == 't');
}

/// The tweaks among files are all of them that are tweaks, in their order.
pub proof fn tweaks_are_found_among_files(files: Seq<Seq<char>>, n: nat)
    requires
        0 < n <= files.len(),
    ensures
        tweak_format(files[n - 1]) is Some ==> tweaks_among(files, n) == tweaks_among(
            files,
            (n - 1) as nat,
        ).push((files[n - 1], tweak_format(files[n - 1])->0)),
        tweak_format(files[n - 1]) is None ==> tweaks_among(files, n) == tweaks_among(
            files,
            (n - 1) as nat,
        ),
        tweaks_among(files, 0) == Seq::<(Seq<char>, bool)>::empty(),
{
}

/// Each tweak is applied to what the one before it left, and never over what it
/// reads; the first reads the untouched database.
pub proof fn each_tweak_reads_what_the_last_left(i: int)
    requires
        0 <= i,
    ensures
        input_slot(0) == Slot::Vanilla,
        input_slot(i + 1) == output_slot(i),
        output_slot(i) != input_slot(i),
        output_slot(i) != Slot::Vanilla,
{
}

// ---- mods ------------------------------------------------------------------

/// A mod is found by its name, in any case of letters, and the first one counts.
pub proof fn mods_are_found_by_name(mods: Seq<ModState>, name: Seq<char>, i: int)
    ensures
        0 <= i < mods.len() && lowercase(mods[i].name@) == lowercase(name) && (forall|k: int|
            0 <= k < i ==> lowercase((#[trigger] mods[k]).name@) != lowercase(name))
            ==> category_of(mods, name) == Some(mods[i].category@),
        (forall|k: int|
            0 <= k < mods.len() ==> lowercase((#[trigger] mods[k]).name@) != lowercase(name))
            ==> category_of(mods, name) is None,
{
    if 0 <= i < mods.len() && lowercase(mods[i].name@) == lowercase(name) && (forall|k: int|
        0 <= k < i ==> lowercase((#[trigger] mods[k]).name@) != lowercase(name)) {
        lemma_mod_at(mods, name, 0, i);
    }
    if forall|k: int|
        0 <= k < mods.len() ==> lowercase((#[trigger] mods[k]).name@) != lowercase(name) {
        lemma_no_mod(mods, name, 0);
    }
}

proof fn lemma_mod_at(mods: Seq<ModState>, name: Seq<char>, j: int, i: int)
    requires
        0 <= j <= i < mods.len(),
        lowercase(mods[i].name@) == lowercase(name),
        forall|k: int| 0 <= k < i ==> lowercase((#[trigger] mods[k]).name@) != lowercase(name),
    ensures
        mod_index(mods, name, j) == i,
    decreases i - j,
{
    if j < i {
        assert(lowercase(mods[j].name@) != lowercase(name));
        lemma_mod_at(mods, name, j + 1, i);
    }
}

proof fn lemma_no_mod(mods: Seq<ModState>, name: Seq<char>, j: int)
    requires
        0 <= j <= mods.len(),
        forall|k: int|
            0 <= k < mods.len() ==> lowercase((#[trigger] mods[k]).name@) != lowercase(name),
    ensures
        mod_index(mods, name, j) == mods.len(),
    decreases mods.len() - j,
{
    if j < mods.len() {
        assert(lowercase(mods[j].name@) != lowercase(name));
        lemma_no_mod(mods, name, j + 1);
    }
}

/// Hidden files do not count: a package whose only visible entry is a directory has
/// that directory as its root.
pub proof fn hidden_files_do_not_count(es: Seq<Entry>, n: nat, k: int)
    requires
        n <= es.len(),
    ensures
        visible_count(es, n) <= n,
        visible_count(es, n) == 0 <==> forall|i: int| 0 <= i < n ==> !visible(#[trigger] es[i]),
        n == es.len() && is_only_subdir(es, k) ==> es[k].is_dir && forall|i: int|
            0 <= i < n && i != k ==> !visible(#[trigger] es[i]),
    decreases n, 1nat,
{
    if n > 0 {
        let m = (n - 1) as nat;
        hidden_files_do_not_count(es, m, k);
        if visible_count(es, n) == 0 {
            assert forall|i: int| 0 <= i < n implies !visible(#[trigger] es[i]) by {}
        }
        if forall|i: int| 0 <= i < n ==> !visible(#[trigger] es[i]) {
            assert(!visible(es[n - 1]));
            assert forall|i: int| 0 <= i < m implies !visible(#[trigger] es[i]) by {}
        }
        if n == es.len() && is_only_subdir(es, k) {
            lemma_only(es, n, k);
        }
    }
}

proof fn lemma_only(es: Seq<Entry>, n: nat, k: int)
    requires
        n <= es.len(),
        0 <= k < n,
        visible(es[k]),
        visible_count(es, n) == 1,
    ensures
        forall|i: int| 0 <= i < n && i != k ==> !visible(#[trigger] es[i]),
    decreases n, 0nat,
{
    let m = (n - 1) as nat;
    if k < m {
        lemma_some(es, m, k);
        lemma_only(es, m, k);
    } else {
        hidden_files_do_not_count(es, m, -1);
    }
}

proof fn lemma_some(es: Seq<Entry>, n: nat, k: int)
    requires
        n <= es.len(),
        0 <= k < n,
        visible(es[k]),
    ensures
        visible_count(es, n) >= 1,
    decreases n,
{
    if k < n - 1 {
        lemma_some(es, (n - 1) as nat, k);
    }
}

/// A name that starts with a dot is hidden, and no other.
pub proof fn a_dot_hides(e: Entry)
    ensures
        e.name@.len() > 0 && e.name@[0] == '.' ==> !visible(e),
        e.name@.len() == 0 || e.name@[0] != '.' ==> visible(e),
{
}

/// Every file is counted under its own sort, and no other.
pub proof fn files_are_counted_by_their_sort(kinds: Seq<FileKind>, k: FileKind, j: FileKind)
    ensures
        kind_count(kinds.push(k), k) == kind_count(kinds, k) + 1,
        j != k ==> kind_count(kinds.push(k), j) == kind_count(kinds, j),
        kind_count(Seq::empty(), k) == 0,
{
    assert(kinds.push(k).drop_last() =~= kinds);
}

/// The steps that went well are counted, and no others.
pub proof fn steps_that_went_well_are_counted(steps: Seq<StepResult>, n: nat)
    requires
        n <= steps.len(),
    ensures
        went_well(steps, n) <= n,
        went_well(steps, n) == n <==> forall|i: int| 0 <= i < n ==> (#[trigger] steps[i]).ok,
        n > 0 ==> went_well(steps, n) == went_well(steps, (n - 1) as nat) + (if steps[n - 1].ok {
            1nat
        } else {
            0
        }),
    decreases n,
{
    if n > 0 {
        let m = (n - 1) as nat;
        steps_that_went_well_are_counted(steps, m);
        if went_well(steps, n) == n {
            assert forall|i: int| 0 <= i < n implies (#[trigger] steps[i]).ok by {}
        }
        if forall|i: int| 0 <= i < n ==> (#[trigger] steps[i]).ok {
            assert(steps[n - 1].ok);
            assert forall|i: int| 0 <= i < m implies (#[trigger] steps[i]).ok by {}
        }
    }
}

// ---- the interface ---------------------------------------------------------

/// The selection moves by one and stays on a mod; only its keys do anything else.
pub proof fn keys_move_and_act(sel: int, len: int, c: char)
    requires
        0 <= sel,
        0 <= len,
    ensures
        len > 0 ==> 0 <= tui_step_of(sel, len, Key::Up).0 < len && 0 <= tui_step_of(
            sel,
            len,
            Key::Down,
        ).0 < len,
        0 < sel < len ==> tui_step_of(sel, len, Key::Up).0 == sel - 1,
        len > 0 ==> tui_step_of(0, len, Key::Up).0 == 0,
        sel + 1 < len ==> tui_step_of(sel, len, Key::Down).0 == sel + 1,
        len > 0 ==> tui_step_of(len - 1, len, Key::Down).0 == len - 1,
        tui_step_of(sel, len, Key::Up).1 == TuiAction::Redraw,
        tui_step_of(sel, len, Key::Down).1 == TuiAction::Redraw,
        tui_step_of(sel, len, Key::Other).1 == TuiAction::Redraw,
        tui_step_of(sel, len, Key::Char('q')).1 == TuiAction::Quit,
        tui_step_of(sel, len, Key::Char('i')).1 == TuiAction::Install,
        tui_step_of(sel, len, Key::Char('c')).1 == TuiAction::Classify,
        sel < len <= usize::MAX ==> tui_step_of(sel, len, Key::Char('r')).1 == (TuiAction::Remove {
            index: sel as usize,
        }),
        len == 0 ==> tui_step_of(sel, len, Key::Char('r')).1 == TuiAction::Redraw,
        c != 'q' && c != '\x03' && c != 'i' && c != 'c' && c != 'r' ==> tui_step_of(
            sel,
            len,
            Key::Char(c),
        ).1 == TuiAction::Redraw,
        sel < len ==> tui_step_of(sel, len, Key::Char(c)).0 == sel,
{
}

// ---- flows -----------------------------------------------------------------

/// Has the step been taken, and did it go well?
pub open spec fn went_ok<T, E>(r: Option<Result<T, E>>) -> bool {
    r is Some && r->0 is Ok
}

/// What the exit code of an installation says: two that it was not asked for rightly,
/// three that the package is risky, zero that it was looked at only or is installed,
/// synchronised and activated, one that a step failed.
pub proof fn exit_codes_of_installations(st: InstallFlow)
    ensures
        match flow_step_of(st) {
            FlowStepV::Exit { code, .. } => {
                &&& code == 2 <==> !st.has_input
                &&& code == 3 <==> st.has_input && went_ok(st.opened) && st.game && st.name is Some
                    && st.risks > 0
                &&& code == 0 ==> went_ok(st.opened) && st.game && st.risks == 0 && (!st.do_install
                    || (went_ok(st.staged) && went_ok(st.applied) && st.activated is Some))
                &&& code == 1 ==> (st.opened is Some && st.opened->0 is Err) || !st.game || (
                st.staged is Some && st.staged->0 is Err) || (st.applied is Some && st.applied->0
                    is Err)
                &&& code <= 3
            },
            FlowStepV::Open => st.opened is None,
            FlowStepV::Classify => went_ok(st.opened) && st.name is None,
            FlowStepV::Stage => st.staged is None,
            FlowStepV::Apply => went_ok(st.staged) && st.applied is None,
            FlowStepV::Activate => went_ok(st.staged) && went_ok(st.applied) && st.activated is None,
        },
{
}

/// What the exit code of an import says, and that each of its steps waits for the one
/// before.
pub proof fn exit_codes_of_imports(st: ImportFlow)
    ensures
        match import_step_of(st) {
            ImportStepV::Exit { code, .. } => {
                &&& code == 0 <==> st.has_source && went_ok(st.opened) && st.game && st.risks
                    is Some && (st.risks->0)@.len() == 0 && went_ok(st.imported)
                &&& code == 3 <==> st.has_source && went_ok(st.opened) && st.game && st.risks
                    is Some && (st.risks->0)@.len() > 0
                &&& code == 1 ==> st.imported is Some && st.imported->0 is Err
                &&& code == 2 ==> !st.has_source || !st.game || (st.opened is Some && st.opened->0
                    is Err)
                &&& code <= 3
            },
            ImportStepV::Open => st.has_source && st.opened is None,
            ImportStepV::Classify => went_ok(st.opened) && st.game && st.risks is None,
            ImportStepV::Import => went_ok(st.opened) && st.imported is None,
        },
{
}

/// The numbers of an import: a link gives both, a number the mod alone, anything else
/// none.
pub proof fn numbers_of_imports(link: Option<(u64, u64)>, a: u64, b: u64, n: u64, rest: Seq<char>)
    ensures
        ids_of(None, link) == (None::<u64>, None::<u64>),
        ids_of(Some("nxm://"@ + rest), Some((a, b))) == (Some(a), Some(b)),
        ids_of(Some("nxm://"@ + rest), None) == (None::<u64>, None::<u64>),
        ids_of(Some(dec(n as nat)), link) == (Some(n), None::<u64>),
{
    reveal_strlit("nxm://");
    let p = "nxm://"@;
    assert(p.len() == 6 && p[0] == 'n');
    assert((p + rest).take(6) =~= p);
    decimal_digits_read_back(n as nat, u64::MAX as nat, 0, 0, 0);
    lemma_first_figure(n as nat);
    if has_prefix(dec(n as nat), p) {
        assert(dec(n as nat).take(6)[0] == 'n');
    }
}

proof fn lemma_first_figure(n: nat)
    ensures
        dec(n).len() > 0,
        '0' <= dec(n)[0] <= '9',
    decreases n,
{
    if n >= 10 {
        lemma_first_figure(n / 10);
        assert(dec(n)[0] == dec(n / 10)[0]);
    }
}

/// Rebuilding the database ends well only after every step did, and keeps a copy of
/// the untouched one before it does anything.
pub proof fn rebuilds_end_well_after_every_step(files: Seq<(Seq<char>, bool)>, st: TweakState)
    ensures
        match next_tweak_step(files, st) {
            TweakStepV::Done(s) => s.ok ==> st.live && (st.backup || went_ok(st.saved)) && (
            files.len() == 0 ==> went_ok(st.restored)) && (files.len() > 0 ==> st.tool == Some(true)
                && st.applied@.len() >= files.len() && went_ok(st.staged) && went_ok(st.installed)),
            TweakStepV::Backup => st.live && !st.backup,
            TweakStepV::Restore => files.len() == 0 && (st.backup || went_ok(st.saved)),
            TweakStepV::FindTool => files.len() > 0 && (st.backup || went_ok(st.saved)),
            TweakStepV::Apply { index, toml, .. } => 0 <= index < files.len() && toml
                == files[index].1 && st.tool == Some(true),
            TweakStepV::Stage { .. } => st.applied@.len() >= files.len() && files.len() > 0,
            TweakStepV::Install => went_ok(st.staged) && st.installed is None,
        },
{
}

/// A tool that ran well ends its step well, and nothing else does.
pub proof fn only_tools_that_ran_well_end_well(
    step: Seq<char>,
    tool: Seq<char>,
    run: Option<RunOutcome>,
    done: Seq<char>,
)
    ensures
        tool_result(step, tool, run, done).ok <==> run is Some && run->0 is Success,
        run is Some && run->0 is Success ==> tool_result(step, tool, run, done).detail == done,
        tool_result(step, tool, run, done).step == step,
{
}

} // verus!
