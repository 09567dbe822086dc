//! The mod manager's decisions: which game directory, which command, what an
//! installation does next, what is shown, and how the text interface moves.
use vstd::prelude::*;

use crate::activation::{extension, extension_of, StepResult};
use crate::encode::{lowercase, to_lowercase};
use crate::numbers::{parse_unsigned, unsigned_within};
use crate::text::{chars_of, dec, has_prefix, is_lit, push_dec, push_lit, same, starts_with,
    string_of, strings_view};
use crate::webui::opt_view;

verus! {

// ---- texts -----------------------------------------------------------------

/// Two texts put together.
pub(crate) fn join2(a: &str, b: &str) -> (r: String)
    ensures
        r@ == a@ + b@,
{
    let mut out: Vec<char> = Vec::new();
    push_lit(&mut out, a);
    push_lit(&mut out, b);
    proof {
        assert(out@ =~= a@ + b@);
    }
    string_of(out.as_slice())
}

/// Three texts put together.
pub(crate) fn join3(a: &str, b: &str, c: &str) -> (r: String)
    ensures
        r@ == a@ + b@ + c@,
{
    let mut out: Vec<char> = Vec::new();
    push_lit(&mut out, a);
    push_lit(&mut out, b);
    push_lit(&mut out, c);
    proof {
        assert(out@ =~= a@ + b@ + c@);
    }
    string_of(out.as_slice())
}

// ---- the game directory ----------------------------------------------------

/// A path, and whether it is a directory.
pub struct Place {
    pub path: String,
    pub is_dir: bool,
}

pub open spec fn usable(p: Option<Place>) -> bool {
    p is Some && (p->0).is_dir
}

/// The game's directory: the one given, then the one from the environment, then
/// the usual one; the first that is a directory.
pub open spec fn root_of(arg: Option<Place>, env: Option<Place>, home: Option<Place>) -> Option<
    Seq<char>,
> {
    if usable(arg) {
        Some((arg->0).path@)
    } else if usable(env) {
        Some((env->0).path@)
    } else if usable(home) {
        Some((home->0).path@)
    } else {
        None
    }
}

pub fn game_root(arg: &Option<Place>, env: &Option<Place>, home: &Option<Place>) -> (r: Option<
    String,
>)
    ensures
        opt_view(r) == root_of(*arg, *env, *home),
{
    if let Some(p) = arg {
        if p.is_dir {
            return Some(p.path.clone());
        }
    }
    if let Some(p) = env {
        if p.is_dir {
            return Some(p.path.clone());
        }
    }
    if let Some(p) = home {
        if p.is_dir {
            return Some(p.path.clone());
        }
    }
    None
}

// ---- commands --------------------------------------------------------------

#[derive(Clone, Copy, PartialEq, Eq, Structural)]
pub enum Verb {
    Classify,
    Suggest,
    Apply,
    Plan,
    Install,
    List,
    Remove,
    NexusImport,
    NexusList,
    NexusDeploy,
    NexusRemove,
    NexusUsage,
    Tui,
    Help,
    Unknown,
}

pub open spec fn nexus_verb_of(arg: Option<Seq<char>>) -> Verb {
    if arg == Some("import"@) {
        Verb::NexusImport
    } else if arg == Some("list"@) {
        Verb::NexusList
    } else if arg == Some("deploy"@) {
        Verb::NexusDeploy
    } else if arg == Some("remove"@) {
        Verb::NexusRemove
    } else {
        Verb::NexusUsage
    }
}

/// The command that the first two arguments select.
pub open spec fn verb_of(first: Option<Seq<char>>, second: Option<Seq<char>>) -> Verb {
    match first {
        None => Verb::Tui,
        Some(s) => if s == "classify"@ {
            Verb::Classify
        } else if s == "suggest"@ {
            Verb::Suggest
        } else if s == "apply"@ {
            Verb::Apply
        } else if s == "plan"@ {
            Verb::Plan
        } else if s == "install"@ {
            Verb::Install
        } else if s == "list"@ {
            Verb::List
        } else if s == "remove"@ {
            Verb::Remove
        } else if s == "nexus"@ {
            nexus_verb_of(second)
        } else if s == "tui"@ {
            Verb::Tui
        } else if s == "-h"@ || s == "--help"@ || s == "help"@ {
            Verb::Help
        } else {
            Verb::Unknown
        },
    }
}

pub open spec fn arg_at(args: Seq<String>, i: int) -> Option<Seq<char>> {
    if 0 <= i < args.len() {
        Some(args[i]@)
    } else {
        None
    }
}

fn nexus_verb(arg: Option<&String>) -> (r: Verb)
    ensures
        r == nexus_verb_of(
            match arg {
                Some(s) => Some(s@),
                None => None,
            },
        ),
{
    match arg {
        None => Verb::NexusUsage,
        Some(s) => {
            let v = chars_of(s.as_str());
            let t = v.as_slice();
            if is_lit(t, "import") {
                Verb::NexusImport
            } else if is_lit(t, "list") {
                Verb::NexusList
            } else if is_lit(t, "deploy") {
                Verb::NexusDeploy
            } else if is_lit(t, "remove") {
                Verb::NexusRemove
            } else {
                Verb::NexusUsage
            }
        },
    }
}

/// The command of a command line, whose first word is the program.
pub fn command_of(args: &Vec<String>) -> (r: Verb)
    ensures
        r == verb_of(arg_at(args@, 1), arg_at(args@, 2)),
{
    if args.len() < 2 {
        return Verb::Tui;
    }
    let v = chars_of(args[1].as_str());
    let s = v.as_slice();
    if is_lit(s, "classify") {
        Verb::Classify
    } else if is_lit(s, "suggest") {
        Verb::Suggest
    } else if is_lit(s, "apply") {
        Verb::Apply
    } else if is_lit(s, "plan") {
        Verb::Plan
    } else if is_lit(s, "install") {
        Verb::Install
    } else if is_lit(s, "list") {
        Verb::List
    } else if is_lit(s, "remove") {
        Verb::Remove
    } else if is_lit(s, "nexus") {
        if args.len() > 2 {
            nexus_verb(Some(&args[2]))
        } else {
            nexus_verb(None)
        }
    } else if is_lit(s, "tui") {
        Verb::Tui
    } else if is_lit(s, "-h") || is_lit(s, "--help") || is_lit(s, "help") {
        Verb::Help
    } else {
        Verb::Unknown
    }
}

// ---- installing ------------------------------------------------------------

/// What a synchronisation did.
#[derive(Clone, Copy)]
pub struct ApplyReport {
    pub copied: usize,
    pub removed: usize,
    pub xl_pending: usize,
    pub reslink_pairs: usize,
}

/// What is known of an installation so far.
pub struct InstallFlow {
    pub has_input: bool,
    pub do_install: bool,
    pub opened: Option<Result<(), String>>,
    pub game: bool,
    pub name: Option<String>,
    pub notes: Vec<String>,
    pub risks: usize,
    pub staged: Option<Result<String, String>>,
    pub applied: Option<Result<ApplyReport, String>>,
    pub activated: Option<Vec<StepResult>>,
}

/// What is to be done next: open the package, find the game and classify the
/// package, stage it, synchronise, activate, or stop with an exit code and a
/// message.
pub enum FlowStep {
    Open,
    Classify,
    Stage,
    Apply,
    Activate,
    Exit { code: u8, message: String },
}

pub enum FlowStepV {
    Open,
    Classify,
    Stage,
    Apply,
    Activate,
    Exit { code: u8, message: Seq<char> },
}

impl View for FlowStep {
    type V = FlowStepV;

    open spec fn view(&self) -> FlowStepV {
        match self {
            FlowStep::Open => FlowStepV::Open,
            FlowStep::Classify => FlowStepV::Classify,
            FlowStep::Stage => FlowStepV::Stage,
            FlowStep::Apply => FlowStepV::Apply,
            FlowStep::Activate => FlowStepV::Activate,
            FlowStep::Exit { code, message } => FlowStepV::Exit { code: *code, message: message@ },
        }
    }
}

/// The line on what a synchronisation did.
pub open spec fn applied_text(rep: ApplyReport) -> Seq<char> {
    let a = "✓ aplicado: "@ + dec(rep.copied as nat) + " arquivo(s), "@ + dec(
        rep.removed as nat,
    ) + " removido(s)"@;
    let b = if rep.xl_pending > 0 {
        ", "@ + dec(rep.xl_pending as nat) + " .xl pendente(s) do runtime ArchiveXL"@
    } else {
        Seq::empty()
    };
    let c = if rep.reslink_pairs > 0 {
        " ("@ + dec(rep.reslink_pairs as nat)
            + " par(es) resource.link/copy escritos em red4ext/bwms-reslink.txt)"@
    } else {
        Seq::empty()
    };
    a + b + c + "."@
}

pub open spec fn usage_text(install: bool) -> Seq<char> {
    "uso: cp77-mods "@ + (if install {
        "install"@
    } else {
        "plan"@
    }) + " <pasta|.zip> [game]"@
}

pub open spec fn dry_run_text(name: Seq<char>) -> Seq<char> {
    "(dry-run) `install` faria: staging em BWMS/mods/instalados/"@ + name
        + "/ → apply (LogicalMod) → ativar (redscript+TweakDB)."@
}

/// The next step of `plan` and `install`.
pub open spec fn flow_step_of(st: InstallFlow) -> FlowStepV {
    if !st.has_input {
        FlowStepV::Exit { code: 2, message: usage_text(st.do_install) }
    } else {
        match st.opened {
            None => FlowStepV::Open,
            Some(Err(e)) => FlowStepV::Exit { code: 1, message: "erro: "@ + e@ },
            Some(Ok(_)) => if !st.game {
                FlowStepV::Exit {
                    code: 1,
                    message:
                        "erro: raiz do jogo não encontrada (passe [game] ou defina CP77_DIR)."@,
                }
            } else {
                match st.name {
                    None => FlowStepV::Classify,
                    Some(name) => if st.risks > 0 {
                        FlowStepV::Exit {
                            code: 3,
                            message: "⚠ instalação BLOQUEADA por "@ + dec(st.risks as nat)
                                + " risco(s) — veja `classify`."@,
                        }
                    } else if !st.do_install {
                        FlowStepV::Exit { code: 0, message: dry_run_text(name@) }
                    } else {
                        match st.staged {
                            None => FlowStepV::Stage,
                            Some(Err(e)) => FlowStepV::Exit {
                                code: 1,
                                message: "✗ staging falhou: "@ + e@,
                            },
                            Some(Ok(_)) => match st.applied {
                                None => FlowStepV::Apply,
                                Some(Err(e)) => FlowStepV::Exit {
                                    code: 1,
                                    message: "✗ apply falhou: "@ + e@,
                                },
                                Some(Ok(_)) => if st.activated is None {
                                    FlowStepV::Activate
                                } else {
                                    FlowStepV::Exit {
                                        code: 0,
                                        message:
                                            "  (mods de archive aplicam ao REINICIAR o jogo)"@,
                                    }
                                },
                            },
                        }
                    },
                }
            },
        }
    }
}

fn applied_line(rep: ApplyReport) -> (r: String)
    ensures
        r@ == applied_text(rep),
{
    let mut out: Vec<char> = Vec::new();
    push_lit(&mut out, "✓ aplicado: ");
    push_dec(&mut out, rep.copied as u128);
    push_lit(&mut out, " arquivo(s), ");
    push_dec(&mut out, rep.removed as u128);
    push_lit(&mut out, " removido(s)");
    if rep.xl_pending > 0 {
        push_lit(&mut out, ", ");
        push_dec(&mut out, rep.xl_pending as u128);
        push_lit(&mut out, " .xl pendente(s) do runtime ArchiveXL");
    }
    if rep.reslink_pairs > 0 {
        push_lit(&mut out, " (");
        push_dec(&mut out, rep.reslink_pairs as u128);
        push_lit(&mut out, " par(es) resource.link/copy escritos em red4ext/bwms-reslink.txt)");
    }
    push_lit(&mut out, ".");
    proof {
        assert(out@ =~= applied_text(rep));
    }
    string_of(out.as_slice())
}

fn stop(code: u8, message: &str) -> (r: FlowStep)
    ensures
        r@ == (FlowStepV::Exit { code, message: message@ }),
{
    FlowStep::Exit { code, message: message.to_owned() }
}

fn stop_with(code: u8, what: &str, e: &String) -> (r: FlowStep)
    ensures
        r@ == (FlowStepV::Exit { code, message: what@ + e@ }),
{
    FlowStep::Exit { code, message: join2(what, e.as_str()) }
}

fn blocked_line(risks: usize) -> (r: String)
    ensures
        r@ == "⚠ instalação BLOQUEADA por "@ + dec(risks as nat)
            + " risco(s) — veja `classify`."@,
{
    let mut out: Vec<char> = Vec::new();
    push_lit(&mut out, "⚠ instalação BLOQUEADA por ");
    push_dec(&mut out, risks as u128);
    push_lit(&mut out, " risco(s) — veja `classify`.");
    proof {
        assert(out@ =~= "⚠ instalação BLOQUEADA por "@ + dec(risks as nat)
            + " risco(s) — veja `classify`."@);
    }
    string_of(out.as_slice())
}

/// Decides the next step of `plan` and `install`.
pub fn cmd_plan_or_install(st: &InstallFlow) -> (r: FlowStep)
    ensures
        r@ == flow_step_of(*st),
{
    if !st.has_input {
        let verb = if st.do_install {
            "install"
        } else {
            "plan"
        };
        return FlowStep::Exit {
            code: 2,
            message: join3("uso: cp77-mods ", verb, " <pasta|.zip> [game]"),
        };
    }
    match &st.opened {
        None => {
            return FlowStep::Open;
        },
        Some(Err(e)) => {
            return stop_with(1, "erro: ", e);
        },
        Some(Ok(_)) => {},
    }
    if !st.game {
        return stop(1, "erro: raiz do jogo não encontrada (passe [game] ou defina CP77_DIR).");
    }
    let name = match &st.name {
        None => {
            return FlowStep::Classify;
        },
        Some(n) => n,
    };
    if st.risks > 0 {
        return FlowStep::Exit { code: 3, message: blocked_line(st.risks) };
    }
    if !st.do_install {
        return FlowStep::Exit {
            code: 0,
            message: join3(
                "(dry-run) `install` faria: staging em BWMS/mods/instalados/",
                name.as_str(),
                "/ → apply (LogicalMod) → ativar (redscript+TweakDB).",
            ),
        };
    }
    match &st.staged {
        None => {
            return FlowStep::Stage;
        },
        Some(Err(e)) => {
            return stop_with(1, "✗ staging falhou: ", e);
        },
        Some(Ok(_)) => {},
    }
    match &st.applied {
        None => FlowStep::Apply,
        Some(Err(e)) => stop_with(1, "✗ apply falhou: ", e),
        Some(Ok(_)) => if st.activated.is_none() {
            FlowStep::Activate
        } else {
            stop(0, "  (mods de archive aplicam ao REINICIAR o jogo)")
        },
    }
}

/// Nothing is staged or applied for a package with risks, on a dry run, or
/// before the package was classified.
pub proof fn risky_packages_are_not_installed(st: InstallFlow)
    ensures
        flow_step_of(st) is Stage || flow_step_of(st) is Apply || flow_step_of(st) is Activate
            ==> st.name is Some && st.risks == 0 && st.do_install && st.game,
{
}

/// The lines that were printed so far, without those of the last step.
pub open spec fn progress_of(st: InstallFlow) -> Seq<Seq<char>> {
    if !st.has_input || !(st.opened is Some && st.opened->0 is Ok) || !st.game || st.name is None {
        Seq::empty()
    } else {
        let head = seq!["MOD: "@ + (st.name->0)@] + marked_texts("  · "@, strings_view(st.notes@));
        if st.risks > 0 || !st.do_install {
            head
        } else {
            match st.staged {
                Some(Ok(path)) => match st.applied {
                    Some(Ok(rep)) => {
                        let done = head.push("✓ staged: "@ + path@).push(applied_text(rep));
                        match st.activated {
                            Some(steps) => done + step_lines_of(steps@),
                            None => done,
                        }
                    },
                    _ => head.push("✓ staged: "@ + path@),
                },
                _ => head,
            }
        }
    }
}

pub open spec fn step_lines_of(steps: Seq<StepResult>) -> Seq<Seq<char>> {
    steps.map_values(|s: StepResult| step_line_of(s))
}

/// Each text behind a mark.
pub open spec fn marked_texts(mark: Seq<char>, items: Seq<Seq<char>>) -> Seq<Seq<char>> {
    items.map_values(|x: Seq<char>| mark + x)
}

fn push_marked_texts(out: &mut Vec<String>, mark: &str, items: &Vec<String>)
    ensures
        strings_view(final(out)@) == strings_view(old(out)@) + marked_texts(
            mark@,
            strings_view(items@),
        ),
{
    let ghost start = out@;
    let ghost all = marked_texts(mark@, strings_view(items@));
    let mut i: usize = 0;
    proof {
        assert(strings_view(out@) =~= strings_view(start) + all.take(0));
    }
    while i < items.len()
        invariant
            i <= items@.len(),
            all == marked_texts(mark@, strings_view(items@)),
            strings_view(out@) == strings_view(start) + all.take(i as int),
        decreases items@.len() - i,
    {
        let ghost before = out@;
        out.push(join2(mark, items[i].as_str()));
        i += 1;
        proof {
            assert(strings_view(out@) =~= strings_view(before).push(all[i - 1]));
            assert(all.take(i as int) =~= all.take(i - 1).push(all[i - 1]));
            assert(strings_view(out@) =~= strings_view(start) + all.take(i as int));
        }
    }
    proof {
        assert(all.take(items@.len() as int) =~= all);
    }
}

pub(crate) fn push_line(out: &mut Vec<String>, line: String)
    ensures
        strings_view(final(out)@) == strings_view(old(out)@).push(line@),
{
    let ghost before = out@;
    out.push(line);
    proof {
        assert(strings_view(out@) =~= strings_view(before).push(line@));
    }
}

pub(crate) fn push_step_lines(out: &mut Vec<String>, steps: &Vec<StepResult>)
    ensures
        strings_view(final(out)@) == strings_view(old(out)@) + step_lines_of(steps@),
{
    let ghost start = out@;
    let ghost all = step_lines_of(steps@);
    let mut i: usize = 0;
    proof {
        assert(strings_view(out@) =~= strings_view(start) + all.take(0));
    }
    while i < steps.len()
        invariant
            i <= steps@.len(),
            all == step_lines_of(steps@),
            strings_view(out@) == strings_view(start) + all.take(i as int),
        decreases steps@.len() - i,
    {
        push_line(out, step_line(&steps[i]));
        i += 1;
        proof {
            assert(all.take(i as int) =~= all.take(i - 1).push(all[i - 1]));
            assert(strings_view(out@) =~= strings_view(start) + all.take(i as int));
        }
    }
    proof {
        assert(all.take(steps@.len() as int) =~= all);
    }
}

/// What `plan` and `install` have printed so far.
pub fn install_progress(st: &InstallFlow) -> (r: Vec<String>)
    ensures
        strings_view(r@) == progress_of(*st),
{
    let mut out: Vec<String> = Vec::new();
    proof {
        assert(strings_view(out@) =~= Seq::empty());
    }
    let opened: bool = match &st.opened {
        Some(Ok(_)) => true,
        _ => false,
    };
    if !st.has_input || !opened || !st.game {
        return out;
    }
    let name = match &st.name {
        None => {
            return out;
        },
        Some(n) => n,
    };
    push_line(&mut out, join2("MOD: ", name.as_str()));
    proof {
        assert(strings_view(out@) =~= seq!["MOD: "@ + name@]);
    }
    push_marked_texts(&mut out, "  · ", &st.notes);
    if st.risks > 0 || !st.do_install {
        return out;
    }
    if let Some(Ok(path)) = &st.staged {
        push_line(&mut out, join2("✓ staged: ", path.as_str()));
        if let Some(Ok(rep)) = &st.applied {
            push_line(&mut out, applied_line(*rep));
            if let Some(steps) = &st.activated {
                push_step_lines(&mut out, steps);
            }
        }
    }
    out
}

// ---- lines -----------------------------------------------------------------

pub open spec fn step_line_of(s: StepResult) -> Seq<char> {
    "  "@ + (if s.ok {
        "✓"@
    } else {
        "✗"@
    }) + " "@ + s.step@ + " — "@ + s.detail@
}

/// The line on a step of an activation.
pub fn step_line(s: &StepResult) -> (r: String)
    ensures
        r@ == step_line_of(*s),
{
    let mut out: Vec<char> = Vec::new();
    push_lit(&mut out, "  ");
    push_lit(
        &mut out,
        if s.ok {
            "✓"
        } else {
            "✗"
        },
    );
    push_lit(&mut out, " ");
    push_lit(&mut out, s.step.as_str());
    push_lit(&mut out, " — ");
    push_lit(&mut out, s.detail.as_str());
    proof {
        assert(out@ =~= step_line_of(*s));
    }
    string_of(out.as_slice())
}

/// A mod in the staging area.
pub struct ModState {
    pub name: String,
    pub category: String,
    pub label: String,
    pub active: bool,
    pub favorite: bool,
}

pub open spec fn mark(b: bool, yes: Seq<char>) -> Seq<char> {
    if b {
        yes
    } else {
        " "@
    }
}

pub open spec fn mod_line_of(m: ModState) -> Seq<char> {
    "  ["@ + mark(m.active, "x"@) + "]"@ + mark(m.favorite, "★"@) + " "@ + m.name@ + " — "@
        + m.label@
}

/// The line on a mod in a list.
pub fn mod_line(m: &ModState) -> (r: String)
    ensures
        r@ == mod_line_of(*m),
{
    let mut out: Vec<char> = Vec::new();
    push_lit(&mut out, "  [");
    push_lit(
        &mut out,
        if m.active {
            "x"
        } else {
            " "
        },
    );
    push_lit(&mut out, "]");
    push_lit(
        &mut out,
        if m.favorite {
            "★"
        } else {
            " "
        },
    );
    push_lit(&mut out, " ");
    push_lit(&mut out, m.name.as_str());
    push_lit(&mut out, " — ");
    push_lit(&mut out, m.label.as_str());
    proof {
        assert(out@ =~= mod_line_of(*m));
    }
    string_of(out.as_slice())
}

/// The first mod with that name from `i` on, whatever the case of its letters.
pub open spec fn mod_index(mods: Seq<ModState>, name: Seq<char>, i: int) -> int
    decreases mods.len() - i,
{
    if i >= mods.len() {
        mods.len() as int
    } else if lowercase(mods[i].name@) == lowercase(name) {
        i
    } else {
        mod_index(mods, name, i + 1)
    }
}

/// The category of the mod with that name.
pub open spec fn category_of(mods: Seq<ModState>, name: Seq<char>) -> Option<Seq<char>> {
    let k = mod_index(mods, name, 0);
    if 0 <= k < mods.len() {
        Some(mods[k].category@)
    } else {
        None
    }
}

pub fn find_category(mods: &Vec<ModState>, name: &str) -> (r: Option<String>)
    ensures
        opt_view(r) == category_of(mods@, name@),
{
    let n = chars_of(name);
    let want = to_lowercase(n.as_slice());
    let mut i: usize = 0;
    while i < mods.len()
        invariant
            i <= mods@.len(),
            want@ == lowercase(name@),
            mod_index(mods@, name@, 0) == mod_index(mods@, name@, i as int),
        decreases mods@.len() - i,
    {
        let v = chars_of(mods[i].name.as_str());
        let low = to_lowercase(v.as_slice());
        if same(low.as_slice(), want.as_slice()) {
            return Some(mods[i].category.clone());
        }
        i += 1;
    }
    None
}

/// What is known of a removal so far: the mod's category, what came of deleting
/// its directory and of the synchronisation, and whether everything was activated
/// again.
pub struct RemoveFlow {
    pub category: Option<String>,
    pub deleted: Option<Result<(), String>>,
    pub applied: Option<Result<usize, String>>,
    pub activated: bool,
}

/// What is to be done next in a removal, or what is said at its end.
pub enum RemoveStep {
    Delete { category: String },
    Apply,
    Activate,
    Done { ok: bool, message: String },
}

pub enum RemoveStepV {
    Delete { category: Seq<char> },
    Apply,
    Activate,
    Done { ok: bool, message: Seq<char> },
}

impl View for RemoveStep {
    type V = RemoveStepV;

    open spec fn view(&self) -> RemoveStepV {
        match self {
            RemoveStep::Delete { category } => RemoveStepV::Delete { category: category@ },
            RemoveStep::Apply => RemoveStepV::Apply,
            RemoveStep::Activate => RemoveStepV::Activate,
            RemoveStep::Done { ok, message } => RemoveStepV::Done { ok: *ok, message: message@ },
        }
    }
}

pub open spec fn remove_step_of(name: Seq<char>, dir: Seq<char>, st: RemoveFlow) -> RemoveStepV {
    match st.category {
        None => RemoveStepV::Done {
            ok: false,
            message: "'"@ + name + "' não está no staging"@,
        },
        Some(category) => match st.deleted {
            None => RemoveStepV::Delete { category: category@ },
            Some(Err(e)) => RemoveStepV::Done {
                ok: false,
                message: "erro ao apagar "@ + dir + ": "@ + e@,
            },
            Some(Ok(_)) => match st.applied {
                None => RemoveStepV::Apply,
                Some(Err(e)) => RemoveStepV::Done {
                    ok: false,
                    message: "erro ao sincronizar: "@ + e@,
                },
                Some(Ok(n)) => if !st.activated {
                    RemoveStepV::Activate
                } else {
                    RemoveStepV::Done {
                        ok: true,
                        message: "removido: "@ + name + " ("@ + dec(n as nat)
                            + " arquivo(s) tirados)"@,
                    }
                },
            },
        },
    }
}

/// Decides the next step of a removal of the mod in the directory `dir`.
pub fn remove_staged(name: &str, dir: &str, st: &RemoveFlow) -> (r: RemoveStep)
    ensures
        r@ == remove_step_of(name@, dir@, *st),
{
    let category = match &st.category {
        None => {
            return RemoveStep::Done {
                ok: false,
                message: join3("'", name, "' não está no staging"),
            };
        },
        Some(c) => c,
    };
    match &st.deleted {
        None => {
            return RemoveStep::Delete { category: category.clone() };
        },
        Some(Err(e)) => {
            let mut out: Vec<char> = Vec::new();
            push_lit(&mut out, "erro ao apagar ");
            push_lit(&mut out, dir);
            push_lit(&mut out, ": ");
            push_lit(&mut out, e.as_str());
            proof {
                assert(out@ =~= "erro ao apagar "@ + dir@ + ": "@ + e@);
            }
            return RemoveStep::Done { ok: false, message: string_of(out.as_slice()) };
        },
        Some(Ok(_)) => {},
    }
    match &st.applied {
        None => RemoveStep::Apply,
        Some(Err(e)) => RemoveStep::Done {
            ok: false,
            message: join2("erro ao sincronizar: ", e.as_str()),
        },
        Some(Ok(n)) => {
            if !st.activated {
                return RemoveStep::Activate;
            }
            let mut out: Vec<char> = Vec::new();
            push_lit(&mut out, "removido: ");
            push_lit(&mut out, name);
            push_lit(&mut out, " (");
            push_dec(&mut out, *n as u128);
            push_lit(&mut out, " arquivo(s) tirados)");
            proof {
                assert(out@ =~= "removido: "@ + name@ + " ("@ + dec(*n as nat)
                    + " arquivo(s) tirados)"@);
            }
            RemoveStep::Done { ok: true, message: string_of(out.as_slice()) }
        },
    }
}

/// A removal ends well only after everything was activated again, so that what
/// the mod had changed is gone.
pub proof fn removals_are_activated(name: Seq<char>, dir: Seq<char>, st: RemoveFlow)
    ensures
        match remove_step_of(name, dir, st) {
            RemoveStepV::Done { ok, .. } => ok ==> st.activated && st.applied is Some
                && st.applied->0 is Ok && st.deleted is Some && st.deleted->0 is Ok,
            RemoveStepV::Activate => st.applied is Some && st.applied->0 is Ok,
            _ => true,
        },
{
}

// ---- the library -----------------------------------------------------------

/// The mod and file numbers of an import: from a link where one is given, else a
/// bare mod number. `link` holds what a link was read as.
pub open spec fn ids_of(arg: Option<Seq<char>>, link: Option<(u64, u64)>) -> (
    Option<u64>,
    Option<u64>,
) {
    match arg {
        None => (None, None),
        Some(s) => if has_prefix(s, "nxm://"@) {
            match link {
                Some((m, f)) => (Some(m), Some(f)),
                None => (None, None),
            }
        } else {
            match unsigned_within(s, 10, u64::MAX as nat) {
                Some(n) => (Some(n as u64), None),
                None => (None, None),
            }
        },
    }
}

pub fn parse_id_arg(arg: &Option<String>, link: Option<(u64, u64)>) -> (r: (
    Option<u64>,
    Option<u64>,
))
    ensures
        r == ids_of(opt_view(*arg), link),
{
    match arg {
        None => (None, None),
        Some(s) => {
            let v = chars_of(s.as_str());
            if starts_with(v.as_slice(), "nxm://") {
                match link {
                    Some((m, f)) => (Some(m), Some(f)),
                    None => (None, None),
                }
            } else {
                match parse_unsigned(v.as_slice(), 10, u64::MAX) {
                    Some(n) => (Some(n), None),
                    None => (None, None),
                }
            }
        },
    }
}

/// What the library is told of an import.
pub struct ImportInfo {
    pub name: String,
    pub author: String,
    pub version: String,
    pub mod_id: Option<u64>,
    pub file_id: Option<u64>,
    pub installation_file: String,
    pub installed_at: String,
    pub category: String,
}

/// The file that an import is said to come from.
pub fn install_file(file_name: &Option<String>) -> (r: String)
    ensures
        r@ == (match *file_name {
            Some(n) => n@,
            None => "mod"@,
        }),
{
    match file_name {
        Some(n) => n.clone(),
        None => "mod".to_owned(),
    }
}

/// Describes an import. The name and the version were inferred from the file; the
/// author is not known yet.
pub fn import_info(
    file: &str,
    inferred: (String, String),
    ids: (Option<u64>, Option<u64>),
    today: &str,
    category: &str,
) -> (r: ImportInfo)
    ensures
        r.name@ == inferred.0@,
        r.author@ == "Unknown"@,
        r.version@ == inferred.1@,
        r.mod_id == ids.0,
        r.file_id == ids.1,
        r.installation_file@ == file@,
        r.installed_at@ == today@,
        r.category@ == category@,
{
    ImportInfo {
        name: inferred.0,
        author: "Unknown".to_owned(),
        version: inferred.1,
        mod_id: ids.0,
        file_id: ids.1,
        installation_file: file.to_owned(),
        installed_at: today.to_owned(),
        category: category.to_owned(),
    }
}

/// A mod that was imported: its name in the library, its version, where it came
/// from, and its numbers there.
pub struct Imported {
    pub unique_id: String,
    pub version: String,
    pub repository: String,
    pub key: Option<(u64, u64)>,
}

/// The lines on a mod that was imported.
pub open spec fn imported_lines(m: Imported) -> Seq<Seq<char>> {
    seq![
        "✓ importado pra biblioteca: "@ + m.unique_id@,
        "  versão: "@ + (if m.version@.len() == 0 {
            "?"@
        } else {
            m.version@
        }) + "  ·  repo: "@ + m.repository@,
    ] + (match m.key {
        Some((mid, fid)) => seq![
            "  nexus: mods/"@ + dec(mid as nat) + "/files/"@ + dec(fid as nat),
        ],
        None => Seq::empty(),
    }) + seq![
        "  pasta: BWMS/nexus/mods/"@ + m.unique_id@ + "/"@,
        "  próximo: `cp77-mods nexus deploy` p/ aplicar no jogo."@,
    ]
}

fn import_report(m: &Imported) -> (r: Vec<String>)
    ensures
        strings_view(r@) == imported_lines(*m),
{
    let mut out: Vec<String> = Vec::new();
    out.push(join2("✓ importado pra biblioteca: ", m.unique_id.as_str()));
    let bare: bool = is_lit(chars_of(m.version.as_str()).as_slice(), "");
    proof {
        reveal_strlit("");
        if m.version@.len() == 0 {
            assert(m.version@ =~= ""@);
        }
    }
    let version = if bare {
        "?"
    } else {
        m.version.as_str()
    };
    let mut line: Vec<char> = Vec::new();
    push_lit(&mut line, "  versão: ");
    push_lit(&mut line, version);
    push_lit(&mut line, "  ·  repo: ");
    push_lit(&mut line, m.repository.as_str());
    out.push(string_of(line.as_slice()));
    let ghost head = strings_view(out@);
    proof {
        assert(line@ =~= "  versão: "@ + version@ + "  ·  repo: "@ + m.repository@);
        assert(head =~= seq!["✓ importado pra biblioteca: "@ + m.unique_id@, line@]);
    }
    if let Some((mid, fid)) = m.key {
        let mut l: Vec<char> = Vec::new();
        push_lit(&mut l, "  nexus: mods/");
        push_dec(&mut l, mid as u128);
        push_lit(&mut l, "/files/");
        push_dec(&mut l, fid as u128);
        proof {
            assert(l@ =~= "  nexus: mods/"@ + dec(mid as nat) + "/files/"@ + dec(fid as nat));
        }
        push_line(&mut out, string_of(l.as_slice()));
    }
    push_line(&mut out, join3("  pasta: BWMS/nexus/mods/", m.unique_id.as_str(), "/"));
    push_line(&mut out, "  próximo: `cp77-mods nexus deploy` p/ aplicar no jogo.".to_owned());
    proof {
        assert(strings_view(out@) =~= imported_lines(*m));
    }
    out
}

/// What is known of an import so far.
pub struct ImportFlow {
    pub has_source: bool,
    pub opened: Option<Result<(), String>>,
    pub game: bool,
    pub risks: Option<Vec<String>>,
    pub imported: Option<Result<Imported, String>>,
}

/// What is to be done next in an import.
pub enum ImportStep {
    Open,
    Classify,
    Import,
    Exit { code: u8, lines: Vec<String> },
}

pub enum ImportStepV {
    Open,
    Classify,
    Import,
    Exit { code: u8, lines: Seq<Seq<char>> },
}

impl View for ImportStep {
    type V = ImportStepV;

    open spec fn view(&self) -> ImportStepV {
        match self {
            ImportStep::Open => ImportStepV::Open,
            ImportStep::Classify => ImportStepV::Classify,
            ImportStep::Import => ImportStepV::Import,
            ImportStep::Exit { code, lines } => ImportStepV::Exit {
                code: *code,
                lines: strings_view(lines@),
            },
        }
    }
}

pub open spec fn import_step_of(st: ImportFlow) -> ImportStepV {
    if !st.has_source {
        ImportStepV::Exit {
            code: 2,
            lines: seq!["uso: cp77-mods nexus import <pasta|.zip> [nxm://…|modId] [game]"@],
        }
    } else {
        match st.opened {
            None => ImportStepV::Open,
            Some(Err(e)) => ImportStepV::Exit { code: 2, lines: seq!["erro: "@ + e@] },
            Some(Ok(_)) => if !st.game {
                ImportStepV::Exit {
                    code: 2,
                    lines: seq![
                        "erro: raiz do jogo não encontrada (passe [game] ou defina CP77_DIR)."@,
                    ],
                }
            } else {
                match st.risks {
                    None => ImportStepV::Classify,
                    Some(risks) => if risks@.len() > 0 {
                        ImportStepV::Exit {
                            code: 3,
                            lines: seq![
                                "⚠ importação BLOQUEADA por "@ + dec(risks@.len())
                                    + " risco(s):"@,
                            ] + marked_texts("  ! "@, strings_view(risks@)),
                        }
                    } else {
                        match st.imported {
                            None => ImportStepV::Import,
                            Some(Err(e)) => ImportStepV::Exit {
                                code: 1,
                                lines: seq!["✗ import falhou: "@ + e@],
                            },
                            Some(Ok(m)) => ImportStepV::Exit {
                                code: 0,
                                lines: imported_lines(m),
                            },
                        }
                    },
                }
            },
        }
    }
}

fn one_line_of(line: String) -> (r: Vec<String>)
    ensures
        strings_view(r@) == seq![line@],
{
    let mut out: Vec<String> = Vec::new();
    out.push(line);
    proof {
        assert(strings_view(out@) =~= seq![line@]);
    }
    out
}

/// Decides the next step of an import into the library. A package with risks is
/// not imported.
pub fn cmd_nexus_import(st: &ImportFlow) -> (r: ImportStep)
    ensures
        r@ == import_step_of(*st),
{
    if !st.has_source {
        return ImportStep::Exit {
            code: 2,
            lines: one_line_of(
                "uso: cp77-mods nexus import <pasta|.zip> [nxm://…|modId] [game]".to_owned(),
            ),
        };
    }
    match &st.opened {
        None => {
            return ImportStep::Open;
        },
        Some(Err(e)) => {
            return ImportStep::Exit { code: 2, lines: one_line_of(join2("erro: ", e.as_str())) };
        },
        Some(Ok(_)) => {},
    }
    if !st.game {
        return ImportStep::Exit {
            code: 2,
            lines: one_line_of(
                "erro: raiz do jogo não encontrada (passe [game] ou defina CP77_DIR).".to_owned(),
            ),
        };
    }
    match &st.risks {
        None => {
            return ImportStep::Classify;
        },
        Some(risks) => {
            if risks.len() > 0 {
                let mut head: Vec<char> = Vec::new();
                push_lit(&mut head, "⚠ importação BLOQUEADA por ");
                push_dec(&mut head, risks.len() as u128);
                push_lit(&mut head, " risco(s):");
                proof {
                    assert(head@ =~= "⚠ importação BLOQUEADA por "@ + dec(risks@.len())
                        + " risco(s):"@);
                }
                let mut lines = one_line_of(string_of(head.as_slice()));
                push_marked_texts(&mut lines, "  ! ", risks);
                return ImportStep::Exit { code: 3, lines };
            }
        },
    }
    match &st.imported {
        None => ImportStep::Import,
        Some(Err(e)) => ImportStep::Exit {
            code: 1,
            lines: one_line_of(join2("✗ import falhou: ", e.as_str())),
        },
        Some(Ok(m)) => ImportStep::Exit { code: 0, lines: import_report(m) },
    }
}

/// Nothing is imported before the package was classified, nor where it has risks.
pub proof fn risky_packages_are_not_imported(st: ImportFlow)
    ensures
        import_step_of(st) is Import ==> st.risks is Some && (st.risks->0)@.len() == 0 && st.game,
{
}

// ---- packages --------------------------------------------------------------

/// An entry of a directory.
pub struct Entry {
    pub name: String,
    pub is_dir: bool,
}

pub open spec fn visible(e: Entry) -> bool {
    !(e.name@.len() > 0 && e.name@[0] == '.')
}

/// How many of the first `n` entries are visible.
pub open spec fn visible_count(es: Seq<Entry>, n: nat) -> nat
    decreases n,
{
    if n == 0 {
        0
    } else {
        visible_count(es, (n - 1) as nat) + (if visible(es[n - 1]) {
            1nat
        } else {
            0
        })
    }
}

proof fn lemma_visible_count(es: Seq<Entry>, j: int, k: int, n: nat)
    requires
        0 <= j < n <= es.len(),
        visible(es[j]),
        0 <= k < n,
        visible(es[k]),
    ensures
        visible_count(es, n) >= (if j == k {
            1nat
        } else {
            2
        }),
    decreases n,
{
    if j < n - 1 && k < n - 1 {
        lemma_visible_count(es, j, k, (n - 1) as nat);
    } else if j < n - 1 {
        lemma_visible_count(es, j, j, (n - 1) as nat);
    } else if k < n - 1 {
        lemma_visible_count(es, k, k, (n - 1) as nat);
    }
}

/// The only visible entry, where it is a directory: the real root of a package.
pub fn single_subdir(entries: &Vec<Entry>) -> (r: Option<usize>)
    ensures
        package_root(Some(*entries), r),
{
    let mut found: Option<usize> = None;
    let mut n: usize = 0;
    let mut i: usize = 0;
    while i < entries.len()
        invariant
            i <= entries@.len(),
            n <= i,
            n == visible_count(entries@, i as nat),
            match found {
                Some(k) => k < i && visible(entries@[k as int]),
                None => n == 0,
            },
        decreases entries@.len() - i,
    {
        let v = chars_of(entries[i].name.as_str());
        if v.len() == 0 || v[0] != '.' {
            found = Some(i);
            n += 1;
        }
        i += 1;
    }
    if n != 1 {
        return None;
    }
    match found {
        Some(k) => if entries[k].is_dir {
            Some(k)
        } else {
            proof {
                assert forall|j: int| !is_only_subdir(entries@, j) by {
                    if is_only_subdir(entries@, j) {
                        lemma_visible_count(entries@, j, k as int, entries@.len());
                    }
                }
            }
            None
        },
        None => None,
    }
}

/// What is known of opening a package: what stands at its path, what came of
/// making a directory and of unpacking into it, and the entries of that
/// directory, where they can be read.
pub struct SourceFlow {
    pub is_dir: bool,
    pub exists: bool,
    pub made: Option<Result<(), String>>,
    pub unpacked: Option<Result<bool, String>>,
    pub entries: Option<Option<Vec<Entry>>>,
}

/// How a package is opened next: as the directory it is, by making a directory,
/// unpacking into it and listing it, by taking that directory or its only
/// subdirectory, or not.
pub enum SourceStep {
    Directory,
    MakeDirectory,
    Unpack,
    ListEntries,
    Unpacked { sub: Option<usize> },
    Fail(String),
}

pub enum SourceStepV {
    Directory,
    MakeDirectory,
    Unpack,
    ListEntries,
    Unpacked { sub: Option<usize> },
    Fail(Seq<char>),
}

impl View for SourceStep {
    type V = SourceStepV;

    open spec fn view(&self) -> SourceStepV {
        match self {
            SourceStep::Directory => SourceStepV::Directory,
            SourceStep::MakeDirectory => SourceStepV::MakeDirectory,
            SourceStep::Unpack => SourceStepV::Unpack,
            SourceStep::ListEntries => SourceStepV::ListEntries,
            SourceStep::Unpacked { sub } => SourceStepV::Unpacked { sub: *sub },
            SourceStep::Fail(s) => SourceStepV::Fail(s@),
        }
    }
}

/// Is the entry the only visible one, and a directory?
pub open spec fn is_only_subdir(es: Seq<Entry>, k: int) -> bool {
    &&& 0 <= k < es.len()
    &&& visible(es[k])
    &&& es[k].is_dir
    &&& visible_count(es, es.len()) == 1
}

/// May a package be opened from the directory it was unpacked into this way: by
/// its only subdirectory, or by itself where there is no such?
pub open spec fn package_root(entries: Option<Vec<Entry>>, sub: Option<usize>) -> bool {
    match entries {
        None => sub is None,
        Some(es) => match sub {
            Some(k) => is_only_subdir(es@, k as int),
            None => forall|k: int| !is_only_subdir(es@, k),
        },
    }
}

/// Is this the next step of opening the package?
pub open spec fn opens(path: Seq<char>, st: SourceFlow, step: SourceStepV) -> bool {
    if st.is_dir {
        step == SourceStepV::Directory
    } else if !st.exists {
        step == SourceStepV::Fail("'"@ + path + "' não existe."@)
    } else if !(extension(path) is Some && lowercase(extension(path)->0) == "zip"@) {
        step == SourceStepV::Fail("'"@ + path + "' não é pasta nem .zip."@)
    } else {
        match st.made {
            None => step == SourceStepV::MakeDirectory,
            Some(Err(e)) => step == SourceStepV::Fail("criando tmp: "@ + e@),
            Some(Ok(_)) => match st.unpacked {
                None => step == SourceStepV::Unpack,
                Some(Err(e)) => step == SourceStepV::Fail(
                    "falha ao rodar unzip ("@ + e@
                        + ") — extraia o .zip manualmente e aponte a pasta"@,
                ),
                Some(Ok(ok)) => if !ok {
                    step == SourceStepV::Fail("unzip retornou erro (zip corrompido?)."@)
                } else {
                    match st.entries {
                        None => step == SourceStepV::ListEntries,
                        Some(es) => step is Unpacked && package_root(es, step->sub),
                    }
                },
            },
        }
    }
}

fn is_zip(path: &str) -> (r: bool)
    ensures
        r == (extension(path@) is Some && lowercase(extension(path@)->0) == "zip"@),
{
    let v = chars_of(path);
    match extension_of(v.as_slice()) {
        Some(e) => {
            let low = to_lowercase(e);
            is_lit(low.as_slice(), "zip")
        },
        None => false,
    }
}

/// Decides the next step of opening a package.
pub fn open_source(path: &str, st: &SourceFlow) -> (r: SourceStep)
    ensures
        opens(path@, *st, r@),
{
    if st.is_dir {
        return SourceStep::Directory;
    }
    if !st.exists {
        return SourceStep::Fail(join3("'", path, "' não existe."));
    }
    if !is_zip(path) {
        return SourceStep::Fail(join3("'", path, "' não é pasta nem .zip."));
    }
    match &st.made {
        None => {
            return SourceStep::MakeDirectory;
        },
        Some(Err(e)) => {
            return SourceStep::Fail(join2("criando tmp: ", e.as_str()));
        },
        Some(Ok(_)) => {},
    }
    match &st.unpacked {
        None => {
            return SourceStep::Unpack;
        },
        Some(Err(e)) => {
            return SourceStep::Fail(
                join3(
                    "falha ao rodar unzip (",
                    e.as_str(),
                    ") — extraia o .zip manualmente e aponte a pasta",
                ),
            );
        },
        Some(Ok(ok)) => {
            if !*ok {
                return SourceStep::Fail("unzip retornou erro (zip corrompido?).".to_owned());
            }
        },
    }
    match &st.entries {
        None => SourceStep::ListEntries,
        Some(None) => SourceStep::Unpacked { sub: None },
        Some(Some(es)) => SourceStep::Unpacked { sub: single_subdir(es) },
    }
}

// ---- the text interface ----------------------------------------------------

#[derive(Clone, Copy, PartialEq, Eq, Structural)]
pub enum Key {
    Up,
    Down,
    Char(char),
    Other,
}

/// The key behind the bytes that were read: `rest` are the two bytes behind an
/// escape, where there were two. An escape alone means quit.
pub fn decode_key(first: Option<u8>, rest: Option<(u8, u8)>) -> (r: Key)
    ensures
        r == (match first {
            None => Key::Other,
            Some(b) => if b == 0x1b {
                match rest {
                    Some((a, c)) => if a != 0x5b {
                        Key::Char('q')
                    } else if c == 0x41 {
                        Key::Up
                    } else if c == 0x42 {
                        Key::Down
                    } else {
                        Key::Other
                    },
                    None => Key::Char('q'),
                }
            } else {
                Key::Char(b as char)
            },
        }),
{
    match first {
        None => Key::Other,
        Some(b) => if b == 0x1b {
            match rest {
                Some((a, c)) => if a != 0x5b {
                    Key::Char('q')
                } else if c == 0x41 {
                    Key::Up
                } else if c == 0x42 {
                    Key::Down
                } else {
                    Key::Other
                },
                None => Key::Char('q'),
            }
        } else {
            Key::Char(b as char)
        },
    }
}

#[derive(Clone, Copy, PartialEq, Eq, Structural)]
pub enum TuiAction {
    Redraw,
    Quit,
    Install,
    Remove { index: usize },
    Classify,
}

/// The selection held inside the list.
pub open spec fn clamped(sel: int, len: int) -> int {
    if sel < len {
        sel
    } else if len > 0 {
        len - 1
    } else {
        0
    }
}

pub open spec fn tui_step_of(sel: int, len: int, key: Key) -> (int, TuiAction) {
    let s = clamped(sel, len);
    match key {
        Key::Up => (
            if s > 0 {
                s - 1
            } else {
                0
            },
            TuiAction::Redraw,
        ),
        Key::Down => (
            if s + 1 < len {
                s + 1
            } else {
                s
            },
            TuiAction::Redraw,
        ),
        Key::Char(c) => if c == 'q' || c == '\x03' {
            (s, TuiAction::Quit)
        } else if c == 'i' {
            (s, TuiAction::Install)
        } else if c == 'r' && s < len {
            (s, TuiAction::Remove { index: s as usize })
        } else if c == 'c' {
            (s, TuiAction::Classify)
        } else {
            (s, TuiAction::Redraw)
        },
        Key::Other => (s, TuiAction::Redraw),
    }
}

/// The next selection among `len` mods, and what is to be done.
pub fn tui_step(sel: usize, len: usize, key: Key) -> (r: (usize, TuiAction))
    ensures
        (r.0 as int, r.1) == tui_step_of(sel as int, len as int, key),
        len > 0 ==> r.0 < len,
{
    let s: usize = if sel < len {
        sel
    } else if len > 0 {
        len - 1
    } else {
        0
    };
    match key {
        Key::Up => (
            if s > 0 {
                s - 1
            } else {
                0
            },
            TuiAction::Redraw,
        ),
        Key::Down => (
            if len > 0 && s < len - 1 {
                s + 1
            } else {
                s
            },
            TuiAction::Redraw,
        ),
        Key::Char(c) => if c == 'q' || c == '\x03' {
            (s, TuiAction::Quit)
        } else if c == 'i' {
            (s, TuiAction::Install)
        } else if c == 'r' && s < len {
            (s, TuiAction::Remove { index: s })
        } else if c == 'c' {
            (s, TuiAction::Classify)
        } else {
            (s, TuiAction::Redraw)
        },
        Key::Other => (s, TuiAction::Redraw),
    }
}

/// A mark for something that is there, or not.
pub open spec fn presence(b: bool) -> Seq<char> {
    if b {
        "\x1b[32m✓\x1b[0m"@
    } else {
        "\x1b[31m✗\x1b[0m"@
    }
}

fn push_presence(out: &mut Vec<char>, b: bool)
    ensures
        final(out)@ == old(out)@ + presence(b),
{
    if b {
        push_lit(out, "\x1b[32m✓\x1b[0m");
    } else {
        push_lit(out, "\x1b[31m✗\x1b[0m");
    }
}

/// Which parts of the runtime are there.
#[derive(Clone, Copy)]
pub struct RuntimeParts {
    pub tweakdb: bool,
    pub redscript: bool,
    pub input: bool,
    pub console: bool,
}

pub open spec fn screen_head(game: Seq<char>, parts: RuntimeParts, count: nat) -> Seq<char> {
    "\x1b[2J\x1b[H\x1b[1m\x1b[36m Cyberpunk 2077 — Mac Mod Runtime (Blackwall)\x1b[0m\n\x1b[2m "@
        + game + "\x1b[0m\n\n\x1b[1m Runtime:\x1b[0m  "@ + presence(parts.tweakdb)
        + " TweakDB   "@ + presence(parts.redscript) + " redscript   "@ + presence(parts.input)
        + " input   "@ + presence(parts.console)
        + " CET(Blackwall.sys)\n\n\x1b[1m Mods no staging ("@ + dec(count) + "):\x1b[0m\n"@
}

pub open spec fn screen_mod(m: ModState, selected: bool) -> Seq<char> {
    let line = "["@ + mark(m.active, "x"@) + "] "@ + m.name@ + " — "@ + m.label@;
    if selected {
        "\x1b[7m ▸ "@ + line + " \x1b[0m\n"@
    } else {
        "   "@ + line + "\n"@
    }
}

/// The lines of the first `n` mods.
pub open spec fn screen_mods(mods: Seq<ModState>, sel: int, n: nat) -> Seq<char>
    decreases n,
{
    if n == 0 {
        Seq::empty()
    } else {
        screen_mods(mods, sel, (n - 1) as nat) + screen_mod(mods[n - 1], n - 1 == sel)
    }
}

pub open spec fn screen_text(
    game: Seq<char>,
    parts: RuntimeParts,
    mods: Seq<ModState>,
    sel: int,
    msg: Seq<char>,
) -> Seq<char> {
    let body = if mods.len() == 0 {
        "\x1b[2m   (nenhum — aperte [i] pra instalar)\x1b[0m\n"@
    } else {
        screen_mods(mods, sel, mods.len())
    };
    let tail = if msg.len() == 0 {
        Seq::empty()
    } else {
        "\n\x1b[36m "@ + msg + "\x1b[0m\n"@
    };
    screen_head(game, parts, mods.len()) + body
        + "\n\x1b[2m ↑/↓ navega · [i] instalar · [r] remover · [c] classificar · [q] sair\x1b[0m\n"@
        + tail
}

fn push_mod(out: &mut Vec<char>, m: &ModState, selected: bool)
    ensures
        final(out)@ == old(out)@ + screen_mod(*m, selected),
{
    let ghost before = out@;
    if selected {
        push_lit(out, "\x1b[7m ▸ ");
    } else {
        push_lit(out, "   ");
    }
    push_lit(out, "[");
    push_lit(
        out,
        if m.active {
            "x"
        } else {
            " "
        },
    );
    push_lit(out, "] ");
    push_lit(out, m.name.as_str());
    push_lit(out, " — ");
    push_lit(out, m.label.as_str());
    if selected {
        push_lit(out, " \x1b[0m\n");
    } else {
        push_lit(out, "\n");
    }
    proof {
        assert(out@ =~= before + screen_mod(*m, selected));
    }
}

/// The whole screen.
pub fn render(game: &str, parts: RuntimeParts, mods: &Vec<ModState>, sel: usize, msg: &str) -> (r:
    String)
    ensures
        r@ == screen_text(game@, parts, mods@, sel as int, msg@),
{
    let mut out: Vec<char> = Vec::new();
    push_lit(
        &mut out,
        "\x1b[2J\x1b[H\x1b[1m\x1b[36m Cyberpunk 2077 — Mac Mod Runtime (Blackwall)\x1b[0m\n\x1b[2m ",
    );
    push_lit(&mut out, game);
    push_lit(&mut out, "\x1b[0m\n\n\x1b[1m Runtime:\x1b[0m  ");
    push_presence(&mut out, parts.tweakdb);
    push_lit(&mut out, " TweakDB   ");
    push_presence(&mut out, parts.redscript);
    push_lit(&mut out, " redscript   ");
    push_presence(&mut out, parts.input);
    push_lit(&mut out, " input   ");
    push_presence(&mut out, parts.console);
    push_lit(&mut out, " CET(Blackwall.sys)\n\n\x1b[1m Mods no staging (");
    push_dec(&mut out, mods.len() as u128);
    push_lit(&mut out, "):\x1b[0m\n");
    proof {
        assert(out@ =~= screen_head(game@, parts, mods@.len()));
    }
    let ghost head = out@;
    if mods.len() == 0 {
        push_lit(&mut out, "\x1b[2m   (nenhum — aperte [i] pra instalar)\x1b[0m\n");
    } else {
        let mut i: usize = 0;
        proof {
            assert(head + screen_mods(mods@, sel as int, 0) =~= head);
        }
        while i < mods.len()
            invariant
                i <= mods@.len(),
                out@ == head + screen_mods(mods@, sel as int, i as nat),
            decreases mods@.len() - i,
        {
            push_mod(&mut out, &mods[i], i == sel);
            i += 1;
            proof {
                assert(out@ =~= head + screen_mods(mods@, sel as int, i as nat));
            }
        }
    }
    push_lit(
        &mut out,
        "\n\x1b[2m ↑/↓ navega · [i] instalar · [r] remover · [c] classificar · [q] sair\x1b[0m\n",
    );
    let n: usize = chars_of(msg).len();
    if n > 0 {
        push_lit(&mut out, "\n\x1b[36m ");
        push_lit(&mut out, msg);
        push_lit(&mut out, "\x1b[0m\n");
    }
    proof {
        assert(out@ =~= screen_text(game@, parts, mods@, sel as int, msg@));
    }
    string_of(out.as_slice())
}

// ---- reports ---------------------------------------------------------------

#[derive(Clone, Copy, PartialEq, Eq, Structural)]
pub enum ModClass {
    PureContent,
    RedMod,
    Script,
    NativeCode,
    Mixed,
    Unknown,
}

#[derive(Clone, Copy, PartialEq, Eq, Structural)]
pub enum Compat {
    Universal,
    MacAdapter,
    NativePortRequired,
}

pub open spec fn class_text(c: ModClass) -> Seq<char> {
    match c {
        ModClass::PureContent => "Conteúdo puro (instalável direto)"@,
        ModClass::RedMod => "REDmod (entregar ao REDmod)"@,
        ModClass::Script => "Script (redscript/CET — roda no jogo)"@,
        ModClass::NativeCode => "Código nativo (.dll/.dylib — canal restrito)"@,
        ModClass::Mixed => "Misto (conteúdo + script)"@,
        ModClass::Unknown => "Desconhecido (nada reconhecido)"@,
    }
}

pub fn class_label(c: ModClass) -> (r: &'static str)
    ensures
        r@ == class_text(c),
{
    match c {
        ModClass::PureContent => "Conteúdo puro (instalável direto)",
        ModClass::RedMod => "REDmod (entregar ao REDmod)",
        ModClass::Script => "Script (redscript/CET — roda no jogo)",
        ModClass::NativeCode => "Código nativo (.dll/.dylib — canal restrito)",
        ModClass::Mixed => "Misto (conteúdo + script)",
        ModClass::Unknown => "Desconhecido (nada reconhecido)",
    }
}

pub open spec fn compat_text(c: Compat) -> Seq<char> {
    match c {
        Compat::Universal => "✓ Universal (mesmo arquivo Win/Mac)"@,
        Compat::MacAdapter => "◈ Mac Adapter (roda via nossa adaptação)"@,
        Compat::NativePortRequired => "✗ Precisa port nativo (código Win / hook ausente)"@,
    }
}

pub fn compat_label(c: Compat) -> (r: &'static str)
    ensures
        r@ == compat_text(c),
{
    match c {
        Compat::Universal => "✓ Universal (mesmo arquivo Win/Mac)",
        Compat::MacAdapter => "◈ Mac Adapter (roda via nossa adaptação)",
        Compat::NativePortRequired => "✗ Precisa port nativo (código Win / hook ausente)",
    }
}

#[derive(Clone, Copy, PartialEq, Eq, Structural)]
pub enum FileKind {
    Archive,
    Content,
    ArchiveXl,
    Redscript,
    CetLua,
    Tweak,
    Native,
    Other,
}

pub open spec fn kind_count(kinds: Seq<FileKind>, k: FileKind) -> nat
    decreases kinds.len(),
{
    if kinds.len() == 0 {
        0
    } else {
        kind_count(kinds.drop_last(), k) + (if kinds.last() == k {
            1nat
        } else {
            0
        })
    }
}

fn count_kind(kinds: &Vec<FileKind>, k: FileKind) -> (r: usize)
    ensures
        r == kind_count(kinds@, k),
{
    let mut n: usize = 0;
    let mut i: usize = 0;
    while i < kinds.len()
        invariant
            i <= kinds@.len(),
            n <= i,
            n == kind_count(kinds@.take(i as int), k),
        decreases kinds@.len() - i,
    {
        proof {
            assert(kinds@.take(i + 1).drop_last() =~= kinds@.take(i as int));
        }
        if kinds[i] == k {
            n += 1;
        }
        i += 1;
    }
    proof {
        assert(kinds@.take(i as int) =~= kinds@);
    }
    n
}

pub open spec fn files_text(kinds: Seq<FileKind>) -> Seq<char> {
    "Arquivos: "@ + dec(kinds.len()) + " total  (archive "@ + dec(
        kind_count(kinds, FileKind::Archive),
    ) + ", content "@ + dec(kind_count(kinds, FileKind::Content)) + ", .xl "@ + dec(
        kind_count(kinds, FileKind::ArchiveXl),
    ) + ", .reds "@ + dec(kind_count(kinds, FileKind::Redscript)) + ", .lua "@ + dec(
        kind_count(kinds, FileKind::CetLua),
    ) + ", tweak "@ + dec(kind_count(kinds, FileKind::Tweak)) + ", nativo "@ + dec(
        kind_count(kinds, FileKind::Native),
    ) + ")"@
}

/// The line on the files of a package.
pub fn files_line(kinds: &Vec<FileKind>) -> (r: String)
    ensures
        r@ == files_text(kinds@),
{
    let mut out: Vec<char> = Vec::new();
    push_lit(&mut out, "Arquivos: ");
    push_dec(&mut out, kinds.len() as u128);
    push_lit(&mut out, " total  (archive ");
    push_dec(&mut out, count_kind(kinds, FileKind::Archive) as u128);
    push_lit(&mut out, ", content ");
    push_dec(&mut out, count_kind(kinds, FileKind::Content) as u128);
    push_lit(&mut out, ", .xl ");
    push_dec(&mut out, count_kind(kinds, FileKind::ArchiveXl) as u128);
    push_lit(&mut out, ", .reds ");
    push_dec(&mut out, count_kind(kinds, FileKind::Redscript) as u128);
    push_lit(&mut out, ", .lua ");
    push_dec(&mut out, count_kind(kinds, FileKind::CetLua) as u128);
    push_lit(&mut out, ", tweak ");
    push_dec(&mut out, count_kind(kinds, FileKind::Tweak) as u128);
    push_lit(&mut out, ", nativo ");
    push_dec(&mut out, count_kind(kinds, FileKind::Native) as u128);
    push_lit(&mut out, ")");
    proof {
        assert(out@ =~= files_text(kinds@));
    }
    string_of(out.as_slice())
}

} // verus!
