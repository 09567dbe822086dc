//! The commands of the mod manager, step by step: what each does next, what it
//! prints, and the code it exits with.
use vstd::prelude::*;

use crate::activation::StepResult;
use crate::listing::{
    applied_lines, applied_text, apply_list, apply_text, deploy_lines, deploy_text, installed_line,
    installed_text, library_listing, library_text, list_text, print_report, purge_line, purge_text,
    report_code, report_text, staging_list, suggestion_lines, suggestion_text, Category,
    LibraryMod, ModReport,
};
use crate::manager::{
    category_of, find_category, join2, join3, step_line, step_line_of, ApplyReport, ModState,
};
use crate::text::{dec, push_dec, push_lit, string_of, strings_view};

verus! {

// ---- steps -----------------------------------------------------------------

/// What a command does next. The last step says what is printed, to the output
/// and as an error, and the code to exit with.
pub enum CommandStep {
    /// Open the package.
    Open,
    /// Classify the package.
    Classify,
    /// Suggest a category for the package.
    Suggest,
    /// List the mods in the staging area.
    Reconcile,
    /// List the mods of the library.
    ReadLibrary,
    /// Bring the library into the game.
    Deploy,
    /// Take a mod of the library out of the game, and delete it.
    Purge,
    /// Delete the mod's directory in the staging area.
    Delete { category: String },
    /// Bring the staging area into the game.
    Apply,
    /// Activate everything.
    Activate,
    /// Show the text interface.
    Interface,
    Exit { code: u8, out: String, err: String },
}

pub enum CommandStepV {
    Open,
    Classify,
    Suggest,
    Reconcile,
    ReadLibrary,
    Deploy,
    Purge,
    Delete { category: Seq<char> },
    Apply,
    Activate,
    Interface,
    Exit { code: u8, out: Seq<char>, err: Seq<char> },
}

impl View for CommandStep {
    type V = CommandStepV;

    open spec fn view(&self) -> CommandStepV {
        match self {
            CommandStep::Open => CommandStepV::Open,
            CommandStep::Classify => CommandStepV::Classify,
            CommandStep::Suggest => CommandStepV::Suggest,
            CommandStep::Reconcile => CommandStepV::Reconcile,
            CommandStep::ReadLibrary => CommandStepV::ReadLibrary,
            CommandStep::Deploy => CommandStepV::Deploy,
            CommandStep::Purge => CommandStepV::Purge,
            CommandStep::Delete { category } => CommandStepV::Delete { category: category@ },
            CommandStep::Apply => CommandStepV::Apply,
            CommandStep::Activate => CommandStepV::Activate,
            CommandStep::Interface => CommandStepV::Interface,
            CommandStep::Exit { code, out, err } => CommandStepV::Exit {
                code: *code,
                out: out@,
                err: err@,
            },
        }
    }
}

/// A command that failed with an error line.
pub open spec fn failed(code: u8, err: Seq<char>) -> CommandStepV {
    CommandStepV::Exit { code, out: Seq::empty(), err: err + "\n"@ }
}

/// A command that went through.
pub open spec fn done(out: Seq<char>) -> CommandStepV {
    CommandStepV::Exit { code: 0, out, err: Seq::empty() }
}

fn fail(code: u8, err: &str) -> (r: CommandStep)
    ensures
        r@ == failed(code, err@),
{
    let out: String = String::new();
    proof {
        assert(out@ =~= Seq::empty());
    }
    CommandStep::Exit { code, out, err: join2(err, "\n") }
}

fn fail_with(code: u8, what: &str, e: &String) -> (r: CommandStep)
    ensures
        r@ == failed(code, what@ + e@),
{
    let s = join2(what, e.as_str());
    fail(code, s.as_str())
}

fn succeed(out: String) -> (r: CommandStep)
    ensures
        r@ == done(out@),
{
    let err: String = String::new();
    proof {
        assert(err@ =~= Seq::empty());
    }
    CommandStep::Exit { code: 0, out, err }
}

/// The lines on the first `n` steps of an activation.
pub open spec fn steps_text(steps: Seq<StepResult>, n: nat) -> Seq<char>
    decreases n,
{
    if n == 0 {
        Seq::empty()
    } else {
        steps_text(steps, (n - 1) as nat) + step_line_of(steps[n - 1]) + "\n"@
    }
}

fn push_steps(out: &mut Vec<char>, steps: &Vec<StepResult>)
    ensures
        final(out)@ == old(out)@ + steps_text(steps@, steps@.len()),
{
    let ghost start = out@;
    let mut i: usize = 0;
    proof {
        assert(out@ =~= start + steps_text(steps@, 0));
    }
    while i < steps.len()
        invariant
            i <= steps@.len(),
            out@ == start + steps_text(steps@, i as nat),
        decreases steps@.len() - i,
    {
        let line = step_line(&steps[i]);
        push_lit(out, line.as_str());
        push_lit(out, "\n");
        i += 1;
        proof {
            assert(out@ =~= start + steps_text(steps@, i as nat));
        }
    }
}

pub open spec fn no_game() -> Seq<char> {
    "erro: raiz do jogo não encontrada."@
}

// ---- list, apply, remove ---------------------------------------------------

/// Decides the next step of `list`.
pub fn cmd_list(game: bool, mods: &Option<Vec<ModState>>) -> (r: CommandStep)
    ensures
        r@ == (if !game {
            failed(1, no_game())
        } else {
            match *mods {
                None => CommandStepV::Reconcile,
                Some(m) => done(staging_list(m@)),
            }
        }),
{
    if !game {
        return fail(1, "erro: raiz do jogo não encontrada.");
    }
    match mods {
        None => CommandStep::Reconcile,
        Some(m) => succeed(list_text(m)),
    }
}

/// What is known of `apply` so far: the mods in the staging area, what came of
/// the synchronisation, and of the activation.
pub struct ApplyFlow {
    pub game: bool,
    pub mods: Option<Vec<ModState>>,
    pub applied: Option<Result<ApplyReport, String>>,
    pub activated: Option<Vec<StepResult>>,
}

/// The next step of `apply`.
pub open spec fn apply_step(st: ApplyFlow) -> CommandStepV {
    if !st.game {
        failed(1, "erro: raiz do jogo não encontrada (defina CP77_DIR ou passe [game])."@)
    } else {
        match st.mods {
            None => CommandStepV::Reconcile,
            Some(mods) => match st.applied {
                None => CommandStepV::Apply,
                Some(Err(e)) => CommandStepV::Exit {
                    code: 1,
                    out: apply_list(mods@),
                    err: "✗ erro ao sincronizar: "@ + e@ + "\n"@,
                },
                Some(Ok(rep)) => match st.activated {
                    None => CommandStepV::Activate,
                    Some(steps) => done(
                        apply_list(mods@) + applied_text(
                            rep.copied as nat,
                            rep.removed as nat,
                            rep.xl_pending as nat,
                        ) + steps_text(steps@, steps@.len())
                            + "  (mods de archive aplicam ao REINICIAR o jogo; cheats/runtime são ao vivo)\n"@,
                    ),
                },
            },
        }
    }
}

/// Decides the next step of `apply`: the mods are listed, brought into the game,
/// and everything is activated.
pub fn cmd_apply(st: &ApplyFlow) -> (r: CommandStep)
    ensures
        r@ == apply_step(*st),
{
    if !st.game {
        return fail(1, "erro: raiz do jogo não encontrada (defina CP77_DIR ou passe [game]).");
    }
    let mods = match &st.mods {
        None => {
            return CommandStep::Reconcile;
        },
        Some(m) => m,
    };
    let rep: ApplyReport = match &st.applied {
        None => {
            return CommandStep::Apply;
        },
        Some(Err(e)) => {
            return CommandStep::Exit {
                code: 1,
                out: apply_text(mods),
                err: join3("✗ erro ao sincronizar: ", e.as_str(), "\n"),
            };
        },
        Some(Ok(rep)) => *rep,
    };
    match &st.activated {
        None => CommandStep::Activate,
        Some(steps) => {
            let mut out: Vec<char> = Vec::new();
            let head = apply_text(mods);
            push_lit(&mut out, head.as_str());
            let lines = applied_lines(rep.copied, rep.removed, rep.xl_pending);
            push_lit(&mut out, lines.as_str());
            push_steps(&mut out, steps);
            push_lit(
                &mut out,
                "  (mods de archive aplicam ao REINICIAR o jogo; cheats/runtime são ao vivo)\n",
            );
            proof {
                assert(out@ =~= head@ + lines@ + steps_text(steps@, steps@.len())
                    + "  (mods de archive aplicam ao REINICIAR o jogo; cheats/runtime são ao vivo)\n"@);
            }
            succeed(string_of(out.as_slice()))
        },
    }
}

/// What is known of `remove` so far: the name, the mods in the staging area, what
/// came of deleting the mod's directory, of the synchronisation, and of the
/// activation.
pub struct RemoveCommand {
    pub name: Option<String>,
    pub game: bool,
    pub mods: Option<Vec<ModState>>,
    pub deleted: Option<Result<(), String>>,
    pub applied: Option<Result<usize, String>>,
    pub activated: Option<Vec<StepResult>>,
}

/// The next step of `remove` for a mod whose directory is `dir`.
pub open spec fn remove_step(dir: Seq<char>, st: RemoveCommand) -> CommandStepV {
    match st.name {
        None => failed(2, "uso: cp77-mods remove <nome> [game]"@),
        Some(name) => if !st.game {
            failed(1, no_game())
        } else {
            match st.mods {
                None => CommandStepV::Reconcile,
                Some(mods) => match category_of(mods@, name@) {
                    None => failed(1, "erro: '"@ + name@ + "' não está no staging (veja `list`)."@),
                    Some(category) => match st.deleted {
                        None => CommandStepV::Delete { category },
                        Some(Err(e)) => failed(1, "erro ao apagar "@ + dir + ": "@ + e@),
                        Some(Ok(_)) => match st.applied {
                            None => CommandStepV::Apply,
                            Some(Err(e)) => failed(1, "erro ao sincronizar remoção: "@ + e@),
                            Some(Ok(n)) => match st.activated {
                                None => CommandStepV::Activate,
                                Some(steps) => done(
                                    "✓ '"@ + name@ + "' removido ("@ + dec(n as nat)
                                        + " arquivo(s) tirados do jogo, removal-safe).\n"@
                                        + steps_text(steps@, steps@.len()),
                                ),
                            },
                        },
                    },
                },
            }
        },
    }
}

/// Decides the next step of `remove`: the mod is found and deleted, the game is
/// synchronised, and everything is activated again.
pub fn cmd_remove(dir: &str, st: &RemoveCommand) -> (r: CommandStep)
    ensures
        r@ == remove_step(dir@, *st),
{
    let name = match &st.name {
        None => {
            return fail(2, "uso: cp77-mods remove <nome> [game]");
        },
        Some(n) => n,
    };
    if !st.game {
        return fail(1, "erro: raiz do jogo não encontrada.");
    }
    let mods = match &st.mods {
        None => {
            return CommandStep::Reconcile;
        },
        Some(m) => m,
    };
    let category = match find_category(mods, name.as_str()) {
        None => {
            let e = join3("erro: '", name.as_str(), "' não está no staging (veja `list`).");
            return fail(1, e.as_str());
        },
        Some(c) => c,
    };
    match &st.deleted {
        None => {
            return CommandStep::Delete { category };
        },
        Some(Err(e)) => {
            let front = join3("erro ao apagar ", dir, ": ");
            return fail_with(1, front.as_str(), e);
        },
        Some(Ok(_)) => {},
    }
    let n: usize = match &st.applied {
        None => {
            return CommandStep::Apply;
        },
        Some(Err(e)) => {
            return fail_with(1, "erro ao sincronizar remoção: ", e);
        },
        Some(Ok(n)) => *n,
    };
    match &st.activated {
        None => CommandStep::Activate,
        Some(steps) => {
            let mut out: Vec<char> = Vec::new();
            push_lit(&mut out, "✓ '");
            push_lit(&mut out, name.as_str());
            push_lit(&mut out, "' removido (");
            push_dec(&mut out, n as u128);
            push_lit(&mut out, " arquivo(s) tirados do jogo, removal-safe).\n");
            push_steps(&mut out, steps);
            proof {
                assert(out@ =~= "✓ '"@ + name@ + "' removido ("@ + dec(n as nat)
                    + " arquivo(s) tirados do jogo, removal-safe).\n"@ + steps_text(
                    steps@,
                    steps@.len(),
                ));
            }
            succeed(string_of(out.as_slice()))
        },
    }
}

/// `apply` and `remove` exit with 0 only after the synchronisation went through
/// and everything was activated.
pub proof fn success_means_activated(dir: Seq<char>, a: ApplyFlow, m: RemoveCommand)
    ensures
        match apply_step(a) {
            CommandStepV::Exit { code, .. } => code == 0 ==> a.activated is Some && a.applied is Some
                && a.applied->0 is Ok,
            _ => true,
        },
        match remove_step(dir, m) {
            CommandStepV::Exit { code, .. } => code == 0 ==> m.activated is Some && m.applied is Some
                && m.applied->0 is Ok && m.deleted is Some && m.deleted->0 is Ok,
            _ => true,
        },
{
}

// ---- installing what was classified ----------------------------------------

/// What is known of an installation into the staging area.
pub struct StagedFlow {
    pub staged: Option<Result<(), String>>,
    pub applied: Option<Result<ApplyReport, String>>,
    pub activated: Option<Vec<StepResult>>,
}

/// What such an installation does next, or what came of it.
pub enum StagedStep {
    Stage,
    Apply,
    Activate,
    Done(Result<String, String>),
}

pub enum StagedStepV {
    Stage,
    Apply,
    Activate,
    Done(Result<Seq<char>, Seq<char>>),
}

impl View for StagedStep {
    type V = StagedStepV;

    open spec fn view(&self) -> StagedStepV {
        match self {
            StagedStep::Stage => StagedStepV::Stage,
            StagedStep::Apply => StagedStepV::Apply,
            StagedStep::Activate => StagedStepV::Activate,
            StagedStep::Done(Ok(s)) => StagedStepV::Done(Ok(s@)),
            StagedStep::Done(Err(e)) => StagedStepV::Done(Err(e@)),
        }
    }
}

/// How many of the first `n` steps of an activation went well.
pub open spec fn went_well(steps: Seq<StepResult>, n: nat) -> nat
    decreases n,
{
    if n == 0 {
        0
    } else {
        went_well(steps, (n - 1) as nat) + (if steps[n - 1].ok {
            1nat
        } else {
            0
        })
    }
}

fn count_well(steps: &Vec<StepResult>) -> (r: usize)
    ensures
        r == went_well(steps@, steps@.len()),
{
    let mut n: usize = 0;
    let mut i: usize = 0;
    while i < steps.len()
        invariant
            i <= steps@.len(),
            n <= i,
            n == went_well(steps@, i as nat),
        decreases steps@.len() - i,
    {
        if steps[i].ok {
            n += 1;
        }
        i += 1;
    }
    n
}

/// The next step of an installation into the staging area.
pub open spec fn staged_step(name: Seq<char>, st: StagedFlow) -> StagedStepV {
    match st.staged {
        None => StagedStepV::Stage,
        Some(Err(e)) => StagedStepV::Done(Err("staging: "@ + e@)),
        Some(Ok(_)) => match st.applied {
            None => StagedStepV::Apply,
            Some(Err(e)) => StagedStepV::Done(Err("apply: "@ + e@)),
            Some(Ok(rep)) => match st.activated {
                None => StagedStepV::Activate,
                Some(steps) => StagedStepV::Done(
                    Ok(
                        installed_text(
                            name,
                            rep.copied as nat,
                            rep.xl_pending as nat,
                            went_well(steps@, steps@.len()),
                        ),
                    ),
                ),
            },
        },
    }
}

/// Decides the next step of an installation into the staging area: the package is
/// copied there, brought into the game, and everything is activated.
pub fn install_staged(name: &str, st: &StagedFlow) -> (r: StagedStep)
    ensures
        r@ == staged_step(name@, *st),
{
    match &st.staged {
        None => {
            return StagedStep::Stage;
        },
        Some(Err(e)) => {
            return StagedStep::Done(Err(join2("staging: ", e.as_str())));
        },
        Some(Ok(_)) => {},
    }
    let rep: ApplyReport = match &st.applied {
        None => {
            return StagedStep::Apply;
        },
        Some(Err(e)) => {
            return StagedStep::Done(Err(join2("apply: ", e.as_str())));
        },
        Some(Ok(rep)) => *rep,
    };
    match &st.activated {
        None => StagedStep::Activate,
        Some(steps) => StagedStep::Done(
            Ok(installed_line(name, rep.copied, rep.xl_pending, count_well(steps))),
        ),
    }
}

// ---- looking at a package --------------------------------------------------

/// Decides the next step of `classify`. Risks make the exit code 3.
pub fn cmd_classify(
    input: &Option<String>,
    opened: &Option<Result<(), String>>,
    report: &Option<ModReport>,
) -> (r: CommandStep)
    ensures
        r@ == (match *input {
            None => failed(2, "uso: cp77-mods classify <pasta>"@),
            Some(_) => match *opened {
                None => CommandStepV::Open,
                Some(Err(e)) => failed(1, "erro: "@ + e@),
                Some(Ok(_)) => match *report {
                    None => CommandStepV::Classify,
                    Some(rep) => CommandStepV::Exit {
                        code: if rep.risks@.len() == 0 {
                            0
                        } else {
                            3
                        },
                        out: report_text(rep),
                        err: Seq::empty(),
                    },
                },
            },
        }),
{
    if input.is_none() {
        return fail(2, "uso: cp77-mods classify <pasta>");
    }
    match opened {
        None => {
            return CommandStep::Open;
        },
        Some(Err(e)) => {
            return fail_with(1, "erro: ", e);
        },
        Some(Ok(_)) => {},
    }
    match report {
        None => CommandStep::Classify,
        Some(rep) => {
            let err: String = String::new();
            proof {
                assert(err@ =~= Seq::empty());
            }
            CommandStep::Exit { code: report_code(rep), out: print_report(rep), err }
        },
    }
}

/// A suggested category: the mod, the category and its label, how sure it is, and
/// why.
pub struct Suggestion {
    pub name: String,
    pub category: String,
    pub label: String,
    pub confidence: u32,
    pub reason: String,
}

/// Decides the next step of `suggest`.
pub fn cmd_suggest(
    input: &Option<String>,
    opened: &Option<Result<(), String>>,
    found: &Option<Suggestion>,
    cats: &Vec<Category>,
) -> (r: CommandStep)
    ensures
        r@ == (match *input {
            None => failed(2, "uso: cp77-mods suggest <pasta>"@),
            Some(_) => match *opened {
                None => CommandStepV::Open,
                Some(Err(e)) => failed(1, "erro: "@ + e@),
                Some(Ok(_)) => match *found {
                    None => CommandStepV::Suggest,
                    Some(s) => done(
                        suggestion_text(
                            s.name@,
                            s.label@,
                            s.confidence as nat,
                            s.reason@,
                            cats@,
                            s.category@,
                        ),
                    ),
                },
            },
        }),
{
    if input.is_none() {
        return fail(2, "uso: cp77-mods suggest <pasta>");
    }
    match opened {
        None => {
            return CommandStep::Open;
        },
        Some(Err(e)) => {
            return fail_with(1, "erro: ", e);
        },
        Some(Ok(_)) => {},
    }
    match found {
        None => CommandStep::Suggest,
        Some(s) => succeed(
            suggestion_lines(
                s.name.as_str(),
                s.label.as_str(),
                s.confidence,
                s.reason.as_str(),
                cats,
                s.category.as_str(),
            ),
        ),
    }
}

// ---- the library -----------------------------------------------------------

/// Decides the next step of `nexus list`.
pub fn cmd_nexus_list(game: bool, mods: &Option<Vec<LibraryMod>>) -> (r: CommandStep)
    ensures
        r@ == (if !game {
            failed(2, no_game())
        } else {
            match *mods {
                None => CommandStepV::ReadLibrary,
                Some(m) => done(library_text(m@)),
            }
        }),
{
    if !game {
        return fail(2, "erro: raiz do jogo não encontrada.");
    }
    match mods {
        None => CommandStep::ReadLibrary,
        Some(m) => succeed(library_listing(m)),
    }
}

/// What a deployment of the library did.
pub struct DeployReport {
    pub deployed: usize,
    pub mods: usize,
    pub removed: usize,
    pub conflicts: Vec<String>,
}

/// Decides the next step of `nexus deploy`.
pub fn cmd_nexus_deploy(game: bool, deployed: &Option<Result<DeployReport, String>>) -> (r:
    CommandStep)
    ensures
        r@ == (if !game {
            failed(2, no_game())
        } else {
            match *deployed {
                None => CommandStepV::Deploy,
                Some(Err(e)) => failed(1, "✗ deploy falhou: "@ + e@),
                Some(Ok(rep)) => done(
                    deploy_text(
                        rep.deployed as nat,
                        rep.mods as nat,
                        rep.removed as nat,
                        strings_view(rep.conflicts@),
                    ),
                ),
            }
        }),
{
    if !game {
        return fail(2, "erro: raiz do jogo não encontrada.");
    }
    match deployed {
        None => CommandStep::Deploy,
        Some(Err(e)) => fail_with(1, "✗ deploy falhou: ", e),
        Some(Ok(rep)) => succeed(
            deploy_lines(rep.deployed, rep.mods, rep.removed, &rep.conflicts),
        ),
    }
}

/// Decides the next step of `nexus remove`. `purged` holds how many files were
/// taken out of the game, and whether the mod was in the library.
pub fn cmd_nexus_remove(id: &Option<String>, game: bool, purged: Option<(usize, bool)>) -> (r:
    CommandStep)
    ensures
        r@ == (match *id {
            None => failed(2, "uso: cp77-mods nexus remove <unique_id> [game]"@),
            Some(id) => if !game {
                failed(2, no_game())
            } else {
                match purged {
                    None => CommandStepV::Purge,
                    Some((n, gone)) => {
                        let (ok, text) = purge_text(id@, n as nat, gone);
                        if ok {
                            done(text + "\n"@)
                        } else {
                            failed(1, text)
                        }
                    },
                }
            },
        }),
{
    let id = match id {
        None => {
            return fail(2, "uso: cp77-mods nexus remove <unique_id> [game]");
        },
        Some(id) => id,
    };
    if !game {
        return fail(2, "erro: raiz do jogo não encontrada.");
    }
    match purged {
        None => CommandStep::Purge,
        Some((n, gone)) => {
            let (ok, text) = purge_line(id.as_str(), n, gone);
            if ok {
                succeed(join2(text.as_str(), "\n"))
            } else {
                fail(1, text.as_str())
            }
        },
    }
}

/// Decides the next step of the text interface: it is shown, and the program ends
/// well whatever happens in it. Without a game the usage is printed too.
pub fn cmd_tui(game: bool, shown: bool, usage: &str) -> (r: CommandStep)
    ensures
        r@ == (if !game {
            CommandStepV::Exit {
                code: 1,
                out: usage@,
                err: "erro: raiz do jogo não encontrada. Defina CP77_DIR ou: cp77-mods tui <game>\n"@,
            }
        } else if !shown {
            CommandStepV::Interface
        } else {
            done(Seq::empty())
        }),
{
    if !game {
        return CommandStep::Exit {
            code: 1,
            out: usage.to_owned(),
            err: "erro: raiz do jogo não encontrada. Defina CP77_DIR ou: cp77-mods tui <game>\n".to_owned(),
        };
    }
    if !shown {
        return CommandStep::Interface;
    }
    let out: String = String::new();
    proof {
        assert(out@ =~= Seq::empty());
    }
    succeed(out)
}

/// The end of a command line that names no command, or none of the library's.
pub fn unknown_command(other: &Option<String>) -> (r: CommandStep)
    ensures
        r@ == (match *other {
            Some(s) => failed(2, "comando desconhecido '"@ + s@ + "'. Use --help."@),
            None => failed(
                2,
                "uso: cp77-mods nexus <import|list|deploy|remove> …  (veja --help)"@,
            ),
        }),
{
    match other {
        Some(s) => {
            let e = join3("comando desconhecido '", s.as_str(), "'. Use --help.");
            fail(2, e.as_str())
        },
        None => fail(2, "uso: cp77-mods nexus <import|list|deploy|remove> …  (veja --help)"),
    }
}

} // verus!
