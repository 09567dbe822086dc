//! What the commands of the mod manager and of the key loader print, and how
//! their arguments are read.
use vstd::prelude::*;

use crate::manager::{class_label, class_text, compat_label, compat_text, files_line, files_text,
    mod_line, mod_line_of, Compat, FileKind, ModClass, ModState};
use crate::text::{dec, push_dec, push_lit, same_str, string_of, strings_view};
use crate::webui::opt_view;

verus! {

// ---- lists -----------------------------------------------------------------

/// The first `n` texts, each on a line of its own behind a mark.
pub open spec fn marked_lines(mark: Seq<char>, items: Seq<Seq<char>>, n: nat) -> Seq<char>
    decreases n,
{
    if n == 0 {
        Seq::empty()
    } else {
        marked_lines(mark, items, (n - 1) as nat) + mark + items[n - 1] + "\n"@
    }
}

fn push_marked(out: &mut Vec<char>, mark: &str, items: &Vec<String>)
    ensures
        final(out)@ == old(out)@ + marked_lines(mark@, strings_view(items@), items@.len()),
{
    let ghost start = out@;
    let ghost all = strings_view(items@);
    let mut i: usize = 0;
    proof {
        assert(out@ =~= start + marked_lines(mark@, all, 0));
    }
    while i < items.len()
        invariant
            i <= items@.len(),
            all == strings_view(items@),
            out@ == start + marked_lines(mark@, all, i as nat),
        decreases items@.len() - i,
    {
        push_lit(out, mark);
        push_lit(out, items[i].as_str());
        push_lit(out, "\n");
        i += 1;
        proof {
            assert(all[i - 1] == items@[i - 1]@);
            assert(out@ =~= start + marked_lines(mark@, all, i as nat));
        }
    }
}

/// The lines on the first `n` mods.
pub open spec fn mod_lines(mods: Seq<ModState>, n: nat) -> Seq<char>
    decreases n,
{
    if n == 0 {
        Seq::empty()
    } else {
        mod_lines(mods, (n - 1) as nat) + mod_line_of(mods[n - 1]) + "\n"@
    }
}

fn push_mods(out: &mut Vec<char>, mods: &Vec<ModState>)
    ensures
        final(out)@ == old(out)@ + mod_lines(mods@, mods@.len()),
{
    let ghost start = out@;
    let mut i: usize = 0;
    proof {
        assert(out@ =~= start + mod_lines(mods@, 0));
    }
    while i < mods.len()
        invariant
            i <= mods@.len(),
            out@ == start + mod_lines(mods@, i as nat),
        decreases mods@.len() - i,
    {
        let line = mod_line(&mods[i]);
        push_lit(out, line.as_str());
        push_lit(out, "\n");
        i += 1;
        proof {
            assert(out@ =~= start + mod_lines(mods@, i as nat));
        }
    }
}

/// The list of the mods in the staging area.
pub open spec fn staging_list(mods: Seq<ModState>) -> Seq<char> {
    if mods.len() == 0 {
        "(nenhum mod no staging — use `install <pasta>` ou largue em BWMS/mods/<tema>/<Nome>/)\n"@
    } else {
        "MODS ("@ + dec(mods.len()) + " no staging):\n"@ + mod_lines(mods, mods.len())
    }
}

pub fn list_text(mods: &Vec<ModState>) -> (r: String)
    ensures
        r@ == staging_list(mods@),
{
    let mut out: Vec<char> = Vec::new();
    if mods.len() == 0 {
        push_lit(
            &mut out,
            "(nenhum mod no staging — use `install <pasta>` ou largue em BWMS/mods/<tema>/<Nome>/)\n",
        );
    } else {
        push_lit(&mut out, "MODS (");
        push_dec(&mut out, mods.len() as u128);
        push_lit(&mut out, " no staging):\n");
        push_mods(&mut out, mods);
    }
    proof {
        assert(out@ =~= staging_list(mods@));
    }
    string_of(out.as_slice())
}

/// What is shown before the active mods are brought into the game.
pub open spec fn apply_list(mods: Seq<ModState>) -> Seq<char> {
    "MODS no staging (BWMS/mods/<tema>/):\n"@ + (if mods.len() == 0 {
        "  (vazio — largue mods em BWMS/mods/<tema>/<NomeDoMod>/)\n"@
    } else {
        Seq::empty()
    }) + mod_lines(mods, mods.len())
}

pub fn apply_text(mods: &Vec<ModState>) -> (r: String)
    ensures
        r@ == apply_list(mods@),
{
    let mut out: Vec<char> = Vec::new();
    push_lit(&mut out, "MODS no staging (BWMS/mods/<tema>/):\n");
    if mods.len() == 0 {
        push_lit(&mut out, "  (vazio — largue mods em BWMS/mods/<tema>/<NomeDoMod>/)\n");
    }
    push_mods(&mut out, mods);
    proof {
        assert(out@ =~= apply_list(mods@));
    }
    string_of(out.as_slice())
}

/// What is shown once the active mods are in the game.
pub open spec fn applied_text(copied: nat, removed: nat, pending: nat) -> Seq<char> {
    "✓ sincronizado: "@ + dec(copied)
        + " arquivo(s) ativo(s) (archive/Mac/content + r6/tweaks + r6/scripts), "@ + dec(removed)
        + " removido(s).\n"@ + (if pending > 0 {
        "  ⚠ "@ + dec(pending)
            + " .archive.xl pendente(s) do runtime ArchiveXL (factory/localization ainda não aplicam)\n"@
    } else {
        Seq::empty()
    })
}

pub fn applied_lines(copied: usize, removed: usize, pending: usize) -> (r: String)
    ensures
        r@ == applied_text(copied as nat, removed as nat, pending as nat),
{
    let mut out: Vec<char> = Vec::new();
    push_lit(&mut out, "✓ sincronizado: ");
    push_dec(&mut out, copied as u128);
    push_lit(
        &mut out,
        " arquivo(s) ativo(s) (archive/Mac/content + r6/tweaks + r6/scripts), ",
    );
    push_dec(&mut out, removed as u128);
    push_lit(&mut out, " removido(s).\n");
    if pending > 0 {
        push_lit(&mut out, "  ⚠ ");
        push_dec(&mut out, pending as u128);
        push_lit(
            &mut out,
            " .archive.xl pendente(s) do runtime ArchiveXL (factory/localization ainda não aplicam)\n",
        );
    }
    proof {
        assert(out@ =~= applied_text(copied as nat, removed as nat, pending as nat));
    }
    string_of(out.as_slice())
}

// ---- the report on a package -----------------------------------------------

/// What is known of a package.
pub struct ModReport {
    pub name: String,
    pub class: ModClass,
    pub compat: Compat,
    pub kinds: Vec<FileKind>,
    pub deps: Vec<(String, String)>,
    pub risks: Vec<String>,
    pub notes: Vec<String>,
}

/// The lines on the first `n` dependencies.
pub open spec fn dep_lines(deps: Seq<(String, String)>, n: nat) -> Seq<char>
    decreases n,
{
    if n == 0 {
        Seq::empty()
    } else {
        dep_lines(deps, (n - 1) as nat) + "  - "@ + deps[n - 1].0@ + " — "@ + deps[n - 1].1@
            + "\n"@
    }
}

pub open spec fn deps_text(deps: Seq<(String, String)>) -> Seq<char> {
    if deps.len() == 0 {
        "Dependências: nenhuma\n"@
    } else {
        "Dependências:\n"@ + dep_lines(deps, deps.len())
    }
}

pub open spec fn risks_text(risks: Seq<Seq<char>>) -> Seq<char> {
    if risks.len() == 0 {
        "Risco: nenhum (seguro p/ instalar pela ferramenta)\n"@
    } else {
        "⚠ RISCO ("@ + dec(risks.len()) + ") — revisar antes de instalar:\n"@ + marked_lines(
            "  ! "@,
            risks,
            risks.len(),
        )
    }
}

pub open spec fn notes_text(notes: Seq<Seq<char>>) -> Seq<char> {
    if notes.len() == 0 {
        Seq::empty()
    } else {
        "Notas:\n"@ + marked_lines("  • "@, notes, notes.len())
    }
}

/// The report on a package.
pub open spec fn report_text(r: ModReport) -> Seq<char> {
    "MOD: "@ + r.name@ + "\nClasse : "@ + class_text(r.class) + "\nCompat : "@ + compat_text(
        r.compat,
    ) + "\n"@ + files_text(r.kinds@) + "\n"@ + deps_text(r.deps@) + risks_text(
        strings_view(r.risks@),
    ) + notes_text(strings_view(r.notes@))
}

fn push_deps(out: &mut Vec<char>, deps: &Vec<(String, String)>)
    ensures
        final(out)@ == old(out)@ + deps_text(deps@),
{
    let ghost start = out@;
    if deps.len() == 0 {
        push_lit(out, "Dependências: nenhuma\n");
        return;
    }
    push_lit(out, "Dependências:\n");
    let ghost head = out@;
    let mut i: usize = 0;
    proof {
        assert(out@ =~= head + dep_lines(deps@, 0));
    }
    while i < deps.len()
        invariant
            i <= deps@.len(),
            out@ == head + dep_lines(deps@, i as nat),
        decreases deps@.len() - i,
    {
        push_lit(out, "  - ");
        push_lit(out, deps[i].0.as_str());
        push_lit(out, " — ");
        push_lit(out, deps[i].1.as_str());
        push_lit(out, "\n");
        i += 1;
        proof {
            assert(out@ =~= head + dep_lines(deps@, i as nat));
        }
    }
    proof {
        assert(out@ =~= start + deps_text(deps@));
    }
}

fn push_risks(out: &mut Vec<char>, risks: &Vec<String>)
    ensures
        final(out)@ == old(out)@ + risks_text(strings_view(risks@)),
{
    let ghost start = out@;
    if risks.len() == 0 {
        push_lit(out, "Risco: nenhum (seguro p/ instalar pela ferramenta)\n");
    } else {
        push_lit(out, "⚠ RISCO (");
        push_dec(out, risks.len() as u128);
        push_lit(out, ") — revisar antes de instalar:\n");
        push_marked(out, "  ! ", risks);
    }
    proof {
        assert(out@ =~= start + risks_text(strings_view(risks@)));
    }
}

fn push_notes(out: &mut Vec<char>, notes: &Vec<String>)
    ensures
        final(out)@ == old(out)@ + notes_text(strings_view(notes@)),
{
    let ghost start = out@;
    if notes.len() > 0 {
        push_lit(out, "Notas:\n");
        push_marked(out, "  • ", notes);
    }
    proof {
        assert(out@ =~= start + notes_text(strings_view(notes@)));
    }
}

/// The report on a package.
pub fn print_report(r: &ModReport) -> (t: String)
    ensures
        t@ == report_text(*r),
{
    let mut out: Vec<char> = Vec::new();
    push_lit(&mut out, "MOD: ");
    push_lit(&mut out, r.name.as_str());
    push_lit(&mut out, "\nClasse : ");
    push_lit(&mut out, class_label(r.class));
    push_lit(&mut out, "\nCompat : ");
    push_lit(&mut out, compat_label(r.compat));
    push_lit(&mut out, "\n");
    let files = files_line(&r.kinds);
    push_lit(&mut out, files.as_str());
    push_lit(&mut out, "\n");
    let ghost head = out@;
    push_deps(&mut out, &r.deps);
    push_risks(&mut out, &r.risks);
    push_notes(&mut out, &r.notes);
    proof {
        assert(head =~= "MOD: "@ + r.name@ + "\nClasse : "@ + class_text(r.class) + "\nCompat : "@
            + compat_text(r.compat) + "\n"@ + files_text(r.kinds@) + "\n"@);
        assert(out@ =~= report_text(*r));
    }
    string_of(out.as_slice())
}

/// The exit code of a report: risks want a look by a person.
pub fn report_code(r: &ModReport) -> (code: u8)
    ensures
        code == (if r.risks@.len() == 0 {
            0u8
        } else {
            3u8
        }),
{
    if r.risks.len() == 0 {
        0
    } else {
        3
    }
}

// ---- the suggestion of a category ------------------------------------------

/// A category that a mod can have.
pub struct Category {
    pub slug: String,
    pub label: String,
}

/// The lines on the first `n` categories, the suggested one marked.
pub open spec fn category_lines(cats: Seq<Category>, chosen: Seq<char>, n: nat) -> Seq<char>
    decreases n,
{
    if n == 0 {
        Seq::empty()
    } else {
        category_lines(cats, chosen, (n - 1) as nat) + "  "@ + (if cats[n - 1].slug@ == chosen {
            "→"@
        } else {
            " "@
        }) + " "@ + cats[n - 1].label@ + " ("@ + cats[n - 1].slug@ + ")\n"@
    }
}

/// The suggestion of a category for a mod.
pub open spec fn suggestion_text(
    name: Seq<char>,
    label: Seq<char>,
    confidence: nat,
    reason: Seq<char>,
    cats: Seq<Category>,
    chosen: Seq<char>,
) -> Seq<char> {
    "MOD: "@ + name + "\nCategoria sugerida: "@ + label + "  (confiança "@ + dec(confidence)
        + "%)\nMotivo: "@ + reason
        + "\nConfirme ou corrija — categorias curadas (ou crie a sua: BWMS/mods/<slug>/):\n"@
        + category_lines(cats, chosen, cats.len())
}

pub fn suggestion_lines(
    name: &str,
    label: &str,
    confidence: u32,
    reason: &str,
    cats: &Vec<Category>,
    chosen: &str,
) -> (r: String)
    ensures
        r@ == suggestion_text(name@, label@, confidence as nat, reason@, cats@, chosen@),
{
    let mut out: Vec<char> = Vec::new();
    push_lit(&mut out, "MOD: ");
    push_lit(&mut out, name);
    push_lit(&mut out, "\nCategoria sugerida: ");
    push_lit(&mut out, label);
    push_lit(&mut out, "  (confiança ");
    push_dec(&mut out, confidence as u128);
    push_lit(&mut out, "%)\nMotivo: ");
    push_lit(&mut out, reason);
    push_lit(
        &mut out,
        "\nConfirme ou corrija — categorias curadas (ou crie a sua: BWMS/mods/<slug>/):\n",
    );
    let ghost head = out@;
    let mut i: usize = 0;
    proof {
        assert(out@ =~= head + category_lines(cats@, chosen@, 0));
    }
    while i < cats.len()
        invariant
            i <= cats@.len(),
            out@ == head + category_lines(cats@, chosen@, i as nat),
        decreases cats@.len() - i,
    {
        push_lit(&mut out, "  ");
        let here: bool = same_str(cats[i].slug.as_str(), chosen);
        push_lit(
            &mut out,
            if here {
                "→"
            } else {
                " "
            },
        );
        push_lit(&mut out, " ");
        push_lit(&mut out, cats[i].label.as_str());
        push_lit(&mut out, " (");
        push_lit(&mut out, cats[i].slug.as_str());
        push_lit(&mut out, ")\n");
        i += 1;
        proof {
            assert(out@ =~= head + category_lines(cats@, chosen@, i as nat));
        }
    }
    proof {
        assert(out@ =~= suggestion_text(
            name@,
            label@,
            confidence as nat,
            reason@,
            cats@,
            chosen@,
        ));
    }
    string_of(out.as_slice())
}

// ---- the library -----------------------------------------------------------

/// A mod of the library.
pub struct LibraryMod {
    pub id: String,
    pub version: String,
    pub enabled: bool,
    pub key: Option<(u64, u64)>,
}

/// The line on a mod of the library.
pub open spec fn library_line(m: LibraryMod) -> Seq<char> {
    "  "@ + (if m.enabled {
        "●"@
    } else {
        "○"@
    }) + " "@ + m.id@ + "  v"@ + (if m.version@.len() == 0 {
        "?"@
    } else {
        m.version@
    }) + "  ["@ + (if m.enabled {
        "ativo"@
    } else {
        "inativo"@
    }) + "]  ("@ + origin_text(m.key) + ")\n"@
}

/// Where a mod of the library came from.
pub open spec fn origin_text(key: Option<(u64, u64)>) -> Seq<char> {
    match key {
        Some((mid, fid)) => "mods/"@ + dec(mid as nat) + "/files/"@ + dec(fid as nat),
        None => "manual"@,
    }
}

pub open spec fn library_lines(mods: Seq<LibraryMod>, n: nat) -> Seq<char>
    decreases n,
{
    if n == 0 {
        Seq::empty()
    } else {
        library_lines(mods, (n - 1) as nat) + library_line(mods[n - 1])
    }
}

pub open spec fn library_text(mods: Seq<LibraryMod>) -> Seq<char> {
    if mods.len() == 0 {
        "(biblioteca vazia — use `cp77-mods nexus import <pasta|.zip>`)\n"@
    } else {
        "Biblioteca ("@ + dec(mods.len()) + " mod(s)):\n"@ + library_lines(mods, mods.len())
    }
}

fn push_origin(out: &mut Vec<char>, key: Option<(u64, u64)>)
    ensures
        final(out)@ == old(out)@ + origin_text(key),
{
    let ghost start = out@;
    match key {
        Some((mid, fid)) => {
            push_lit(out, "mods/");
            push_dec(out, mid as u128);
            push_lit(out, "/files/");
            push_dec(out, fid as u128);
        },
        None => {
            push_lit(out, "manual");
        },
    }
    proof {
        assert(out@ =~= start + origin_text(key));
    }
}

fn push_library_line(out: &mut Vec<char>, m: &LibraryMod)
    ensures
        final(out)@ == old(out)@ + library_line(*m),
{
    let ghost start = out@;
    let mark = if m.enabled {
        "●"
    } else {
        "○"
    };
    let state = if m.enabled {
        "ativo"
    } else {
        "inativo"
    };
    let version = if is_bare(m.version.as_str()) {
        "?"
    } else {
        m.version.as_str()
    };
    push_lit(out, "  ");
    push_lit(out, mark);
    push_lit(out, " ");
    push_lit(out, m.id.as_str());
    push_lit(out, "  v");
    push_lit(out, version);
    let ghost head = "  "@ + mark@ + " "@ + m.id@ + "  v"@ + version@;
    proof {
        assert(out@ =~= start + head);
    }
    push_lit(out, "  [");
    push_lit(out, state);
    push_lit(out, "]  (");
    push_origin(out, m.key);
    push_lit(out, ")\n");
    proof {
        assert(out@ =~= start + (head + "  ["@ + state@ + "]  ("@ + origin_text(m.key) + ")\n"@));
    }
}

/// The list of the library.
pub fn library_listing(mods: &Vec<LibraryMod>) -> (r: String)
    ensures
        r@ == library_text(mods@),
{
    let mut out: Vec<char> = Vec::new();
    if mods.len() == 0 {
        push_lit(&mut out, "(biblioteca vazia — use `cp77-mods nexus import <pasta|.zip>`)\n");
        proof {
            assert(out@ =~= library_text(mods@));
        }
        return string_of(out.as_slice());
    }
    push_lit(&mut out, "Biblioteca (");
    push_dec(&mut out, mods.len() as u128);
    push_lit(&mut out, " mod(s)):\n");
    let ghost head = out@;
    let mut i: usize = 0;
    proof {
        assert(out@ =~= head + library_lines(mods@, 0));
    }
    while i < mods.len()
        invariant
            i <= mods@.len(),
            out@ == head + library_lines(mods@, i as nat),
        decreases mods@.len() - i,
    {
        push_library_line(&mut out, &mods[i]);
        i += 1;
        proof {
            assert(out@ =~= head + library_lines(mods@, i as nat));
        }
    }
    proof {
        assert(out@ =~= library_text(mods@));
    }
    string_of(out.as_slice())
}

/// What a deployment of the library prints.
pub open spec fn deploy_text(deployed: nat, mods: nat, removed: nat, conflicts: Seq<Seq<char>>) -> Seq<
    char,
> {
    "✓ deploy: "@ + dec(deployed) + " arquivo(s) de "@ + dec(mods) + " mod(s) ativo(s); "@ + dec(
        removed,
    ) + " removido(s) de deploy anterior.\n"@ + (if conflicts.len() == 0 {
        Seq::empty()
    } else {
        "⚠ "@ + dec(conflicts.len()) + " conflito(s) (dois mods no mesmo arquivo):\n"@
            + marked_lines("  ! "@, conflicts, conflicts.len())
    }) + "  (mods de .archive só valem ao REINICIAR o jogo)\n"@
}

pub fn deploy_lines(deployed: usize, mods: usize, removed: usize, conflicts: &Vec<String>) -> (r:
    String)
    ensures
        r@ == deploy_text(deployed as nat, mods as nat, removed as nat, strings_view(conflicts@)),
{
    let mut out: Vec<char> = Vec::new();
    push_lit(&mut out, "✓ deploy: ");
    push_dec(&mut out, deployed as u128);
    push_lit(&mut out, " arquivo(s) de ");
    push_dec(&mut out, mods as u128);
    push_lit(&mut out, " mod(s) ativo(s); ");
    push_dec(&mut out, removed as u128);
    push_lit(&mut out, " removido(s) de deploy anterior.\n");
    let ghost head = out@;
    if conflicts.len() > 0 {
        push_lit(&mut out, "⚠ ");
        push_dec(&mut out, conflicts.len() as u128);
        push_lit(&mut out, " conflito(s) (dois mods no mesmo arquivo):\n");
        push_marked(&mut out, "  ! ", conflicts);
    }
    proof {
        assert(out@ =~= head + (if conflicts@.len() == 0 {
            Seq::empty()
        } else {
            "⚠ "@ + dec(conflicts@.len()) + " conflito(s) (dois mods no mesmo arquivo):\n"@
                + marked_lines("  ! "@, strings_view(conflicts@), conflicts@.len())
        }));
    }
    push_lit(&mut out, "  (mods de .archive só valem ao REINICIAR o jogo)\n");
    proof {
        assert(out@ =~= deploy_text(
            deployed as nat,
            mods as nat,
            removed as nat,
            strings_view(conflicts@),
        ));
    }
    string_of(out.as_slice())
}

/// What a removal from the library prints, and whether it found the mod.
pub open spec fn purge_text(id: Seq<char>, purged: nat, gone: bool) -> (bool, Seq<char>) {
    if !gone && purged == 0 {
        (false, "mod '"@ + id + "' não estava na biblioteca."@)
    } else {
        (
            true,
            "✓ removido '"@ + id + "': "@ + dec(purged)
                + " arquivo(s) purgado(s) do jogo + pasta da biblioteca apagada."@,
        )
    }
}

pub fn purge_line(id: &str, purged: usize, gone: bool) -> (r: (bool, String))
    ensures
        (r.0, r.1@) == purge_text(id@, purged as nat, gone),
{
    let mut out: Vec<char> = Vec::new();
    if !gone && purged == 0 {
        push_lit(&mut out, "mod '");
        push_lit(&mut out, id);
        push_lit(&mut out, "' não estava na biblioteca.");
        proof {
            assert(out@ =~= purge_text(id@, purged as nat, gone).1);
        }
        return (false, string_of(out.as_slice()));
    }
    push_lit(&mut out, "✓ removido '");
    push_lit(&mut out, id);
    push_lit(&mut out, "': ");
    push_dec(&mut out, purged as u128);
    push_lit(&mut out, " arquivo(s) purgado(s) do jogo + pasta da biblioteca apagada.");
    proof {
        assert(out@ =~= purge_text(id@, purged as nat, gone).1);
    }
    (true, string_of(out.as_slice()))
}

// ---- the flows of the text interface ---------------------------------------

/// What the text interface does next with a path that was typed in: open the
/// package, classify it, install it, or show a line and end.
pub enum TypedStep {
    Open,
    Classify,
    Install,
    Say(String),
}

pub enum TypedStepV {
    Open,
    Classify,
    Install,
    Say(Seq<char>),
}

impl View for TypedStep {
    type V = TypedStepV;

    open spec fn view(&self) -> TypedStepV {
        match self {
            TypedStep::Open => TypedStepV::Open,
            TypedStep::Classify => TypedStepV::Classify,
            TypedStep::Install => TypedStepV::Install,
            TypedStep::Say(s) => TypedStepV::Say(s@),
        }
    }
}

/// What is known of an installation from the text interface: what came of opening
/// the package, its risks, and what came of installing it.
pub struct TypedInstall {
    pub opened: Option<Result<(), String>>,
    pub risks: Option<usize>,
    pub installed: Option<Result<String, String>>,
}

/// The next step of an installation from the text interface.
pub open spec fn typed_install(path: Seq<char>, st: TypedInstall) -> TypedStepV {
    if path.len() == 0 {
        TypedStepV::Say("cancelado"@)
    } else {
        match st.opened {
            None => TypedStepV::Open,
            Some(Err(e)) => TypedStepV::Say("erro: "@ + e@),
            Some(Ok(_)) => match st.risks {
                None => TypedStepV::Classify,
                Some(n) => if n > 0 {
                    TypedStepV::Say(
                        "BLOQUEADO: "@ + dec(n as nat)
                            + " risco(s) — use `classify` no terminal pra ver"@,
                    )
                } else {
                    match st.installed {
                        None => TypedStepV::Install,
                        Some(Ok(s)) => TypedStepV::Say("instalado "@ + s@),
                        Some(Err(e)) => TypedStepV::Say("falhou: "@ + e@),
                    }
                },
            },
        }
    }
}

fn is_bare(path: &str) -> (r: bool)
    ensures
        r == (path@.len() == 0),
{
    let bare: bool = same_str(path, "");
    proof {
        reveal_strlit("");
        if path@.len() == 0 {
            assert(path@ =~= ""@);
        }
    }
    bare
}

fn say(what: &str, s: &str) -> (r: TypedStep)
    ensures
        r@ == TypedStepV::Say(what@ + s@),
{
    let mut out: Vec<char> = Vec::new();
    push_lit(&mut out, what);
    push_lit(&mut out, s);
    proof {
        assert(out@ =~= what@ + s@);
    }
    TypedStep::Say(string_of(out.as_slice()))
}

/// Decides the next step of an installation from the text interface.
pub fn install_flow(path: &str, st: &TypedInstall) -> (r: TypedStep)
    ensures
        r@ == typed_install(path@, *st),
{
    if is_bare(path) {
        return TypedStep::Say("cancelado".to_owned());
    }
    match &st.opened {
        None => {
            return TypedStep::Open;
        },
        Some(Err(e)) => {
            return say("erro: ", e.as_str());
        },
        Some(Ok(_)) => {},
    }
    match st.risks {
        None => {
            return TypedStep::Classify;
        },
        Some(n) => {
            if n > 0 {
                let mut out: Vec<char> = Vec::new();
                push_lit(&mut out, "BLOQUEADO: ");
                push_dec(&mut out, n as u128);
                push_lit(&mut out, " risco(s) — use `classify` no terminal pra ver");
                proof {
                    assert(out@ =~= "BLOQUEADO: "@ + dec(n as nat)
                        + " risco(s) — use `classify` no terminal pra ver"@);
                }
                return TypedStep::Say(string_of(out.as_slice()));
            }
        },
    }
    match &st.installed {
        None => TypedStep::Install,
        Some(Ok(s)) => say("instalado ", s.as_str()),
        Some(Err(e)) => say("falhou: ", e.as_str()),
    }
}

/// The short name of a class of mods.
pub open spec fn class_word(c: ModClass) -> Seq<char> {
    match c {
        ModClass::PureContent => "PureContent"@,
        ModClass::RedMod => "RedMod"@,
        ModClass::Script => "Script"@,
        ModClass::NativeCode => "NativeCode"@,
        ModClass::Mixed => "Mixed"@,
        ModClass::Unknown => "Unknown"@,
    }
}

fn short_class(c: ModClass) -> (r: &'static str)
    ensures
        r@ == class_word(c),
{
    match c {
        ModClass::PureContent => "PureContent",
        ModClass::RedMod => "RedMod",
        ModClass::Script => "Script",
        ModClass::NativeCode => "NativeCode",
        ModClass::Mixed => "Mixed",
        ModClass::Unknown => "Unknown",
    }
}

/// What the text interface shows of a package.
pub open spec fn package_text(r: ModReport) -> Seq<char> {
    r.name@ + ": "@ + class_word(r.class) + ", "@ + dec(r.kinds@.len()) + " arquivo(s), "@ + dec(
        r.deps@.len(),
    ) + " dep(s), "@ + dec(r.risks@.len()) + " risco(s)"@
}

/// Decides the next step of a look at a package from the text interface.
pub fn classify_flow(
    path: &str,
    opened: &Option<Result<(), String>>,
    report: &Option<ModReport>,
) -> (r: TypedStep)
    ensures
        r@ == (if path@.len() == 0 {
            TypedStepV::Say("cancelado"@)
        } else {
            match *opened {
                None => TypedStepV::Open,
                Some(Err(e)) => TypedStepV::Say("erro: "@ + e@),
                Some(Ok(_)) => match *report {
                    None => TypedStepV::Classify,
                    Some(rep) => TypedStepV::Say(package_text(rep)),
                },
            }
        }),
{
    if is_bare(path) {
        return TypedStep::Say("cancelado".to_owned());
    }
    match opened {
        None => {
            return TypedStep::Open;
        },
        Some(Err(e)) => {
            return say("erro: ", e.as_str());
        },
        Some(Ok(_)) => {},
    }
    match report {
        None => TypedStep::Classify,
        Some(rep) => {
            let mut out: Vec<char> = Vec::new();
            push_lit(&mut out, rep.name.as_str());
            push_lit(&mut out, ": ");
            push_lit(&mut out, short_class(rep.class));
            push_lit(&mut out, ", ");
            push_dec(&mut out, rep.kinds.len() as u128);
            push_lit(&mut out, " arquivo(s), ");
            push_dec(&mut out, rep.deps.len() as u128);
            push_lit(&mut out, " dep(s), ");
            push_dec(&mut out, rep.risks.len() as u128);
            push_lit(&mut out, " risco(s)");
            proof {
                assert(out@ =~= package_text(*rep));
            }
            TypedStep::Say(string_of(out.as_slice()))
        },
    }
}

/// What is shown of an installation that went through.
pub open spec fn installed_text(name: Seq<char>, copied: nat, pending: nat, active: nat) -> Seq<char> {
    name + ": "@ + dec(copied) + " arquivo(s)"@ + (if pending > 0 {
        ", "@ + dec(pending) + " .xl pendente(s)"@
    } else {
        Seq::empty()
    }) + ", "@ + dec(active) + " ativação(ões)"@
}

pub fn installed_line(name: &str, copied: usize, pending: usize, active: usize) -> (r: String)
    ensures
        r@ == installed_text(name@, copied as nat, pending as nat, active as nat),
{
    let mut out: Vec<char> = Vec::new();
    push_lit(&mut out, name);
    push_lit(&mut out, ": ");
    push_dec(&mut out, copied as u128);
    push_lit(&mut out, " arquivo(s)");
    let ghost head = out@;
    if pending > 0 {
        push_lit(&mut out, ", ");
        push_dec(&mut out, pending as u128);
        push_lit(&mut out, " .xl pendente(s)");
    }
    proof {
        assert(out@ =~= head + (if pending > 0 {
            ", "@ + dec(pending as nat) + " .xl pendente(s)"@
        } else {
            Seq::empty()
        }));
    }
    push_lit(&mut out, ", ");
    push_dec(&mut out, active as u128);
    push_lit(&mut out, " ativação(ões)");
    proof {
        assert(out@ =~= installed_text(
            name@,
            copied as nat,
            pending as nat,
            active as nat,
        ));
    }
    string_of(out.as_slice())
}

// ---- tools -----------------------------------------------------------------

/// Where a tool is looked for, in order: beside the program, then in the places
/// of a build under the root.
pub open spec fn tool_places(dir: Option<Seq<char>>, root: Option<Seq<char>>, name: Seq<char>) -> Seq<
    Seq<char>,
> {
    (match dir {
        Some(d) => seq![d + "/"@ + name],
        None => Seq::empty(),
    }) + (match root {
        Some(r) => seq![
            r + "/"@ + name + "/target/release/"@ + name,
            r + "/dist/cp77-mac-tools/bin/"@ + name,
            r + "/redscript/target/release/"@ + name,
            r + "/dist/cp77-mac-tools/redscript-macos/engine/tools/"@ + name,
        ],
        None => Seq::empty(),
    })
}

fn joined4(a: &str, b: &str, c: &str, d: &str) -> (r: String)
    ensures
        r@ == a@ + b@ + c@ + d@,
{
    let mut out: Vec<char> = Vec::new();
    push_lit(&mut out, a);
    push_lit(&mut out, b);
    push_lit(&mut out, c);
    push_lit(&mut out, d);
    proof {
        assert(out@ =~= a@ + b@ + c@ + d@);
    }
    string_of(out.as_slice())
}

/// Where a tool is looked for.
pub fn find_tool(dir: &Option<String>, root: &Option<String>, name: &str) -> (r: Vec<String>)
    ensures
        strings_view(r@) == tool_places(opt_view(*dir), opt_view(*root), name@),
{
    let mut out: Vec<String> = Vec::new();
    proof {
        reveal_strlit("");
    }
    match dir {
        Some(d) => {
            out.push(joined4(d.as_str(), "/", name, ""));
            proof {
                assert(out@[0]@ =~= d@ + "/"@ + name@);
            }
        },
        None => {},
    }
    let ghost first = out@;
    match root {
        Some(r) => {
            let near = joined4(r.as_str(), "/", name, "/target/release/");
            out.push(joined4(near.as_str(), name, "", ""));
            out.push(joined4(r.as_str(), "/dist/cp77-mac-tools/bin/", name, ""));
            out.push(joined4(r.as_str(), "/redscript/target/release/", name, ""));
            out.push(
                joined4(
                    r.as_str(),
                    "/dist/cp77-mac-tools/redscript-macos/engine/tools/",
                    name,
                    "",
                ),
            );
            proof {
                let k = first.len() as int;
                assert(out@[k]@ =~= r@ + "/"@ + name@ + "/target/release/"@ + name@);
                assert(out@[k + 1]@ =~= r@ + "/dist/cp77-mac-tools/bin/"@ + name@);
                assert(out@[k + 2]@ =~= r@ + "/redscript/target/release/"@ + name@);
                assert(out@[k + 3]@ =~= r@ + "/dist/cp77-mac-tools/redscript-macos/engine/tools/"@
                    + name@);
            }
        },
        None => {},
    }
    proof {
        assert(strings_view(out@) =~= tool_places(opt_view(*dir), opt_view(*root), name@));
    }
    out
}

// ---- the arguments of the key loader ---------------------------------------

/// What the key loader is asked to do.
#[derive(Clone, Copy, PartialEq, Eq, Structural, Debug)]
pub enum LoaderVerb {
    Help,
    Merge,
    Restore,
    Status,
}

/// The arguments so far: the command, and the directory of the game.
pub struct LoaderArgsV {
    pub verb: Option<Seq<char>>,
    pub game: Option<Seq<char>>,
}

/// What reading the arguments comes to.
pub enum LoaderParseV {
    /// Help was asked for.
    Help,
    Done(LoaderArgsV),
    Error(Seq<char>),
}

/// The arguments from `i` on, after what was read before.
pub open spec fn loader_args_from(args: Seq<Seq<char>>, i: int, a: LoaderArgsV) -> LoaderParseV
    decreases args.len() - i,
{
    if i >= args.len() {
        LoaderParseV::Done(a)
    } else if args[i] == "--game"@ {
        if i + 1 >= args.len() {
            LoaderParseV::Error("--game exige <dir>"@)
        } else {
            loader_args_from(args, i + 2, LoaderArgsV { verb: a.verb, game: Some(args[i + 1]) })
        }
    } else if args[i] == "-h"@ || args[i] == "--help"@ {
        LoaderParseV::Help
    } else if a.verb is None {
        loader_args_from(args, i + 1, LoaderArgsV { verb: Some(args[i]), game: a.game })
    } else {
        LoaderParseV::Error("argumento inesperado: '"@ + args[i] + "'"@)
    }
}

/// The command, and the directory of the game where one is named; or why the
/// arguments are refused.
pub open spec fn loader_command(args: Seq<Seq<char>>) -> Result<
    (LoaderVerb, Option<Seq<char>>),
    Seq<char>,
> {
    match loader_args_from(args, 0, LoaderArgsV { verb: None, game: None }) {
        LoaderParseV::Help => Ok((LoaderVerb::Help, None)),
        LoaderParseV::Error(e) => Err(e),
        LoaderParseV::Done(a) => match a.verb {
            None => Ok((LoaderVerb::Help, a.game)),
            Some(v) => if v == "merge"@ {
                Ok((LoaderVerb::Merge, a.game))
            } else if v == "restore"@ {
                Ok((LoaderVerb::Restore, a.game))
            } else if v == "status"@ {
                Ok((LoaderVerb::Status, a.game))
            } else {
                Err("comando desconhecido '"@ + v + "'. Use --help."@)
            },
        },
    }
}

fn quoted(a: &str, b: &str, c: &str) -> (r: String)
    ensures
        r@ == a@ + b@ + c@,
{
    let mut out: Vec<char> = Vec::new();
    push_lit(&mut out, a);
    push_lit(&mut out, b);
    push_lit(&mut out, c);
    proof {
        assert(out@ =~= a@ + b@ + c@);
    }
    string_of(out.as_slice())
}

pub open spec fn command_view(r: Result<(LoaderVerb, Option<String>), String>) -> Result<
    (LoaderVerb, Option<Seq<char>>),
    Seq<char>,
> {
    match r {
        Ok((v, g)) => Ok((v, opt_view(g))),
        Err(e) => Err(e@),
    }
}

/// Reads the arguments of the key loader.
pub fn run(args: &Vec<String>) -> (r: Result<(LoaderVerb, Option<String>), String>)
    ensures
        command_view(r) == loader_command(strings_view(args@)),
{
    let mut verb: Option<String> = None;
    let mut game: Option<String> = None;
    let ghost all = strings_view(args@);
    let mut i: usize = 0;
    while i < args.len()
        invariant
            i <= args@.len(),
            all == strings_view(args@),
            loader_args_from(all, 0, LoaderArgsV { verb: None, game: None }) == loader_args_from(
                all,
                i as int,
                LoaderArgsV { verb: opt_view(verb), game: opt_view(game) },
            ),
        decreases args@.len() - i,
    {
        let a = args[i].as_str();
        proof {
            assert(all[i as int] == a@);
        }
        if same_str(a, "--game") {
            if i + 1 >= args.len() {
                let e = quoted("--game exige <dir>", "", "");
                proof {
                    reveal_strlit("");
                    assert(e@ =~= "--game exige <dir>"@);
                }
                return Err(e);
            }
            proof {
                assert(all[i + 1] == args@[i + 1]@);
            }
            game = Some(args[i + 1].clone());
            i += 2;
        } else if same_str(a, "-h") || same_str(a, "--help") {
            return Ok((LoaderVerb::Help, None));
        } else if verb.is_none() {
            verb = Some(args[i].clone());
            i += 1;
        } else {
            return Err(quoted("argumento inesperado: '", a, "'"));
        }
    }
    match verb {
        None => Ok((LoaderVerb::Help, game)),
        Some(v) => {
            if same_str(v.as_str(), "merge") {
                Ok((LoaderVerb::Merge, game))
            } else if same_str(v.as_str(), "restore") {
                Ok((LoaderVerb::Restore, game))
            } else if same_str(v.as_str(), "status") {
                Ok((LoaderVerb::Status, game))
            } else {
                Err(quoted("comando desconhecido '", v.as_str(), "'. Use --help."))
            }
        },
    }
}

} // verus!
