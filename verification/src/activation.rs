//! Turning the installed mods on: the scripts are compiled, and the tweak
//! database is rebuilt from the vanilla one with every active tweak applied in
//! turn.
use vstd::prelude::*;
use vstd::slice::slice_subrange;

use crate::encode::{lowercase, to_lowercase};
use crate::order::{sorted_positions, sorts, TextKey};
use crate::text::{chars_of, dec, is_lit, lines_of, push_chars, push_dec, push_lit, same,
    slices_view, split_lines, string_of};
use crate::webapi::keys_view;

verus! {

// ---- results ---------------------------------------------------------------

/// What came of one step.
pub struct StepResult {
    pub step: String,
    pub ok: bool,
    pub detail: String,
}

pub struct StepV {
    pub step: Seq<char>,
    pub ok: bool,
    pub detail: Seq<char>,
}

impl View for StepResult {
    type V = StepV;

    open spec fn view(&self) -> StepV {
        StepV { step: self.step@, ok: self.ok, detail: self.detail@ }
    }
}

/// How a tool's run ended.
pub enum RunOutcome {
    /// It succeeded.
    Success,
    /// It failed, with this on its error output.
    Failed { stderr: String },
    /// It could not be run.
    NotRun { error: String },
}

/// The first line of an error output.
pub open spec fn first_line(stderr: Seq<char>) -> Seq<char> {
    let ls = lines_of(stderr);
    if ls.len() > 0 {
        ls[0]
    } else {
        "(sem detalhe)"@
    }
}

fn push_first_line(out: &mut Vec<char>, stderr: &str)
    ensures
        final(out)@ == old(out)@ + first_line(stderr@),
{
    let v = chars_of(stderr);
    let ls = split_lines(v.as_slice());
    if ls.len() > 0 {
        proof {
            assert(slices_view(ls@)[0] == ls@[0]@);
        }
        push_chars(out, ls[0]);
    } else {
        push_lit(out, "(sem detalhe)");
    }
}

/// What came of a step that runs a tool; `run` is `None` where the tool was not
/// found.
pub open spec fn tool_result(
    step: Seq<char>,
    tool: Seq<char>,
    run: Option<RunOutcome>,
    done: Seq<char>,
) -> StepV {
    match run {
        None => StepV {
            step,
            ok: false,
            detail: tool + " não encontrado — bundle/instale o runtime"@,
        },
        Some(RunOutcome::Success) => StepV { step, ok: true, detail: done },
        Some(RunOutcome::Failed { stderr }) => StepV {
            step,
            ok: false,
            detail: tool + " falhou: "@ + first_line(stderr@),
        },
        Some(RunOutcome::NotRun { error }) => StepV {
            step,
            ok: false,
            detail: "erro ao rodar "@ + tool + ": "@ + error@,
        },
    }
}

/// Reports on a step that ran a tool.
pub fn tool_step(step: &str, tool: &str, run: &Option<RunOutcome>, done: &str) -> (r: StepResult)
    ensures
        r@ == tool_result(step@, tool@, *run, done@),
{
    let mut out: Vec<char> = Vec::new();
    let mut ok: bool = false;
    match run {
        None => {
            push_lit(&mut out, tool);
            push_lit(&mut out, " não encontrado — bundle/instale o runtime");
        },
        Some(RunOutcome::Success) => {
            ok = true;
            push_lit(&mut out, done);
        },
        Some(RunOutcome::Failed { stderr }) => {
            push_lit(&mut out, tool);
            push_lit(&mut out, " falhou: ");
            push_first_line(&mut out, stderr.as_str());
        },
        Some(RunOutcome::NotRun { error }) => {
            push_lit(&mut out, "erro ao rodar ");
            push_lit(&mut out, tool);
            push_lit(&mut out, ": ");
            push_lit(&mut out, error.as_str());
        },
    }
    proof {
        assert(out@ =~= tool_result(step@, tool@, *run, done@).detail);
    }
    StepResult { step: step.to_owned(), ok, detail: string_of(out.as_slice()) }
}

// ---- file names ------------------------------------------------------------

/// Where a character last occurs before `i`, or -1.
pub open spec fn last_index(s: Seq<char>, c: char, i: int) -> int
    decreases i,
{
    if i <= 0 {
        -1
    } else if s[i - 1] == c {
        i - 1
    } else {
        last_index(s, c, i - 1)
    }
}

fn last_position(s: &[char], c: char) -> (r: Option<usize>)
    ensures
        match r {
            Some(k) => last_index(s@, c, s@.len() as int) == k && k < s@.len(),
            None => last_index(s@, c, s@.len() as int) == -1,
        },
{
    let mut i: usize = s.len();
    while i > 0
        invariant
            i <= s@.len(),
            last_index(s@, c, s@.len() as int) == last_index(s@, c, i as int),
        decreases i,
    {
        if s[i - 1] == c {
            return Some(i - 1);
        }
        i -= 1;
    }
    None
}

/// The last part of a path.
pub open spec fn file_name(path: Seq<char>) -> Seq<char> {
    path.skip(last_index(path, '/', path.len() as int) + 1)
}

/// What follows the last dot of a file name; a dot at its start does not count.
pub open spec fn extension(path: Seq<char>) -> Option<Seq<char>> {
    let name = file_name(path);
    let k = last_index(name, '.', name.len() as int);
    if k <= 0 {
        None
    } else {
        Some(name.skip(k + 1))
    }
}

pub fn file_name_of(path: &[char]) -> (r: &[char])
    ensures
        r@ == file_name(path@),
{
    match last_position(path, '/') {
        Some(k) => {
            proof {
                assert(path@.subrange(k + 1, path@.len() as int) =~= path@.skip(k + 1));
            }
            let n: usize = path.len();
            assert(k < n);
            slice_subrange(path, k + 1, n)
        },
        None => {
            proof {
                assert(path@.skip(0) =~= path@);
            }
            path
        },
    }
}

pub fn extension_of(path: &[char]) -> (r: Option<&[char]>)
    ensures
        match r {
            Some(e) => extension(path@) == Some(e@),
            None => extension(path@) is None,
        },
{
    let name = file_name_of(path);
    match last_position(name, '.') {
        None => None,
        Some(k) => if k == 0 {
            None
        } else {
            proof {
                assert(name@.subrange(k + 1, name@.len() as int) =~= name@.skip(k + 1));
            }
            let n: usize = name.len();
            assert(k < n);
            Some(slice_subrange(name, k + 1, n))
        },
    }
}

/// Does the file have the extension, whatever the case of its letters?
pub open spec fn has_extension(path: Seq<char>, ext: Seq<char>) -> bool {
    match extension(path) {
        Some(e) => lowercase(e) == lowercase(ext),
        None => false,
    }
}

/// Does any of the files have the extension, whatever the case of its letters?
pub fn has_ext(files: &Vec<String>, ext: &str) -> (r: bool)
    ensures
        r == exists|i: int| 0 <= i < files@.len() && has_extension((#[trigger] files@[i])@, ext@),
{
    let want_chars = chars_of(ext);
    let want = to_lowercase(want_chars.as_slice());
    let mut i: usize = 0;
    while i < files.len()
        invariant
            i <= files@.len(),
            want@ == lowercase(ext@),
            forall|k: int| 0 <= k < i ==> !has_extension((#[trigger] files@[k])@, ext@),
        decreases files@.len() - i,
    {
        let v = chars_of(files[i].as_str());
        if let Some(e) = extension_of(v.as_slice()) {
            let low = to_lowercase(e);
            if same(low.as_slice(), want.as_slice()) {
                proof {
                    assert(has_extension(files@[i as int]@, ext@));
                }
                return true;
            }
        }
        i += 1;
    }
    false
}

/// Compiling the scripts: nothing where there are none; otherwise what came of
/// the compiler's run.
pub fn compile_redscript(files: &Vec<String>, run: &Option<RunOutcome>) -> (r: Option<StepResult>)
    ensures
        match r {
            None => !(exists|i: int|
                0 <= i < files@.len() && has_extension((#[trigger] files@[i])@, "reds"@)),
            Some(s) => (exists|i: int|
                0 <= i < files@.len() && has_extension((#[trigger] files@[i])@, "reds"@)) && s@
                == tool_result(
                "redscript"@,
                "scc"@,
                *run,
                "compilou r6/scripts → r6/cache/final.redscripts"@,
            ),
        },
{
    if !has_ext(files, "reds") {
        return None;
    }
    Some(
        tool_step(
            "redscript",
            "scc",
            run,
            "compilou r6/scripts → r6/cache/final.redscripts",
        ),
    )
}

// ---- tweaks ----------------------------------------------------------------

/// Is the file a tweak, and is it TOML? Extensions count as written.
pub open spec fn tweak_format(path: Seq<char>) -> Option<bool> {
    match extension(path) {
        None => None,
        Some(e) => if e == "yaml"@ || e == "yml"@ || e == "tweak"@ {
            Some(false)
        } else if e == "toml"@ {
            Some(true)
        } else {
            None
        },
    }
}

fn format_of(path: &[char]) -> (r: Option<bool>)
    ensures
        r == tweak_format(path@),
{
    match extension_of(path) {
        None => None,
        Some(e) => if is_lit(e, "yaml") || is_lit(e, "yml") || is_lit(e, "tweak") {
            Some(false)
        } else if is_lit(e, "toml") {
            Some(true)
        } else {
            None
        },
    }
}

/// The text that orders a path: its parts are compared one after another.
pub open spec fn path_key(path: Seq<char>) -> Seq<char> {
    path.map_values(
        |c: char|
            if c == '/' {
                '\0'
            } else {
                c
            },
    )
}

fn key_of_path(path: &[char]) -> (r: Vec<char>)
    ensures
        r@ == path_key(path@),
{
    let mut out: Vec<char> = Vec::new();
    let mut i: usize = 0;
    while i < path.len()
        invariant
            i <= path@.len(),
            out@ == path_key(path@).take(i as int),
        decreases path@.len() - i,
    {
        out.push(
            if path[i] == '/' {
                '\0'
            } else {
                path[i]
            },
        );
        i += 1;
        proof {
            assert(out@ =~= path_key(path@).take(i as int));
        }
    }
    proof {
        assert(path_key(path@).take(i as int) =~= path_key(path@));
    }
    out
}

/// A tweak file, and whether it is TOML.
pub struct Tweak {
    pub path: String,
    pub toml: bool,
}

pub open spec fn tweaks_view(v: Seq<Tweak>) -> Seq<(Seq<char>, bool)> {
    v.map_values(|t: Tweak| (t.path@, t.toml))
}

/// The tweaks among the first `n` files.
pub open spec fn tweaks_among(files: Seq<Seq<char>>, n: nat) -> Seq<(Seq<char>, bool)>
    decreases n,
{
    if n == 0 {
        Seq::empty()
    } else {
        let before = tweaks_among(files, (n - 1) as nat);
        match tweak_format(files[n - 1]) {
            Some(toml) => before.push((files[n - 1], toml)),
            None => before,
        }
    }
}

/// The keys of the tweaks' paths.
pub open spec fn tweak_keys(t: Seq<(Seq<char>, bool)>) -> Seq<Seq<char>> {
    t.map_values(|x: (Seq<char>, bool)| path_key(x.0))
}

/// Is `r` the list of the tweaks in the order of their paths?
pub open spec fn sorted_tweaks(t: Seq<(Seq<char>, bool)>, r: Seq<(Seq<char>, bool)>) -> bool {
    exists|k: Seq<TextKey>, p: Seq<usize>|
        keys_view(k) == tweak_keys(t) && #[trigger] sorts(k, p) && r == p.map_values(
            |i: usize| t[i as int],
        )
}

/// Finds the tweaks among the files, in the order of their paths.
pub fn collect_tweaks(files: &Vec<String>) -> (r: Vec<Tweak>)
    ensures
        sorted_tweaks(
            tweaks_among(crate::text::strings_view(files@), files@.len()),
            tweaks_view(r@),
        ),
{
    let ghost all = crate::text::strings_view(files@);
    let mut found: Vec<Tweak> = Vec::new();
    let mut keys: Vec<TextKey> = Vec::new();
    let mut i: usize = 0;
    proof {
        assert(tweaks_view(found@) =~= Seq::empty());
        assert(keys_view(keys@) =~= tweak_keys(tweaks_view(found@)));
    }
    while i < files.len()
        invariant
            i <= files@.len(),
            all == crate::text::strings_view(files@),
            tweaks_view(found@) == tweaks_among(all, i as nat),
            keys_view(keys@) == tweak_keys(tweaks_view(found@)),
        decreases files@.len() - i,
    {
        let v = chars_of(files[i].as_str());
        proof {
            assert(all[i as int] == v@);
        }
        if let Some(toml) = format_of(v.as_slice()) {
            let ghost f0 = found@;
            let ghost k0 = keys@;
            let path = files[i].clone();
            let kc = key_of_path(v.as_slice());
            let key = TextKey { text: string_of(kc.as_slice()) };
            found.push(Tweak { path, toml });
            keys.push(key);
            proof {
                assert(tweaks_view(found@) =~= tweaks_view(f0).push((v@, toml)));
                assert(keys_view(keys@) =~= keys_view(k0).push(path_key(v@)));
                assert(tweak_keys(tweaks_view(found@)) =~= tweak_keys(tweaks_view(f0)).push(
                    path_key(v@),
                ));
            }
        }
        i += 1;
    }
    let p = sorted_positions(&keys);
    let ghost tv = tweaks_view(found@);
    let ghost goal = p@.map_values(|i: usize| tv[i as int]);
    let mut out: Vec<Tweak> = Vec::new();
    let mut j: usize = 0;
    proof {
        assert(keys@.len() == found@.len()) by {
            assert(keys_view(keys@).len() == keys@.len());
            assert(tweak_keys(tv).len() == found@.len());
        }
    }
    while j < p.len()
        invariant
            j <= p@.len(),
            keys@.len() == found@.len(),
            tv == tweaks_view(found@),
            sorts(keys@, p@),
            goal == p@.map_values(|i: usize| tv[i as int]),
            tweaks_view(out@) == goal.take(j as int),
        decreases p@.len() - j,
    {
        proof {
            assert(p@[j as int] < keys@.len());
        }
        let t = &found[p[j]];
        let ghost before = out@;
        let path = t.path.clone();
        out.push(Tweak { path, toml: t.toml });
        proof {
            assert(tweaks_view(out@) =~= tweaks_view(before).push(tv[p@[j as int] as int]));
            assert(tweaks_view(out@) =~= goal.take(j + 1));
        }
        j += 1;
    }
    proof {
        assert(goal.take(j as int) =~= goal);
    }
    out
}

/// The files that a rebuild reads and writes: the vanilla copy, and two that
/// take turns.
#[derive(Clone, Copy, PartialEq, Eq, Structural)]
pub enum Slot {
    Vanilla,
    A,
    B,
}

/// Where the tweak with that index writes to.
pub open spec fn output_slot(i: int) -> Slot {
    if i % 2 == 0 {
        Slot::A
    } else {
        Slot::B
    }
}

/// Where the tweak with that index reads from: what the one before it wrote,
/// and the vanilla copy at first.
pub open spec fn input_slot(i: int) -> Slot {
    if i <= 0 {
        Slot::Vanilla
    } else {
        output_slot(i - 1)
    }
}

/// What is known of a rebuild so far: which files are there, what came of the
/// copies, and how the tweaks that were applied went.
pub struct TweakState {
    pub live: bool,
    pub backup: bool,
    pub saved: Option<Result<(), String>>,
    pub restored: Option<Result<(), String>>,
    pub tool: Option<bool>,
    pub applied: Vec<RunOutcome>,
    pub staged: Option<Result<(), String>>,
    pub installed: Option<Result<(), String>>,
}

/// What is to be done next in a rebuild.
pub enum TweakStep {
    /// Copy the live database to the vanilla copy.
    Backup,
    /// Copy the vanilla copy over the live database.
    Restore,
    /// Look for the tool.
    FindTool,
    /// Apply the tweak with that index.
    Apply { index: usize, toml: bool, from: Slot, to: Slot },
    /// Copy the result next to the live database.
    Stage { from: Slot },
    /// Move it over the live database.
    Install,
    /// Report, and stop.
    Done(StepResult),
}

pub enum TweakStepV {
    Backup,
    Restore,
    FindTool,
    Apply { index: int, toml: bool, from: Slot, to: Slot },
    Stage { from: Slot },
    Install,
    Done(StepV),
}

impl View for TweakStep {
    type V = TweakStepV;

    open spec fn view(&self) -> TweakStepV {
        match self {
            TweakStep::Backup => TweakStepV::Backup,
            TweakStep::Restore => TweakStepV::Restore,
            TweakStep::FindTool => TweakStepV::FindTool,
            TweakStep::Apply { index, toml, from, to } => TweakStepV::Apply {
                index: *index as int,
                toml: *toml,
                from: *from,
                to: *to,
            },
            TweakStep::Stage { from } => TweakStepV::Stage { from: *from },
            TweakStep::Install => TweakStepV::Install,
            TweakStep::Done(s) => TweakStepV::Done(s@),
        }
    }
}

pub open spec fn tweak_report(ok: bool, detail: Seq<char>) -> TweakStepV {
    TweakStepV::Done(StepV { step: "TweakDB"@, ok, detail })
}

pub open spec fn subcommand(toml: bool) -> Seq<char> {
    if toml {
        "apply-toml"@
    } else {
        "apply-yaml"@
    }
}

/// The tweak that was applied last, where it did not go well.
pub open spec fn apply_failure(
    files: Seq<(Seq<char>, bool)>,
    applied: Seq<RunOutcome>,
) -> Option<Seq<char>> {
    if applied.len() == 0 || applied.len() > files.len() {
        None
    } else {
        let (path, toml) = files[applied.len() - 1];
        match applied.last() {
            RunOutcome::Success => None,
            RunOutcome::Failed { stderr } => Some(
                subcommand(toml) + " falhou em "@ + file_name(path) + ": "@ + first_line(stderr@),
            ),
            RunOutcome::NotRun { error } => Some(
                "erro ao rodar "@ + subcommand(toml) + ": "@ + error@,
            ),
        }
    }
}

/// The next step of a rebuild.
pub open spec fn next_tweak_step(files: Seq<(Seq<char>, bool)>, st: TweakState) -> TweakStepV {
    let n = files.len();
    let k = st.applied@.len();
    if !st.live {
        tweak_report(
            false,
            "r6/cache/tweakdb.bin não existe — verifique a integridade do jogo (Steam › Verificar arquivos)"@,
        )
    } else if !st.backup && st.saved is None {
        TweakStepV::Backup
    } else if !st.backup && st.saved->0 is Err {
        tweak_report(false, "backup do tweakdb.bin falhou: "@ + (st.saved->0)->Err_0@)
    } else if n == 0 {
        match st.restored {
            None => TweakStepV::Restore,
            Some(Ok(_)) => tweak_report(
                true,
                "sem tweaks ativos → tweakdb.bin restaurado ao vanilla"@,
            ),
            Some(Err(e)) => tweak_report(false, "restaurar vanilla falhou: "@ + e@),
        }
    } else if st.tool is None {
        TweakStepV::FindTool
    } else if st.tool == Some(false) {
        tweak_report(false, "tweakdb-tool não encontrado — bundle/instale o runtime"@)
    } else if apply_failure(files, st.applied@) is Some {
        tweak_report(false, apply_failure(files, st.applied@)->0)
    } else if k < n {
        TweakStepV::Apply {
            index: k as int,
            toml: files[k as int].1,
            from: input_slot(k as int),
            to: output_slot(k as int),
        }
    } else {
        match st.staged {
            None => TweakStepV::Stage { from: output_slot(n - 1) },
            Some(Err(e)) => tweak_report(
                false,
                "preparando install do tweakdb.bin falhou: "@ + e@,
            ),
            Some(Ok(_)) => match st.installed {
                None => TweakStepV::Install,
                Some(Err(e)) => tweak_report(false, "instalar tweakdb.bin falhou: "@ + e@),
                Some(Ok(_)) => tweak_report(
                    true,
                    dec(n) + " tweak(s) reconstruídos sobre o vanilla → tweakdb.bin"@,
                ),
            },
        }
    }
}

fn report(ok: bool, detail: &str) -> (r: TweakStep)
    ensures
        r@ == tweak_report(ok, detail@),
{
    TweakStep::Done(StepResult { step: "TweakDB".to_owned(), ok, detail: detail.to_owned() })
}

fn report_error(what: &str, e: &String) -> (r: TweakStep)
    ensures
        r@ == tweak_report(false, what@ + e@),
{
    let mut out: Vec<char> = Vec::new();
    push_lit(&mut out, what);
    push_lit(&mut out, e.as_str());
    proof {
        assert(out@ =~= what@ + e@);
    }
    let s = string_of(out.as_slice());
    report(false, s.as_str())
}

fn sub_of(toml: bool) -> (r: &'static str)
    ensures
        r@ == subcommand(toml),
{
    if toml {
        "apply-toml"
    } else {
        "apply-yaml"
    }
}

fn failure_of(files: &Vec<Tweak>, applied: &Vec<RunOutcome>) -> (r: Option<String>)
    ensures
        match r {
            Some(s) => apply_failure(tweaks_view(files@), applied@) == Some(s@),
            None => apply_failure(tweaks_view(files@), applied@) is None,
        },
{
    let k: usize = applied.len();
    if k == 0 || k > files.len() {
        return None;
    }
    let t = &files[k - 1];
    proof {
        assert(tweaks_view(files@)[k - 1] == (t.path@, t.toml));
    }
    match &applied[k - 1] {
        RunOutcome::Success => None,
        RunOutcome::Failed { stderr } => {
            let v = chars_of(t.path.as_str());
            let mut out: Vec<char> = Vec::new();
            push_lit(&mut out, sub_of(t.toml));
            push_lit(&mut out, " falhou em ");
            push_chars(&mut out, file_name_of(v.as_slice()));
            push_lit(&mut out, ": ");
            push_first_line(&mut out, stderr.as_str());
            proof {
                assert(out@ =~= apply_failure(tweaks_view(files@), applied@)->0);
            }
            Some(string_of(out.as_slice()))
        },
        RunOutcome::NotRun { error } => {
            let mut out: Vec<char> = Vec::new();
            push_lit(&mut out, "erro ao rodar ");
            push_lit(&mut out, sub_of(t.toml));
            push_lit(&mut out, ": ");
            push_lit(&mut out, error.as_str());
            proof {
                assert(out@ =~= apply_failure(tweaks_view(files@), applied@)->0);
            }
            Some(string_of(out.as_slice()))
        },
    }
}

fn slot_at(i: usize) -> (r: Slot)
    ensures
        r == output_slot(i as int),
{
    if i % 2 == 0 {
        Slot::A
    } else {
        Slot::B
    }
}

/// Decides the next step of a rebuild of the tweak database. The rebuild always
/// starts from the vanilla copy, so running it again changes nothing, and a
/// tweak that was taken out is gone.
pub fn apply_all_tweaks(files: &Vec<Tweak>, st: &TweakState) -> (r: TweakStep)
    ensures
        r@ == next_tweak_step(tweaks_view(files@), *st),
{
    let ghost fv = tweaks_view(files@);
    if !st.live {
        return report(
            false,
            "r6/cache/tweakdb.bin não existe — verifique a integridade do jogo (Steam › Verificar arquivos)",
        );
    }
    if !st.backup {
        match &st.saved {
            None => {
                return TweakStep::Backup;
            },
            Some(Err(e)) => {
                return report_error("backup do tweakdb.bin falhou: ", e);
            },
            Some(Ok(_)) => {},
        }
    }
    if files.len() == 0 {
        return match &st.restored {
            None => TweakStep::Restore,
            Some(Ok(_)) => report(true, "sem tweaks ativos → tweakdb.bin restaurado ao vanilla"),
            Some(Err(e)) => report_error("restaurar vanilla falhou: ", e),
        };
    }
    match st.tool {
        None => {
            return TweakStep::FindTool;
        },
        Some(found) => {
            if !found {
                return report(
                    false,
                    "tweakdb-tool não encontrado — bundle/instale o runtime",
                );
            }
        },
    }
    if let Some(m) = failure_of(files, &st.applied) {
        return report(false, m.as_str());
    }
    let k: usize = st.applied.len();
    if k < files.len() {
        proof {
            assert(fv[k as int] == (files@[k as int].path@, files@[k as int].toml));
        }
        let from: Slot = if k == 0 {
            Slot::Vanilla
        } else {
            slot_at(k - 1)
        };
        return TweakStep::Apply { index: k, toml: files[k].toml, from, to: slot_at(k) };
    }
    match &st.staged {
        None => TweakStep::Stage { from: slot_at(files.len() - 1) },
        Some(Err(e)) => report_error("preparando install do tweakdb.bin falhou: ", e),
        Some(Ok(_)) => match &st.installed {
            None => TweakStep::Install,
            Some(Err(e)) => report_error("instalar tweakdb.bin falhou: ", e),
            Some(Ok(_)) => {
                let mut out: Vec<char> = Vec::new();
                push_dec(&mut out, files.len() as u128);
                push_lit(&mut out, " tweak(s) reconstruídos sobre o vanilla → tweakdb.bin");
                proof {
                    assert(out@ =~= dec(fv.len())
                        + " tweak(s) reconstruídos sobre o vanilla → tweakdb.bin"@);
                }
                let s = string_of(out.as_slice());
                report(true, s.as_str())
            },
        },
    }
}

/// The result, where there is one.
pub open spec fn result_list(r: Option<StepResult>) -> Seq<StepResult> {
    match r {
        Some(s) => seq![s],
        None => Seq::empty(),
    }
}

/// All steps of an activation: the scripts where there are any, then the tweaks
/// where there is a directory of them.
pub fn activate_all(redscript: Option<StepResult>, tweaks: Option<StepResult>) -> (r: Vec<
    StepResult,
>)
    ensures
        r@ == result_list(redscript) + result_list(tweaks),
{
    let ghost a = result_list(redscript);
    let ghost b = result_list(tweaks);
    let mut out: Vec<StepResult> = Vec::new();
    if let Some(s) = redscript {
        out.push(s);
    }
    proof {
        assert(out@ =~= a);
    }
    if let Some(s) = tweaks {
        out.push(s);
    }
    proof {
        assert(out@ =~= a + b);
    }
    out
}

// ---- laws ------------------------------------------------------------------

/// The chain of a rebuild starts at the vanilla copy, goes on from what was
/// written last, never writes what it reads, and never writes the vanilla copy.
pub proof fn chain_starts_at_vanilla(files: Seq<(Seq<char>, bool)>, st: TweakState)
    ensures
        match next_tweak_step(files, st) {
            TweakStepV::Apply { index, toml, from, to } => {
                &&& index == st.applied@.len()
                &&& from == (if index == 0 {
                    Slot::Vanilla
                } else {
                    output_slot(index - 1)
                })
                &&& to == output_slot(index)
                &&& from != to
                &&& to != Slot::Vanilla
            },
            TweakStepV::Stage { from } => from == output_slot(files.len() - 1) && from
                != Slot::Vanilla,
            _ => true,
        },
{
}

/// The live database is only replaced once a vanilla copy was kept, the last
/// tweak went well and the result was staged.
pub proof fn install_comes_last(files: Seq<(Seq<char>, bool)>, st: TweakState)
    requires
        next_tweak_step(files, st) is Install,
    ensures
        st.backup || (st.saved is Some && st.saved->0 is Ok),
        files.len() > 0,
        st.applied@.len() >= files.len(),
        st.applied@.len() == files.len() ==> st.applied@.last() is Success,
        st.staged is Some && st.staged->0 is Ok,
{
}

/// Without tweaks the vanilla database is restored, whatever was there.
pub proof fn no_tweaks_means_vanilla(st: TweakState)
    requires
        st.live,
        st.backup,
        st.restored is None,
    ensures
        next_tweak_step(Seq::empty(), st) is Restore,
{
}

} // verus!
