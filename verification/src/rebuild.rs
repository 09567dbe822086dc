//! What a rebuild of the tweak database does to the files: its steps, taken one
//! after another, and the laws of the whole.
use vstd::prelude::*;

use crate::activation::{next_tweak_step, output_slot, Slot, TweakState, TweakStepV};

verus! {

/// The files of a rebuild: the live database, the vanilla copy where there is
/// one, the two that take turns, and the one that is moved over the live one.
pub struct FilesV {
    pub live: Seq<u8>,
    pub backup: Option<Seq<u8>>,
    pub a: Seq<u8>,
    pub b: Seq<u8>,
    pub staged: Seq<u8>,
}

/// The contents of a slot.
pub open spec fn content(w: FilesV, s: Slot) -> Seq<u8> {
    match s {
        Slot::Vanilla => w.backup->0,
        Slot::A => w.a,
        Slot::B => w.b,
    }
}

/// A moment of a rebuild: the files, and what is known.
pub struct MomentV {
    pub files: FilesV,
    pub st: TweakState,
}

/// What the tool makes of a database with a tweak, by the tweak's index.
pub type ToolV = spec_fn(int, Seq<u8>) -> Seq<u8>;

/// The database with the first `k` tweaks applied to it, one after another.
pub open spec fn rebuilt(tool: ToolV, vanilla: Seq<u8>, k: nat) -> Seq<u8>
    decreases k,
{
    if k == 0 {
        vanilla
    } else {
        tool(k - 1, rebuilt(tool, vanilla, (k - 1) as nat))
    }
}

/// The vanilla database: the copy that was kept, or the live one where none was.
pub open spec fn vanilla(w: FilesV) -> Seq<u8> {
    match w.backup {
        Some(b) => b,
        None => w.live,
    }
}

/// Is this the start of a rebuild, with a live database?
pub open spec fn starts(m: MomentV) -> bool {
    &&& m.st.live
    &&& m.st.backup == (m.files.backup is Some)
    &&& m.st.saved is None
    &&& m.st.restored is None
    &&& m.st.tool is None
    &&& m.st.applied@.len() == 0
    &&& m.st.staged is None
    &&& m.st.installed is None
}

pub open spec fn went_well(r: Option<Result<(), String>>) -> bool {
    r is Some && r->0 is Ok
}

/// Does one moment follow from the other by the step that is next? A copy that
/// went well has copied; a move that did not go well has moved nothing; and
/// nothing but its own file is touched by a step.
pub open spec fn follows(
    tweaks: Seq<(Seq<char>, bool)>,
    tool: ToolV,
    m: MomentV,
    next: MomentV,
) -> bool {
    let (w, w2) = (m.files, next.files);
    let (s, s2) = (m.st, next.st);
    let step = next_tweak_step(tweaks, s);
    &&& s2.live == s.live
    &&& s2.backup == s.backup
    &&& if step is Backup {
        s2.saved is Some
    } else {
        s2.saved == s.saved && w2.backup == w.backup
    }
    &&& if step is Restore {
        s2.restored is Some
    } else {
        s2.restored == s.restored
    }
    &&& if step is FindTool {
        s2.tool is Some
    } else {
        s2.tool == s.tool
    }
    &&& if step is Apply {
        s2.applied@.len() == s.applied@.len() + 1 && s2.applied@.drop_last() == s.applied@
    } else {
        s2.applied@ == s.applied@ && w2.a == w.a && w2.b == w.b
    }
    &&& if step is Stage {
        s2.staged is Some
    } else {
        s2.staged == s.staged && w2.staged == w.staged
    }
    &&& if step is Install {
        s2.installed is Some
    } else {
        s2.installed == s.installed
    }
    &&& !(step is Restore) && !(step is Install) ==> w2.live == w.live
    &&& match step {
        TweakStepV::Backup => s2.saved->0 is Ok ==> w2.backup == Some(w.live),
        TweakStepV::Restore => s2.restored->0 is Ok ==> w2.live == w.backup->0,
        TweakStepV::FindTool => true,
        TweakStepV::Apply { index, toml, from, to } => s2.applied@.last() is Success ==> content(
            w2,
            to,
        ) == tool(index, content(w, from)),
        TweakStepV::Stage { from } => s2.staged->0 is Ok ==> w2.staged == content(w, from),
        TweakStepV::Install => w2.live == (if s2.installed->0 is Ok {
            w.staged
        } else {
            w.live
        }),
        TweakStepV::Done(_) => false,
    }
}

/// Is this a whole rebuild: from its start, step by step, to its report?
pub open spec fn is_run(tweaks: Seq<(Seq<char>, bool)>, tool: ToolV, run: Seq<MomentV>) -> bool {
    &&& run.len() > 0
    &&& starts(run[0])
    &&& forall|i: int| 0 <= i < run.len() - 1 ==> #[trigger] leads(tweaks, tool, run, i)
    &&& next_tweak_step(tweaks, run.last().st) is Done
}

pub open spec fn leads(tweaks: Seq<(Seq<char>, bool)>, tool: ToolV, run: Seq<MomentV>, i: int) -> bool {
    follows(tweaks, tool, run[i], run[i + 1])
}

/// Did the rebuild end well?
pub open spec fn ended_well(tweaks: Seq<(Seq<char>, bool)>, run: Seq<MomentV>) -> bool {
    match next_tweak_step(tweaks, run.last().st) {
        TweakStepV::Done(report) => report.ok,
        _ => false,
    }
}

/// What holds at every moment of a rebuild that started with the files `w0`.
spec fn on_the_way(n: nat, tool: ToolV, w0: FilesV, m: MomentV) -> bool {
    let v = vanilla(w0);
    let w = m.files;
    let st = m.st;
    let k = st.applied@.len();
    let kept = st.backup || went_well(st.saved);
    &&& st.live
    &&& st.backup == (w0.backup is Some)
    &&& kept ==> w.backup == Some(v)
    &&& !kept ==> st.restored is None && st.tool is None && k == 0 && st.staged is None
        && st.installed is None
    &&& k > 0 ==> st.tool is Some && st.tool->0
    &&& st.restored is None && !went_well(st.installed) ==> w.live == w0.live
    &&& k <= n
    &&& forall|i: int| 0 <= i < k - 1 ==> (#[trigger] st.applied@[i]) is Success
    &&& k > 0 && st.applied@.last() is Success ==> content(w, output_slot(k - 1)) == rebuilt(
        tool,
        v,
        k,
    )
    &&& st.staged is Some ==> n > 0 && k == n && st.applied@.last() is Success
    &&& went_well(st.staged) ==> w.staged == rebuilt(tool, v, n)
    &&& st.installed is Some ==> went_well(st.staged)
    &&& went_well(st.installed) ==> w.live == rebuilt(tool, v, n)
    &&& st.restored is Some ==> n == 0
    &&& went_well(st.restored) ==> w.live == v
}

proof fn lemma_way(
    tweaks: Seq<(Seq<char>, bool)>,
    tool: ToolV,
    w0: FilesV,
    m: MomentV,
    next: MomentV,
)
    requires
        on_the_way(tweaks.len(), tool, w0, m),
        follows(tweaks, tool, m, next),
    ensures
        on_the_way(tweaks.len(), tool, w0, next),
{
    let n = tweaks.len();
    let k = m.st.applied@.len();
    let step = next_tweak_step(tweaks, m.st);
    let b = next.st.applied@;
    if step is Apply {
        assert(k > 0 ==> m.st.applied@.last() is Success);
        assert forall|i: int| 0 <= i < b.len() - 1 implies (#[trigger] b[i]) is Success by {
            assert(b.drop_last()[i] == b[i]);
        }
        if k > 0 {
            assert(content(m.files, output_slot(k - 1)) == rebuilt(tool, vanilla(w0), k));
        }
        let v = vanilla(w0);
        assert(rebuilt(tool, v, k + 1) == tool(k as int, rebuilt(tool, v, k)));
        assert(b.len() == k + 1);
    }
}

proof fn lemma_whole_way(tweaks: Seq<(Seq<char>, bool)>, tool: ToolV, run: Seq<MomentV>, i: int)
    requires
        is_run(tweaks, tool, run),
        0 <= i < run.len(),
    ensures
        on_the_way(tweaks.len(), tool, run[0].files, run[i]),
    decreases i,
{
    if i > 0 {
        lemma_whole_way(tweaks, tool, run, i - 1);
        assert(leads(tweaks, tool, run, i - 1));
        lemma_way(tweaks, tool, run[0].files, run[i - 1], run[i]);
    }
}

/// A rebuild that ends well leaves the vanilla database with every tweak applied
/// in order, whatever the live one was before; without tweaks that is the vanilla
/// database itself. One that fails with tweaks to apply leaves the live database
/// as it was. The vanilla copy is kept, unless it could not be made.
pub proof fn rebuilds_depend_on_vanilla_alone(
    tweaks: Seq<(Seq<char>, bool)>,
    tool: ToolV,
    run: Seq<MomentV>,
)
    requires
        is_run(tweaks, tool, run),
    ensures
        ({
            let v = vanilla(run[0].files);
            let end = run.last();
            &&& !(end.st.saved is Some && end.st.saved->0 is Err) ==> end.files.backup == Some(v)
            &&& ended_well(tweaks, run) ==> end.files.backup == Some(v) && end.files.live == rebuilt(
                tool,
                v,
                tweaks.len(),
            )
            &&& !ended_well(tweaks, run) && tweaks.len() > 0 ==> end.files.live
                == run[0].files.live
        }),
{
    lemma_whole_way(tweaks, tool, run, run.len() - 1);
}

/// A second rebuild with the same tweaks leaves the live database as it is.
pub proof fn rebuilding_again_changes_nothing(
    tweaks: Seq<(Seq<char>, bool)>,
    tool: ToolV,
    first: Seq<MomentV>,
    second: Seq<MomentV>,
)
    requires
        is_run(tweaks, tool, first),
        is_run(tweaks, tool, second),
        ended_well(tweaks, first),
        second[0].files == first.last().files,
        ended_well(tweaks, second) || tweaks.len() > 0,
    ensures
        second.last().files.live == first.last().files.live,
{
    rebuilds_depend_on_vanilla_alone(tweaks, tool, first);
    rebuilds_depend_on_vanilla_alone(tweaks, tool, second);
}

/// A tweak that was taken out is gone: after a rebuild without it the live
/// database is the same as if it had never been there.
pub proof fn removed_tweaks_leave_nothing(
    with: Seq<(Seq<char>, bool)>,
    with_tool: ToolV,
    without: Seq<(Seq<char>, bool)>,
    tool: ToolV,
    first: Seq<MomentV>,
    second: Seq<MomentV>,
)
    requires
        is_run(with, with_tool, first),
        is_run(without, tool, second),
        first.last().st.saved is Some ==> first.last().st.saved->0 is Ok,
        second[0].files == first.last().files,
        ended_well(without, second),
    ensures
        second.last().files.live == rebuilt(tool, vanilla(first[0].files), without.len()),
{
    rebuilds_depend_on_vanilla_alone(with, with_tool, first);
    rebuilds_depend_on_vanilla_alone(without, tool, second);
}

} // verus!
