//! What the hooks in the running program decide: whether to install themselves,
//! how a call of the engine is answered, and what the start of the game skips.
use vstd::prelude::*;

use crate::forge::{first_sane, route_of, Routes};
use crate::memory::sane;
use crate::text::{chars_of, find, next_occurrence};

verus! {

// ---- installing ------------------------------------------------------------

/// The first eight bytes of the function that runs the engine's scripts.
pub const EXEC_PROLOGUE: u64 = 0xa901_67fa_a9ba_6ffc;

/// The first eight bytes of the function that binds natives.
pub const BIND_ORCH_PROLOGUE: u64 = 0xa904_57f6_d101_c3ff;

/// The first eight bytes of the function that switches the phases of the start.
pub const PHASE_DISP_PROLOGUE: u64 = 0xa903_7bfd_a902_4ff4;

/// After how many calls the heavy work is done once.
pub const TICK_EVERY: u64 = 2048;

/// Is this the game: does any of the loaded images carry its name?
pub open spec fn names_game(names: Seq<Seq<char>>) -> bool {
    exists|i: int| 0 <= i < names.len() && holds_name(#[trigger] names[i])
}

pub open spec fn holds_name(name: Seq<char>) -> bool {
    next_occurrence(name, "Cyberpunk2077"@, 0) is Some
}

pub fn in_game(images: &Vec<String>) -> (r: bool)
    ensures
        r == names_game(crate::text::strings_view(images@)),
{
    let pattern = chars_of("Cyberpunk2077");
    let ghost names = crate::text::strings_view(images@);
    let mut i: usize = 0;
    while i < images.len()
        invariant
            i <= images@.len(),
            names == crate::text::strings_view(images@),
            pattern@ == "Cyberpunk2077"@,
            forall|k: int| 0 <= k < i ==> !holds_name(#[trigger] names[k]),
        decreases images@.len() - i,
    {
        let name = chars_of(images[i].as_str());
        proof {
            assert(names[i as int] == name@);
        }
        if find(name.as_slice(), pattern.as_slice(), 0).is_some() {
            proof {
                assert(holds_name(names[i as int]));
            }
            return true;
        }
        i += 1;
    }
    false
}

/// What is decided about a hook.
#[derive(Clone, Copy, PartialEq, Eq, Structural, Debug)]
pub enum HookDecision {
    /// It is installed, not wanted, or this is not the game.
    Idle,
    /// The code cannot be read.
    Unreadable,
    /// The code is not what the hook was made for; what was found instead.
    Changed(u64),
    /// The hook may be installed.
    Install,
}

/// The decision on a hook that wants these first eight bytes; `code` is what was
/// read.
pub open spec fn guarded(wanted: bool, code: Option<u64>, prologue: u64) -> HookDecision {
    if !wanted {
        HookDecision::Idle
    } else {
        match code {
            None => HookDecision::Unreadable,
            Some(got) => if got != prologue {
                HookDecision::Changed(got)
            } else {
                HookDecision::Install
            },
        }
    }
}

pub fn guard_hook(wanted: bool, code: Option<u64>, prologue: u64) -> (r: HookDecision)
    ensures
        r == guarded(wanted, code, prologue),
{
    if !wanted {
        return HookDecision::Idle;
    }
    match code {
        None => HookDecision::Unreadable,
        Some(got) => if got != prologue {
            HookDecision::Changed(got)
        } else {
            HookDecision::Install
        },
    }
}

/// Decides whether the runtime installs itself: once, in the game alone, and only
/// over the code it was made for.
pub fn selfboot_if_needed(active: bool, images: &Vec<String>, code: Option<u64>) -> (r:
    HookDecision)
    ensures
        r == guarded(
            !active && names_game(crate::text::strings_view(images@)),
            code,
            EXEC_PROLOGUE,
        ),
{
    if active {
        return HookDecision::Idle;
    }
    let here: bool = in_game(images);
    guard_hook(here, code, EXEC_PROLOGUE)
}

/// Code that is not exactly what was expected is never hooked.
pub proof fn changed_code_is_not_hooked(wanted: bool, code: Option<u64>, prologue: u64)
    requires
        code != Some(prologue),
    ensures
        guarded(wanted, code, prologue) != HookDecision::Install,
{
}

/// The distance between two places in the program, in whole megabytes, and
/// whether a direct branch of four bytes can span it.
pub fn branch_reach(from: u64, to: u64) -> (r: (u64, bool))
    ensures
        r.0 == (if from >= to {
            from - to
        } else {
            to - from
        }) / 0x10_0000,
        r.1 == ((if from >= to {
            from - to
        } else {
            to - from
        }) < 0x800_0000),
{
    let d: u64 = if from >= to {
        from - to
    } else {
        to - from
    };
    (d / 0x10_0000, d < 0x800_0000)
}

// ---- calls of the engine ---------------------------------------------------

/// What the hook on the engine's calls knows: the method whose result is
/// replaced and by what, the function whose context is to be remembered and
/// what was remembered, the natives, and how many calls went on to the engine.
pub struct ExecState {
    pub override_name: u64,
    pub override_value: i64,
    pub wanted: u64,
    pub wanted_ctx: u64,
    pub wanted_ret: u64,
    pub routes: Routes,
    pub calls: u64,
}

/// A call: the function, its context, its return type, where its result goes,
/// and the name of its method where that can be read.
#[derive(Clone, Copy)]
pub struct ExecCall {
    pub func: u64,
    pub ctx: u64,
    pub ret: u64,
    pub out: u64,
    pub method: Option<u64>,
}

/// How a call is answered.
#[derive(Clone, Copy, PartialEq, Eq, Structural, Debug)]
pub enum ExecAnswer {
    /// The value is written as the result, and the engine is not called.
    Override(i64),
    /// The handler answers, and the engine is not called.
    Route(u64),
    /// The call goes on; `tick` says whether the heavy work is due.
    Forward { tick: bool },
}

/// Is the result of this call replaced?
pub open spec fn overridden(st: ExecState, c: ExecCall) -> bool {
    st.override_name != 0 && c.func != 0 && c.method == Some(st.override_name) && c.out != 0
}

/// Is the context of this call the one to be remembered?
pub open spec fn remembers(st: ExecState, c: ExecCall) -> bool {
    st.wanted != 0 && c.func == st.wanted && c.ctx != 0 && st.wanted_ctx == 0
}

/// How a call is answered.
pub open spec fn exec_answer(st: ExecState, c: ExecCall) -> ExecAnswer {
    if overridden(st, c) {
        ExecAnswer::Override(st.override_value)
    } else {
        match route_of(st.routes@, c.func) {
            Some(h) => ExecAnswer::Route(h),
            None => ExecAnswer::Forward { tick: st.calls as int % TICK_EVERY as int == 0 },
        }
    }
}

/// Answers a call of the engine.
pub fn exec_replacement(st: &mut ExecState, c: ExecCall) -> (r: ExecAnswer)
    ensures
        r == exec_answer(*old(st), c),
        final(st).override_name == old(st).override_name,
        final(st).override_value == old(st).override_value,
        final(st).wanted == old(st).wanted,
        final(st).routes@ == old(st).routes@,
        final(st).wanted_ctx == (if !overridden(*old(st), c) && remembers(*old(st), c) {
            c.ctx
        } else {
            old(st).wanted_ctx
        }),
        final(st).wanted_ret == (if !overridden(*old(st), c) && remembers(*old(st), c) {
            c.ret
        } else {
            old(st).wanted_ret
        }),
        final(st).calls == (if r is Forward {
            (old(st).calls + 1) % 0x1_0000_0000_0000_0000
        } else {
            old(st).calls as int
        }),
{
    let named: bool = match c.method {
        Some(m) => m == st.override_name,
        None => false,
    };
    if st.override_name != 0 && c.func != 0 && named && c.out != 0 {
        return ExecAnswer::Override(st.override_value);
    }
    if st.wanted != 0 && c.func == st.wanted && c.ctx != 0 && st.wanted_ctx == 0 {
        st.wanted_ret = c.ret;
        st.wanted_ctx = c.ctx;
    }
    match st.routes.route_native(c.func) {
        Some(h) => ExecAnswer::Route(h),
        None => {
            let n: u64 = st.calls;
            st.calls = if n == u64::MAX {
                0
            } else {
                n + 1
            };
            ExecAnswer::Forward { tick: n % TICK_EVERY == 0 }
        },
    }
}

/// What happens to a call that goes on, once the watchers have seen it.
#[derive(Clone, Copy, PartialEq, Eq, Structural, Debug)]
pub enum ExecEnd {
    /// A watcher answered it.
    Suppressed,
    /// There is no engine to call.
    NoEngine,
    /// The engine is called, and the watchers see the result where they watch.
    Call { watch_after: bool },
}

pub fn exec_end(suppress: bool, engine: u64, watched: u64) -> (r: ExecEnd)
    ensures
        r == (if suppress {
            ExecEnd::Suppressed
        } else if engine == 0 {
            ExecEnd::NoEngine
        } else {
            ExecEnd::Call { watch_after: watched != 0 }
        }),
{
    if suppress {
        ExecEnd::Suppressed
    } else if engine == 0 {
        ExecEnd::NoEngine
    } else {
        ExecEnd::Call { watch_after: watched != 0 }
    }
}

// ---- the player ------------------------------------------------------------

/// Whose context a call has.
#[derive(Clone, Copy, PartialEq, Eq, Structural, Debug)]
pub enum Captured {
    Nothing,
    Transactions,
    Player,
}

/// Has a context to be looked at: one that is there, is not known yet, and can be
/// read?
pub fn capture_wanted(ctx: u64, player: u64, transactions: u64, mapped: bool) -> (r: bool)
    ensures
        r == (ctx != 0 && ctx != player && ctx != transactions && mapped),
{
    ctx != 0 && ctx != player && ctx != transactions && mapped
}

/// Whose context has this class, where the classes of the transactions and of the
/// player are these. Without a class of transactions nothing is known yet.
pub fn capture(class: u64, class_transactions: u64, class_player: u64) -> (r: Captured)
    ensures
        r == (if class_transactions == 0 || class == 0 {
            Captured::Nothing
        } else if class == class_transactions {
            Captured::Transactions
        } else if class_player != 0 && class == class_player {
            Captured::Player
        } else {
            Captured::Nothing
        }),
{
    if class_transactions == 0 || class == 0 {
        Captured::Nothing
    } else if class == class_transactions {
        Captured::Transactions
    } else if class_player != 0 && class == class_player {
        Captured::Player
    } else {
        Captured::Nothing
    }
}

// ---- the last methods ------------------------------------------------------

/// The number of methods that are remembered.
pub const RING_SIZE: usize = 512;

/// The names of the last methods that ran.
pub struct MethodRing {
    pub slots: Vec<u64>,
    pub next: usize,
}

impl MethodRing {
    pub open spec fn wf(&self) -> bool {
        self.slots@.len() == RING_SIZE && self.next < RING_SIZE
    }

    /// The names in the order in which they came, the oldest first; empty places
    /// are zero.
    pub open spec fn order(&self) -> Seq<u64> {
        self.slots@.skip(self.next as int) + self.slots@.take(self.next as int)
    }

    pub fn new() -> (r: MethodRing)
        ensures
            r.wf(),
            r.order() == Seq::new(RING_SIZE as nat, |i: int| 0u64),
    {
        let mut slots: Vec<u64> = Vec::new();
        let mut i: usize = 0;
        while i < RING_SIZE
            invariant
                i <= RING_SIZE,
                slots@ == Seq::new(i as nat, |k: int| 0u64),
            decreases RING_SIZE - i,
        {
            slots.push(0);
            i += 1;
            proof {
                assert(slots@ =~= Seq::new(i as nat, |k: int| 0u64));
            }
        }
        let r = MethodRing { slots, next: 0 };
        proof {
            assert(r.order() =~= Seq::new(RING_SIZE as nat, |i: int| 0u64));
        }
        r
    }

    /// Remembers a method and forgets the oldest one.
    pub fn discovery_ring(&mut self, name: u64)
        requires
            old(self).wf(),
        ensures
            final(self).wf(),
            final(self).order() == old(self).order().skip(1).push(name),
    {
        let ghost before = self.order();
        let i: usize = self.next;
        self.slots.set(i, name);
        self.next = if i + 1 == RING_SIZE {
            0
        } else {
            i + 1
        };
        proof {
            assert(self.order() =~= before.skip(1).push(name));
        }
    }

    /// The methods that are remembered, the oldest first.
    pub fn dump(&self) -> (r: Vec<u64>)
        requires
            self.wf(),
        ensures
            r@ == nonzero(self.order()),
    {
        let mut out: Vec<u64> = Vec::new();
        let mut k: usize = 0;
        let ghost all = self.order();
        while k < RING_SIZE
            invariant
                k <= RING_SIZE,
                self.wf(),
                all == self.order(),
                out@ == nonzero(all.take(k as int)),
            decreases RING_SIZE - k,
        {
            let room: usize = RING_SIZE - self.next;
            let at: usize = if k < room {
                self.next + k
            } else {
                k - room
            };
            let h: u64 = self.slots[at];
            proof {
                assert(all[k as int] == h);
            }
            if h != 0 {
                out.push(h);
            }
            k += 1;
            proof {
                assert(all.take(k as int).drop_last() =~= all.take(k - 1));
                assert(all.take(k as int).last() == h);
            }
        }
        proof {
            assert(all.take(k as int) =~= all);
        }
        out
    }
}

/// The values that are not zero, in order.
pub open spec fn nonzero(s: Seq<u64>) -> Seq<u64>
    decreases s.len(),
{
    if s.len() == 0 {
        Seq::empty()
    } else {
        let front = nonzero(s.drop_last());
        if s.last() == 0 {
            front
        } else {
            front.push(s.last())
        }
    }
}

/// The ring after a history of methods.
pub open spec fn ring_after(start: Seq<u64>, history: Seq<u64>) -> Seq<u64>
    decreases history.len(),
{
    if history.len() == 0 {
        start
    } else {
        ring_after(start, history.drop_last()).skip(1).push(history.last())
    }
}

/// After any history the ring holds its last methods, and nothing older.
pub proof fn ring_holds_the_last_methods(start: Seq<u64>, history: Seq<u64>)
    requires
        start.len() == RING_SIZE,
        history.len() >= RING_SIZE,
    ensures
        ring_after(start, history) == history.skip(history.len() - RING_SIZE),
{
    lemma_ring(start, history);
    assert((start + history).skip(history.len() as int) =~= history.skip(
        history.len() - RING_SIZE,
    ));
}

proof fn lemma_ring(start: Seq<u64>, history: Seq<u64>)
    requires
        start.len() == RING_SIZE,
    ensures
        ring_after(start, history) == (start + history).skip(history.len() as int),
    decreases history.len(),
{
    if history.len() == 0 {
        assert((start + history).skip(0) =~= start);
    } else {
        let h = history.drop_last();
        lemma_ring(start, h);
        assert(ring_after(start, history) =~= (start + history).skip(history.len() as int));
    }
}

// ---- natives on demand -----------------------------------------------------

/// What a request for a function is answered with.
#[derive(Clone, Copy, PartialEq, Eq, Structural, Debug)]
pub enum Provided {
    /// What the engine has.
    Found(u64),
    /// The native of this library is made and handed out.
    Ours,
    /// Nothing.
    Missing,
}

/// Answers a request for a function by name: the engine's own comes first, and
/// the native of this library stands in where the engine has none.
pub fn getfn_hook(engine: u64, found: u64, name: u64, ours: u64) -> (r: Provided)
    ensures
        r == (if engine == 0 {
            Provided::Missing
        } else if found != 0 {
            Provided::Found(found)
        } else if name == ours {
            Provided::Ours
        } else {
            Provided::Missing
        }),
{
    if engine == 0 {
        Provided::Missing
    } else if found != 0 {
        Provided::Found(found)
    } else if name == ours {
        Provided::Ours
    } else {
        Provided::Missing
    }
}

/// What is done for a native that is asked for.
#[derive(Clone, Copy, PartialEq, Eq, Structural, Debug)]
pub enum Provision {
    /// It was made before.
    Cached(u64),
    /// There is no engine to ask, or no function to take the layout from.
    Nothing,
    /// Make it after this function.
    Make(u64),
}

/// Provides the native: the one that was made, else one after the first of the
/// candidates that is a pointer.
pub fn provide_blackwallping(cached: u64, engine: u64, candidates: &Vec<u64>) -> (r: Provision)
    ensures
        r == (if cached != 0 {
            Provision::Cached(cached)
        } else if engine == 0 {
            Provision::Nothing
        } else {
            match first_sane(candidates@, 0) {
                Some(p) => Provision::Make(p),
                None => Provision::Nothing,
            }
        }),
{
    if cached != 0 {
        return Provision::Cached(cached);
    }
    if engine == 0 {
        return Provision::Nothing;
    }
    match pick_sane(candidates) {
        Some(p) => Provision::Make(p),
        None => Provision::Nothing,
    }
}

/// The first of the candidates that is a pointer.
pub fn pick_sane(candidates: &Vec<u64>) -> (r: Option<u64>)
    ensures
        r == first_sane(candidates@, 0),
{
    let mut i: usize = 0;
    while i < candidates.len()
        invariant
            i <= candidates@.len(),
            first_sane(candidates@, 0) == first_sane(candidates@, i as int),
        decreases candidates@.len() - i,
    {
        if sane(candidates[i]) {
            return Some(candidates[i]);
        }
        i += 1;
    }
    None
}

/// Whether the natives are registered before the engine binds them: once, and
/// not while that is under way.
#[derive(Clone, Copy, PartialEq, Eq, Structural)]
pub struct BindState {
    pub done: bool,
    pub running: bool,
}

/// Is a registration started by this call? Marks it as under way.
pub fn bind_orch_hook(st: &mut BindState) -> (r: bool)
    ensures
        r == (!old(st).done && !old(st).running),
        *final(st) == (BindState { done: old(st).done, running: old(st).running || r }),
{
    if st.done || st.running {
        return false;
    }
    st.running = true;
    true
}

/// Marks the registration as done.
pub fn bind_finished(st: &mut BindState)
    ensures
        *final(st) == (BindState { done: true, running: false }),
{
    st.done = true;
    st.running = false;
}

// ---- the start of the game -------------------------------------------------

/// The phase that the game goes on in: the title and the loading of the user are
/// skipped where that is wanted and the phase could be read.
pub fn phase_dispatcher_replacement(phase: Option<i8>, skip: bool) -> (r: Option<i8>)
    ensures
        r == (match phase {
            Some(v) => if skip && (v == 1 || v == 2) {
                Some(3i8)
            } else {
                Some(v)
            },
            None => None,
        }),
{
    match phase {
        Some(v) => if skip && (v == 1 || v == 2) {
            Some(3)
        } else {
            Some(v)
        },
        None => None,
    }
}

/// How many of the films at the start are cut short.
pub const BOOT_OPEN_CAP: u64 = 6;

/// Is a film that was opened cut to one frame? Only those that open before there
/// is a player are counted, and only the first of these are cut, where their
/// header can be written.
pub fn bink_open_replacement(opened: &mut u64, film: u64, player: u64, mapped: bool) -> (r: bool)
    ensures
        r == (film != 0 && player == 0 && *old(opened) < BOOT_OPEN_CAP && mapped),
        *final(opened) == (if film != 0 && player == 0 {
            (*old(opened) + 1) % 0x1_0000_0000_0000_0000
        } else {
            *old(opened) as int
        }),
{
    if film == 0 || player != 0 {
        return false;
    }
    let n: u64 = *opened;
    *opened = if n == u64::MAX {
        0
    } else {
        n + 1
    };
    n < BOOT_OPEN_CAP && mapped
}

} // verus!
