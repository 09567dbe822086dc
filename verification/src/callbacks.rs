//! The callback system: which functions of which objects are called on which
//! events, the handlers that steer a callback, the services, and the values that
//! event objects carry.
use vstd::prelude::*;

use crate::memory::{is_sane, sane};
use crate::rtti::{cname, cname_of};

verus! {

// ---- callbacks -------------------------------------------------------------

/// A callback: on the event, the function of the target is called.
#[derive(Clone, Copy, PartialEq, Eq, Structural, Debug)]
pub struct Callback {
    pub event: u64,
    pub target: u64,
    pub function: u64,
}

/// Is the callback one for this event and target, and for this function where one
/// is given?
pub open spec fn concerns(c: Callback, event: u64, target: u64, function: Option<u64>) -> bool {
    c.event == event && c.target == target && (function is None || function == Some(c.function))
}

/// The function that a removal is limited to: zero stands for none.
pub open spec fn limited_to(function: u64) -> Option<u64> {
    if function == 0 {
        None
    } else {
        Some(function)
    }
}

/// The callbacks that are not for this event, target and function, in order.
pub open spec fn without(
    list: Seq<Callback>,
    event: u64,
    target: u64,
    function: Option<u64>,
) -> Seq<Callback>
    decreases list.len(),
{
    if list.len() == 0 {
        Seq::empty()
    } else {
        let front = without(list.drop_last(), event, target, function);
        if concerns(list.last(), event, target, function) {
            front
        } else {
            front.push(list.last())
        }
    }
}

/// The targets and functions of an event whose target is a pointer, in the order
/// of registration.
pub open spec fn listeners(list: Seq<Callback>, event: u64) -> Seq<(u64, u64)>
    decreases list.len(),
{
    if list.len() == 0 {
        Seq::empty()
    } else {
        let front = listeners(list.drop_last(), event);
        let c = list.last();
        if c.event == event && is_sane(c.target as int) {
            front.push((c.target, c.function))
        } else {
            front
        }
    }
}

pub struct Callbacks {
    pub list: Vec<Callback>,
}

impl View for Callbacks {
    type V = Seq<Callback>;

    open spec fn view(&self) -> Seq<Callback> {
        self.list@
    }
}

impl Callbacks {
    pub fn new() -> (r: Callbacks)
        ensures
            r@ == Seq::<Callback>::empty(),
    {
        Callbacks { list: Vec::new() }
    }

    /// Registers a callback. An event, a target or a function of zero is refused.
    pub fn register_callback(&mut self, event: u64, target: u64, function: u64) -> (r: bool)
        ensures
            r == (event != 0 && target != 0 && function != 0),
            r ==> final(self)@ == old(self)@.push(Callback { event, target, function }),
            !r ==> final(self)@ == old(self)@,
    {
        if event == 0 || target == 0 || function == 0 {
            return false;
        }
        self.list.push(Callback { event, target, function });
        true
    }

    fn remove(&mut self, event: u64, target: u64, function: Option<u64>) -> (r: usize)
        ensures
            final(self)@ == without(old(self)@, event, target, function),
            r == old(self)@.len() - final(self)@.len(),
    {
        let mut kept: Vec<Callback> = Vec::new();
        let mut i: usize = 0;
        let n: usize = self.list.len();
        let ghost all = self.list@;
        while i < n
            invariant
                i <= n,
                n == all.len(),
                self.list@ == all,
                kept@ == without(all.take(i as int), event, target, function),
                kept@.len() <= i,
            decreases n - i,
        {
            let c: Callback = self.list[i];
            let named: bool = match function {
                Some(f) => c.function == f,
                None => true,
            };
            if !(c.event == event && c.target == target && named) {
                kept.push(c);
            }
            i += 1;
            proof {
                assert(all.take(i as int).drop_last() =~= all.take(i - 1));
                assert(all.take(i as int).last() == c);
            }
        }
        proof {
            assert(all.take(n as int) =~= all);
        }
        let left: usize = kept.len();
        self.list = kept;
        n - left
    }

    /// Removes the callbacks for an event and a target, all of them where the
    /// function is zero. Returns how many there were.
    pub fn unregister_callback(&mut self, event: u64, target: u64, function: u64) -> (r: usize)
        ensures
            final(self)@ == without(old(self)@, event, target, limited_to(function)),
            r == old(self)@.len() - final(self)@.len(),
    {
        let only: Option<u64> = if function == 0 {
            None
        } else {
            Some(function)
        };
        self.remove(event, target, only)
    }

    /// The targets and functions that an event is dispatched to.
    pub fn fire_event_args_by_hash(&self, event: u64) -> (r: Vec<(u64, u64)>)
        ensures
            r@ == listeners(self@, event),
    {
        let mut out: Vec<(u64, u64)> = Vec::new();
        let mut i: usize = 0;
        let n: usize = self.list.len();
        while i < n
            invariant
                i <= n,
                n == self.list@.len(),
                out@ == listeners(self@.take(i as int), event),
            decreases n - i,
        {
            let c: Callback = self.list[i];
            if c.event == event && sane(c.target) {
                out.push((c.target, c.function));
            }
            i += 1;
            proof {
                assert(self@.take(i as int).drop_last() =~= self@.take(i - 1));
                assert(self@.take(i as int).last() == c);
            }
        }
        proof {
            assert(self@.take(n as int) =~= self@);
        }
        out
    }

    /// The same for an event that is known by its name.
    pub fn fire_event_args(&self, event_name: &str) -> (r: Vec<(u64, u64)>)
        ensures
            r@ == listeners(self@, cname_of(event_name@)),
    {
        self.fire_event_args_by_hash(cname(event_name))
    }

    /// The same for an event that carries nothing.
    pub fn fire_event(&self, event_name: &str) -> (r: Vec<(u64, u64)>)
        ensures
            r@ == listeners(self@, cname_of(event_name@)),
    {
        self.fire_event_args(event_name)
    }
}

/// How many of the calls of a dispatch went through.
pub open spec fn through(replies: Seq<bool>) -> nat {
    replies.filter(|ok: bool| ok).len()
}

/// How many callbacks an event reached, from whether each call went through.
pub fn dispatched(replies: &Vec<bool>) -> (r: usize)
    ensures
        r == through(replies@),
{
    let mut n: usize = 0;
    let mut i: usize = 0;
    let len: usize = replies.len();
    proof {
        reveal(Seq::filter);
    }
    while i < len
        invariant
            i <= len,
            len == replies@.len(),
            n <= i,
            n == through(replies@.take(i as int)),
        decreases len - i,
    {
        if replies[i] {
            n += 1;
        }
        i += 1;
        proof {
            reveal(Seq::filter);
            assert(replies@.take(i as int).drop_last() =~= replies@.take(i - 1));
        }
    }
    proof {
        assert(replies@.take(len as int) =~= replies@);
    }
    n
}

/// Is a registration accepted: are the event, the target and the function named?
pub fn accepts(event: u64, target: u64, function: u64) -> (r: bool)
    ensures
        r == (event != 0 && target != 0 && function != 0),
{
    event != 0 && target != 0 && function != 0
}

/// Registers a callback with a handler that steers it. `made` is the object that
/// the engine made for the handler, which it is asked for where the registration
/// is accepted; zero where it made none. The callback is registered without a
/// handler then. Returns the handler's object.
pub fn register_handled(
    callbacks: &mut Callbacks,
    handlers: &mut Handlers,
    event: u64,
    target: u64,
    function: u64,
    made: u64,
) -> (r: u64)
    ensures
        ({
            let accepted = event != 0 && target != 0 && function != 0;
            let callback = Callback { event, target, function };
            &&& r == (if accepted {
                made
            } else {
                0
            })
            &&& final(callbacks)@ == (if accepted {
                old(callbacks)@.push(callback)
            } else {
                old(callbacks)@
            })
            &&& final(handlers)@ == (if accepted && made != 0 {
                old(handlers)@.push((made, new_handler(callback)))
            } else {
                old(handlers)@
            })
        }),
{
    if !callbacks.register_callback(event, target, function) {
        return 0;
    }
    if made != 0 {
        handlers.track(made, Callback { event, target, function });
    }
    made
}

/// Every handler that is tracked stands for a callback that was registered, and
/// that stays so whatever is registered.
pub proof fn handlers_stand_for_callbacks(
    callbacks: Seq<Callback>,
    handlers: Seq<(u64, HandlerV)>,
    callback: Callback,
    made: u64,
)
    requires
        backed(callbacks, handlers),
    ensures
        backed(callbacks.push(callback), handlers),
        backed(callbacks.push(callback), handlers.push((made, new_handler(callback)))),
{
    let more = callbacks.push(callback);
    let all = handlers.push((made, new_handler(callback)));
    assert(more.last() == callback);
    assert forall|i: int| 0 <= i < all.len() && (#[trigger] all[i]).1.registered implies more.contains(
        all[i].1.callback,
    ) by {
        if i < handlers.len() {
            assert(handlers[i].1.registered);
            let k = choose|k: int|
                0 <= k < callbacks.len() && callbacks[k] == handlers[i].1.callback;
            assert(more[k] == callbacks[k]);
        } else {
            assert(more[more.len() - 1] == callback);
        }
    }
    assert forall|i: int| 0 <= i < handlers.len() && (
    #[trigger] handlers[i]).1.registered implies more.contains(handlers[i].1.callback) by {
        assert(all[i] == handlers[i]);
    }
}

/// Is every handler that counts as registered backed by its callback?
pub open spec fn backed(callbacks: Seq<Callback>, handlers: Seq<(u64, HandlerV)>) -> bool {
    forall|i: int|
        0 <= i < handlers.len() && (#[trigger] handlers[i]).1.registered ==> callbacks.contains(
            handlers[i].1.callback,
        )
}

/// What was removed is not called any more, and everything else is called as
/// before.
pub proof fn removed_callbacks_do_not_fire(
    list: Seq<Callback>,
    event: u64,
    target: u64,
    function: u64,
    other: u64,
)
    ensures
        !listeners(without(list, event, target, Some(function)), event).contains((target, function)),
        other != event ==> listeners(without(list, event, target, Some(function)), other) == listeners(
            list,
            other,
        ),
    decreases list.len(),
{
    if list.len() > 0 {
        let rest = list.drop_last();
        let c = list.last();
        removed_callbacks_do_not_fire(rest, event, target, function, other);
        let front = without(rest, event, target, Some(function));
        if !concerns(c, event, target, Some(function)) {
            let whole = front.push(c);
            assert(whole.drop_last() =~= front);
            assert(whole.last() == c);
            let f = listeners(front, event);
            let w = listeners(whole, event);
            assert forall|i: int| 0 <= i < w.len() implies w[i] != (target, function) by {
                if i < f.len() {
                    assert(f.contains(f[i]));
                    assert(w[i] == f[i]);
                }
            }
        }
    }
}

/// A registered callback is called, after those that were registered before it.
pub proof fn registered_callbacks_fire(list: Seq<Callback>, c: Callback)
    requires
        is_sane(c.target as int),
    ensures
        listeners(list.push(c), c.event) == listeners(list, c.event).push((c.target, c.function)),
{
    assert(list.push(c).drop_last() =~= list);
}

// ---- handlers --------------------------------------------------------------

/// What a handler steers: the targets it is limited to, how it runs, and the
/// callback it stands for.
pub struct HandlerState {
    pub targets: Vec<u64>,
    pub run_mode: i32,
    pub lifetime: i32,
    pub registered: bool,
    pub callback: Callback,
}

pub struct HandlerV {
    pub targets: Seq<u64>,
    pub run_mode: i32,
    pub lifetime: i32,
    pub registered: bool,
    pub callback: Callback,
}

impl View for HandlerState {
    type V = HandlerV;

    open spec fn view(&self) -> HandlerV {
        HandlerV {
            targets: self.targets@,
            run_mode: self.run_mode,
            lifetime: self.lifetime,
            registered: self.registered,
            callback: self.callback,
        }
    }
}

/// A new handler of a callback: limited to no targets.
pub open spec fn new_handler(callback: Callback) -> HandlerV {
    HandlerV { targets: Seq::empty(), run_mode: 0, lifetime: 0, registered: true, callback }
}

/// The handlers by the address of their object.
pub struct Handlers {
    pub list: Vec<(u64, HandlerState)>,
}

pub open spec fn handlers_view(v: Seq<(u64, HandlerState)>) -> Seq<(u64, HandlerV)> {
    v.map_values(|e: (u64, HandlerState)| (e.0, e.1@))
}

impl View for Handlers {
    type V = Seq<(u64, HandlerV)>;

    open spec fn view(&self) -> Seq<(u64, HandlerV)> {
        handlers_view(self.list@)
    }
}

/// The first entry for the object from `i` on.
pub open spec fn handler_from(list: Seq<(u64, HandlerV)>, obj: u64, i: int) -> Option<int>
    decreases list.len() - i,
{
    if i >= list.len() {
        None
    } else if list[i].0 == obj {
        Some(i)
    } else {
        handler_from(list, obj, i + 1)
    }
}

/// The entry for an object. No object lies at zero.
pub open spec fn handler_index(list: Seq<(u64, HandlerV)>, obj: u64) -> Option<int> {
    if obj == 0 {
        None
    } else {
        handler_from(list, obj, 0)
    }
}

/// The handlers with the one of the object replaced, where there is one.
pub open spec fn with_handler(list: Seq<(u64, HandlerV)>, obj: u64, h: HandlerV) -> Seq<
    (u64, HandlerV),
> {
    match handler_index(list, obj) {
        Some(i) => list.update(i, (obj, h)),
        None => list,
    }
}

/// The state of an object's handler.
pub open spec fn handler_of(list: Seq<(u64, HandlerV)>, obj: u64) -> Option<HandlerV> {
    match handler_index(list, obj) {
        Some(i) => Some(list[i].1),
        None => None,
    }
}

/// The targets without one of them.
pub open spec fn targets_without(targets: Seq<u64>, t: u64) -> Seq<u64>
    decreases targets.len(),
{
    if targets.len() == 0 {
        Seq::empty()
    } else {
        let front = targets_without(targets.drop_last(), t);
        if targets.last() == t {
            front
        } else {
            front.push(targets.last())
        }
    }
}

/// The targets with one more, unless it is there.
pub open spec fn targets_with(targets: Seq<u64>, t: u64) -> Seq<u64> {
    if targets.contains(t) {
        targets
    } else {
        targets.push(t)
    }
}

proof fn lemma_handler_from(list: Seq<(u64, HandlerV)>, obj: u64, i: int)
    requires
        0 <= i,
    ensures
        match handler_from(list, obj, i) {
            Some(k) => i <= k < list.len() && list[k].0 == obj,
            None => true,
        },
    decreases list.len() - i,
{
    if i < list.len() && list[i].0 != obj {
        lemma_handler_from(list, obj, i + 1);
    }
}

fn holds_target(targets: &Vec<u64>, t: u64) -> (r: bool)
    ensures
        r == targets@.contains(t),
{
    let mut i: usize = 0;
    while i < targets.len()
        invariant
            i <= targets@.len(),
            forall|k: int| 0 <= k < i ==> targets@[k] != t,
        decreases targets@.len() - i,
    {
        if targets[i] == t {
            proof {
                assert(targets@[i as int] == t);
            }
            return true;
        }
        i += 1;
    }
    false
}

fn drop_target(targets: &Vec<u64>, t: u64) -> (r: Vec<u64>)
    ensures
        r@ == targets_without(targets@, t),
{
    let mut out: Vec<u64> = Vec::new();
    let mut i: usize = 0;
    while i < targets.len()
        invariant
            i <= targets@.len(),
            out@ == targets_without(targets@.take(i as int), t),
        decreases targets@.len() - i,
    {
        let x: u64 = targets[i];
        if x != t {
            out.push(x);
        }
        i += 1;
        proof {
            assert(targets@.take(i as int).drop_last() =~= targets@.take(i - 1));
            assert(targets@.take(i as int).last() == x);
        }
    }
    proof {
        assert(targets@.take(i as int) =~= targets@);
    }
    out
}

impl Handlers {
    pub fn new() -> (r: Handlers)
        ensures
            r@ == Seq::<(u64, HandlerV)>::empty(),
    {
        let r = Handlers { list: Vec::new() };
        proof {
            assert(r@ =~= Seq::<(u64, HandlerV)>::empty());
        }
        r
    }

    fn find(&self, obj: u64) -> (r: Option<usize>)
        ensures
            match r {
                Some(i) => handler_index(self@, obj) == Some(i as int) && i < self.list@.len()
                    && self.list@[i as int].0 == obj,
                None => handler_index(self@, obj) is None,
            },
    {
        if obj == 0 {
            return None;
        }
        let mut i: usize = 0;
        while i < self.list.len()
            invariant
                i <= self.list@.len(),
                obj != 0,
                handler_from(self@, obj, 0) == handler_from(self@, obj, i as int),
            decreases self.list@.len() - i,
        {
            if self.list[i].0 == obj {
                return Some(i);
            }
            i += 1;
        }
        None
    }

    /// Replaces the state at a position.
    fn put(&mut self, i: usize, obj: u64, st: HandlerState)
        requires
            i < old(self).list@.len(),
            handler_index(old(self)@, obj) == Some(i as int),
        ensures
            final(self)@ == with_handler(old(self)@, obj, st@),
    {
        let ghost before = self.list@;
        self.list.set(i, (obj, st));
        proof {
            assert(self@ =~= handlers_view(before).update(i as int, (obj, st@)));
        }
    }

    /// Adds the state of a new handler.
    pub fn track(&mut self, obj: u64, callback: Callback)
        ensures
            final(self)@ == old(self)@.push((obj, new_handler(callback))),
    {
        let ghost before = self.list@;
        let st = HandlerState {
            targets: Vec::new(),
            run_mode: 0,
            lifetime: 0,
            registered: true,
            callback,
        };
        let ghost sv = st@;
        self.list.push((obj, st));
        proof {
            assert(self@ =~= handlers_view(before).push((obj, sv)));
        }
    }

    /// Limits the handler of an object to one more target. Says whether there is
    /// such a handler. A target of zero changes nothing.
    pub fn add_target(&mut self, obj: u64, target: u64) -> (r: bool)
        ensures
            r == (target != 0 && handler_index(old(self)@, obj) is Some),
            final(self)@ == (match handler_of(old(self)@, obj) {
                Some(h) => if target != 0 {
                    with_handler(
                        old(self)@,
                        obj,
                        HandlerV { targets: targets_with(h.targets, target), ..h },
                    )
                } else {
                    old(self)@
                },
                None => old(self)@,
            }),
    {
        if target == 0 {
            return false;
        }
        match self.find(obj) {
            None => false,
            Some(i) => {
                let st = &self.list[i].1;
                let mut targets = copy_targets(&st.targets);
                if !holds_target(&targets, target) {
                    targets.push(target);
                }
                let next = HandlerState {
                    targets,
                    run_mode: st.run_mode,
                    lifetime: st.lifetime,
                    registered: st.registered,
                    callback: st.callback,
                };
                self.put(i, obj, next);
                true
            },
        }
    }

    /// Takes a target out of the handler of an object.
    pub fn remove_target(&mut self, obj: u64, target: u64)
        ensures
            final(self)@ == (match handler_of(old(self)@, obj) {
                Some(h) => if target != 0 {
                    with_handler(
                        old(self)@,
                        obj,
                        HandlerV { targets: targets_without(h.targets, target), ..h },
                    )
                } else {
                    old(self)@
                },
                None => old(self)@,
            }),
    {
        if target == 0 {
            return;
        }
        match self.find(obj) {
            None => {},
            Some(i) => {
                let st = &self.list[i].1;
                let next = HandlerState {
                    targets: drop_target(&st.targets, target),
                    run_mode: st.run_mode,
                    lifetime: st.lifetime,
                    registered: st.registered,
                    callback: st.callback,
                };
                self.put(i, obj, next);
            },
        }
    }

    pub fn set_run_mode(&mut self, obj: u64, mode: i32)
        ensures
            final(self)@ == (match handler_of(old(self)@, obj) {
                Some(h) => with_handler(old(self)@, obj, HandlerV { run_mode: mode, ..h }),
                None => old(self)@,
            }),
    {
        match self.find(obj) {
            None => {},
            Some(i) => {
                let st = &self.list[i].1;
                let next = HandlerState {
                    targets: copy_targets(&st.targets),
                    run_mode: mode,
                    lifetime: st.lifetime,
                    registered: st.registered,
                    callback: st.callback,
                };
                self.put(i, obj, next);
            },
        }
    }

    pub fn set_lifetime(&mut self, obj: u64, lifetime: i32)
        ensures
            final(self)@ == (match handler_of(old(self)@, obj) {
                Some(h) => with_handler(old(self)@, obj, HandlerV { lifetime, ..h }),
                None => old(self)@,
            }),
    {
        match self.find(obj) {
            None => {},
            Some(i) => {
                let st = &self.list[i].1;
                let next = HandlerState {
                    targets: copy_targets(&st.targets),
                    run_mode: st.run_mode,
                    lifetime,
                    registered: st.registered,
                    callback: st.callback,
                };
                self.put(i, obj, next);
            },
        }
    }

    pub fn is_registered(&self, obj: u64) -> (r: bool)
        ensures
            r == (match handler_of(self@, obj) {
                Some(h) => h.registered,
                None => false,
            }),
    {
        match self.find(obj) {
            None => false,
            Some(i) => self.list[i].1.registered,
        }
    }

    /// Does the handler of an object accept the target? One without targets
    /// accepts every one.
    pub fn has_target(&self, obj: u64, target: u64) -> (r: bool)
        ensures
            r == (match handler_of(self@, obj) {
                Some(h) => h.targets.len() == 0 || h.targets.contains(target),
                None => false,
            }),
    {
        match self.find(obj) {
            None => false,
            Some(i) => {
                let st = &self.list[i].1;
                st.targets.len() == 0 || holds_target(&st.targets, target)
            },
        }
    }

    /// Ends the handler of an object and removes its callback. Returns how many
    /// callbacks were removed.
    pub fn unregister(&mut self, obj: u64, callbacks: &mut Callbacks) -> (r: usize)
        ensures
            match handler_of(old(self)@, obj) {
                Some(h) => {
                    &&& final(self)@ == with_handler(
                        old(self)@,
                        obj,
                        HandlerV { registered: false, ..h },
                    )
                    &&& final(callbacks)@ == without(
                        old(callbacks)@,
                        h.callback.event,
                        h.callback.target,
                        Some(h.callback.function),
                    )
                    &&& r == old(callbacks)@.len() - final(callbacks)@.len()
                },
                None => final(self)@ == old(self)@ && final(callbacks)@ == old(callbacks)@ && r
                    == 0,
            },
    {
        match self.find(obj) {
            None => 0,
            Some(i) => {
                let st = &self.list[i].1;
                let c: Callback = st.callback;
                let next = HandlerState {
                    targets: copy_targets(&st.targets),
                    run_mode: st.run_mode,
                    lifetime: st.lifetime,
                    registered: false,
                    callback: c,
                };
                self.put(i, obj, next);
                callbacks.remove(c.event, c.target, Some(c.function))
            },
        }
    }
}

fn copy_targets(targets: &Vec<u64>) -> (r: Vec<u64>)
    ensures
        r@ == targets@,
{
    let mut out: Vec<u64> = Vec::new();
    let mut i: usize = 0;
    while i < targets.len()
        invariant
            i <= targets@.len(),
            out@ == targets@.take(i as int),
        decreases targets@.len() - i,
    {
        out.push(targets[i]);
        i += 1;
        proof {
            assert(out@ =~= targets@.take(i as int));
        }
    }
    proof {
        assert(targets@.take(i as int) =~= targets@);
    }
    out
}

/// What a handler was set to is what it is, and the other handlers stay as they
/// are.
pub proof fn handlers_are_separate(list: Seq<(u64, HandlerV)>, obj: u64, h: HandlerV, other: u64)
    ensures
        handler_of(list, obj) is Some ==> handler_of(with_handler(list, obj, h), obj) == Some(h),
        other != obj ==> handler_of(with_handler(list, obj, h), other) == handler_of(list, other),
{
    lemma_handler_from(list, obj, 0);
    if handler_index(list, obj) is Some {
        let k = handler_index(list, obj)->0;
        let l2 = list.update(k, (obj, h));
        lemma_same_keys(list, l2, obj, 0);
        lemma_same_keys(list, l2, other, 0);
        lemma_handler_from(list, other, 0);
    }
}

proof fn lemma_same_keys(a: Seq<(u64, HandlerV)>, b: Seq<(u64, HandlerV)>, obj: u64, i: int)
    requires
        0 <= i,
        a.len() == b.len(),
        forall|k: int| 0 <= k < a.len() ==> a[k].0 == b[k].0,
    ensures
        handler_from(a, obj, i) == handler_from(b, obj, i),
    decreases a.len() - i,
{
    if i < a.len() && a[i].0 != obj {
        lemma_same_keys(a, b, obj, i + 1);
    }
}

/// A target that was added is accepted; one that was not there before is gone
/// again once it is removed.
pub proof fn added_targets_can_be_removed(targets: Seq<u64>, t: u64)
    ensures
        targets_with(targets, t).contains(t),
        !targets_without(targets, t).contains(t),
        !targets.contains(t) ==> targets_without(targets_with(targets, t), t) == targets,
    decreases targets.len(),
{
    if !targets.contains(t) {
        let w = targets.push(t);
        assert(w[targets.len() as int] == t);
        assert(w.drop_last() =~= targets);
        lemma_without_absent(targets, t);
    }
    if targets.len() > 0 {
        added_targets_can_be_removed(targets.drop_last(), t);
        let front = targets_without(targets.drop_last(), t);
        let whole = targets_without(targets, t);
        assert forall|i: int| 0 <= i < whole.len() implies whole[i] != t by {
            if i < front.len() {
                assert(front.contains(front[i]));
            }
        }
    }
}

proof fn lemma_without_absent(targets: Seq<u64>, t: u64)
    requires
        !targets.contains(t),
    ensures
        targets_without(targets, t) == targets,
    decreases targets.len(),
{
    if targets.len() > 0 {
        let rest = targets.drop_last();
        assert forall|i: int| 0 <= i < rest.len() implies rest[i] != t by {
            assert(targets.contains(targets[i]));
        }
        lemma_without_absent(rest, t);
        assert(targets.contains(targets[targets.len() - 1]));
        assert(rest.push(targets.last()) =~= targets);
    } else {
        assert(targets_without(targets, t) =~= targets);
    }
}

// ---- values by object ------------------------------------------------------

/// Values by the address of their object; the first entry of an object counts.
pub struct ByObject<T> {
    pub list: Vec<(u64, T)>,
}

/// The value of the first entry for the object from `i` on.
pub open spec fn value_from<T>(list: Seq<(u64, T)>, obj: u64, i: int) -> Option<T>
    decreases list.len() - i,
{
    if i >= list.len() {
        None
    } else if list[i].0 == obj {
        Some(list[i].1)
    } else {
        value_from(list, obj, i + 1)
    }
}

impl<T: Copy> ByObject<T> {
    pub fn new() -> (r: ByObject<T>)
        ensures
            r.list@ == Seq::<(u64, T)>::empty(),
    {
        ByObject { list: Vec::new() }
    }

    pub fn put(&mut self, obj: u64, v: T)
        ensures
            final(self).list@ == old(self).list@.push((obj, v)),
    {
        self.list.push((obj, v));
    }

    pub fn get(&self, obj: u64) -> (r: Option<T>)
        ensures
            r == value_from(self.list@, obj, 0),
    {
        let mut i: usize = 0;
        while i < self.list.len()
            invariant
                i <= self.list@.len(),
                value_from(self.list@, obj, 0) == value_from(self.list@, obj, i as int),
            decreases self.list@.len() - i,
        {
            let e: (u64, T) = self.list[i];
            if e.0 == obj {
                return Some(e.1);
            }
            i += 1;
        }
        None
    }
}

/// The value of a new object is read back, and the values of the others stay.
pub proof fn objects_keep_their_values<T>(list: Seq<(u64, T)>, obj: u64, v: T, other: u64)
    ensures
        value_from(list, obj, 0) is None ==> value_from(list.push((obj, v)), obj, 0) == Some(v),
        other != obj ==> value_from(list.push((obj, v)), other, 0) == value_from(list, other, 0),
        value_from(list, other, 0) is Some ==> value_from(list.push((obj, v)), other, 0)
            == value_from(list, other, 0),
{
    lemma_value_push(list, obj, v, obj, 0);
    lemma_value_push(list, obj, v, other, 0);
}

proof fn lemma_value_push<T>(list: Seq<(u64, T)>, obj: u64, v: T, q: u64, i: int)
    requires
        0 <= i <= list.len(),
    ensures
        value_from(list.push((obj, v)), q, i) == (match value_from(list, q, i) {
            Some(x) => Some(x),
            None => if q == obj {
                Some(v)
            } else {
                None
            },
        }),
    decreases list.len() - i,
{
    let l2 = list.push((obj, v));
    if i < list.len() {
        lemma_value_push(list, obj, v, q, i + 1);
        assert(l2[i] == list[i]);
    } else {
        assert(value_from(l2, q, i + 1) is None);
    }
}

/// What a key event carries.
#[derive(Clone, Copy, PartialEq, Eq, Structural, Debug)]
pub struct KeyState {
    pub action: i32,
    pub key: i32,
    pub shift: bool,
    pub control: bool,
    pub alt: bool,
}

/// What an unknown key event carries: nothing is pressed.
pub open spec fn no_key() -> KeyState {
    KeyState { action: 0, key: 0, shift: false, control: false, alt: false }
}

/// What a key event carries.
pub fn key_state(states: &ByObject<KeyState>, obj: u64) -> (r: KeyState)
    ensures
        r == (match value_from(states.list@, obj, 0) {
            Some(s) => s,
            None => no_key(),
        }),
{
    match states.get(obj) {
        Some(s) => s,
        None => KeyState { action: 0, key: 0, shift: false, control: false, alt: false },
    }
}

/// What a session event carries: whether the game is before its start, and
/// whether a save was restored.
#[derive(Clone, Copy, PartialEq, Eq, Structural, Debug)]
pub struct SessionState {
    pub pregame: bool,
    pub restored: bool,
}

pub fn session_state(states: &ByObject<SessionState>, obj: u64) -> (r: SessionState)
    ensures
        r == (match value_from(states.list@, obj, 0) {
            Some(s) => s,
            None => (SessionState { pregame: false, restored: false }),
        }),
{
    match states.get(obj) {
        Some(s) => s,
        None => SessionState { pregame: false, restored: false },
    }
}

/// The address or hash that an event carries; zero where it is unknown.
pub fn carried(states: &ByObject<u64>, obj: u64) -> (r: u64)
    ensures
        r == (match value_from(states.list@, obj, 0) {
            Some(v) => v,
            None => 0,
        }),
{
    match states.get(obj) {
        Some(v) => v,
        None => 0,
    }
}

/// Notes what an event object carries, and hands the object out; nothing where
/// the engine made no object.
fn noted<T: Copy>(states: &mut ByObject<T>, obj: u64, v: T) -> (r: Option<u64>)
    ensures
        r == (if obj == 0 {
            None::<u64>
        } else {
            Some(obj)
        }),
        final(states).list@ == (if obj == 0 {
            old(states).list@
        } else {
            old(states).list@.push((obj, v))
        }),
{
    if obj == 0 {
        return None;
    }
    states.put(obj, v);
    Some(obj)
}

/// Makes a key event out of the object that the engine made for it.
pub fn make_keyinputevent_arg(
    states: &mut ByObject<KeyState>,
    obj: u64,
    key: i32,
    shift: bool,
    control: bool,
    alt: bool,
) -> (r: Option<u64>)
    ensures
        r == (if obj == 0 {
            None::<u64>
        } else {
            Some(obj)
        }),
        final(states).list@ == (if obj == 0 {
            old(states).list@
        } else {
            old(states).list@.push((obj, KeyState { action: 2, key, shift, control, alt }))
        }),
{
    noted(states, obj, KeyState { action: 2, key, shift, control, alt })
}

/// Makes a session event out of the object that the engine made for it.
pub fn make_gamesessionevent_arg(
    states: &mut ByObject<SessionState>,
    obj: u64,
    pregame: bool,
    restored: bool,
) -> (r: Option<u64>)
    ensures
        r == (if obj == 0 {
            None::<u64>
        } else {
            Some(obj)
        }),
        final(states).list@ == (if obj == 0 {
            old(states).list@
        } else {
            old(states).list@.push((obj, SessionState { pregame, restored }))
        }),
{
    noted(states, obj, SessionState { pregame, restored })
}

/// Makes an event on an entity out of the object that the engine made for it.
pub fn make_entitylifecycleevent_arg(states: &mut ByObject<u64>, obj: u64, entity: u64) -> (r: Option<
    u64,
>)
    ensures
        r == (if obj == 0 {
            None::<u64>
        } else {
            Some(obj)
        }),
        final(states).list@ == (if obj == 0 {
            old(states).list@
        } else {
            old(states).list@.push((obj, entity))
        }),
{
    noted(states, obj, entity)
}

/// Makes an event on a resource out of the object that the engine made for it.
pub fn make_resourceevent_arg(states: &mut ByObject<u64>, obj: u64, path: u64) -> (r: Option<u64>)
    ensures
        r == (if obj == 0 {
            None::<u64>
        } else {
            Some(obj)
        }),
        final(states).list@ == (if obj == 0 {
            old(states).list@
        } else {
            old(states).list@.push((obj, path))
        }),
{
    noted(states, obj, path)
}

// ---- services --------------------------------------------------------------

/// What is done next when a service is asked for.
#[derive(Clone, Copy, PartialEq, Eq, Structural, Debug)]
pub enum ServiceStep {
    /// Hand this instance out; zero where there is none.
    Answer { instance: u64, cached: bool },
    /// Make the class of services, with the base class as the parent.
    MakeClass,
    /// Make an instance of the class of services.
    MakeInstance,
}

/// What is known of the engine when a service is asked for: whether its registry
/// can be had, the class of services, its base class, and what came of making
/// the class and the instance.
#[derive(Clone, Copy)]
pub struct ServiceWorld {
    pub registry: bool,
    pub class: u64,
    pub base: u64,
    pub made_class: Option<u64>,
    pub made_instance: Option<u64>,
}

/// The class that an instance is made of, once that is settled.
pub open spec fn service_class(w: ServiceWorld) -> Option<u64> {
    if is_sane(w.class as int) {
        Some(w.class)
    } else if !is_sane(w.base as int) {
        Some(0)
    } else {
        w.made_class
    }
}

/// What is done next when the service with that name is asked for. The same name
/// has the same instance for good; the name zero has none.
pub open spec fn service_step(instances: Seq<(u64, u64)>, name: u64, w: ServiceWorld) -> ServiceStep {
    if name == 0 {
        ServiceStep::Answer { instance: 0, cached: false }
    } else {
        match value_from(instances, name, 0) {
            Some(p) => if p != 0 {
                ServiceStep::Answer { instance: p, cached: true }
            } else {
                fresh_service(w, true)
            },
            None => fresh_service(w, false),
        }
    }
}

pub open spec fn fresh_service(w: ServiceWorld, cached: bool) -> ServiceStep {
    if !w.registry {
        ServiceStep::Answer { instance: 0, cached }
    } else {
        match service_class(w) {
            None => ServiceStep::MakeClass,
            Some(c) => if !is_sane(c as int) {
                ServiceStep::Answer { instance: 0, cached }
            } else {
                match w.made_instance {
                    None => ServiceStep::MakeInstance,
                    Some(p) => ServiceStep::Answer { instance: p, cached },
                }
            },
        }
    }
}

fn fresh(w: ServiceWorld, cached: bool) -> (r: ServiceStep)
    ensures
        r == fresh_service(w, cached),
{
    if !w.registry {
        return ServiceStep::Answer { instance: 0, cached };
    }
    let class: u64 = if sane(w.class) {
        w.class
    } else if !sane(w.base) {
        0
    } else {
        match w.made_class {
            None => {
                return ServiceStep::MakeClass;
            },
            Some(c) => c,
        }
    };
    if !sane(class) {
        return ServiceStep::Answer { instance: 0, cached };
    }
    match w.made_instance {
        None => ServiceStep::MakeInstance,
        Some(p) => ServiceStep::Answer { instance: p, cached },
    }
}

/// Takes one step towards the service with that name, and remembers an instance
/// that was made for it.
pub fn get_service(instances: &mut ByObject<u64>, name: u64, w: ServiceWorld) -> (r: ServiceStep)
    ensures
        r == service_step(old(instances).list@, name, w),
        final(instances).list@ == (match r {
            ServiceStep::Answer { instance, cached } => if instance != 0 && !(value_from(
                old(instances).list@,
                name,
                0,
            ) is Some && value_from(old(instances).list@, name, 0)->0 != 0) {
                old(instances).list@.push((name, instance))
            } else {
                old(instances).list@
            },
            _ => old(instances).list@,
        }),
{
    if name == 0 {
        return ServiceStep::Answer { instance: 0, cached: false };
    }
    let known: Option<u64> = instances.get(name);
    let cached: bool = match known {
        Some(p) => {
            if p != 0 {
                return ServiceStep::Answer { instance: p, cached: true };
            }
            true
        },
        None => false,
    };
    let step = fresh(w, cached);
    match step {
        ServiceStep::Answer { instance, .. } => {
            if instance != 0 {
                instances.put(name, instance);
            }
        },
        _ => {},
    }
    step
}

/// A service that was handed out is handed out again under its name, whatever
/// the engine says then.
pub proof fn services_keep_their_instances(
    instances: Seq<(u64, u64)>,
    name: u64,
    instance: u64,
    w: ServiceWorld,
)
    requires
        name != 0,
        instance != 0,
        value_from(instances, name, 0) is None,
    ensures
        service_step(instances.push((name, instance)), name, w) == (ServiceStep::Answer {
            instance,
            cached: true,
        }),
{
    lemma_value_push(instances, name, instance, name, 0);
}

} // verus!
