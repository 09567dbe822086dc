//! The classes that this library adds to the engine: their names, what they derive
//! from, and their methods.
use vstd::prelude::*;

use crate::memory::{is_sane, sane};
use crate::text::{push_lit, string_of};

verus! {

/// A class that is added to the engine.
#[derive(Clone, Copy, PartialEq, Eq, Structural, Debug)]
pub enum ForgedClass {
    CallbackSystem,
    ScriptableService,
    CallbackSystemTarget,
    ScriptableServiceContainer,
    CallbackSystemHandler,
    CallbackSystemEvent,
    KeyInputEvent,
    GameSessionEvent,
    EntityLifecycleEvent,
    ResourceEvent,
}

/// The name of a class.
pub open spec fn name_of(c: ForgedClass) -> Seq<char> {
    match c {
        ForgedClass::CallbackSystem => "CallbackSystem"@,
        ForgedClass::ScriptableService => "ScriptableService"@,
        ForgedClass::CallbackSystemTarget => "CallbackSystemTarget"@,
        ForgedClass::ScriptableServiceContainer => "ScriptableServiceContainer"@,
        ForgedClass::CallbackSystemHandler => "CallbackSystemHandler"@,
        ForgedClass::CallbackSystemEvent => "CallbackSystemEvent"@,
        ForgedClass::KeyInputEvent => "KeyInputEvent"@,
        ForgedClass::GameSessionEvent => "GameSessionEvent"@,
        ForgedClass::EntityLifecycleEvent => "EntityLifecycleEvent"@,
        ForgedClass::ResourceEvent => "ResourceEvent"@,
    }
}

/// The name of the class that a class derives from.
pub open spec fn parent_of(c: ForgedClass) -> Seq<char> {
    match c {
        ForgedClass::CallbackSystem => "IGameSystem"@,
        ForgedClass::ScriptableService => "IScriptable"@,
        ForgedClass::CallbackSystemTarget => "IScriptable"@,
        ForgedClass::ScriptableServiceContainer => "IGameSystem"@,
        ForgedClass::CallbackSystemHandler => "IScriptable"@,
        ForgedClass::CallbackSystemEvent => "IScriptable"@,
        ForgedClass::KeyInputEvent => "CallbackSystemEvent"@,
        ForgedClass::GameSessionEvent => "CallbackSystemEvent"@,
        ForgedClass::EntityLifecycleEvent => "CallbackSystemEvent"@,
        ForgedClass::ResourceEvent => "CallbackSystemEvent"@,
    }
}

/// Are there objects of the class, or is it only derived from?
pub open spec fn has_objects(c: ForgedClass) -> bool {
    !(c is ScriptableService || c is CallbackSystemTarget || c is CallbackSystemEvent)
}

/// The names of the methods of a class.
pub open spec fn methods_of(c: ForgedClass) -> Seq<Seq<char>> {
    match c {
        ForgedClass::CallbackSystem => seq!["RegisterCallback"@, "RegisterStaticCallback"@, "UnregisterCallback"@, "UnregisterStaticCallback"@, "RegisterEvent"@, "DispatchEvent"@, "DispatchEventAs"@],
        ForgedClass::ScriptableService => Seq::empty(),
        ForgedClass::CallbackSystemTarget => Seq::empty(),
        ForgedClass::ScriptableServiceContainer => seq!["GetService"@],
        ForgedClass::CallbackSystemHandler => seq!["AddTarget"@, "RemoveTarget"@, "SetRunMode"@, "SetLifetime"@, "IsRegistered"@, "Unregister"@, "HasTarget"@],
        ForgedClass::CallbackSystemEvent => seq!["GetEventName"@],
        ForgedClass::KeyInputEvent => seq!["GetKey"@, "IsShiftDown"@, "IsControlDown"@, "IsAltDown"@],
        ForgedClass::GameSessionEvent => seq!["IsRestored"@, "IsPreGame"@],
        ForgedClass::EntityLifecycleEvent => seq!["GetEntity"@],
        ForgedClass::ResourceEvent => seq!["GetPath"@],
    }
}

impl ForgedClass {
    pub fn name(&self) -> (r: &'static str)
        ensures
            r@ == name_of(*self),
    {
        match self {
            ForgedClass::CallbackSystem => "CallbackSystem",
            ForgedClass::ScriptableService => "ScriptableService",
            ForgedClass::CallbackSystemTarget => "CallbackSystemTarget",
            ForgedClass::ScriptableServiceContainer => "ScriptableServiceContainer",
            ForgedClass::CallbackSystemHandler => "CallbackSystemHandler",
            ForgedClass::CallbackSystemEvent => "CallbackSystemEvent",
            ForgedClass::KeyInputEvent => "KeyInputEvent",
            ForgedClass::GameSessionEvent => "GameSessionEvent",
            ForgedClass::EntityLifecycleEvent => "EntityLifecycleEvent",
            ForgedClass::ResourceEvent => "ResourceEvent",
        }
    }

    pub fn parent(&self) -> (r: &'static str)
        ensures
            r@ == parent_of(*self),
    {
        match self {
            ForgedClass::CallbackSystem => "IGameSystem",
            ForgedClass::ScriptableService => "IScriptable",
            ForgedClass::CallbackSystemTarget => "IScriptable",
            ForgedClass::ScriptableServiceContainer => "IGameSystem",
            ForgedClass::CallbackSystemHandler => "IScriptable",
            ForgedClass::CallbackSystemEvent => "IScriptable",
            ForgedClass::KeyInputEvent => "CallbackSystemEvent",
            ForgedClass::GameSessionEvent => "CallbackSystemEvent",
            ForgedClass::EntityLifecycleEvent => "CallbackSystemEvent",
            ForgedClass::ResourceEvent => "CallbackSystemEvent",
        }
    }

    pub fn is_instantiable(&self) -> (r: bool)
        ensures
            r == has_objects(*self),
    {
        match self {
            ForgedClass::ScriptableService => false,
            ForgedClass::CallbackSystemTarget => false,
            ForgedClass::CallbackSystemEvent => false,
            _ => true,
        }
    }

    pub fn methods(&self) -> (r: Vec<&'static str>)
        ensures
            r@.map_values(|s: &'static str| s@) == methods_of(*self),
    {
        let mut out: Vec<&'static str> = Vec::new();
        match self {
            ForgedClass::CallbackSystem => {
                out.push("RegisterCallback");
                out.push("RegisterStaticCallback");
                out.push("UnregisterCallback");
                out.push("UnregisterStaticCallback");
                out.push("RegisterEvent");
                out.push("DispatchEvent");
                out.push("DispatchEventAs");
            },
            ForgedClass::ScriptableService => {
            },
            ForgedClass::CallbackSystemTarget => {
            },
            ForgedClass::ScriptableServiceContainer => {
                out.push("GetService");
            },
            ForgedClass::CallbackSystemHandler => {
                out.push("AddTarget");
                out.push("RemoveTarget");
                out.push("SetRunMode");
                out.push("SetLifetime");
                out.push("IsRegistered");
                out.push("Unregister");
                out.push("HasTarget");
            },
            ForgedClass::CallbackSystemEvent => {
                out.push("GetEventName");
            },
            ForgedClass::KeyInputEvent => {
                out.push("GetKey");
                out.push("IsShiftDown");
                out.push("IsControlDown");
                out.push("IsAltDown");
            },
            ForgedClass::GameSessionEvent => {
                out.push("IsRestored");
                out.push("IsPreGame");
            },
            ForgedClass::EntityLifecycleEvent => {
                out.push("GetEntity");
            },
            ForgedClass::ResourceEvent => {
                out.push("GetPath");
            },
        }
        proof {
            assert(out@.map_values(|s: &'static str| s@) =~= methods_of(*self));
        }
        out
    }
}

/// How the making of a class ended.
#[derive(Clone, Copy, PartialEq, Eq, Structural, Debug)]
pub enum ClassOutcome {
    /// The class that it derives from was not found.
    NoParent,
    /// The class was not made.
    NoClass,
    /// The class was made, and has no methods because there was no function to
    /// take their layout from.
    NoPrototype,
    /// The class was made, and its methods are registered.
    Made,
}

/// How the making of a class ends: a class with objects needs its parent, and one
/// with methods needs a function to take their layout from.
pub open spec fn outcome_of(c: ForgedClass, parent: u64, made: u64, proto: bool) -> ClassOutcome {
    if has_objects(c) && !is_sane(parent as int) {
        ClassOutcome::NoParent
    } else if made == 0 {
        ClassOutcome::NoClass
    } else if methods_of(c).len() > 0 && !proto {
        ClassOutcome::NoPrototype
    } else {
        ClassOutcome::Made
    }
}

/// How the making of a class ends. `parent` is the class it derives from, `made`
/// what was made, and `proto` says whether there is a function to take the layout
/// of its methods from.
pub fn class_outcome(c: ForgedClass, parent: u64, made: u64, proto: bool) -> (r: ClassOutcome)
    ensures
        r == outcome_of(c, parent, made, proto),
{
    if c.is_instantiable() && !sane(parent) {
        return ClassOutcome::NoParent;
    }
    if made == 0 {
        return ClassOutcome::NoClass;
    }
    let bare: bool = match c {
        ForgedClass::ScriptableService => true,
        ForgedClass::CallbackSystemTarget => true,
        _ => false,
    };
    if !bare && !proto {
        return ClassOutcome::NoPrototype;
    }
    ClassOutcome::Made
}

// ---- reports ---------------------------------------------------------------

/// What is said where the class that a class derives from was not found.
pub open spec fn no_parent_text(c: ForgedClass) -> Seq<char> {
    match c {
        ForgedClass::CallbackSystem => "[reg] register_callbacksystem: 'IGameSystem' não resolveu por NENHUMA via (nem forja)"@,
        ForgedClass::ScriptableService => "[reg] ScriptableService: forjada=false"@,
        ForgedClass::CallbackSystemTarget => "[reg] CallbackSystemTarget: forjada=false"@,
        ForgedClass::ScriptableServiceContainer => "[reg] register_scriptableservicecontainer: 'IGameSystem' não resolveu"@,
        ForgedClass::CallbackSystemHandler => "[reg] register_callbacksystemhandler: 'IScriptable' não resolveu"@,
        ForgedClass::CallbackSystemEvent => "[reg] register_callbacksystemevent: forja FALHOU"@,
        ForgedClass::KeyInputEvent => "[reg] register_keyinputevent: 'CallbackSystemEvent' não resolveu (parent ausente)"@,
        ForgedClass::GameSessionEvent => "[reg] register_gamesessionevent: 'CallbackSystemEvent' não resolveu (parent ausente)"@,
        ForgedClass::EntityLifecycleEvent => "[reg] register_entitylifecycleevent: 'CallbackSystemEvent' não resolveu (parent ausente)"@,
        ForgedClass::ResourceEvent => "[reg] register_resourceevent: 'CallbackSystemEvent' não resolveu (parent ausente)"@,
    }
}

fn no_parent_line(c: ForgedClass) -> (r: &'static str)
    ensures
        r@ == no_parent_text(c),
{
    match c {
        ForgedClass::CallbackSystem => "[reg] register_callbacksystem: 'IGameSystem' não resolveu por NENHUMA via (nem forja)",
        ForgedClass::ScriptableService => "[reg] ScriptableService: forjada=false",
        ForgedClass::CallbackSystemTarget => "[reg] CallbackSystemTarget: forjada=false",
        ForgedClass::ScriptableServiceContainer => "[reg] register_scriptableservicecontainer: 'IGameSystem' não resolveu",
        ForgedClass::CallbackSystemHandler => "[reg] register_callbacksystemhandler: 'IScriptable' não resolveu",
        ForgedClass::CallbackSystemEvent => "[reg] register_callbacksystemevent: forja FALHOU",
        ForgedClass::KeyInputEvent => "[reg] register_keyinputevent: 'CallbackSystemEvent' não resolveu (parent ausente)",
        ForgedClass::GameSessionEvent => "[reg] register_gamesessionevent: 'CallbackSystemEvent' não resolveu (parent ausente)",
        ForgedClass::EntityLifecycleEvent => "[reg] register_entitylifecycleevent: 'CallbackSystemEvent' não resolveu (parent ausente)",
        ForgedClass::ResourceEvent => "[reg] register_resourceevent: 'CallbackSystemEvent' não resolveu (parent ausente)",
    }
}

/// What is said where a class was not made.
pub open spec fn no_class_text(c: ForgedClass) -> Seq<char> {
    match c {
        ForgedClass::CallbackSystem => "[reg] register_callbacksystem: forja da classe FALHOU (ver log acima)"@,
        ForgedClass::ScriptableService => "[reg] ScriptableService: forjada=false"@,
        ForgedClass::CallbackSystemTarget => "[reg] CallbackSystemTarget: forjada=false"@,
        ForgedClass::ScriptableServiceContainer => "[reg] register_scriptableservicecontainer: forja da classe FALHOU"@,
        ForgedClass::CallbackSystemHandler => "[reg] register_callbacksystemhandler: forja da classe FALHOU"@,
        ForgedClass::CallbackSystemEvent => "[reg] register_callbacksystemevent: forja FALHOU"@,
        ForgedClass::KeyInputEvent => "[reg] register_keyinputevent: forja da classe FALHOU"@,
        ForgedClass::GameSessionEvent => "[reg] register_gamesessionevent: forja da classe FALHOU"@,
        ForgedClass::EntityLifecycleEvent => "[reg] register_entitylifecycleevent: forja da classe FALHOU"@,
        ForgedClass::ResourceEvent => "[reg] register_resourceevent: forja da classe FALHOU"@,
    }
}

fn no_class_line(c: ForgedClass) -> (r: &'static str)
    ensures
        r@ == no_class_text(c),
{
    match c {
        ForgedClass::CallbackSystem => "[reg] register_callbacksystem: forja da classe FALHOU (ver log acima)",
        ForgedClass::ScriptableService => "[reg] ScriptableService: forjada=false",
        ForgedClass::CallbackSystemTarget => "[reg] CallbackSystemTarget: forjada=false",
        ForgedClass::ScriptableServiceContainer => "[reg] register_scriptableservicecontainer: forja da classe FALHOU",
        ForgedClass::CallbackSystemHandler => "[reg] register_callbacksystemhandler: forja da classe FALHOU",
        ForgedClass::CallbackSystemEvent => "[reg] register_callbacksystemevent: forja FALHOU",
        ForgedClass::KeyInputEvent => "[reg] register_keyinputevent: forja da classe FALHOU",
        ForgedClass::GameSessionEvent => "[reg] register_gamesessionevent: forja da classe FALHOU",
        ForgedClass::EntityLifecycleEvent => "[reg] register_entitylifecycleevent: forja da classe FALHOU",
        ForgedClass::ResourceEvent => "[reg] register_resourceevent: forja da classe FALHOU",
    }
}

/// What is said where the methods of a class have no layout to take.
pub open spec fn no_prototype_text(c: ForgedClass) -> Seq<char> {
    match c {
        ForgedClass::CallbackSystem => "[reg] register_callbacksystem: sem protótipo de método (AddGodMode não resolveu)"@,
        ForgedClass::ScriptableService => "[reg] ScriptableService: forjada=true"@,
        ForgedClass::CallbackSystemTarget => "[reg] CallbackSystemTarget: forjada=true"@,
        ForgedClass::ScriptableServiceContainer => "[reg] register_scriptableservicecontainer: classe=OK mas sem protótipo (AddGodMode não resolveu) — GetService NÃO registrado"@,
        ForgedClass::CallbackSystemHandler => "[reg] register_callbacksystemhandler: classe=OK mas sem protótipo (AddGodMode não resolveu) — métodos NÃO registrados"@,
        ForgedClass::CallbackSystemEvent => "[reg] register_callbacksystemevent: classe=OK mas sem protótipo — GetEventName NÃO registrado"@,
        ForgedClass::KeyInputEvent => "[reg] register_keyinputevent: classe=OK mas sem protótipo — métodos NÃO registrados"@,
        ForgedClass::GameSessionEvent => "[reg] register_gamesessionevent: classe=OK mas sem protótipo — métodos NÃO registrados"@,
        ForgedClass::EntityLifecycleEvent => "[reg] register_entitylifecycleevent: classe=OK mas sem protótipo — métodos NÃO registrados"@,
        ForgedClass::ResourceEvent => "[reg] register_resourceevent: classe=OK mas sem protótipo — GetPath NÃO registrado"@,
    }
}

fn no_prototype_line(c: ForgedClass) -> (r: &'static str)
    ensures
        r@ == no_prototype_text(c),
{
    match c {
        ForgedClass::CallbackSystem => "[reg] register_callbacksystem: sem protótipo de método (AddGodMode não resolveu)",
        ForgedClass::ScriptableService => "[reg] ScriptableService: forjada=true",
        ForgedClass::CallbackSystemTarget => "[reg] CallbackSystemTarget: forjada=true",
        ForgedClass::ScriptableServiceContainer => "[reg] register_scriptableservicecontainer: classe=OK mas sem protótipo (AddGodMode não resolveu) — GetService NÃO registrado",
        ForgedClass::CallbackSystemHandler => "[reg] register_callbacksystemhandler: classe=OK mas sem protótipo (AddGodMode não resolveu) — métodos NÃO registrados",
        ForgedClass::CallbackSystemEvent => "[reg] register_callbacksystemevent: classe=OK mas sem protótipo — GetEventName NÃO registrado",
        ForgedClass::KeyInputEvent => "[reg] register_keyinputevent: classe=OK mas sem protótipo — métodos NÃO registrados",
        ForgedClass::GameSessionEvent => "[reg] register_gamesessionevent: classe=OK mas sem protótipo — métodos NÃO registrados",
        ForgedClass::EntityLifecycleEvent => "[reg] register_entitylifecycleevent: classe=OK mas sem protótipo — métodos NÃO registrados",
        ForgedClass::ResourceEvent => "[reg] register_resourceevent: classe=OK mas sem protótipo — GetPath NÃO registrado",
    }
}

/// How the report on a class that was made starts.
pub open spec fn made_text(c: ForgedClass) -> Seq<char> {
    match c {
        ForgedClass::CallbackSystem => "[reg] CallbackSystem: classe=OK"@,
        ForgedClass::ScriptableService => "[reg] ScriptableService: forjada=true"@,
        ForgedClass::CallbackSystemTarget => "[reg] CallbackSystemTarget: forjada=true"@,
        ForgedClass::ScriptableServiceContainer => "[reg] ScriptableServiceContainer: classe=OK"@,
        ForgedClass::CallbackSystemHandler => "[reg] CallbackSystemHandler: classe=OK (INSTANCIÁVEL, crash de hashmap embutido CORRIGIDO)"@,
        ForgedClass::CallbackSystemEvent => "[reg] CallbackSystemEvent: classe=OK"@,
        ForgedClass::KeyInputEvent => "[reg] KeyInputEvent: classe=OK (INSTANCIÁVEL, parent=CallbackSystemEvent real)"@,
        ForgedClass::GameSessionEvent => "[reg] GameSessionEvent: classe=OK (INSTANCIÁVEL, parent=CallbackSystemEvent real)"@,
        ForgedClass::EntityLifecycleEvent => "[reg] EntityLifecycleEvent: classe=OK (INSTANCIÁVEL, parent=CallbackSystemEvent real)"@,
        ForgedClass::ResourceEvent => "[reg] ResourceEvent: classe=OK (INSTANCIÁVEL, parent=CallbackSystemEvent real)"@,
    }
}

fn made_line(c: ForgedClass) -> (r: &'static str)
    ensures
        r@ == made_text(c),
{
    match c {
        ForgedClass::CallbackSystem => "[reg] CallbackSystem: classe=OK",
        ForgedClass::ScriptableService => "[reg] ScriptableService: forjada=true",
        ForgedClass::CallbackSystemTarget => "[reg] CallbackSystemTarget: forjada=true",
        ForgedClass::ScriptableServiceContainer => "[reg] ScriptableServiceContainer: classe=OK",
        ForgedClass::CallbackSystemHandler => "[reg] CallbackSystemHandler: classe=OK (INSTANCIÁVEL, crash de hashmap embutido CORRIGIDO)",
        ForgedClass::CallbackSystemEvent => "[reg] CallbackSystemEvent: classe=OK",
        ForgedClass::KeyInputEvent => "[reg] KeyInputEvent: classe=OK (INSTANCIÁVEL, parent=CallbackSystemEvent real)",
        ForgedClass::GameSessionEvent => "[reg] GameSessionEvent: classe=OK (INSTANCIÁVEL, parent=CallbackSystemEvent real)",
        ForgedClass::EntityLifecycleEvent => "[reg] EntityLifecycleEvent: classe=OK (INSTANCIÁVEL, parent=CallbackSystemEvent real)",
        ForgedClass::ResourceEvent => "[reg] ResourceEvent: classe=OK (INSTANCIÁVEL, parent=CallbackSystemEvent real)",
    }
}

/// What stands behind the methods in the report on a class.
pub open spec fn made_tail(c: ForgedClass) -> Seq<char> {
    if c is ScriptableServiceContainer {
        " (crash de hashmap embutido CORRIGIDO 2026-07-18, ver fix_embedded_allocator_vtables)"@
    } else {
        Seq::empty()
    }
}

/// The first `n` methods, each with whether it was registered.
pub open spec fn method_marks(names: Seq<Seq<char>>, oks: Seq<bool>, n: nat) -> Seq<char>
    decreases n,
{
    if n == 0 {
        Seq::empty()
    } else {
        method_marks(names, oks, (n - 1) as nat) + " "@ + names[n - 1] + (if oks[n - 1] {
            "=true"@
        } else {
            "=false"@
        })
    }
}

/// The report on a class: how it ended, and which methods were registered.
pub open spec fn report_of(c: ForgedClass, o: ClassOutcome, oks: Seq<bool>) -> Seq<char> {
    match o {
        ClassOutcome::NoParent => no_parent_text(c),
        ClassOutcome::NoClass => no_class_text(c),
        ClassOutcome::NoPrototype => no_prototype_text(c),
        ClassOutcome::Made => made_text(c) + method_marks(
            methods_of(c),
            oks,
            methods_of(c).len(),
        ) + made_tail(c),
    }
}

/// The report on a class. `oks` says of each of its methods whether it was
/// registered.
pub fn class_report(c: ForgedClass, o: ClassOutcome, oks: &Vec<bool>) -> (r: String)
    requires
        o is Made ==> oks@.len() >= methods_of(c).len(),
    ensures
        r@ == report_of(c, o, oks@),
{
    match o {
        ClassOutcome::NoParent => {
            return no_parent_line(c).to_owned();
        },
        ClassOutcome::NoClass => {
            return no_class_line(c).to_owned();
        },
        ClassOutcome::NoPrototype => {
            return no_prototype_line(c).to_owned();
        },
        ClassOutcome::Made => {},
    }
    let mut out: Vec<char> = Vec::new();
    push_lit(&mut out, made_line(c));
    let names = c.methods();
    let ghost all = methods_of(c);
    let ghost start = made_text(c);
    let mut i: usize = 0;
    proof {
        assert(names@.map_values(|s: &'static str| s@) == all);
        assert(out@ =~= start + method_marks(all, oks@, 0));
    }
    while i < names.len()
        invariant
            i <= names@.len(),
            names@.len() == all.len(),
            oks@.len() >= all.len(),
            names@.map_values(|s: &'static str| s@) == all,
            out@ == start + method_marks(all, oks@, i as nat),
        decreases names@.len() - i,
    {
        proof {
            assert(all[i as int] == names@[i as int]@);
        }
        push_lit(&mut out, " ");
        push_lit(&mut out, names[i]);
        push_lit(
            &mut out,
            if oks[i] {
                "=true"
            } else {
                "=false"
            },
        );
        i += 1;
        proof {
            assert(out@ =~= start + method_marks(all, oks@, i as nat));
        }
    }
    let tail: bool = match c {
        ForgedClass::ScriptableServiceContainer => true,
        _ => false,
    };
    if tail {
        push_lit(
            &mut out,
            " (crash de hashmap embutido CORRIGIDO 2026-07-18, ver fix_embedded_allocator_vtables)",
        );
    }
    proof {
        assert(out@ =~= report_of(c, o, oks@));
    }
    string_of(out.as_slice())
}

// ---- bases and systems -----------------------------------------------------

/// The class that a base class of the engine leads to: by its usual name, by the
/// way that the engine's own checks take, or the one that was made in its place.
pub fn base_class(usual: u64, checked: u64, made: u64) -> (r: u64)
    ensures
        r == (if is_sane(usual as int) {
            usual
        } else if is_sane(checked as int) {
            checked
        } else {
            made
        }),
{
    if sane(usual) {
        usual
    } else if sane(checked) {
        checked
    } else {
        made
    }
}

/// What is done for the one object of a system.
#[derive(Clone, Copy, PartialEq, Eq, Structural, Debug)]
pub enum Single {
    /// Hand this object out; zero where there is none.
    Answer(u64),
    /// Make the object.
    Make,
}

/// The one object of a system: it is made when it is first asked for, and it is
/// the same from then on. `made` is what came of making it.
pub fn single_object(kept: &mut u64, registry: bool, made: Option<u64>) -> (r: Single)
    ensures
        r == (if *old(kept) != 0 {
            Single::Answer(*old(kept))
        } else if !registry {
            Single::Answer(0)
        } else {
            match made {
                None => Single::Make,
                Some(p) => Single::Answer(p),
            }
        }),
        *final(kept) == (if *old(kept) == 0 && registry && made is Some {
            made->0
        } else {
            *old(kept)
        }),
{
    if *kept != 0 {
        return Single::Answer(*kept);
    }
    if !registry {
        return Single::Answer(0);
    }
    match made {
        None => Single::Make,
        Some(p) => {
            *kept = p;
            Single::Answer(p)
        },
    }
}

} // verus!
