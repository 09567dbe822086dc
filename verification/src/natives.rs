//! The natives of this library: the functions that scripts can call, in the order
//! in which they are registered, and the images of their parameters.
use vstd::prelude::*;

use crate::calls::{place_number, placed};
use crate::cursor::le_bytes;
use crate::flats::{hex_literal, push_hex_literal};
use crate::forge::{dynarray_push_ptr, first_sane, DynArray};
use crate::hooks::pick_sane;
use crate::memory::{is_sane, readable, sane, word_or_zero, Memory, RegionV};
use crate::text::{dec, push_dec, push_lit, string_of};

verus! {

// ---- the list --------------------------------------------------------------

/// The parameters of a native.
pub enum Params {
    /// None.
    Nothing,
    /// Of these types.
    Types(Vec<&'static str>),
    /// Those of the function whose layout it takes.
    AsPrototype,
    /// Those of a function of one name.
    AsNameFunction,
    /// A name and a number.
    NameThenNumber,
}

pub enum ParamsV {
    Nothing,
    Types(Seq<Seq<char>>),
    AsPrototype,
    AsNameFunction,
    NameThenNumber,
}

pub open spec fn lits_view(v: Seq<&'static str>) -> Seq<Seq<char>> {
    v.map_values(|s: &'static str| s@)
}

impl View for Params {
    type V = ParamsV;

    open spec fn view(&self) -> ParamsV {
        match self {
            Params::Nothing => ParamsV::Nothing,
            Params::Types(t) => ParamsV::Types(lits_view(t@)),
            Params::AsPrototype => ParamsV::AsPrototype,
            Params::AsNameFunction => ParamsV::AsNameFunction,
            Params::NameThenNumber => ParamsV::NameThenNumber,
        }
    }
}

/// A native: its name, and its parameters.
pub struct Native {
    pub name: &'static str,
    pub params: Params,
}

pub struct NativeV {
    pub name: Seq<char>,
    pub params: ParamsV,
}

impl View for Native {
    type V = NativeV;

    open spec fn view(&self) -> NativeV {
        NativeV { name: self.name@, params: self.params@ }
    }
}

pub open spec fn natives_view(v: Seq<Native>) -> Seq<NativeV> {
    v.map_values(|n: Native| n@)
}

pub open spec fn plain(name: Seq<char>) -> NativeV {
    NativeV { name, params: ParamsV::Nothing }
}

pub open spec fn typed(name: Seq<char>, types: Seq<Seq<char>>) -> NativeV {
    NativeV { name, params: ParamsV::Types(types) }
}

pub open spec fn like(name: Seq<char>, params: ParamsV) -> NativeV {
    NativeV { name, params }
}

fn add_like(out: &mut Vec<Native>, name: &'static str, params: Params)
    ensures
        natives_view(final(out)@) == natives_view(old(out)@).push(
            NativeV { name: name@, params: params@ },
        ),
{
    let ghost before = out@;
    let n = Native { name, params };
    let ghost v = n@;
    out.push(n);
    proof {
        assert(natives_view(out@) =~= natives_view(before).push(v));
    }
}

fn add_plain(out: &mut Vec<Native>, name: &'static str)
    ensures
        natives_view(final(out)@) == natives_view(old(out)@).push(plain(name@)),
{
    add_like(out, name, Params::Nothing);
}

fn add_typed1(out: &mut Vec<Native>, name: &'static str, a: &'static str)
    ensures
        natives_view(final(out)@) == natives_view(old(out)@).push(typed(name@, seq![a@])),
{
    let mut t: Vec<&'static str> = Vec::new();
    t.push(a);
    proof {
        assert(lits_view(t@) =~= seq![a@]);
    }
    add_like(out, name, Params::Types(t));
}

fn add_typed2(out: &mut Vec<Native>, name: &'static str, a: &'static str, b: &'static str)
    ensures
        natives_view(final(out)@) == natives_view(old(out)@).push(typed(name@, seq![a@, b@])),
{
    let mut t: Vec<&'static str> = Vec::new();
    t.push(a);
    t.push(b);
    proof {
        assert(lits_view(t@) =~= seq![a@, b@]);
    }
    add_like(out, name, Params::Types(t));
}

fn add_typed3(
    out: &mut Vec<Native>,
    name: &'static str,
    a: &'static str,
    b: &'static str,
    c: &'static str,
)
    ensures
        natives_view(final(out)@) == natives_view(old(out)@).push(typed(name@, seq![a@, b@, c@])),
{
    let mut t: Vec<&'static str> = Vec::new();
    t.push(a);
    t.push(b);
    t.push(c);
    proof {
        assert(lits_view(t@) =~= seq![a@, b@, c@]);
    }
    add_like(out, name, Params::Types(t));
}

/// The natives around the start of the game and its switches.
pub open spec fn boot_natives() -> Seq<NativeV> {
    seq![
        plain("BlackwallPing"@),
        plain("BwmsAutoContinue"@),
        plain("BwmsAutoContinueOn"@),
        plain("BwmsAutoContinueOff"@),
        plain("BwmsFireStartOn"@),
        plain("BwmsFireStartOff"@),
        plain("BwmsFireStartState"@),
        plain("BwmsAcFired"@),
        plain("BwmsMenuReadySplashOff"@),
    ]
}

fn push_boot_natives(out: &mut Vec<Native>)
    ensures
        natives_view(final(out)@) == natives_view(old(out)@) + boot_natives(),
{
    let ghost before = natives_view(out@);
    add_plain(out, "BlackwallPing");
    add_plain(out, "BwmsAutoContinue");
    add_plain(out, "BwmsAutoContinueOn");
    add_plain(out, "BwmsAutoContinueOff");
    add_plain(out, "BwmsFireStartOn");
    add_plain(out, "BwmsFireStartOff");
    add_plain(out, "BwmsFireStartState");
    add_plain(out, "BwmsAcFired");
    add_plain(out, "BwmsMenuReadySplashOff");
    proof {
        assert(natives_view(out@) =~= before + boot_natives());
    }
}

/// The natives around the camera and the clothes.
pub open spec fn body_natives() -> Seq<NativeV> {
    seq![
        plain("BwmsTppState"@),
        plain("BwmsCamBack"@),
        plain("BwmsCamX"@),
        plain("BwmsCamZ"@),
        plain("BwmsForceLook"@),
        plain("BwmsEquipState"@),
        typed("BwmsEquipLog"@, seq!["Int32"@]),
        plain("BwmsInvState"@),
        plain("BwmsEquipCheck"@),
        typed("BwmsEquipReadback"@, seq!["Int32"@, "TweakDBID"@]),
    ]
}

fn push_body_natives(out: &mut Vec<Native>)
    ensures
        natives_view(final(out)@) == natives_view(old(out)@) + body_natives(),
{
    let ghost before = natives_view(out@);
    add_plain(out, "BwmsTppState");
    add_plain(out, "BwmsCamBack");
    add_plain(out, "BwmsCamX");
    add_plain(out, "BwmsCamZ");
    add_plain(out, "BwmsForceLook");
    add_plain(out, "BwmsEquipState");
    add_typed1(out, "BwmsEquipLog", "Int32");
    add_plain(out, "BwmsInvState");
    add_plain(out, "BwmsEquipCheck");
    add_typed2(out, "BwmsEquipReadback", "Int32", "TweakDBID");
    proof {
        assert(natives_view(out@) =~= before + body_natives());
    }
}

/// The natives that trace how the game goes on.
pub open spec fn trace_natives() -> Seq<NativeV> {
    seq![
        plain("BwmsDbgMeta0"@),
        plain("BwmsDbgHasT"@),
        plain("BwmsDbgHasF"@),
        typed("BwmsDbgTry"@, seq!["Int32"@]),
        typed("BwmsDbgSkip"@, seq!["Int32"@]),
        plain("BwmsEmit"@),
    ]
}

fn push_trace_natives(out: &mut Vec<Native>)
    ensures
        natives_view(final(out)@) == natives_view(old(out)@) + trace_natives(),
{
    let ghost before = natives_view(out@);
    add_plain(out, "BwmsDbgMeta0");
    add_plain(out, "BwmsDbgHasT");
    add_plain(out, "BwmsDbgHasF");
    add_typed1(out, "BwmsDbgTry", "Int32");
    add_typed1(out, "BwmsDbgSkip", "Int32");
    add_plain(out, "BwmsEmit");
    proof {
        assert(natives_view(out@) =~= before + trace_natives());
    }
}

/// The natives around the first screens.
pub open spec fn screen_natives() -> Seq<NativeV> {
    seq![
        plain("BwmsEngagementOn"@),
        plain("BwmsEngagementOff"@),
        plain("BwmsProceed"@),
        plain("BwmsFireStart"@),
        plain("BwmsSkipIntroOn"@),
        plain("BwmsSkipIntroOff"@),
        plain("BwmsSkipIntroState"@),
        plain("BwmsSessionAdvance"@),
    ]
}

fn push_screen_natives(out: &mut Vec<Native>)
    ensures
        natives_view(final(out)@) == natives_view(old(out)@) + screen_natives(),
{
    let ghost before = natives_view(out@);
    add_plain(out, "BwmsEngagementOn");
    add_plain(out, "BwmsEngagementOff");
    add_plain(out, "BwmsProceed");
    add_plain(out, "BwmsFireStart");
    add_plain(out, "BwmsSkipIntroOn");
    add_plain(out, "BwmsSkipIntroOff");
    add_plain(out, "BwmsSkipIntroState");
    add_plain(out, "BwmsSessionAdvance");
    proof {
        assert(natives_view(out@) =~= before + screen_natives());
    }
}

/// The natives of the mode for headsets.
pub open spec fn vr_natives() -> Seq<NativeV> {
    seq![
        plain("BwmsCpvrOn"@),
        plain("BwmsCpvrOff"@),
        plain("BwmsCpvrState"@),
        plain("BwmsCpvrMode"@),
        plain("BwmsCpvrModeNext"@),
        plain("BwmsCpvrModePrev"@),
        plain("BwmsCpvrStereoPing"@),
        plain("BwmsCpvrApplyPing"@),
        plain("BwmsCpvrIsV2"@),
        typed("BwmsCamScan"@, seq!["Float"@, "Float"@, "Float"@]),
    ]
}

fn push_vr_natives(out: &mut Vec<Native>)
    ensures
        natives_view(final(out)@) == natives_view(old(out)@) + vr_natives(),
{
    let ghost before = natives_view(out@);
    add_plain(out, "BwmsCpvrOn");
    add_plain(out, "BwmsCpvrOff");
    add_plain(out, "BwmsCpvrState");
    add_plain(out, "BwmsCpvrMode");
    add_plain(out, "BwmsCpvrModeNext");
    add_plain(out, "BwmsCpvrModePrev");
    add_plain(out, "BwmsCpvrStereoPing");
    add_plain(out, "BwmsCpvrApplyPing");
    add_plain(out, "BwmsCpvrIsV2");
    add_typed3(out, "BwmsCamScan", "Float", "Float", "Float");
    proof {
        assert(natives_view(out@) =~= before + vr_natives());
    }
}

/// The native that hands its argument back.
pub open spec fn echo_natives() -> Seq<NativeV> {
    seq![
        like("BwmsEchoF"@, ParamsV::AsPrototype),
    ]
}

fn push_echo_natives(out: &mut Vec<Native>)
    ensures
        natives_view(final(out)@) == natives_view(old(out)@) + echo_natives(),
{
    let ghost before = natives_view(out@);
    add_like(out, "BwmsEchoF", Params::AsPrototype);
    proof {
        assert(natives_view(out@) =~= before + echo_natives());
    }
}

/// The natives that reach members of the player by name.
pub open spec fn field_natives() -> Seq<NativeV> {
    seq![
        like("BwmsGetPlayerField"@, ParamsV::AsNameFunction),
        like("BwmsSetPlayerField"@, ParamsV::NameThenNumber),
        like("BwmsCallPlayerMethod"@, ParamsV::AsNameFunction),
    ]
}

fn push_field_natives(out: &mut Vec<Native>)
    ensures
        natives_view(final(out)@) == natives_view(old(out)@) + field_natives(),
{
    let ghost before = natives_view(out@);
    add_like(out, "BwmsGetPlayerField", Params::AsNameFunction);
    add_like(out, "BwmsSetPlayerField", Params::NameThenNumber);
    add_like(out, "BwmsCallPlayerMethod", Params::AsNameFunction);
    proof {
        assert(natives_view(out@) =~= before + field_natives());
    }
}

/// The natives that call methods of any object.
pub open spec fn callback_natives() -> Seq<NativeV> {
    seq![
        typed("BwmsCallMethod"@, seq!["handle:IScriptable"@, "CName"@]),
        typed("BwmsEngDump"@, seq!["handle:IScriptable"@]),
        typed("BwmsRegisterCallback"@, seq!["CName"@, "handle:IScriptable"@, "CName"@]),
    ]
}

fn push_callback_natives(out: &mut Vec<Native>)
    ensures
        natives_view(final(out)@) == natives_view(old(out)@) + callback_natives(),
{
    let ghost before = natives_view(out@);
    add_typed2(out, "BwmsCallMethod", "handle:IScriptable", "CName");
    add_typed1(out, "BwmsEngDump", "handle:IScriptable");
    add_typed3(out, "BwmsRegisterCallback", "CName", "handle:IScriptable", "CName");
    proof {
        assert(natives_view(out@) =~= before + callback_natives());
    }
}

/// The natives on the bits of numbers of 8 bits.
pub open spec fn bits8_natives() -> Seq<NativeV> {
    seq![
        typed("BitTest8"@, seq!["Uint8"@, "Int32"@]),
        typed("BitSet8"@, seq!["Uint8"@, "Int32"@, "Bool"@]),
        typed("BitShiftL8"@, seq!["Uint8"@, "Int32"@]),
        typed("BitShiftR8"@, seq!["Uint8"@, "Int32"@]),
    ]
}

fn push_bits8_natives(out: &mut Vec<Native>)
    ensures
        natives_view(final(out)@) == natives_view(old(out)@) + bits8_natives(),
{
    let ghost before = natives_view(out@);
    add_typed2(out, "BitTest8", "Uint8", "Int32");
    add_typed3(out, "BitSet8", "Uint8", "Int32", "Bool");
    add_typed2(out, "BitShiftL8", "Uint8", "Int32");
    add_typed2(out, "BitShiftR8", "Uint8", "Int32");
    proof {
        assert(natives_view(out@) =~= before + bits8_natives());
    }
}

/// The natives on the bits of numbers of 16 bits.
pub open spec fn bits16_natives() -> Seq<NativeV> {
    seq![
        typed("BitTest16"@, seq!["Uint16"@, "Int32"@]),
        typed("BitSet16"@, seq!["Uint16"@, "Int32"@, "Bool"@]),
        typed("BitShiftL16"@, seq!["Uint16"@, "Int32"@]),
        typed("BitShiftR16"@, seq!["Uint16"@, "Int32"@]),
    ]
}

fn push_bits16_natives(out: &mut Vec<Native>)
    ensures
        natives_view(final(out)@) == natives_view(old(out)@) + bits16_natives(),
{
    let ghost before = natives_view(out@);
    add_typed2(out, "BitTest16", "Uint16", "Int32");
    add_typed3(out, "BitSet16", "Uint16", "Int32", "Bool");
    add_typed2(out, "BitShiftL16", "Uint16", "Int32");
    add_typed2(out, "BitShiftR16", "Uint16", "Int32");
    proof {
        assert(natives_view(out@) =~= before + bits16_natives());
    }
}

/// The natives on the bits of numbers of 32 bits.
pub open spec fn bits32_natives() -> Seq<NativeV> {
    seq![
        typed("BitTest32"@, seq!["Uint32"@, "Int32"@]),
        typed("BitSet32"@, seq!["Uint32"@, "Int32"@, "Bool"@]),
        typed("BitShiftL32"@, seq!["Uint32"@, "Int32"@]),
        typed("BitShiftR32"@, seq!["Uint32"@, "Int32"@]),
    ]
}

fn push_bits32_natives(out: &mut Vec<Native>)
    ensures
        natives_view(final(out)@) == natives_view(old(out)@) + bits32_natives(),
{
    let ghost before = natives_view(out@);
    add_typed2(out, "BitTest32", "Uint32", "Int32");
    add_typed3(out, "BitSet32", "Uint32", "Int32", "Bool");
    add_typed2(out, "BitShiftL32", "Uint32", "Int32");
    add_typed2(out, "BitShiftR32", "Uint32", "Int32");
    proof {
        assert(natives_view(out@) =~= before + bits32_natives());
    }
}

/// The natives on the bits of numbers of 64 bits.
pub open spec fn bits64_natives() -> Seq<NativeV> {
    seq![
        typed("BitTest64"@, seq!["Uint64"@, "Int32"@]),
        typed("BitSet64"@, seq!["Uint64"@, "Int32"@, "Bool"@]),
        typed("BitShiftL64"@, seq!["Uint64"@, "Int32"@]),
        typed("BitShiftR64"@, seq!["Uint64"@, "Int32"@]),
    ]
}

fn push_bits64_natives(out: &mut Vec<Native>)
    ensures
        natives_view(final(out)@) == natives_view(old(out)@) + bits64_natives(),
{
    let ghost before = natives_view(out@);
    add_typed2(out, "BitTest64", "Uint64", "Int32");
    add_typed3(out, "BitSet64", "Uint64", "Int32", "Bool");
    add_typed2(out, "BitShiftL64", "Uint64", "Int32");
    add_typed2(out, "BitShiftR64", "Uint64", "Int32");
    proof {
        assert(natives_view(out@) =~= before + bits64_natives());
    }
}

/// The natives that hash texts.
pub open spec fn hash_natives() -> Seq<NativeV> {
    seq![
        typed("FNV1a64"@, seq!["String"@, "Uint64"@]),
        typed("FNV1a32"@, seq!["String"@, "Uint32"@]),
        typed("Murmur3"@, seq!["String"@, "Uint32"@]),
    ]
}

fn push_hash_natives(out: &mut Vec<Native>)
    ensures
        natives_view(final(out)@) == natives_view(old(out)@) + hash_natives(),
{
    let ghost before = natives_view(out@);
    add_typed2(out, "FNV1a64", "String", "Uint64");
    add_typed2(out, "FNV1a32", "String", "Uint32");
    add_typed2(out, "Murmur3", "String", "Uint32");
    proof {
        assert(natives_view(out@) =~= before + hash_natives());
    }
}

/// The natives that read numbers.
pub open spec fn number_natives() -> Seq<NativeV> {
    seq![
        typed("ParseInt8"@, seq!["String"@, "Int32"@]),
        typed("ParseInt16"@, seq!["String"@, "Int32"@]),
        typed("ParseInt32"@, seq!["String"@, "Int32"@]),
        typed("ParseInt64"@, seq!["String"@, "Int32"@]),
        typed("ParseUint8"@, seq!["String"@, "Int32"@]),
        typed("ParseUint16"@, seq!["String"@, "Int32"@]),
        typed("ParseUint32"@, seq!["String"@, "Int32"@]),
        typed("ParseUint64"@, seq!["String"@, "Int32"@]),
    ]
}

fn push_number_natives(out: &mut Vec<Native>)
    ensures
        natives_view(final(out)@) == natives_view(old(out)@) + number_natives(),
{
    let ghost before = natives_view(out@);
    add_typed2(out, "ParseInt8", "String", "Int32");
    add_typed2(out, "ParseInt16", "String", "Int32");
    add_typed2(out, "ParseInt32", "String", "Int32");
    add_typed2(out, "ParseInt64", "String", "Int32");
    add_typed2(out, "ParseUint8", "String", "Int32");
    add_typed2(out, "ParseUint16", "String", "Int32");
    add_typed2(out, "ParseUint32", "String", "Int32");
    add_typed2(out, "ParseUint64", "String", "Int32");
    proof {
        assert(natives_view(out@) =~= before + number_natives());
    }
}

/// The natives on texts.
pub open spec fn text_natives() -> Seq<NativeV> {
    seq![
        typed("UTF8StrLen"@, seq!["String"@]),
        typed("UTF8StrLeft"@, seq!["String"@, "Int32"@]),
        typed("UTF8StrRight"@, seq!["String"@, "Int32"@]),
        typed("UTF8StrMid"@, seq!["String"@, "Int32"@, "Int32"@]),
        typed("UTF8StrLower"@, seq!["String"@]),
        typed("UTF8StrUpper"@, seq!["String"@]),
    ]
}

fn push_text_natives(out: &mut Vec<Native>)
    ensures
        natives_view(final(out)@) == natives_view(old(out)@) + text_natives(),
{
    let ghost before = natives_view(out@);
    add_typed1(out, "UTF8StrLen", "String");
    add_typed2(out, "UTF8StrLeft", "String", "Int32");
    add_typed2(out, "UTF8StrRight", "String", "Int32");
    add_typed3(out, "UTF8StrMid", "String", "Int32", "Int32");
    add_typed1(out, "UTF8StrLower", "String");
    add_typed1(out, "UTF8StrUpper", "String");
    proof {
        assert(natives_view(out@) =~= before + text_natives());
    }
}

/// The natives between names and their hashes, and those that write to the log.
pub open spec fn name_natives() -> Seq<NativeV> {
    seq![
        typed("HashToName"@, seq!["Uint64"@]),
        typed("NameToHash"@, seq!["CName"@]),
        typed("HashToCRUID"@, seq!["Uint64"@]),
        typed("CRUIDToHash"@, seq!["CRUID"@]),
        typed("HashToNodeRef"@, seq!["Uint64"@]),
        typed("NodeRefToHash"@, seq!["NodeRef"@]),
        typed("Print"@, seq!["String"@]),
        typed("ModLog"@, seq!["CName"@, "String"@]),
    ]
}

fn push_name_natives(out: &mut Vec<Native>)
    ensures
        natives_view(final(out)@) == natives_view(old(out)@) + name_natives(),
{
    let ghost before = natives_view(out@);
    add_typed1(out, "HashToName", "Uint64");
    add_typed1(out, "NameToHash", "CName");
    add_typed1(out, "HashToCRUID", "Uint64");
    add_typed1(out, "CRUIDToHash", "CRUID");
    add_typed1(out, "HashToNodeRef", "Uint64");
    add_typed1(out, "NodeRefToHash", "NodeRef");
    add_typed1(out, "Print", "String");
    add_typed2(out, "ModLog", "CName", "String");
    proof {
        assert(natives_view(out@) =~= before + name_natives());
    }
}

/// The natives that hand out systems, and those of the settings.
pub open spec fn system_natives() -> Seq<NativeV> {
    seq![
        plain("BwmsGetCallbackSystem"@),
        plain("BwmsGetScriptableServiceContainer"@),
        plain("BwmsMakeTestKeyInputEvent"@),
        typed("BwmsConfigGet"@, seq!["String"@]),
        typed("BwmsConfigSet"@, seq!["String"@, "String"@]),
        typed("BwmsPollerTick"@, seq!["String"@, "Int32"@]),
    ]
}

fn push_system_natives(out: &mut Vec<Native>)
    ensures
        natives_view(final(out)@) == natives_view(old(out)@) + system_natives(),
{
    let ghost before = natives_view(out@);
    add_plain(out, "BwmsGetCallbackSystem");
    add_plain(out, "BwmsGetScriptableServiceContainer");
    add_plain(out, "BwmsMakeTestKeyInputEvent");
    add_typed1(out, "BwmsConfigGet", "String");
    add_typed2(out, "BwmsConfigSet", "String", "String");
    add_typed2(out, "BwmsPollerTick", "String", "Int32");
    proof {
        assert(natives_view(out@) =~= before + system_natives());
    }
}

/// All natives in the order of registration. Those of the mode for headsets are
/// left out where it is not built in, and those that reach members by name where
/// there is no function of a name to take the parameters from.
pub open spec fn all_natives(vr: bool, by_name: bool) -> Seq<NativeV> {
    boot_natives() + body_natives() + trace_natives() + screen_natives() + (if vr {
        vr_natives()
    } else {
        Seq::empty()
    }) + echo_natives() + (if by_name {
        field_natives()
    } else {
        Seq::empty()
    }) + callback_natives() + bits8_natives() + bits16_natives() + bits32_natives()
        + bits64_natives() + hash_natives() + number_natives() + text_natives() + name_natives()
        + system_natives()
}

/// All natives in the order of registration.
pub fn native_list(vr: bool, by_name: bool) -> (r: Vec<Native>)
    ensures
        natives_view(r@) == all_natives(vr, by_name),
{
    let mut out: Vec<Native> = Vec::new();
    push_boot_natives(&mut out);
    push_body_natives(&mut out);
    push_trace_natives(&mut out);
    push_screen_natives(&mut out);
    proof {
        assert(natives_view(Seq::<Native>::empty()) =~= Seq::<NativeV>::empty());
        assert(natives_view(out@) =~= boot_natives() + body_natives() + trace_natives()
            + screen_natives());
    }
    let ghost head = natives_view(out@);
    if vr {
        push_vr_natives(&mut out);
    }
    proof {
        assert(natives_view(out@) =~= head + (if vr {
            vr_natives()
        } else {
            Seq::empty()
        }));
    }
    push_echo_natives(&mut out);
    let ghost middle = natives_view(out@);
    if by_name {
        push_field_natives(&mut out);
    }
    proof {
        assert(natives_view(out@) =~= middle + (if by_name {
            field_natives()
        } else {
            Seq::empty()
        }));
    }
    push_callback_natives(&mut out);
    push_bits8_natives(&mut out);
    push_bits16_natives(&mut out);
    push_bits32_natives(&mut out);
    push_bits64_natives(&mut out);
    push_hash_natives(&mut out);
    push_number_natives(&mut out);
    push_text_natives(&mut out);
    push_name_natives(&mut out);
    push_system_natives(&mut out);
    out
}

/// The functions of the engine whose layout natives take, the best first.
pub open spec fn prototype_names() -> Seq<Seq<char>> {
    seq!["Cos"@, "Sin"@, "AbsF"@, "SqrtF"@, "LogF"@]
}

pub fn prototypes() -> (r: Vec<&'static str>)
    ensures
        lits_view(r@) == prototype_names(),
{
    let r: Vec<&'static str> = vec!["Cos", "Sin", "AbsF", "SqrtF", "LogF"];
    proof {
        assert(lits_view(r@) =~= prototype_names());
    }
    r
}

/// The functions that take one name, whose parameters natives with a name take.
pub open spec fn name_prototype_names() -> Seq<Seq<char>> {
    seq!["NameToString"@, "IsNameValid"@, "StringToName"@]
}

pub fn name_prototypes() -> (r: Vec<&'static str>)
    ensures
        lits_view(r@) == name_prototype_names(),
{
    let r: Vec<&'static str> = vec!["NameToString", "IsNameValid", "StringToName"];
    proof {
        assert(lits_view(r@) =~= name_prototype_names());
    }
    r
}

/// The functions whose layout the trial registration takes, the best first.
pub open spec fn smoke_prototype_names() -> Seq<Seq<char>> {
    prototype_names() + seq!["TanF"@, "AsinF"@]
}

pub fn smoke_prototypes() -> (r: Vec<&'static str>)
    ensures
        lits_view(r@) == smoke_prototype_names(),
{
    let r: Vec<&'static str> = vec!["Cos", "Sin", "AbsF", "SqrtF", "LogF", "TanF", "AsinF"];
    proof {
        assert(lits_view(r@) =~= smoke_prototype_names());
    }
    r
}

/// What a registration of all natives comes to.
pub enum RegisterPlan {
    /// They are registered.
    Already,
    /// The engine is not ready; it is tried again later.
    Later,
    /// They are registered now, with the layout of this function, and the
    /// parameters of that one where they take a name.
    Now { proto: u64, name_proto: Option<u64>, natives: Vec<Native> },
}

/// Plans the registration of all natives. `protos` and `name_protos` are where the
/// engine finds the functions of `prototypes` and `name_prototypes`, in order. It happens once;
/// where the engine is not ready it is tried again.
pub fn register_all(
    registered: &mut bool,
    registry: bool,
    protos: &Vec<u64>,
    name_protos: &Vec<u64>,
    vr: bool,
) -> (r: RegisterPlan)
    ensures
        match r {
            RegisterPlan::Already => *old(registered) && *final(registered),
            RegisterPlan::Later => !*old(registered) && !*final(registered) && (!registry
                || first_sane(protos@, 0) is None),
            RegisterPlan::Now { proto, name_proto, natives } => {
                &&& !*old(registered)
                &&& *final(registered)
                &&& registry
                &&& first_sane(protos@, 0) == Some(proto)
                &&& name_proto == first_sane(name_protos@, 0)
                &&& natives_view(natives@) == all_natives(vr, name_proto is Some)
            },
        },
{
    if *registered {
        return RegisterPlan::Already;
    }
    if !registry {
        return RegisterPlan::Later;
    }
    match pick_sane(protos) {
        None => RegisterPlan::Later,
        Some(proto) => {
            *registered = true;
            let name_proto: Option<u64> = pick_sane(name_protos);
            let natives = native_list(vr, name_proto.is_some());
            RegisterPlan::Now { proto, name_proto, natives }
        },
    }
}

// ---- parameters ------------------------------------------------------------

/// An image of a function with its list of parameters set.
pub open spec fn with_params(image: Seq<u8>, entries: u64, count: u32) -> Seq<u8> {
    placed(placed(image, 0x28, le_bytes(entries as nat, 8)), 0x30, le_bytes(count as nat, 4))
}

/// Sets the list of parameters in the image of a function.
pub fn set_params(image: &mut Vec<u8>, entries: u64, count: u32)
    requires
        old(image)@.len() >= 0xC0,
    ensures
        final(image)@ == with_params(old(image)@, entries, count),
        final(image)@.len() == old(image)@.len(),
{
    place_number(image, 0x28, entries, 8);
    place_number(image, 0x30, count as u64, 4);
}

/// Gives the image of a function the parameters of another one, where that is a
/// pointer.
pub fn register_global_argful(m: &Memory, image: &mut Vec<u8>, proto: u64)
    requires
        old(image)@.len() >= 0xC0,
    ensures
        final(image)@ == (if is_sane(proto as int) {
            with_params(
                old(image)@,
                word_or_zero(m@, proto as int + 0x28, 8) as u64,
                word_or_zero(m@, proto as int + 0x30, 4) as u32,
            )
        } else {
            old(image)@
        }),
{
    if sane(proto) {
        let entries: u64 = m.u64_or_zero(proto as u128 + 0x28);
        let count: u32 = m.u32_or_zero(proto as u128 + 0x30);
        set_params(image, entries, count);
    }
}

/// The property of a parameter of a function, to be used for another function.
pub open spec fn borrowed(m: Seq<RegionV>, proto: u64, i: u32) -> nat {
    let entries = word_or_zero(m, proto as int + 0x28, 8);
    if entries == 0 {
        0
    } else {
        word_or_zero(m, entries + 8 * i, 8)
    }
}

/// A list of parameters put together from parameters of other functions.
pub fn compose_params(m: &Memory, specs: &Vec<(u64, u32)>) -> (r: Vec<u64>)
    ensures
        r@.len() == specs@.len(),
        forall|i: int|
            0 <= i < r@.len() ==> #[trigger] r@[i] == borrowed(m@, specs@[i].0, specs@[i].1),
{
    let mut out: Vec<u64> = Vec::new();
    let mut i: usize = 0;
    while i < specs.len()
        invariant
            i <= specs@.len(),
            out@.len() == i,
            forall|k: int|
                0 <= k < i ==> #[trigger] out@[k] == borrowed(m@, specs@[k].0, specs@[k].1),
        decreases specs@.len() - i,
    {
        let (proto, idx) = specs[i];
        let entries: u64 = m.u64_or_zero(proto as u128 + 0x28);
        let p: u64 = if entries == 0 {
            0
        } else {
            m.u64_or_zero(entries as u128 + 8 * (idx as u128))
        };
        out.push(p);
        i += 1;
    }
    out
}

/// Can a native with these types be registered, where the list of its parameters
/// was made at `entries`?
pub fn register_argful_by_types(entries: u64, types: usize) -> (r: bool)
    ensures
        r == !(entries == 0 && types > 0),
{
    !(entries == 0 && types > 0)
}

/// Did a registration succeed: was the function made, could the engine be asked,
/// and does the name lead to a function now?
pub fn register_global(made: u64, slot: u64, back: u64) -> (r: bool)
    ensures
        r == (made != 0 && is_sane(slot as int) && is_sane(back as int)),
{
    made != 0 && sane(slot) && sane(back)
}

// ---- reports ---------------------------------------------------------------

/// What is said of the trial registration. `protos` are the functions whose
/// layout may be taken; `ok` says whether the registration succeeded, `back` is
/// the function that its name then leads to, and `ret` the first byte of what a
/// call of it returned.
pub open spec fn smoke_text(protos: Seq<u64>, ok: bool, back: u64, ret: Option<u8>) -> Seq<char> {
    if first_sane(protos, 0) is None {
        "[reg] nenhum global nativo de protótipo (Cos/Sin/...) resolveu — não dá p/ clonar a vtable de CGlobalFunction"@
    } else if !ok {
        "[reg] smoke BlackwallPing: registro FALHOU ✗"@
    } else if !is_sane(back as int) {
        "[reg] smoke: ENTROU no RTTI ✓ mas re-resolve falhou — não dá p/ chamar"@
    } else {
        match ret {
            Some(b) => "[reg] smoke BlackwallPing: RTTI ✓ + HANDLER RODOU ✓ (Bool retornado = "@
                + dec(b as nat)
                + "). Routing-hook OK — ver '>>> BlackwallPing chamado' no log."@,
            None => "[reg] smoke: RTTI ✓ mas call_func não completou — ver log (handler pode não ter rodado)"@,
        }
    }
}

/// The report on the trial registration.
pub fn register_smoke(protos: &Vec<u64>, ok: bool, back: u64, ret: Option<u8>) -> (r: String)
    ensures
        r@ == smoke_text(protos@, ok, back, ret),
{
    if pick_sane(protos).is_none() {
        return "[reg] nenhum global nativo de protótipo (Cos/Sin/...) resolveu — não dá p/ clonar a vtable de CGlobalFunction".to_owned();
    }
    if !ok {
        return "[reg] smoke BlackwallPing: registro FALHOU ✗".to_owned();
    }
    if !sane(back) {
        return "[reg] smoke: ENTROU no RTTI ✓ mas re-resolve falhou — não dá p/ chamar".to_owned();
    }
    match ret {
        Some(b) => {
            let mut out: Vec<char> = Vec::new();
            push_lit(
                &mut out,
                "[reg] smoke BlackwallPing: RTTI ✓ + HANDLER RODOU ✓ (Bool retornado = ",
            );
            push_dec(&mut out, b as u128);
            push_lit(&mut out, "). Routing-hook OK — ver '>>> BlackwallPing chamado' no log.");
            proof {
                assert(out@ =~= smoke_text(protos@, ok, back, ret));
            }
            string_of(out.as_slice())
        },
        None => "[reg] smoke: RTTI ✓ mas call_func não completou — ver log (handler pode não ter rodado)".to_owned(),
    }
}

pub open spec fn said(b: bool) -> Seq<char> {
    if b {
        "true"@
    } else {
        "false"@
    }
}

/// What is said of the two methods of the version class, which are added where
/// there is a method whose layout can be taken.
pub open spec fn facade_text(proto: bool, version: bool, require: bool) -> Seq<char> {
    if !proto {
        "[reg] sem protótipo de método (AddGodMode não resolveu)"@
    } else {
        "[reg] Codeware.Version="@ + said(version) + " Codeware.Require="@ + said(require)
            + " (precisa do .reds do Codeware carregado p/ a classe existir)"@
    }
}

/// The report on the methods of the version class.
pub fn register_codeware_facade(proto: bool, version: bool, require: bool) -> (r: String)
    ensures
        r@ == facade_text(proto, version, require),
{
    if !proto {
        return "[reg] sem protótipo de método (AddGodMode não resolveu)".to_owned();
    }
    let mut out: Vec<char> = Vec::new();
    push_lit(&mut out, "[reg] Codeware.Version=");
    push_lit(
        &mut out,
        if version {
            "true"
        } else {
            "false"
        },
    );
    push_lit(&mut out, " Codeware.Require=");
    push_lit(
        &mut out,
        if require {
            "true"
        } else {
            "false"
        },
    );
    push_lit(&mut out, " (precisa do .reds do Codeware carregado p/ a classe existir)");
    proof {
        assert(out@ =~= facade_text(proto, version, require));
    }
    string_of(out.as_slice())
}

// ---- checks ----------------------------------------------------------------

/// Tries the growth of an array of pointers on one that is full: the old entries
/// stay, the new one is behind them, and the buffer is the new one.
pub fn regmethod_selftest(old_buffer: u64, new_buffer: u64) -> (r: bool)
    requires
        old_buffer != 0,
    ensures
        r == (new_buffer != 0 && new_buffer != old_buffer),
{
    let mut slots: Vec<u64> = Vec::new();
    slots.push(0xA1A1);
    slots.push(0xB2B2);
    let mut arr = DynArray { buffer: old_buffer, cap: 2, size: 2, slots };
    let ghost before = arr@;
    let slot = dynarray_push_ptr(&mut arr, 0xC3C3, new_buffer);
    let at: bool = match slot {
        Some(s) => s == 2,
        None => false,
    };
    if !at {
        return false;
    }
    proof {
        assert(before =~= seq![0xA1A1u64, 0xB2B2u64]);
        assert(arr@ == before.push(0xC3C3));
        assert(arr@[0] == arr.slots@[0]);
        assert(arr@[1] == arr.slots@[1]);
        assert(arr@[2] == arr.slots@[2]);
    }
    arr.buffer != old_buffer && arr.cap >= 3 && arr.size == 3 && arr.slots[0] == 0xA1A1
        && arr.slots[1] == 0xB2B2 && arr.slots[2] == 0xC3C3
}

/// The line of a word in the report on the layout of a function.
pub open spec fn probe_line(m: Seq<RegionV>, func: int, short: u64, i: nat) -> Seq<char> {
    let v = word_or_zero(m, func + 8 * i, 8);
    "  +"@ + hex_literal(8 * i, 2) + ": "@ + hex_literal(v, 16) + (if i == 0 {
        " <- vtable (clonar esta)"@
    } else {
        Seq::empty()
    }) + (if v == short {
        " <- shortName(CName) casou"@
    } else {
        Seq::empty()
    }) + (if readable(m, v as int, 8) && i != 0 {
        " PTR(handler?)"@
    } else {
        Seq::empty()
    }) + "\n"@
}

/// The first `n` lines of the report.
pub open spec fn probe_lines(m: Seq<RegionV>, func: int, short: u64, n: nat) -> Seq<char>
    decreases n,
{
    if n == 0 {
        Seq::empty()
    } else {
        probe_lines(m, func, short, (n - 1) as nat) + probe_line(m, func, short, (n - 1) as nat)
    }
}

fn push_probe_line(out: &mut Vec<char>, m: &Memory, func: u64, short: u64, i: u64)
    requires
        i < 24,
    ensures
        final(out)@ == old(out)@ + probe_line(m@, func as int, short, i as nat),
{
    let ghost before = out@;
    let v: u64 = m.u64_or_zero(func as u128 + 8 * (i as u128));
    push_lit(out, "  +");
    push_hex_literal(out, 8 * i, 2);
    push_lit(out, ": ");
    push_hex_literal(out, v, 16);
    let ghost head = out@;
    if i == 0 {
        push_lit(out, " <- vtable (clonar esta)");
    }
    let ghost t1 = if i == 0 {
        " <- vtable (clonar esta)"@
    } else {
        Seq::empty()
    };
    proof {
        assert(out@ =~= head + t1);
    }
    if v == short {
        push_lit(out, " <- shortName(CName) casou");
    }
    let ghost t2 = if v == short {
        " <- shortName(CName) casou"@
    } else {
        Seq::empty()
    };
    proof {
        assert(out@ =~= head + t1 + t2);
    }
    let ptr: bool = m.is_readable(v as u128, 8);
    if ptr && i != 0 {
        push_lit(out, " PTR(handler?)");
    }
    let ghost t3 = if ptr && i != 0 {
        " PTR(handler?)"@
    } else {
        Seq::empty()
    };
    proof {
        assert(out@ =~= head + t1 + t2 + t3);
    }
    push_lit(out, "\n");
    proof {
        assert(out@ =~= before + probe_line(m@, func as int, short, i as nat));
    }
}

/// The report on the layout of a native function: its words, and what they may
/// be. `short` is the hash of its name.
pub fn probe(m: &Memory, func: u64, short: u64) -> (r: Option<String>)
    ensures
        match r {
            Some(t) => readable(m@, func as int, 0xC0) && t@ == probe_lines(
                m@,
                func as int,
                short,
                24,
            ),
            None => !readable(m@, func as int, 0xC0),
        },
{
    if !m.is_readable(func as u128, 0xC0) {
        return None;
    }
    let mut out: Vec<char> = Vec::new();
    let mut i: u64 = 0;
    while i < 24
        invariant
            i <= 24,
            out@ == probe_lines(m@, func as int, short, i as nat),
        decreases 24 - i,
    {
        push_probe_line(&mut out, m, func, short, i);
        i += 1;
    }
    Some(string_of(out.as_slice()))
}

} // verus!
