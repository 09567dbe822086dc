//! The switches of the start: small files whose presence or content turns things
//! on, and the levers that move the game past its first screens.
use vstd::prelude::*;

use crate::hashes::{id_of, tweak_db_id};
use crate::memory::{readable, word_or_zero, Memory, RegionV};
use crate::numbers::{parse_signed, parse_unsigned, signed_within, unsigned_within};
use crate::text::{chars_of, dec, is_lit, push_dec, string_of, trim, trimmed};

verus! {

// ---- switches --------------------------------------------------------------

/// Does the game go on to the last save by itself? Not after a start that never
/// came to its end.
pub fn auto_continue(stale_start: bool, marker: bool) -> (r: bool)
    ensures
        r == (!stale_start && marker),
{
    !stale_start && marker
}

/// Is a switch on that has a file for this session and one that stays?
pub fn switched_on(session: bool, lasting: bool) -> (r: bool)
    ensures
        r == (session || lasting),
{
    session || lasting
}

/// Is the picture of the start taken away when the first screen goes? It stays
/// where the game goes on by itself.
pub fn splash_ends_at_menu(session: bool, lasting: bool) -> (r: bool)
    ensures
        r == !(session || lasting),
{
    !(session || lasting)
}

pub open spec fn text_view(t: Option<String>) -> Option<Seq<char>> {
    match t {
        Some(s) => Some(s@),
        None => None,
    }
}

/// The state that a file sets: one where it holds `1`, else zero.
pub open spec fn flag_in(t: Option<Seq<char>>) -> int {
    match t {
        Some(s) => if trimmed(s) == "1"@ {
            1
        } else {
            0
        },
        None => 0,
    }
}

pub fn marker_flag(t: &Option<String>) -> (r: u64)
    ensures
        r == flag_in(text_view(*t)),
{
    match t {
        Some(s) => {
            let v = chars_of(s.as_str());
            if is_lit(trim(v.as_slice()), "1") {
                1
            } else {
                0
            }
        },
        None => 0,
    }
}

/// The number that a file sets; zero where it holds none.
pub open spec fn signed_in(t: Option<Seq<char>>, min: int, max: int) -> int {
    match t {
        Some(s) => match signed_within(trimmed(s), min, max) {
            Some(n) => n,
            None => 0,
        },
        None => 0,
    }
}

pub fn marker_signed(t: &Option<String>) -> (r: i64)
    ensures
        r == signed_in(text_view(*t), i64::MIN as int, i64::MAX as int),
{
    match t {
        Some(s) => {
            let v = chars_of(s.as_str());
            match parse_signed(trim(v.as_slice()), i64::MIN, i64::MAX) {
                Some(n) => n,
                None => 0,
            }
        },
        None => 0,
    }
}

/// The number without a sign that a file sets; zero where it holds none.
pub open spec fn unsigned_in(t: Option<Seq<char>>) -> nat {
    match t {
        Some(s) => match unsigned_within(trimmed(s), 10, u64::MAX as nat) {
            Some(n) => n,
            None => 0,
        },
        None => 0,
    }
}

pub fn marker_unsigned(t: &Option<String>) -> (r: u64)
    ensures
        r == unsigned_in(text_view(*t)),
{
    match t {
        Some(s) => {
            let v = chars_of(s.as_str());
            match parse_unsigned(trim(v.as_slice()), 10, u64::MAX) {
                Some(n) => n,
                None => 0,
            }
        },
        None => 0,
    }
}

// ---- modes -----------------------------------------------------------------

/// A mode within its range.
pub open spec fn clamped(m: int) -> int {
    if m < 0 {
        0
    } else if m > 3 {
        3
    } else {
        m
    }
}

fn clamp(m: i32) -> (r: i32)
    ensures
        r == clamped(m as int),
        0 <= r <= 3,
{
    if m < 0 {
        0
    } else if m > 3 {
        3
    } else {
        m
    }
}

/// The mode that a file sets.
pub fn cpvr_read_mode(t: &Option<String>) -> (r: i32)
    ensures
        r == clamped(signed_in(text_view(*t), i32::MIN as int, i32::MAX as int)),
        0 <= r <= 3,
{
    match t {
        Some(s) => {
            let v = chars_of(s.as_str());
            match parse_signed(trim(v.as_slice()), i32::MIN as i64, i32::MAX as i64) {
                Some(n) => clamp(n as i32),
                None => 0,
            }
        },
        None => 0,
    }
}

/// What is written for a mode: the text of its file, and whether the file that
/// only says on or off is there.
pub fn cpvr_write_mode(mode: i32) -> (r: (String, bool))
    ensures
        r.0@ == dec(clamped(mode as int) as nat),
        r.1 == (clamped(mode as int) > 0),
{
    let m: i32 = clamp(mode);
    let mut out: Vec<char> = Vec::new();
    push_dec(&mut out, m as u128);
    proof {
        assert(out@ =~= dec(m as nat));
    }
    (string_of(out.as_slice()), m > 0)
}

/// The mode after this one.
pub fn cpvr_mode_next(mode: i32) -> (r: i32)
    requires
        0 <= mode <= 3,
    ensures
        r == clamped(mode + 1),
{
    clamp(mode + 1)
}

/// The mode before this one.
pub fn cpvr_mode_prev(mode: i32) -> (r: i32)
    requires
        0 <= mode <= 3,
    ensures
        r == clamped(mode - 1),
{
    clamp(mode - 1)
}

/// A mode that was written is read back.
pub proof fn written_mode_reads_back(mode: int)
    ensures
        clamped(
            signed_in(Some(dec(clamped(mode) as nat)), i32::MIN as int, i32::MAX as int),
        ) == clamped(mode),
{
    let m = clamped(mode);
    let t = dec(m as nat);
    reveal_with_fuel(dec, 2);
    reveal_with_fuel(crate::numbers::digits_value, 3);
    reveal_with_fuel(crate::text::trimmed_start, 2);
    reveal_with_fuel(crate::text::trimmed_end, 2);
    assert(t.len() == 1);
    assert(t[0] == crate::text::digit_of(m as nat));
    assert(trimmed(t) == t);
}

/// Is a line of a busy poller due: the first, and every 180th?
pub fn log_due(n: u32) -> (r: bool)
    ensures
        r == (n == 0 || n as int % 180 == 0),
{
    n == 0 || n % 180 == 0
}

// ---- clothes ---------------------------------------------------------------

/// The name of a place for clothes.
pub open spec fn area_name_of(area: i32) -> Seq<char> {
    if area == 1 {
        "OuterChest"@
    } else if area == 2 {
        "InnerChest"@
    } else if area == 3 {
        "Legs"@
    } else if area == 4 {
        "Feet"@
    } else if area == 5 {
        "Head"@
    } else if area == 6 {
        "Face"@
    } else {
        "?"@
    }
}

pub fn area_name(area: i32) -> (r: &'static str)
    ensures
        r@ == area_name_of(area),
{
    match area {
        1 => "OuterChest",
        2 => "InnerChest",
        3 => "Legs",
        4 => "Feet",
        5 => "Head",
        6 => "Face",
        _ => "?",
    }
}

/// The name of a piece of clothing that is known by its id.
pub open spec fn item_name_of(id: u64) -> Seq<char> {
    if id == id_of("Items.GOG_DLC_Jacket_Legendary"@) {
        "Items.GOG_DLC_Jacket_Legendary"@
    } else if id == id_of("Items.Fixer_01_Set_TShirt"@) {
        "Items.Fixer_01_Set_TShirt"@
    } else if id == id_of("Items.Coat_04_rich_02_Crafting"@) {
        "Items.Coat_04_rich_02_Crafting"@
    } else {
        "(outro/vazio)"@
    }
}

pub fn item_name(id: u64) -> (r: &'static str)
    ensures
        r@ == item_name_of(id),
{
    if id == tweak_db_id("Items.GOG_DLC_Jacket_Legendary") {
        "Items.GOG_DLC_Jacket_Legendary"
    } else if id == tweak_db_id("Items.Fixer_01_Set_TShirt") {
        "Items.Fixer_01_Set_TShirt"
    } else if id == tweak_db_id("Items.Coat_04_rich_02_Crafting") {
        "Items.Coat_04_rich_02_Crafting"
    } else {
        "(outro/vazio)"
    }
}

// ---- levers ----------------------------------------------------------------

/// The context of the input, by way of the state machine; zero where any step
/// leads nowhere.
pub open spec fn input_context(m: Seq<RegionV>, sm: u64) -> nat {
    let a = word_or_zero(m, sm as int + 0x70, 8);
    let b = word_or_zero(m, a as int + 0x288, 8);
    let c = word_or_zero(m, b as int + 0x18, 8);
    if a == 0 || b == 0 || c == 0 {
        0
    } else {
        word_or_zero(m, c as int + 0x1b0, 8)
    }
}

pub fn deref_input_ctx(m: &Memory, sm: u64) -> (r: u64)
    ensures
        r == input_context(m@, sm),
{
    let a: u64 = m.u64_or_zero(sm as u128 + 0x70);
    if a == 0 {
        return 0;
    }
    let b: u64 = m.u64_or_zero(a as u128 + 0x288);
    if b == 0 {
        return 0;
    }
    let c: u64 = m.u64_or_zero(b as u128 + 0x18);
    if c == 0 {
        return 0;
    }
    m.u64_or_zero(c as u128 + 0x1b0)
}

/// What is read of the state machine of the start.
#[derive(Clone, Copy, PartialEq, Eq, Structural, Debug)]
pub struct StartState {
    pub state: u8,
    pub phase: u8,
    pub guard: u8,
}

/// The state machine, where it is there and can be read.
pub open spec fn start_state(m: Seq<RegionV>, sm: u64) -> Option<StartState> {
    if sm == 0 || !readable(m, sm as int, 0x108) {
        None
    } else {
        Some(
            StartState {
                state: word_or_zero(m, sm as int + 0xd4, 1) as u8,
                phase: word_or_zero(m, sm as int + 0x84, 1) as u8,
                guard: word_or_zero(m, sm as int + 0xe8, 1) as u8,
            },
        )
    }
}

pub fn read_start_state(m: &Memory, sm: u64) -> (r: Option<StartState>)
    ensures
        r == start_state(m@, sm),
{
    if sm == 0 || !m.is_readable(sm as u128, 0x108) {
        return None;
    }
    let state: u8 = match m.read_u8(sm as u128 + 0xd4) {
        Some(b) => b,
        None => 0,
    };
    let phase: u8 = match m.read_u8(sm as u128 + 0x84) {
        Some(b) => b,
        None => 0,
    };
    let guard: u8 = match m.read_u8(sm as u128 + 0xe8) {
        Some(b) => b,
        None => 0,
    };
    Some(StartState { state, phase, guard })
}

/// May the start be moved on: the machine rests at the first screen, nothing
/// guards it, and its input can be reached?
pub open spec fn at_rest(m: Seq<RegionV>, sm: u64) -> bool {
    let ctx = input_context(m, sm);
    &&& start_state(m, sm) == Some(StartState { state: 1, phase: 1, guard: 0 })
    &&& ctx != 0
    &&& readable(m, ctx as int, 0x573)
}

/// Moves the start on: says whether the state is now to be written as 2. That
/// happens once, where the switch is on and the machine is at rest; where it is
/// not, the one time is not used up.
pub fn fire_lever_direct(m: &Memory, on: bool, sm: u64, done: &mut bool) -> (r: bool)
    ensures
        r == (on && at_rest(m@, sm) && !*old(done)),
        *final(done) == (*old(done) || r),
{
    if !on {
        return false;
    }
    let st: StartState = match read_start_state(m, sm) {
        None => {
            return false;
        },
        Some(s) => s,
    };
    if st.state != 1 || st.phase != 1 || st.guard != 0 {
        return false;
    }
    let ctx: u64 = deref_input_ctx(m, sm);
    if ctx == 0 || !m.is_readable(ctx as u128, 0x573) || *done {
        return false;
    }
    *done = true;
    true
}

/// Calls the game's own way on: says whether it is called. That happens once,
/// where the switch is on and the machine rests in a state from which it may.
pub fn proceed(m: &Memory, on: bool, sm: u64, done: &mut bool) -> (r: bool)
    ensures
        r == (on && !*old(done) && match start_state(m@, sm) {
            Some(s) => s.phase == 1 && (s.state == 1 || s.state == 4) && s.guard == 0,
            None => false,
        }),
        *final(done) == (*old(done) || r),
{
    let st: StartState = match read_start_state(m, sm) {
        None => {
            return false;
        },
        Some(s) => s,
    };
    if !on || st.phase != 1 || !(st.state == 1 || st.state == 4) || st.guard != 0 || *done {
        return false;
    }
    *done = true;
    true
}

/// How the lever is left after a number of pulls: each with the memory, the
/// switch and the machine at that time.
pub open spec fn pulls(history: Seq<(Seq<RegionV>, bool, u64)>) -> (int, bool)
    decreases history.len(),
{
    if history.len() == 0 {
        (0, false)
    } else {
        let (n, done) = pulls(history.drop_last());
        let (m, on, sm) = history.last();
        if on && at_rest(m, sm) && !done {
            (n + 1, true)
        } else {
            (n, done)
        }
    }
}

/// Whatever happens, the lever moves the start on at most once.
pub proof fn lever_fires_at_most_once(history: Seq<(Seq<RegionV>, bool, u64)>)
    ensures
        pulls(history).0 == (if pulls(history).1 {
            1int
        } else {
            0int
        }),
    decreases history.len(),
{
    if history.len() > 0 {
        lever_fires_at_most_once(history.drop_last());
    }
}

// ---- versions --------------------------------------------------------------

/// Is the version on offer at least the one that is asked for?
pub open spec fn at_least(have: (u32, u32, u32), want: (u32, u32, u32)) -> bool {
    have.0 > want.0 || (have.0 == want.0 && (have.1 > want.1 || (have.1 == want.1 && have.2
        >= want.2)))
}

pub fn require(have: (u32, u32, u32), want: (u32, u32, u32)) -> (r: bool)
    ensures
        r == at_least(have, want),
{
    have.0 > want.0 || (have.0 == want.0 && (have.1 > want.1 || (have.1 == want.1 && have.2
        >= want.2)))
}

/// A version satisfies itself and what it satisfies satisfies: the order is total
/// and transitive.
pub proof fn versions_are_ordered(a: (u32, u32, u32), b: (u32, u32, u32), c: (u32, u32, u32))
    ensures
        at_least(a, a),
        at_least(a, b) || at_least(b, a),
        at_least(a, b) && at_least(b, c) ==> at_least(a, c),
        at_least(a, b) && at_least(b, a) ==> a == b,
{
}

} // verus!
