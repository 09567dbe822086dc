//! Which handler answers which native: from the function that a script calls to
//! the native's place in the list, its name, and its answer.
use vstd::prelude::*;

use crate::answers::{
    bits_answer, bits_answer_of, hash_answer, hash_answer_of, length_answer, made_text, name_answer,
    number_answer, number_answer_of, text_answer, text_at, value_at, BitOp, HashOp, TextOp,
};
use crate::calls::string_image;
use crate::cursor::le_bytes;
use crate::forge::{registered_functions_are_routed, route_of, Routes};
use crate::natives::{natives_view, Native};
use crate::text::{chars_of, is_lit};

verus! {

// ---- handlers --------------------------------------------------------------

/// What answers a native. Those that reach the game or its files are answered by
/// the function of their own name.
#[derive(Clone, Copy, PartialEq, Eq, Structural, Debug)]
pub enum Handler {
    Bits { op: BitOp, width: u8 },
    Hash(HashOp),
    Number { signed: bool, width: u8 },
    Length,
    Text(TextOp),
    NameHash,
    Own,
}

/// The handler of the native with that name.
pub open spec fn handler_of(name: Seq<char>) -> Handler {
    if name == "BitTest8"@ {
        Handler::Bits { op: BitOp::Test, width: 1 }
    } else if name == "BitSet8"@ {
        Handler::Bits { op: BitOp::Assign, width: 1 }
    } else if name == "BitShiftL8"@ {
        Handler::Bits { op: BitOp::ShiftLeft, width: 1 }
    } else if name == "BitShiftR8"@ {
        Handler::Bits { op: BitOp::ShiftRight, width: 1 }
    } else if name == "BitTest16"@ {
        Handler::Bits { op: BitOp::Test, width: 2 }
    } else if name == "BitSet16"@ {
        Handler::Bits { op: BitOp::Assign, width: 2 }
    } else if name == "BitShiftL16"@ {
        Handler::Bits { op: BitOp::ShiftLeft, width: 2 }
    } else if name == "BitShiftR16"@ {
        Handler::Bits { op: BitOp::ShiftRight, width: 2 }
    } else if name == "BitTest32"@ {
        Handler::Bits { op: BitOp::Test, width: 4 }
    } else if name == "BitSet32"@ {
        Handler::Bits { op: BitOp::Assign, width: 4 }
    } else if name == "BitShiftL32"@ {
        Handler::Bits { op: BitOp::ShiftLeft, width: 4 }
    } else if name == "BitShiftR32"@ {
        Handler::Bits { op: BitOp::ShiftRight, width: 4 }
    } else if name == "BitTest64"@ {
        Handler::Bits { op: BitOp::Test, width: 8 }
    } else if name == "BitSet64"@ {
        Handler::Bits { op: BitOp::Assign, width: 8 }
    } else if name == "BitShiftL64"@ {
        Handler::Bits { op: BitOp::ShiftLeft, width: 8 }
    } else if name == "BitShiftR64"@ {
        Handler::Bits { op: BitOp::ShiftRight, width: 8 }
    } else if name == "FNV1a64"@ {
        Handler::Hash(HashOp::Fnv64)
    } else if name == "FNV1a32"@ {
        Handler::Hash(HashOp::Fnv32)
    } else if name == "Murmur3"@ {
        Handler::Hash(HashOp::Murmur)
    } else if name == "ParseInt8"@ {
        Handler::Number { signed: true, width: 1 }
    } else if name == "ParseInt16"@ {
        Handler::Number { signed: true, width: 2 }
    } else if name == "ParseInt32"@ {
        Handler::Number { signed: true, width: 4 }
    } else if name == "ParseInt64"@ {
        Handler::Number { signed: true, width: 8 }
    } else if name == "ParseUint8"@ {
        Handler::Number { signed: false, width: 1 }
    } else if name == "ParseUint16"@ {
        Handler::Number { signed: false, width: 2 }
    } else if name == "ParseUint32"@ {
        Handler::Number { signed: false, width: 4 }
    } else if name == "ParseUint64"@ {
        Handler::Number { signed: false, width: 8 }
    } else if name == "UTF8StrLen"@ {
        Handler::Length
    } else if name == "UTF8StrLeft"@ {
        Handler::Text(TextOp::Left)
    } else if name == "UTF8StrRight"@ {
        Handler::Text(TextOp::Right)
    } else if name == "UTF8StrMid"@ {
        Handler::Text(TextOp::Mid)
    } else if name == "UTF8StrLower"@ {
        Handler::Text(TextOp::Lower)
    } else if name == "UTF8StrUpper"@ {
        Handler::Text(TextOp::Upper)
    } else if name == "HashToName"@ {
        Handler::NameHash
    } else if name == "NameToHash"@ {
        Handler::NameHash
    } else if name == "HashToCRUID"@ {
        Handler::NameHash
    } else if name == "CRUIDToHash"@ {
        Handler::NameHash
    } else if name == "HashToNodeRef"@ {
        Handler::NameHash
    } else if name == "NodeRefToHash"@ {
        Handler::NameHash
    } else {
        Handler::Own
    }
}

pub fn handler(name: &str) -> (r: Handler)
    ensures
        r == handler_of(name@),
{
    let chars = chars_of(name);
    let v = chars.as_slice();
    if is_lit(v, "BitTest8") {
        Handler::Bits { op: BitOp::Test, width: 1 }
    } else if is_lit(v, "BitSet8") {
        Handler::Bits { op: BitOp::Assign, width: 1 }
    } else if is_lit(v, "BitShiftL8") {
        Handler::Bits { op: BitOp::ShiftLeft, width: 1 }
    } else if is_lit(v, "BitShiftR8") {
        Handler::Bits { op: BitOp::ShiftRight, width: 1 }
    } else if is_lit(v, "BitTest16") {
        Handler::Bits { op: BitOp::Test, width: 2 }
    } else if is_lit(v, "BitSet16") {
        Handler::Bits { op: BitOp::Assign, width: 2 }
    } else if is_lit(v, "BitShiftL16") {
        Handler::Bits { op: BitOp::ShiftLeft, width: 2 }
    } else if is_lit(v, "BitShiftR16") {
        Handler::Bits { op: BitOp::ShiftRight, width: 2 }
    } else if is_lit(v, "BitTest32") {
        Handler::Bits { op: BitOp::Test, width: 4 }
    } else if is_lit(v, "BitSet32") {
        Handler::Bits { op: BitOp::Assign, width: 4 }
    } else if is_lit(v, "BitShiftL32") {
        Handler::Bits { op: BitOp::ShiftLeft, width: 4 }
    } else if is_lit(v, "BitShiftR32") {
        Handler::Bits { op: BitOp::ShiftRight, width: 4 }
    } else if is_lit(v, "BitTest64") {
        Handler::Bits { op: BitOp::Test, width: 8 }
    } else if is_lit(v, "BitSet64") {
        Handler::Bits { op: BitOp::Assign, width: 8 }
    } else if is_lit(v, "BitShiftL64") {
        Handler::Bits { op: BitOp::ShiftLeft, width: 8 }
    } else if is_lit(v, "BitShiftR64") {
        Handler::Bits { op: BitOp::ShiftRight, width: 8 }
    } else if is_lit(v, "FNV1a64") {
        Handler::Hash(HashOp::Fnv64)
    } else if is_lit(v, "FNV1a32") {
        Handler::Hash(HashOp::Fnv32)
    } else if is_lit(v, "Murmur3") {
        Handler::Hash(HashOp::Murmur)
    } else if is_lit(v, "ParseInt8") {
        Handler::Number { signed: true, width: 1 }
    } else if is_lit(v, "ParseInt16") {
        Handler::Number { signed: true, width: 2 }
    } else if is_lit(v, "ParseInt32") {
        Handler::Number { signed: true, width: 4 }
    } else if is_lit(v, "ParseInt64") {
        Handler::Number { signed: true, width: 8 }
    } else if is_lit(v, "ParseUint8") {
        Handler::Number { signed: false, width: 1 }
    } else if is_lit(v, "ParseUint16") {
        Handler::Number { signed: false, width: 2 }
    } else if is_lit(v, "ParseUint32") {
        Handler::Number { signed: false, width: 4 }
    } else if is_lit(v, "ParseUint64") {
        Handler::Number { signed: false, width: 8 }
    } else if is_lit(v, "UTF8StrLen") {
        Handler::Length
    } else if is_lit(v, "UTF8StrLeft") {
        Handler::Text(TextOp::Left)
    } else if is_lit(v, "UTF8StrRight") {
        Handler::Text(TextOp::Right)
    } else if is_lit(v, "UTF8StrMid") {
        Handler::Text(TextOp::Mid)
    } else if is_lit(v, "UTF8StrLower") {
        Handler::Text(TextOp::Lower)
    } else if is_lit(v, "UTF8StrUpper") {
        Handler::Text(TextOp::Upper)
    } else if is_lit(v, "HashToName") {
        Handler::NameHash
    } else if is_lit(v, "NameToHash") {
        Handler::NameHash
    } else if is_lit(v, "HashToCRUID") {
        Handler::NameHash
    } else if is_lit(v, "CRUIDToHash") {
        Handler::NameHash
    } else if is_lit(v, "HashToNodeRef") {
        Handler::NameHash
    } else if is_lit(v, "NodeRefToHash") {
        Handler::NameHash
    } else {
        Handler::Own
    }
}

/// What a handler answers: the bytes of the result, nothing where a text is too
/// long for one, or what the function of that name answers.
pub enum Answer {
    Bytes(Vec<u8>),
    TooLong,
    Own,
}

pub enum AnswerV {
    Bytes(Seq<u8>),
    TooLong,
    Own,
}

impl View for Answer {
    type V = AnswerV;

    open spec fn view(&self) -> AnswerV {
        match self {
            Answer::Bytes(b) => AnswerV::Bytes(b@),
            Answer::TooLong => AnswerV::TooLong,
            Answer::Own => AnswerV::Own,
        }
    }
}

/// The answer of a handler to a call with these values and texts.
pub open spec fn answer_of(h: Handler, args: Seq<u64>, texts: Seq<Option<String>>) -> AnswerV {
    let s = text_at(texts, 0);
    match h {
        Handler::Bits { op, width } => AnswerV::Bytes(bits_answer_of(op, width, args)),
        Handler::Hash(op) => AnswerV::Bytes(hash_answer_of(op, s, args)),
        Handler::Number { signed, width } => AnswerV::Bytes(
            number_answer_of(signed, width, s, args),
        ),
        Handler::Length => AnswerV::Bytes(le_bytes(s.len(), 4)),
        Handler::Text(op) => match string_image(made_text(op, s, args)) {
            Some(b) => AnswerV::Bytes(b),
            None => AnswerV::TooLong,
        },
        Handler::NameHash => AnswerV::Bytes(le_bytes(value_at(args, 0, 0) as nat, 8)),
        Handler::Own => AnswerV::Own,
    }
}

pub fn answer(h: Handler, args: &Vec<u64>, texts: &Vec<Option<String>>) -> (r: Answer)
    ensures
        r@ == answer_of(h, args@, texts@),
{
    match h {
        Handler::Bits { op, width } => Answer::Bytes(bits_answer(op, width, args)),
        Handler::Hash(op) => Answer::Bytes(hash_answer(op, args, texts)),
        Handler::Number { signed, width } => Answer::Bytes(
            number_answer(signed, width, args, texts),
        ),
        Handler::Length => Answer::Bytes(length_answer(texts)),
        Handler::Text(op) => match text_answer(op, args, texts) {
            Some(b) => Answer::Bytes(b),
            None => Answer::TooLong,
        },
        Handler::NameHash => Answer::Bytes(name_answer(args)),
        Handler::Own => Answer::Own,
    }
}

// ---- routes ----------------------------------------------------------------

/// The routes of the first `n` natives, whose functions were made at these
/// addresses: each leads to the native's place in the list. A native for which no
/// function was made has none.
pub open spec fn routed(funcs: Seq<u64>, n: nat) -> Seq<(u64, u64)>
    decreases n,
{
    if n == 0 {
        Seq::empty()
    } else if funcs[n - 1] == 0 {
        routed(funcs, (n - 1) as nat)
    } else {
        routed(funcs, (n - 1) as nat).push((funcs[n - 1], (n - 1) as u64))
    }
}

/// Routes the natives whose functions were made at these addresses.
pub fn route_natives(funcs: &Vec<u64>) -> (r: Routes)
    ensures
        r@ == routed(funcs@, funcs@.len()),
{
    let mut out = Routes::new();
    let mut i: usize = 0;
    while i < funcs.len()
        invariant
            i <= funcs@.len(),
            out@ == routed(funcs@, i as nat),
        decreases funcs@.len() - i,
    {
        if funcs[i] != 0 {
            out.add_route(funcs[i], i as u64);
        }
        i += 1;
    }
    out
}

/// The answer to a call of a function: that of the native it was made for; none
/// where it is no native's.
pub fn answer_call(
    natives: &Vec<Native>,
    routes: &Routes,
    func: u64,
    args: &Vec<u64>,
    texts: &Vec<Option<String>>,
) -> (r: Option<(usize, Answer)>)
    ensures
        match r {
            Some((i, a)) => route_of(routes@, func) == Some(i as u64) && i < natives@.len() && a@
                == answer_of(handler_of(natives_view(natives@)[i as int].name), args@, texts@),
            None => match route_of(routes@, func) {
                Some(i) => i >= natives@.len(),
                None => true,
            },
        },
{
    match routes.route_native(func) {
        None => None,
        Some(i) => {
            let n: usize = natives.len();
            if i >= n as u64 {
                return None;
            }
            let at: usize = i as usize;
            proof {
                assert(natives_view(natives@)[at as int] == natives@[at as int]@);
            }
            Some((at, answer(handler(natives[at].name), args, texts)))
        },
    }
}

/// Every native is answered by its own handler: a call of the function that was
/// made for it leads to its place in the list.
pub proof fn natives_reach_their_handlers(funcs: Seq<u64>, i: int, n: nat)
    requires
        0 <= i < funcs.len(),
        n <= funcs.len() <= u64::MAX,
        funcs[i] != 0,
        forall|j: int| 0 <= j < funcs.len() && j != i ==> #[trigger] funcs[j] != funcs[i],
    ensures
        route_of(routed(funcs, n), funcs[i]) == (if i < n {
            Some(i as u64)
        } else {
            None
        }),
    decreases n,
{
    if n > 0 {
        natives_reach_their_handlers(funcs, i, (n - 1) as nat);
        if funcs[n - 1] != 0 {
            registered_functions_are_routed(
                routed(funcs, (n - 1) as nat),
                funcs[n - 1],
                (n - 1) as u64,
                funcs[i],
            );
        }
    }
}

} // verus!
