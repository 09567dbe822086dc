//! What the natives answer: which handler a name has, and what the handlers make of
//! their arguments.
use vstd::prelude::*;

use crate::answers::{
    bits_answer_of, low_signed, made_text, number_answer_of, number_image, value_at, BitOp, HashOp,
    TextOp,
};
use crate::calls::string_image;
use crate::cursor::{le_bytes, le_round_trip, lemma_le_bytes_len, pow256};
use crate::database_laws::stands;
use crate::handlers::{answer_of, handler_of, AnswerV, Handler};
use crate::kraken::{mismatch_size, packing_of, Packing};
use crate::numbers::{clamped_i64, clamped_u64, whole_number};
use crate::strutil::{left_of, lower_of, mid_of, right_of, upper_of};

verus! {

// ---- names -----------------------------------------------------------------

proof fn lemma_names_of_bits()
    ensures
        "BitTest8"@.len() == 8 && "BitTest8"@[0] == 'B' && "BitTest8"@[3] == 'T' && "BitTest8"@[5] == 's' && "BitTest8"@[6] == 't' && "BitTest8"@[7] == '8',
        "BitSet8"@.len() == 7 && "BitSet8"@[0] == 'B' && "BitSet8"@[3] == 'S' && "BitSet8"@[5] == 't' && "BitSet8"@[6] == '8',
        "BitShiftL8"@.len() == 10 && "BitShiftL8"@[0] == 'B' && "BitShiftL8"@[3] == 'S' && "BitShiftL8"@[5] == 'i' && "BitShiftL8"@[6] == 'f' && "BitShiftL8"@[7] == 't' && "BitShiftL8"@[8] == 'L' && "BitShiftL8"@[9] == '8',
        "BitShiftR8"@.len() == 10 && "BitShiftR8"@[0] == 'B' && "BitShiftR8"@[3] == 'S' && "BitShiftR8"@[5] == 'i' && "BitShiftR8"@[6] == 'f' && "BitShiftR8"@[7] == 't' && "BitShiftR8"@[8] == 'R' && "BitShiftR8"@[9] == '8',
        "BitTest16"@.len() == 9 && "BitTest16"@[0] == 'B' && "BitTest16"@[3] == 'T' && "BitTest16"@[5] == 's' && "BitTest16"@[6] == 't' && "BitTest16"@[7] == '1' && "BitTest16"@[8] == '6',
        "BitSet16"@.len() == 8 && "BitSet16"@[0] == 'B' && "BitSet16"@[3] == 'S' && "BitSet16"@[5] == 't' && "BitSet16"@[6] == '1' && "BitSet16"@[7] == '6',
        "BitShiftL16"@.len() == 11 && "BitShiftL16"@[0] == 'B' && "BitShiftL16"@[3] == 'S' && "BitShiftL16"@[5] == 'i' && "BitShiftL16"@[6] == 'f' && "BitShiftL16"@[7] == 't' && "BitShiftL16"@[8] == 'L' && "BitShiftL16"@[9] == '1',
        "BitShiftR16"@.len() == 11 && "BitShiftR16"@[0] == 'B' && "BitShiftR16"@[3] == 'S' && "BitShiftR16"@[5] == 'i' && "BitShiftR16"@[6] == 'f' && "BitShiftR16"@[7] == 't' && "BitShiftR16"@[8] == 'R' && "BitShiftR16"@[9] == '1',
        "BitTest32"@.len() == 9 && "BitTest32"@[0] == 'B' && "BitTest32"@[3] == 'T' && "BitTest32"@[5] == 's' && "BitTest32"@[6] == 't' && "BitTest32"@[7] == '3' && "BitTest32"@[8] == '2',
        "BitSet32"@.len() == 8 && "BitSet32"@[0] == 'B' && "BitSet32"@[3] == 'S' && "BitSet32"@[5] == 't' && "BitSet32"@[6] == '3' && "BitSet32"@[7] == '2',
        "BitShiftL32"@.len() == 11 && "BitShiftL32"@[0] == 'B' && "BitShiftL32"@[3] == 'S' && "BitShiftL32"@[5] == 'i' && "BitShiftL32"@[6] == 'f' && "BitShiftL32"@[7] == 't' && "BitShiftL32"@[8] == 'L' && "BitShiftL32"@[9] == '3',
        "BitShiftR32"@.len() == 11 && "BitShiftR32"@[0] == 'B' && "BitShiftR32"@[3] == 'S' && "BitShiftR32"@[5] == 'i' && "BitShiftR32"@[6] == 'f' && "BitShiftR32"@[7] == 't' && "BitShiftR32"@[8] == 'R' && "BitShiftR32"@[9] == '3',
        "BitTest64"@.len() == 9 && "BitTest64"@[0] == 'B' && "BitTest64"@[3] == 'T' && "BitTest64"@[5] == 's' && "BitTest64"@[6] == 't' && "BitTest64"@[7] == '6' && "BitTest64"@[8] == '4',
        "BitSet64"@.len() == 8 && "BitSet64"@[0] == 'B' && "BitSet64"@[3] == 'S' && "BitSet64"@[5] == 't' && "BitSet64"@[6] == '6' && "BitSet64"@[7] == '4',
        "BitShiftL64"@.len() == 11 && "BitShiftL64"@[0] == 'B' && "BitShiftL64"@[3] == 'S' && "BitShiftL64"@[5] == 'i' && "BitShiftL64"@[6] == 'f' && "BitShiftL64"@[7] == 't' && "BitShiftL64"@[8] == 'L' && "BitShiftL64"@[9] == '6',
        "BitShiftR64"@.len() == 11 && "BitShiftR64"@[0] == 'B' && "BitShiftR64"@[3] == 'S' && "BitShiftR64"@[5] == 'i' && "BitShiftR64"@[6] == 'f' && "BitShiftR64"@[7] == 't' && "BitShiftR64"@[8] == 'R' && "BitShiftR64"@[9] == '6',
{
    reveal_strlit("BitTest8");
    reveal_strlit("BitSet8");
    reveal_strlit("BitShiftL8");
    reveal_strlit("BitShiftR8");
    reveal_strlit("BitTest16");
    reveal_strlit("BitSet16");
    reveal_strlit("BitShiftL16");
    reveal_strlit("BitShiftR16");
    reveal_strlit("BitTest32");
    reveal_strlit("BitSet32");
    reveal_strlit("BitShiftL32");
    reveal_strlit("BitShiftR32");
    reveal_strlit("BitTest64");
    reveal_strlit("BitSet64");
    reveal_strlit("BitShiftL64");
    reveal_strlit("BitShiftR64");
}

proof fn lemma_names_of_numbers()
    ensures
        "FNV1a64"@.len() == 7 && "FNV1a64"@[0] == 'F' && "FNV1a64"@[3] == '1' && "FNV1a64"@[5] == '6' && "FNV1a64"@[6] == '4',
        "FNV1a32"@.len() == 7 && "FNV1a32"@[0] == 'F' && "FNV1a32"@[3] == '1' && "FNV1a32"@[5] == '3' && "FNV1a32"@[6] == '2',
        "Murmur3"@.len() == 7 && "Murmur3"@[0] == 'M' && "Murmur3"@[3] == 'm' && "Murmur3"@[5] == 'r' && "Murmur3"@[6] == '3',
        "ParseInt8"@.len() == 9 && "ParseInt8"@[0] == 'P' && "ParseInt8"@[3] == 's' && "ParseInt8"@[5] == 'I' && "ParseInt8"@[6] == 'n' && "ParseInt8"@[7] == 't' && "ParseInt8"@[8] == '8',
        "ParseInt16"@.len() == 10 && "ParseInt16"@[0] == 'P' && "ParseInt16"@[3] == 's' && "ParseInt16"@[5] == 'I' && "ParseInt16"@[6] == 'n' && "ParseInt16"@[7] == 't' && "ParseInt16"@[8] == '1' && "ParseInt16"@[9] == '6',
        "ParseInt32"@.len() == 10 && "ParseInt32"@[0] == 'P' && "ParseInt32"@[3] == 's' && "ParseInt32"@[5] == 'I' && "ParseInt32"@[6] == 'n' && "ParseInt32"@[7] == 't' && "ParseInt32"@[8] == '3' && "ParseInt32"@[9] == '2',
        "ParseInt64"@.len() == 10 && "ParseInt64"@[0] == 'P' && "ParseInt64"@[3] == 's' && "ParseInt64"@[5] == 'I' && "ParseInt64"@[6] == 'n' && "ParseInt64"@[7] == 't' && "ParseInt64"@[8] == '6' && "ParseInt64"@[9] == '4',
        "ParseUint8"@.len() == 10 && "ParseUint8"@[0] == 'P' && "ParseUint8"@[3] == 's' && "ParseUint8"@[5] == 'U' && "ParseUint8"@[6] == 'i' && "ParseUint8"@[7] == 'n' && "ParseUint8"@[8] == 't' && "ParseUint8"@[9] == '8',
        "ParseUint16"@.len() == 11 && "ParseUint16"@[0] == 'P' && "ParseUint16"@[3] == 's' && "ParseUint16"@[5] == 'U' && "ParseUint16"@[6] == 'i' && "ParseUint16"@[7] == 'n' && "ParseUint16"@[8] == 't' && "ParseUint16"@[9] == '1',
        "ParseUint32"@.len() == 11 && "ParseUint32"@[0] == 'P' && "ParseUint32"@[3] == 's' && "ParseUint32"@[5] == 'U' && "ParseUint32"@[6] == 'i' && "ParseUint32"@[7] == 'n' && "ParseUint32"@[8] == 't' && "ParseUint32"@[9] == '3',
        "ParseUint64"@.len() == 11 && "ParseUint64"@[0] == 'P' && "ParseUint64"@[3] == 's' && "ParseUint64"@[5] == 'U' && "ParseUint64"@[6] == 'i' && "ParseUint64"@[7] == 'n' && "ParseUint64"@[8] == 't' && "ParseUint64"@[9] == '6',
{
    reveal_strlit("FNV1a64");
    reveal_strlit("FNV1a32");
    reveal_strlit("Murmur3");
    reveal_strlit("ParseInt8");
    reveal_strlit("ParseInt16");
    reveal_strlit("ParseInt32");
    reveal_strlit("ParseInt64");
    reveal_strlit("ParseUint8");
    reveal_strlit("ParseUint16");
    reveal_strlit("ParseUint32");
    reveal_strlit("ParseUint64");
}

proof fn lemma_names_of_texts()
    ensures
        "UTF8StrLen"@.len() == 10 && "UTF8StrLen"@[0] == 'U' && "UTF8StrLen"@[3] == '8' && "UTF8StrLen"@[5] == 't' && "UTF8StrLen"@[6] == 'r' && "UTF8StrLen"@[7] == 'L' && "UTF8StrLen"@[8] == 'e' && "UTF8StrLen"@[9] == 'n',
        "UTF8StrLeft"@.len() == 11 && "UTF8StrLeft"@[0] == 'U' && "UTF8StrLeft"@[3] == '8' && "UTF8StrLeft"@[5] == 't' && "UTF8StrLeft"@[6] == 'r' && "UTF8StrLeft"@[7] == 'L' && "UTF8StrLeft"@[8] == 'e' && "UTF8StrLeft"@[9] == 'f',
        "UTF8StrRight"@.len() == 12 && "UTF8StrRight"@[0] == 'U' && "UTF8StrRight"@[3] == '8' && "UTF8StrRight"@[5] == 't' && "UTF8StrRight"@[6] == 'r' && "UTF8StrRight"@[7] == 'R' && "UTF8StrRight"@[8] == 'i' && "UTF8StrRight"@[9] == 'g',
        "UTF8StrMid"@.len() == 10 && "UTF8StrMid"@[0] == 'U' && "UTF8StrMid"@[3] == '8' && "UTF8StrMid"@[5] == 't' && "UTF8StrMid"@[6] == 'r' && "UTF8StrMid"@[7] == 'M' && "UTF8StrMid"@[8] == 'i' && "UTF8StrMid"@[9] == 'd',
        "UTF8StrLower"@.len() == 12 && "UTF8StrLower"@[0] == 'U' && "UTF8StrLower"@[3] == '8' && "UTF8StrLower"@[5] == 't' && "UTF8StrLower"@[6] == 'r' && "UTF8StrLower"@[7] == 'L' && "UTF8StrLower"@[8] == 'o' && "UTF8StrLower"@[9] == 'w',
        "UTF8StrUpper"@.len() == 12 && "UTF8StrUpper"@[0] == 'U' && "UTF8StrUpper"@[3] == '8' && "UTF8StrUpper"@[5] == 't' && "UTF8StrUpper"@[6] == 'r' && "UTF8StrUpper"@[7] == 'U' && "UTF8StrUpper"@[8] == 'p' && "UTF8StrUpper"@[9] == 'p',
        "HashToName"@.len() == 10 && "HashToName"@[0] == 'H' && "HashToName"@[3] == 'h' && "HashToName"@[5] == 'o' && "HashToName"@[6] == 'N' && "HashToName"@[7] == 'a' && "HashToName"@[8] == 'm' && "HashToName"@[9] == 'e',
        "NameToHash"@.len() == 10 && "NameToHash"@[0] == 'N' && "NameToHash"@[3] == 'e' && "NameToHash"@[5] == 'o' && "NameToHash"@[6] == 'H' && "NameToHash"@[7] == 'a' && "NameToHash"@[8] == 's' && "NameToHash"@[9] == 'h',
        "HashToCRUID"@.len() == 11 && "HashToCRUID"@[0] == 'H' && "HashToCRUID"@[3] == 'h' && "HashToCRUID"@[5] == 'o' && "HashToCRUID"@[6] == 'C' && "HashToCRUID"@[7] == 'R' && "HashToCRUID"@[8] == 'U' && "HashToCRUID"@[9] == 'I',
        "CRUIDToHash"@.len() == 11 && "CRUIDToHash"@[0] == 'C' && "CRUIDToHash"@[3] == 'I' && "CRUIDToHash"@[5] == 'T' && "CRUIDToHash"@[6] == 'o' && "CRUIDToHash"@[7] == 'H' && "CRUIDToHash"@[8] == 'a' && "CRUIDToHash"@[9] == 's',
        "HashToNodeRef"@.len() == 13 && "HashToNodeRef"@[0] == 'H' && "HashToNodeRef"@[3] == 'h' && "HashToNodeRef"@[5] == 'o' && "HashToNodeRef"@[6] == 'N' && "HashToNodeRef"@[7] == 'o' && "HashToNodeRef"@[8] == 'd' && "HashToNodeRef"@[9] == 'e',
        "NodeRefToHash"@.len() == 13 && "NodeRefToHash"@[0] == 'N' && "NodeRefToHash"@[3] == 'e' && "NodeRefToHash"@[5] == 'e' && "NodeRefToHash"@[6] == 'f' && "NodeRefToHash"@[7] == 'T' && "NodeRefToHash"@[8] == 'o' && "NodeRefToHash"@[9] == 'H',
{
    reveal_strlit("UTF8StrLen");
    reveal_strlit("UTF8StrLeft");
    reveal_strlit("UTF8StrRight");
    reveal_strlit("UTF8StrMid");
    reveal_strlit("UTF8StrLower");
    reveal_strlit("UTF8StrUpper");
    reveal_strlit("HashToName");
    reveal_strlit("NameToHash");
    reveal_strlit("HashToCRUID");
    reveal_strlit("CRUIDToHash");
    reveal_strlit("HashToNodeRef");
    reveal_strlit("NodeRefToHash");
}

/// The natives on bits are answered by their operation, at the width of their name.
pub proof fn natives_on_bits_have_their_handlers()
    ensures
        handler_of("BitTest8"@) == (Handler::Bits { op: BitOp::Test, width: 1 }),
        handler_of("BitSet8"@) == (Handler::Bits { op: BitOp::Assign, width: 1 }),
        handler_of("BitShiftL8"@) == (Handler::Bits { op: BitOp::ShiftLeft, width: 1 }),
        handler_of("BitShiftR8"@) == (Handler::Bits { op: BitOp::ShiftRight, width: 1 }),
        handler_of("BitTest16"@) == (Handler::Bits { op: BitOp::Test, width: 2 }),
        handler_of("BitSet16"@) == (Handler::Bits { op: BitOp::Assign, width: 2 }),
        handler_of("BitShiftL16"@) == (Handler::Bits { op: BitOp::ShiftLeft, width: 2 }),
        handler_of("BitShiftR16"@) == (Handler::Bits { op: BitOp::ShiftRight, width: 2 }),
        handler_of("BitTest32"@) == (Handler::Bits { op: BitOp::Test, width: 4 }),
        handler_of("BitSet32"@) == (Handler::Bits { op: BitOp::Assign, width: 4 }),
        handler_of("BitShiftL32"@) == (Handler::Bits { op: BitOp::ShiftLeft, width: 4 }),
        handler_of("BitShiftR32"@) == (Handler::Bits { op: BitOp::ShiftRight, width: 4 }),
        handler_of("BitTest64"@) == (Handler::Bits { op: BitOp::Test, width: 8 }),
        handler_of("BitSet64"@) == (Handler::Bits { op: BitOp::Assign, width: 8 }),
        handler_of("BitShiftL64"@) == (Handler::Bits { op: BitOp::ShiftLeft, width: 8 }),
        handler_of("BitShiftR64"@) == (Handler::Bits { op: BitOp::ShiftRight, width: 8 }),
{
    lemma_names_of_bits();
}

/// The natives that hash are answered by their hash, and those that read a number at
/// the width and with the sign of their name.
pub proof fn natives_on_numbers_have_their_handlers()
    ensures
        handler_of("FNV1a64"@) == Handler::Hash(HashOp::Fnv64),
        handler_of("FNV1a32"@) == Handler::Hash(HashOp::Fnv32),
        handler_of("Murmur3"@) == Handler::Hash(HashOp::Murmur),
        handler_of("ParseInt8"@) == (Handler::Number { signed: true, width: 1 }),
        handler_of("ParseInt16"@) == (Handler::Number { signed: true, width: 2 }),
        handler_of("ParseInt32"@) == (Handler::Number { signed: true, width: 4 }),
        handler_of("ParseInt64"@) == (Handler::Number { signed: true, width: 8 }),
        handler_of("ParseUint8"@) == (Handler::Number { signed: false, width: 1 }),
        handler_of("ParseUint16"@) == (Handler::Number { signed: false, width: 2 }),
        handler_of("ParseUint32"@) == (Handler::Number { signed: false, width: 4 }),
        handler_of("ParseUint64"@) == (Handler::Number { signed: false, width: 8 }),
{
    lemma_names_of_bits();
    lemma_names_of_numbers();
}

/// The natives on texts are answered by their operation, and those between names and
/// hashes by the hash.
pub proof fn natives_on_texts_have_their_handlers()
    ensures
        handler_of("UTF8StrLen"@) == Handler::Length,
        handler_of("UTF8StrLeft"@) == Handler::Text(TextOp::Left),
        handler_of("UTF8StrRight"@) == Handler::Text(TextOp::Right),
        handler_of("UTF8StrMid"@) == Handler::Text(TextOp::Mid),
        handler_of("UTF8StrLower"@) == Handler::Text(TextOp::Lower),
        handler_of("UTF8StrUpper"@) == Handler::Text(TextOp::Upper),
        handler_of("HashToName"@) == Handler::NameHash,
        handler_of("NameToHash"@) == Handler::NameHash,
        handler_of("HashToCRUID"@) == Handler::NameHash,
        handler_of("CRUIDToHash"@) == Handler::NameHash,
        handler_of("HashToNodeRef"@) == Handler::NameHash,
        handler_of("NodeRefToHash"@) == Handler::NameHash,
{
    lemma_names_of_bits();
    lemma_names_of_numbers();
    lemma_names_of_texts();
}

// ---- answers ---------------------------------------------------------------

/// An argument that is missing counts as the value that stands for it, and a small
/// number is the lower half of its word, with its sign.
pub proof fn missing_arguments_have_their_value(args: Seq<u64>, i: int, other: u64, v: u64)
    ensures
        0 <= i < args.len() ==> value_at(args, i, other) == args[i],
        !(0 <= i < args.len()) ==> value_at(args, i, other) == other,
        -0x8000_0000 <= low_signed(v) < 0x8000_0000,
        (low_signed(v) - v) % 0x1_0000_0000 == 0,
{
}

/// A number is answered as wide as its type.
pub proof fn numbers_are_answered_at_their_width(v: nat)
    ensures
        number_image(v, 1) == le_bytes(v, 1),
        number_image(v, 2) == le_bytes(v, 2),
        number_image(v, 4) == le_bytes(v, 4),
        number_image(v, 8) == le_bytes(v, 8),
{
}

/// The text operations take their lengths and offsets from the arguments behind the
/// text, in their order.
pub proof fn texts_are_made_from_their_arguments(s: Seq<char>, args: Seq<u64>)
    requires
        args.len() >= 3,
    ensures
        made_text(TextOp::Left, s, args) == left_of(s, low_signed(args[1])),
        made_text(TextOp::Right, s, args) == right_of(s, low_signed(args[1])),
        made_text(TextOp::Mid, s, args) == mid_of(s, low_signed(args[1]), low_signed(args[2])),
        made_text(TextOp::Lower, s, args) == lower_of(s),
        made_text(TextOp::Upper, s, args) == upper_of(s),
{
}

/// A text that is no number is answered with zero; one that is a number with that
/// number, kept in range, in the base that was given or in ten.
pub proof fn numbers_in_texts_are_answered(s: Seq<char>, args: Seq<u64>, negative: bool, v: nat)
    ensures
        whole_number(s, 10) is None && args.len() <= 1 ==> number_answer_of(true, 8, s, args)
            == le_bytes(0, 8) && number_answer_of(false, 8, s, args) == le_bytes(0, 8),
        args.len() <= 1 && whole_number(s, 10) == Some((negative, v)) ==> number_answer_of(
            false,
            8,
            s,
            args,
        ) == le_bytes(clamped_u64(negative, v) as nat, 8),
        args.len() <= 1 && whole_number(s, 10) == Some((negative, v)) && clamped_i64(negative, v)
            >= 0 ==> number_answer_of(true, 8, s, args) == le_bytes(
            clamped_i64(negative, v) as nat,
            8,
        ),
{
}

/// A truth value is answered with one byte.
pub proof fn tests_of_bits_are_answered_with_a_byte(width: u8, args: Seq<u64>)
    ensures
        bits_answer_of(BitOp::Test, width, args) == seq![0u8] || bits_answer_of(
            BitOp::Test,
            width,
            args,
        ) == seq![1u8],
{
}

/// A text that does not fit into its slot is said to be too long, and what a name
/// or a hash is made of is handed on as it is.
pub proof fn long_texts_are_said_to_be_long(args: Seq<u64>, texts: Seq<Option<String>>, op: TextOp)
    ensures
        answer_of(Handler::Own, args, texts) == AnswerV::Own,
        args.len() > 0 ==> answer_of(Handler::NameHash, args, texts) == AnswerV::Bytes(
            le_bytes(args[0] as nat, 8),
        ),
        answer_of(Handler::Text(op), args, texts) == AnswerV::TooLong <==> string_image(
            made_text(op, crate::answers::text_at(texts, 0), args),
        ) is None,
{
}

// ---- packed files ----------------------------------------------------------

/// A packed file starts with `KARK` and the size that it unpacks to; any other is
/// plain.
pub proof fn packed_files_start_with_their_mark(data: Seq<u8>, size: u32)
    ensures
        stands(data, 0, seq![0x4bu8, 0x41u8, 0x52u8, 0x4bu8] + le_bytes(size as nat, 4))
            ==> packing_of(data) == (Packing::Kraken { size }),
        data.len() < 8 ==> packing_of(data) == Packing::Plain,
        data.len() >= 8 && (data[0] != 0x4b || data[1] != 0x41 || data[2] != 0x52 || data[3] != 0x4b)
            ==> packing_of(data) == Packing::Plain,
{
    let mark = seq![0x4bu8, 0x41u8, 0x52u8, 0x4bu8];
    let all = mark + le_bytes(size as nat, 4);
    reveal_with_fuel(pow256, 5);
    lemma_le_bytes_len(size as nat, 4);
    le_round_trip(size as nat, 4);
    lemma_mark(mark);
    if stands(data, 0, all) {
        assert(all.len() == 8);
        assert(data.subrange(0, 8).subrange(0, 4) =~= data.subrange(0, 4));
        assert(data.subrange(0, 8).subrange(4, 8) =~= data.subrange(4, 8));
        assert(all.subrange(0, 4) =~= mark);
        assert(all.subrange(4, 8) =~= le_bytes(size as nat, 4));
    }
    if data.len() >= 8 {
        let h = data.subrange(0, 4);
        lemma_mark(h);
    }
}

proof fn lemma_mark(h: Seq<u8>)
    requires
        h.len() == 4,
    ensures
        crate::cursor::le_value(h) == 0x4b52_414b <==> h[0] == 0x4b && h[1] == 0x41 && h[2] == 0x52
            && h[3] == 0x4b,
{
    reveal_with_fuel(crate::cursor::le_value, 5);
    assert(h.skip(1).skip(1) =~= h.skip(2));
    assert(h.skip(2).skip(1) =~= h.skip(3));
    assert(h.skip(3).skip(1) =~= Seq::empty());
}

/// What was written is told as it is, and nothing where nothing was.
pub proof fn sizes_are_told_as_they_are(written: i64)
    ensures
        written < 0 ==> mismatch_size(written) == 0,
        0 <= written <= usize::MAX ==> mismatch_size(written) == written,
{
}

} // verus!
