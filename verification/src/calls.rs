//! Calling the engine's functions: the images of the arguments, of the byte
//! code and of the frame, strings in the engine's layout, and which parameters
//! of an incoming call can be read.
use vstd::prelude::*;
use vstd::slice::slice_subrange;
use vstd::utf8::encode_utf8;

use crate::cursor::{le_bytes, le_value, lemma_le_bytes_len, lossy_text, push_le, utf8_text, Cursor};
use crate::hashes::{id_of, tweak_db_id};
use crate::memory::{is_sane, sane};
use crate::rtti::{cname, cname_of};

verus! {

// ---- images ----------------------------------------------------------------

pub open spec fn zeros(n: nat) -> Seq<u8> {
    Seq::new(n, |i: int| 0u8)
}

/// An image with the bytes put at an offset.
pub open spec fn placed(image: Seq<u8>, off: int, bytes: Seq<u8>) -> Seq<u8> {
    image.take(off) + bytes + image.skip(off + bytes.len())
}

pub fn zero_image(n: usize) -> (r: Vec<u8>)
    ensures
        r@ == zeros(n as nat),
{
    let mut out: Vec<u8> = Vec::new();
    let mut i: usize = 0;
    while i < n
        invariant
            i <= n,
            out@ == zeros(i as nat),
        decreases n - i,
    {
        out.push(0);
        i += 1;
        proof {
            assert(out@ =~= zeros(i as nat));
        }
    }
    out
}

/// Puts bytes into an image.
pub fn place(image: &mut Vec<u8>, off: usize, bytes: &[u8])
    requires
        off + bytes@.len() <= old(image)@.len(),
    ensures
        final(image)@ == placed(old(image)@, off as int, bytes@),
        final(image)@.len() == old(image)@.len(),
{
    let ghost start = image@;
    let mut i: usize = 0;
    let n: usize = bytes.len();
    proof {
        assert(image@ =~= placed(start, off as int, bytes@.take(0)));
    }
    while i < n
        invariant
            i <= n,
            n == bytes@.len(),
            off + n <= start.len(),
            image@.len() == start.len(),
            image@ == placed(start, off as int, bytes@.take(i as int)),
        decreases n - i,
    {
        let b: u8 = bytes[i];
        let at: usize = image.len();
        assert(off + i < at);
        image[off + i] = b;
        i += 1;
        proof {
            assert(image@ =~= placed(start, off as int, bytes@.take(i as int)));
        }
    }
    proof {
        assert(bytes@.take(i as int) =~= bytes@);
    }
}

/// Puts a number of `n` bytes into an image.
pub fn place_number(image: &mut Vec<u8>, off: usize, v: u64, n: u8)
    requires
        off + n <= old(image)@.len(),
    ensures
        final(image)@ == placed(old(image)@, off as int, le_bytes(v as nat, n as nat)),
        final(image)@.len() == old(image)@.len(),
{
    let mut b: Vec<u8> = Vec::new();
    push_le(&mut b, v, n);
    proof {
        lemma_le_bytes_len(v as nat, n as nat);
        assert(b@ =~= le_bytes(v as nat, n as nat));
    }
    place(image, off, b.as_slice());
}

/// What was put into an image is there, and the rest is unchanged.
pub proof fn placed_reads_back(image: Seq<u8>, off: int, bytes: Seq<u8>, i: int)
    requires
        0 <= off,
        off + bytes.len() <= image.len(),
        0 <= i < image.len(),
    ensures
        placed(image, off, bytes).len() == image.len(),
        placed(image, off, bytes).subrange(off, off + bytes.len()) == bytes,
        !(off <= i < off + bytes.len()) ==> placed(image, off, bytes)[i] == image[i],
{
    assert(placed(image, off, bytes).subrange(off, off + bytes.len()) =~= bytes);
}

// ---- strings ---------------------------------------------------------------

/// The image of a short string: its bytes, zeros, and its length at 0x14.
pub open spec fn string_image(s: Seq<char>) -> Option<Seq<u8>> {
    let b = encode_utf8(s);
    if b.len() <= 19 {
        Some(placed(placed(zeros(0x20), 0, b), 0x14, le_bytes(b.len(), 4)))
    } else {
        None
    }
}

/// The image of a string that fits inside its own structure; none for longer
/// ones, which would need memory of the engine.
pub fn write_cstring_inline_ret(s: &str) -> (r: Option<Vec<u8>>)
    ensures
        match r {
            Some(v) => string_image(s@) == Some(v@) && v@.len() == 0x20,
            None => string_image(s@) is None,
        },
{
    let b = s.as_bytes();
    if b.len() >= 20 {
        return None;
    }
    let mut image = zero_image(0x20);
    place(&mut image, 0, b);
    place_number(&mut image, 0x14, b.len() as u64, 4);
    Some(image)
}

/// The image of a string for a parameter, under the same limit.
pub fn red_string_write_inline(s: &str) -> (r: Option<Vec<u8>>)
    ensures
        match r {
            Some(v) => string_image(s@) == Some(v@) && v@.len() == 0x20,
            None => string_image(s@) is None,
        },
{
    write_cstring_inline_ret(s)
}

/// What is known of a string in memory: its structure of 0x20 bytes, and the
/// bytes its pointer leads to, where they can be read.
pub struct RedString {
    pub slot: Vec<u8>,
    pub heap: Option<Vec<u8>>,
}

/// The text of a string in memory. The two high bits of the length say that the
/// text lies behind a pointer; an implausible length means an empty text.
pub open spec fn string_text(slot: Seq<u8>, heap: Option<Seq<u8>>) -> Seq<char> {
    let length = le_value(slot.subrange(0x14, 0x18));
    let size = length % 0x4000_0000;
    if slot.len() < 0x20 || size > 100_000 {
        Seq::empty()
    } else if length < 0x4000_0000 {
        if size <= slot.len() {
            utf8_text(slot.take(size as int))
        } else {
            Seq::empty()
        }
    } else {
        match heap {
            Some(h) => if size <= h.len() {
                utf8_text(h.take(size as int))
            } else {
                Seq::empty()
            },
            None => Seq::empty(),
        }
    }
}

pub open spec fn heap_view(h: Option<Vec<u8>>) -> Option<Seq<u8>> {
    match h {
        Some(v) => Some(v@),
        None => None,
    }
}

fn number32(data: &Vec<u8>, pos: usize) -> (r: u32)
    requires
        pos + 4 <= data@.len(),
    ensures
        r == le_value(data@.subrange(pos as int, pos + 4)),
{
    let mut c = Cursor { data: data.as_slice(), pos };
    match c.u32() {
        Ok(v) => v,
        Err(_) => 0,
    }
}

/// Reads a string from memory.
pub fn red_string_read(s: &RedString) -> (r: String)
    ensures
        r@ == string_text(s.slot@, heap_view(s.heap)),
{
    if s.slot.len() < 0x20 {
        return String::new();
    }
    let length: u32 = number32(&s.slot, 0x14);
    let size: usize = (length % 0x4000_0000) as usize;
    if size > 100_000 {
        return String::new();
    }
    if length < 0x4000_0000 {
        if size <= s.slot.len() {
            let t = slice_subrange(s.slot.as_slice(), 0, size);
            proof {
                assert(t@ =~= s.slot@.take(size as int));
            }
            return lossy_text(t);
        }
        return String::new();
    }
    match &s.heap {
        Some(h) => if size <= h.len() {
            let t = slice_subrange(h.as_slice(), 0, size);
            proof {
                assert(t@ =~= h@.take(size as int));
            }
            lossy_text(t)
        } else {
            String::new()
        },
        None => String::new(),
    }
}

/// A short string that was written is read back.
pub proof fn short_string_reads_back(s: Seq<char>)
    requires
        string_image(s) is Some,
    ensures
        string_text(string_image(s)->0, None) == s,
{
    let b = encode_utf8(s);
    let n = b.len();
    let base = placed(zeros(0x20), 0, b);
    let img = string_image(s)->0;
    reveal_with_fuel(crate::cursor::pow256, 5);
    crate::cursor::le_round_trip(n, 4);
    placed_reads_back(zeros(0x20), 0, b, 0);
    placed_reads_back(base, 0x14, le_bytes(n, 4), 0);
    assert(img.len() == 0x20);
    assert(img.subrange(0x14, 0x18) =~= le_bytes(n, 4));
    assert(img.take(n as int) =~= b) by {
        assert forall|i: int| 0 <= i < n implies img[i] == b[i] by {
            placed_reads_back(base, 0x14, le_bytes(n, 4), i);
            assert(base.subrange(0, b.len() as int)[i] == b[i]);
        }
    }
    vstd::utf8::encode_utf8_decode_utf8(s);
    vstd::utf8::encode_utf8_valid_utf8(s);
}

// ---- results ---------------------------------------------------------------

/// The bytes of an unsigned result of one, two, four or eight bytes.
pub fn write_uint_ret(v: u64, width: u8) -> (r: Vec<u8>)
    ensures
        r@ == le_bytes(
            v as nat,
            if width == 1 || width == 2 || width == 4 {
                width as nat
            } else {
                8
            },
        ),
{
    let mut out: Vec<u8> = Vec::new();
    let n: u8 = if width == 1 || width == 2 || width == 4 {
        width
    } else {
        8
    };
    push_le(&mut out, v, n);
    proof {
        assert(out@ =~= le_bytes(v as nat, n as nat));
    }
    out
}

/// The bytes of a handle without an owner: the object's address, and no block of
/// reference counts.
pub fn write_handle_ret(ptr: u64) -> (r: Vec<u8>)
    ensures
        r@ == le_bytes(ptr as nat, 8) + le_bytes(0, 8),
{
    let mut out: Vec<u8> = Vec::new();
    push_le(&mut out, ptr, 8);
    push_le(&mut out, 0, 8);
    proof {
        assert(out@ =~= le_bytes(ptr as nat, 8) + le_bytes(0, 8));
    }
    out
}

/// How a number is written as the result of a function: as so many bytes, as a
/// float, or not at all.
pub enum PodWrite {
    Bytes(Vec<u8>),
    Float,
    Double,
    Refused,
}

pub enum PodWriteV {
    Bytes(Seq<u8>),
    Float,
    Double,
    Refused,
}

impl View for PodWrite {
    type V = PodWriteV;

    open spec fn view(&self) -> PodWriteV {
        match self {
            PodWrite::Bytes(b) => PodWriteV::Bytes(b@),
            PodWrite::Float => PodWriteV::Float,
            PodWrite::Double => PodWriteV::Double,
            PodWrite::Refused => PodWriteV::Refused,
        }
    }
}

/// The low `n` bytes of a number in two's complement.
pub open spec fn signed_image(val: int, n: nat) -> Seq<u8> {
    le_bytes(
        (if val < 0 {
            val + 0x1_0000_0000_0000_0000
        } else {
            val
        }) as nat,
        n,
    )
}

pub open spec fn pod_write_of(tname: u64, size: u32, val: int) -> PodWriteV {
    if tname == cname_of("Bool"@) && size == 1 {
        PodWriteV::Bytes(
            seq![
                if val != 0 {
                    1u8
                } else {
                    0u8
                },
            ],
        )
    } else if (tname == cname_of("Int8"@) || tname == cname_of("Uint8"@)) && size == 1 {
        PodWriteV::Bytes(signed_image(val, 1))
    } else if (tname == cname_of("Int16"@) || tname == cname_of("Uint16"@)) && size
        == 2 {
        PodWriteV::Bytes(signed_image(val, 2))
    } else if (tname == cname_of("Int32"@) || tname == cname_of("Uint32"@)) && size
        == 4 {
        PodWriteV::Bytes(signed_image(val, 4))
    } else if (tname == cname_of("Int64"@) || tname == cname_of("Uint64"@)) && size
        == 8 {
        PodWriteV::Bytes(signed_image(val, 8))
    } else if tname == cname_of("Float"@) && size == 4 {
        PodWriteV::Float
    } else if tname == cname_of("Double"@) && size == 8 {
        PodWriteV::Double
    } else {
        PodWriteV::Refused
    }
}

fn signed_bytes(val: i64, n: u8) -> (r: Vec<u8>)
    ensures
        r@ == signed_image(val as int, n as nat),
{
    let v: u64 = if val < 0 {
        (val as i128 + 0x1_0000_0000_0000_0000) as u64
    } else {
        val as u64
    };
    let mut out: Vec<u8> = Vec::new();
    push_le(&mut out, v, n);
    proof {
        assert(out@ =~= le_bytes(v as nat, n as nat));
    }
    out
}

/// How a number is written as the result of a function, by the name and size of
/// the return type. Anything but a plain value is refused.
pub fn write_pod_i64(tname: u64, size: u32, val: i64) -> (r: PodWrite)
    ensures
        r@ == pod_write_of(tname, size, val as int),
{
    if tname == cname("Bool") && size == 1 {
        let mut out: Vec<u8> = Vec::new();
        out.push(
            if val != 0 {
                1
            } else {
                0
            },
        );
        proof {
            assert(out@ =~= seq![
                if val != 0 {
                    1u8
                } else {
                    0u8
                },
            ]);
        }
        return PodWrite::Bytes(out);
    }
    if (tname == cname("Int8") || tname == cname("Uint8")) && size == 1 {
        return PodWrite::Bytes(signed_bytes(val, 1));
    }
    if (tname == cname("Int16") || tname == cname("Uint16")) && size == 2 {
        return PodWrite::Bytes(signed_bytes(val, 2));
    }
    if (tname == cname("Int32") || tname == cname("Uint32")) && size == 4 {
        return PodWrite::Bytes(signed_bytes(val, 4));
    }
    if (tname == cname("Int64") || tname == cname("Uint64")) && size == 8 {
        return PodWrite::Bytes(signed_bytes(val, 8));
    }
    if tname == cname("Float") && size == 4 {
        return PodWrite::Float;
    }
    if tname == cname("Double") && size == 8 {
        return PodWrite::Double;
    }
    PodWrite::Refused
}

/// The header of an array of names: its buffer, its capacity and its size. An
/// empty array has none of them.
pub fn build_cname_dynarray(buffer: u64, count: u32) -> (r: Option<Vec<u8>>)
    ensures
        match r {
            Some(v) => v@ == (if count == 0 {
                zeros(16)
            } else {
                le_bytes(buffer as nat, 8) + le_bytes(count as nat, 4) + le_bytes(count as nat, 4)
            }),
            None => count != 0 && buffer == 0,
        },
        r is None <==> count != 0 && buffer == 0,
{
    if count == 0 {
        return Some(zero_image(16));
    }
    if buffer == 0 {
        return None;
    }
    let mut out: Vec<u8> = Vec::new();
    push_le(&mut out, buffer, 8);
    push_le(&mut out, count as u64, 4);
    push_le(&mut out, count as u64, 4);
    proof {
        assert(out@ =~= le_bytes(buffer as nat, 8) + le_bytes(count as nat, 4) + le_bytes(
            count as nat,
            4,
        ));
    }
    Some(out)
}

// ---- outgoing calls --------------------------------------------------------

/// An argument of a call. A float is held by its bit pattern.
pub enum Arg {
    /// An object and its block of reference counts.
    Handle(u64, u64),
    Item16([u8; 16]),
    Raw([u8; 16]),
    Array([u8; 16]),
    Str(String),
    I32(u32),
    I64(u64),
    F32(u32),
    Bool(bool),
    CName(u64),
    Enum(u64),
    Tdb([u8; 8]),
}

/// The bytes of an argument in its slot. A string that is too long leaves the
/// slot empty.
pub open spec fn arg_bytes(a: Arg) -> Seq<u8> {
    match a {
        Arg::Handle(inst, refs) => le_bytes(inst as nat, 8) + le_bytes(refs as nat, 8),
        Arg::Item16(b) => b@,
        Arg::Raw(b) => b@,
        Arg::Array(b) => b@,
        Arg::Str(s) => match string_image(s@) {
            Some(img) => img,
            None => zeros(0x20),
        },
        Arg::I32(v) => le_bytes(v as nat, 4),
        Arg::I64(v) => le_bytes(v as nat, 8),
        Arg::F32(v) => le_bytes(v as nat, 4),
        Arg::Bool(v) => seq![
            if v {
                1u8
            } else {
                0u8
            },
        ],
        Arg::CName(v) => le_bytes(v as nat, 8),
        Arg::Enum(v) => le_bytes(v as nat, 8),
        Arg::Tdb(b) => b@,
    }
}

proof fn lemma_arg_len(a: Arg)
    ensures
        arg_bytes(a).len() <= 0x20,
{
    match a {
        Arg::Handle(x, y) => {
            lemma_le_bytes_len(x as nat, 8);
            lemma_le_bytes_len(y as nat, 8);
        },
        Arg::Str(s) => {
            let b = encode_utf8(s@);
            if b.len() <= 19 {
                lemma_le_bytes_len(b.len(), 4);
                placed_reads_back(zeros(0x20), 0, b, 0);
                placed_reads_back(placed(zeros(0x20), 0, b), 0x14, le_bytes(b.len(), 4), 0);
            }
        },
        Arg::I32(v) => {
            lemma_le_bytes_len(v as nat, 4);
        },
        Arg::F32(v) => {
            lemma_le_bytes_len(v as nat, 4);
        },
        Arg::I64(v) => {
            lemma_le_bytes_len(v as nat, 8);
        },
        Arg::CName(v) => {
            lemma_le_bytes_len(v as nat, 8);
        },
        Arg::Enum(v) => {
            lemma_le_bytes_len(v as nat, 8);
        },
        _ => {},
    }
}

fn number_bytes(v: u64, n: u8) -> (r: Vec<u8>)
    ensures
        r@ == le_bytes(v as nat, n as nat),
{
    let mut out: Vec<u8> = Vec::new();
    push_le(&mut out, v, n);
    proof {
        assert(out@ =~= le_bytes(v as nat, n as nat));
    }
    out
}

fn array16(b: &[u8; 16]) -> (r: Vec<u8>)
    ensures
        r@ == b@,
{
    let mut out: Vec<u8> = Vec::new();
    let mut i: usize = 0;
    while i < 16
        invariant
            i <= 16,
            out@ == b@.take(i as int),
        decreases 16 - i,
    {
        out.push(b[i]);
        i += 1;
        proof {
            assert(out@ =~= b@.take(i as int));
        }
    }
    proof {
        assert(b@.take(16) =~= b@);
    }
    out
}

fn array8(b: &[u8; 8]) -> (r: Vec<u8>)
    ensures
        r@ == b@,
{
    let mut out: Vec<u8> = Vec::new();
    let mut i: usize = 0;
    while i < 8
        invariant
            i <= 8,
            out@ == b@.take(i as int),
        decreases 8 - i,
    {
        out.push(b[i]);
        i += 1;
        proof {
            assert(out@ =~= b@.take(i as int));
        }
    }
    proof {
        assert(b@.take(8) =~= b@);
    }
    out
}

fn encode_arg(a: &Arg) -> (r: Vec<u8>)
    ensures
        r@ == arg_bytes(*a),
        r@.len() <= 0x20,
{
    proof {
        lemma_arg_len(*a);
    }
    match a {
        Arg::Handle(inst, refs) => {
            let mut out = number_bytes(*inst, 8);
            push_le(&mut out, *refs, 8);
            out
        },
        Arg::Item16(b) => array16(b),
        Arg::Raw(b) => array16(b),
        Arg::Array(b) => array16(b),
        Arg::Str(s) => match write_cstring_inline_ret(s.as_str()) {
            Some(v) => v,
            None => zero_image(0x20),
        },
        Arg::I32(v) => number_bytes(*v as u64, 4),
        Arg::I64(v) => number_bytes(*v, 8),
        Arg::F32(v) => number_bytes(*v as u64, 4),
        Arg::Bool(v) => {
            let mut out: Vec<u8> = Vec::new();
            out.push(
                if *v {
                    1
                } else {
                    0
                },
            );
            proof {
                assert(out@ =~= arg_bytes(*a));
            }
            out
        },
        Arg::CName(v) => number_bytes(*v, 8),
        Arg::Enum(v) => number_bytes(*v, 8),
        Arg::Tdb(b) => array8(b),
    }
}

/// Where the slot of an argument starts.
pub open spec fn slot_offset(i: int) -> int {
    0x20 + 0x20 * i
}

/// The image of the local variables with the first `n` arguments in their
/// slots, in a frame for `total` of them.
pub open spec fn locals_image(args: Seq<Arg>, total: nat, n: nat) -> Seq<u8>
    decreases n,
{
    if n == 0 {
        zeros(0x40 + 0x20 * total)
    } else {
        placed(
            locals_image(args, total, (n - 1) as nat),
            slot_offset(n - 1),
            arg_bytes(args[n - 1]),
        )
    }
}

/// The image of a property that describes a local variable: its type, and where
/// its value lies.
pub open spec fn local_property(ptype: u64, off: int) -> Seq<u8> {
    placed(placed(zeros(0x30), 0, le_bytes(ptype as nat, 8)), 0x20, le_bytes(off as nat, 4))
}

/// The byte code that pushes the first `n` variables, for `total` of them.
pub open spec fn push_code(props: Seq<u64>, total: nat, n: nat) -> Seq<u8>
    decreases n,
{
    if n == 0 {
        zeros(16 + 9 * total)
    } else {
        let before = push_code(props, total, (n - 1) as nat);
        placed(
            placed(before, 9 * (n - 1), seq![0x18u8]),
            9 * (n - 1) + 1,
            le_bytes(props[n - 1] as nat, 8),
        )
    }
}

/// The byte code of a call: every variable, then the end of the parameters.
pub open spec fn call_code(props: Seq<u64>) -> Seq<u8> {
    placed(push_code(props, props.len(), props.len()), 9 * props.len() as int, seq![0x26u8])
}

/// The image of a frame.
pub open spec fn frame_image(code: u64, locals: u64, ctx: u64) -> Seq<u8> {
    placed(
        placed(
            placed(
                placed(zeros(0x90), 0, le_bytes(code as nat, 8)),
                0x10,
                le_bytes(locals as nat, 8),
            ),
            0x18,
            le_bytes(locals as nat, 8),
        ),
        0x40,
        le_bytes(ctx as nat, 8),
    )
}

proof fn lemma_locals_len(args: Seq<Arg>, total: nat, n: nat)
    requires
        n <= total,
    ensures
        locals_image(args, total, n).len() == 0x40 + 0x20 * total,
    decreases n,
{
    if n > 0 {
        lemma_locals_len(args, total, (n - 1) as nat);
        lemma_arg_len(args[n - 1]);
    }
}

/// The images that a call hands over before any address is known: the local
/// variables, and one property for each argument.
pub struct CallParts {
    pub locals: Vec<u8>,
    pub properties: Vec<Vec<u8>>,
}

/// The contents of images.
pub open spec fn images_view(v: Seq<Vec<u8>>) -> Seq<Seq<u8>> {
    v.map_values(|x: Vec<u8>| x@)
}

/// The properties of the first `n` arguments, by the types of the parameters.
pub open spec fn property_images(types: Seq<u64>, n: nat) -> Seq<Seq<u8>> {
    Seq::new(n, |i: int| local_property(types[i], slot_offset(i)))
}

fn call_property(ptype: u64, i: usize) -> (r: Vec<u8>)
    requires
        slot_offset(i as int) <= u32::MAX,
    ensures
        r@ == local_property(ptype, slot_offset(i as int)),
{
    let mut image = zero_image(0x30);
    place_number(&mut image, 0, ptype, 8);
    place_number(&mut image, 0x20, (0x20 + i * 0x20) as u64, 4);
    image
}

/// The pointer that a call has returned: the first eight bytes of its result, and
/// nothing where there was no call.
pub fn call_ptr(result: &Option<[u8; 16]>) -> (r: u64)
    ensures
        r == (match *result {
            Some(b) => le_value(b@.take(8)),
            None => 0,
        }),
{
    match result {
        Some(b) => {
            let mut c = Cursor { data: b.as_slice(), pos: 0 };
            match c.u64() {
                Ok(v) => {
                    proof {
                        assert(b@.subrange(0, 8) =~= b@.take(8));
                    }
                    v
                },
                Err(_) => 0,
            }
        },
        None => 0,
    }
}

/// The images of a call of a function with `p_count` parameters. More arguments
/// than parameters, and arguments for a function without a list of parameters,
/// are refused: the engine would read past them. A slot is addressed by 32 bits.
pub fn call_func(
    p_count: u32,
    has_entries: bool,
    types: &Vec<u64>,
    args: &Vec<Arg>,
) -> (r: Option<CallParts>)
    requires
        args@.len() <= p_count && (has_entries || args@.len() == 0) ==> types@.len() >= args@.len()
            && slot_offset(args@.len() as int) + 0x20 <= u32::MAX,
    ensures
        r is None <==> args@.len() > p_count || (!has_entries && args@.len() > 0),
        r is Some ==> {
            &&& (r->0).locals@ == locals_image(args@, args@.len(), args@.len())
            &&& images_view((r->0).properties@) == property_images(types@, args@.len())
        },
{
    let n: usize = args.len();
    if n as u64 > p_count as u64 || (!has_entries && n > 0) {
        return None;
    }
    let mut image = zero_image(0x40 + n * 0x20);
    let mut properties: Vec<Vec<u8>> = Vec::new();
    let mut i: usize = 0;
    proof {
        assert(images_view(properties@) =~= property_images(types@, 0));
    }
    while i < n
        invariant
            i <= n,
            n == args@.len(),
            n <= types@.len(),
            slot_offset(n as int) + 0x20 <= u32::MAX,
            image@ == locals_image(args@, n as nat, i as nat),
            image@.len() == 0x40 + 0x20 * n,
            images_view(properties@) == property_images(types@, i as nat),
        decreases n - i,
    {
        let b = encode_arg(&args[i]);
        place(&mut image, 0x20 + i * 0x20, b.as_slice());
        let ghost before = properties@;
        properties.push(call_property(types[i], i));
        proof {
            assert(before.len() == images_view(before).len());
            assert(images_view(properties@) =~= images_view(before).push(
                local_property(types@[i as int], slot_offset(i as int)),
            ));
            assert(images_view(properties@) =~= property_images(types@, (i + 1) as nat));
        }
        i += 1;
    }
    Some(CallParts { locals: image, properties })
}

/// The byte code of a call with the properties at these addresses.
pub fn call_bytecode(props: &Vec<u64>) -> (r: Vec<u8>)
    requires
        16 + 9 * props@.len() <= usize::MAX,
    ensures
        r@ == call_code(props@),
{
    let n: usize = props.len();
    let mut code = zero_image(16 + n * 9);
    let mut i: usize = 0;
    while i < n
        invariant
            i <= n,
            n == props@.len(),
            16 + 9 * n <= usize::MAX,
            code@ == push_code(props@, n as nat, i as nat),
            code@.len() == 16 + 9 * n,
        decreases n - i,
    {
        let mut op: Vec<u8> = Vec::new();
        op.push(0x18);
        proof {
            assert(op@ =~= seq![0x18u8]);
        }
        place(&mut code, 9 * i, op.as_slice());
        place_number(&mut code, 9 * i + 1, props[i], 8);
        i += 1;
    }
    let mut end: Vec<u8> = Vec::new();
    end.push(0x26);
    proof {
        assert(end@ =~= seq![0x26u8]);
    }
    place(&mut code, 9 * n, end.as_slice());
    code
}

/// The frame of a call.
pub fn call_frame(code: u64, locals: u64, ctx: u64) -> (r: Vec<u8>)
    ensures
        r@ == frame_image(code, locals, ctx),
{
    let mut image = zero_image(0x90);
    place_number(&mut image, 0, code, 8);
    place_number(&mut image, 0x10, locals, 8);
    place_number(&mut image, 0x18, locals, 8);
    place_number(&mut image, 0x40, ctx, 8);
    image
}

/// The byte code that pushes an id and ends the parameters.
pub open spec fn id_code(id: u64) -> Seq<u8> {
    placed(
        placed(placed(zeros(16), 0, seq![0x11u8]), 1, le_bytes(id as nat, 8)),
        9,
        seq![0x26u8],
    )
}

/// The byte code of the call that makes an item id from a name.
pub fn from_tdbid_code(name: &str) -> (r: Vec<u8>)
    ensures
        r@ == id_code(id_of(name@)),
{
    let mut code = zero_image(16);
    let mut op: Vec<u8> = Vec::new();
    op.push(0x11);
    let mut end: Vec<u8> = Vec::new();
    end.push(0x26);
    proof {
        assert(op@ =~= seq![0x11u8]);
        assert(end@ =~= seq![0x26u8]);
    }
    place(&mut code, 0, op.as_slice());
    place_number(&mut code, 1, tweak_db_id(name), 8);
    place(&mut code, 9, end.as_slice());
    code
}

/// Every argument lies whole in its own slot, whatever the others are.
pub proof fn arguments_lie_in_their_slots(args: Seq<Arg>, n: nat, i: int)
    requires
        n <= args.len(),
        0 <= i < n,
    ensures
        locals_image(args, args.len(), n).subrange(
            slot_offset(i),
            slot_offset(i) + arg_bytes(args[i]).len(),
        ) == arg_bytes(args[i]),
    decreases n,
{
    let total = args.len();
    lemma_locals_len(args, total, (n - 1) as nat);
    lemma_arg_len(args[n - 1]);
    lemma_arg_len(args[i]);
    let before = locals_image(args, total, (n - 1) as nat);
    let image = locals_image(args, total, n);
    let b = arg_bytes(args[i]);
    if i == n - 1 {
        assert(image.subrange(slot_offset(i), slot_offset(i) + b.len()) =~= b);
    } else {
        arguments_lie_in_their_slots(args, (n - 1) as nat, i);
        assert(image.subrange(slot_offset(i), slot_offset(i) + b.len()) =~= before.subrange(
            slot_offset(i),
            slot_offset(i) + b.len(),
        ));
    }
}

// ---- incoming calls --------------------------------------------------------

/// The part of a frame that reading parameters changes.
#[derive(Clone, Copy, PartialEq, Eq, Structural)]
pub struct FrameRegs {
    pub code: u64,
    pub current: u8,
    pub data: u64,
    pub data_type: u64,
}

/// Is the type one whose value is a plain number?
pub open spec fn scalar_type(tc: u64) -> bool {
    ||| tc == cname_of("CName"@)
    ||| tc == cname_of("Int32"@)
    ||| tc == cname_of("Uint32"@)
    ||| tc == cname_of("Int64"@)
    ||| tc == cname_of("Uint64"@)
    ||| tc == cname_of("Float"@)
    ||| tc == cname_of("Bool"@)
    ||| tc == cname_of("TweakDBID"@)
    ||| tc == cname_of("EntityID"@)
}

/// Is the value eight bytes that can be taken as they are: a plain number, a
/// handle, a weak handle or an enum?
pub open spec fn reads_whole(tc: u64, ertti: u32) -> bool {
    scalar_type(tc) || ertti == 9 || ertti == 10 || ertti == 5
}

fn is_scalar(tc: u64) -> (r: bool)
    ensures
        r == scalar_type(tc),
{
    tc == cname("CName") || tc == cname("Int32") || tc == cname("Uint32") || tc == cname("Int64")
        || tc == cname("Uint64") || tc == cname("Float") || tc == cname("Bool") || tc == cname(
        "TweakDBID",
    ) || tc == cname("EntityID")
}

/// The reading of the parameters of one call.
pub struct ParamRun {
    /// How many parameters the function has.
    pub count: usize,
    /// Is the call answered here, so that its parameters stay taken?
    pub consume: bool,
    /// The frame as it was found.
    pub saved: FrameRegs,
    /// The frame as it is.
    pub now: FrameRegs,
    /// The kind of the parameter that is being read.
    pub ertti: u32,
    /// The values so far, each with the name of its type.
    pub values: Vec<(u64, u64)>,
}

pub struct ParamRunV {
    pub count: int,
    pub consume: bool,
    pub saved: FrameRegs,
    pub now: FrameRegs,
    pub ertti: u32,
    pub values: Seq<(u64, u64)>,
}

impl View for ParamRun {
    type V = ParamRunV;

    open spec fn view(&self) -> ParamRunV {
        ParamRunV {
            count: self.count as int,
            consume: self.consume,
            saved: self.saved,
            now: self.now,
            ertti: self.ertti,
            values: self.values@,
        }
    }
}

/// What happened in the engine.
#[derive(Clone, Copy)]
pub enum ParamEvent {
    /// An instance of the parameter's type could not be made, or was made.
    Instance(bool),
    /// The byte of code that the frame points at can be read, or cannot.
    Code(bool),
    /// The handler of the operation, whether it can be read, and the kind of the
    /// parameter's type.
    Handler { addr: u64, mapped: bool, ertti: u32 },
    /// The handler ran: the frame it left, the name of the type, and the first
    /// eight bytes of the instance where they can be read.
    Ran { regs: FrameRegs, tname: u64, raw: Option<u64> },
}

/// What is to be done next.
#[derive(Clone, Copy, PartialEq, Eq, Structural)]
pub enum ParamAction {
    /// Make an instance for the parameter with this index, after freeing the
    /// last one where there was one.
    Instance { free: bool, index: usize },
    /// Write the frame and look at its code.
    Fetch(FrameRegs),
    /// Write the frame and look the handler up.
    LookUp(FrameRegs),
    /// Run the handler, with the instance as the target of a script reference
    /// where the parameter is one.
    Run { script_ref: bool },
    /// Free the instance where there is one, and leave this frame behind.
    Finish { free: bool, regs: FrameRegs },
}

/// The frame before the handler of a parameter is looked for: one more
/// parameter is counted, and nothing is left of the last one.
pub open spec fn next_param(regs: FrameRegs) -> FrameRegs {
    FrameRegs {
        code: regs.code,
        current: if regs.current == 255 {
            0
        } else {
            (regs.current + 1) as u8
        },
        data: 0,
        data_type: 0,
    }
}

/// The frame with one byte of code taken.
pub open spec fn next_code(regs: FrameRegs) -> FrameRegs {
    FrameRegs {
        code: if regs.code == u64::MAX {
            0
        } else {
            (regs.code + 1) as u64
        },
        current: regs.current,
        data: regs.data,
        data_type: regs.data_type,
    }
}

/// The frame that is left behind: as it is where the call was answered, as it
/// was where the call goes on.
pub open spec fn left_behind(run: ParamRunV) -> FrameRegs {
    if run.consume {
        run.now
    } else {
        run.saved
    }
}

/// The value of a parameter: its eight bytes where it is a plain value, else
/// zero.
pub open spec fn param_value(tname: u64, ertti: u32, raw: Option<u64>) -> u64 {
    match raw {
        Some(v) => if reads_whole(tname, ertti) {
            v
        } else {
            0
        },
        None => 0,
    }
}

/// The reading and what it does next, after an event.
pub open spec fn param_step(run: ParamRunV, e: ParamEvent) -> (ParamRunV, ParamAction) {
    match e {
        ParamEvent::Instance(made) => if made {
            let regs = next_param(run.now);
            (ParamRunV { now: regs, ..run }, ParamAction::Fetch(regs))
        } else {
            (run, ParamAction::Finish { free: false, regs: left_behind(run) })
        },
        ParamEvent::Code(mapped) => if run.now.code != 0 && mapped {
            let regs = next_code(run.now);
            (ParamRunV { now: regs, ..run }, ParamAction::LookUp(regs))
        } else {
            (run, ParamAction::Finish { free: true, regs: left_behind(run) })
        },
        ParamEvent::Handler { addr, mapped, ertti } => if addr != 0 && is_sane(addr as int)
            && mapped {
            (ParamRunV { ertti, ..run }, ParamAction::Run { script_ref: ertti == 15 })
        } else {
            (run, ParamAction::Finish { free: true, regs: left_behind(run) })
        },
        ParamEvent::Ran { regs, tname, raw } => {
            let next = ParamRunV {
                now: regs,
                values: run.values.push((param_value(tname, run.ertti, raw), tname)),
                ..run
            };
            if next.values.len() < run.count {
                (next, ParamAction::Instance { free: true, index: next.values.len() as usize })
            } else {
                (next, ParamAction::Finish { free: true, regs: left_behind(next) })
            }
        },
    }
}

/// Starts reading the parameters of a call. Nothing is read of a function or a
/// frame that is not there, nor of one with no parameters or with more than
/// sixteen.
pub fn params_start(
    present: bool,
    frame_mapped: bool,
    p_count: u32,
    saved: FrameRegs,
    consume: bool,
) -> (r: Option<ParamRun>)
    ensures
        r is Some <==> present && frame_mapped && 1 <= p_count <= 16,
        r is Some ==> (r->0)@ == (ParamRunV {
            count: p_count as int,
            consume,
            saved,
            now: saved,
            ertti: u32::MAX,
            values: Seq::empty(),
        }),
{
    if !present || !frame_mapped || p_count == 0 || p_count > 16 {
        return None;
    }
    Some(
        ParamRun {
            count: p_count as usize,
            consume,
            saved,
            now: saved,
            ertti: u32::MAX,
            values: Vec::new(),
        },
    )
}

/// Starts reading the parameters for a hook: the frame is left as it was, for the
/// function behind it to read.
pub fn read_params(
    present: bool,
    frame_mapped: bool,
    p_count: u32,
    saved: FrameRegs,
) -> (r: Option<ParamRun>)
    ensures
        r is Some <==> present && frame_mapped && 1 <= p_count <= 16,
        r is Some ==> (r->0)@ == (ParamRunV {
            count: p_count as int,
            consume: false,
            saved,
            now: saved,
            ertti: u32::MAX,
            values: Seq::empty(),
        }),
{
    params_start(present, frame_mapped, p_count, saved, false)
}

/// Starts reading the parameters for a function of our own, behind which nobody
/// reads them again.
pub fn read_params_consuming(
    present: bool,
    frame_mapped: bool,
    p_count: u32,
    saved: FrameRegs,
) -> (r: Option<ParamRun>)
    ensures
        r is Some <==> present && frame_mapped && 1 <= p_count <= 16,
        r is Some ==> (r->0)@ == (ParamRunV {
            count: p_count as int,
            consume: true,
            saved,
            now: saved,
            ertti: u32::MAX,
            values: Seq::empty(),
        }),
{
    params_start(present, frame_mapped, p_count, saved, true)
}

fn leave(run: &ParamRun) -> (r: FrameRegs)
    ensures
        r == left_behind(run@),
{
    if run.consume {
        run.now
    } else {
        run.saved
    }
}

/// Takes the reading of the parameters one event further.
pub fn read_params_inner(run: &mut ParamRun, e: ParamEvent) -> (r: ParamAction)
    ensures
        (final(run)@, r) == param_step(old(run)@, e),
{
    match e {
        ParamEvent::Instance(made) => {
            if !made {
                return ParamAction::Finish { free: false, regs: leave(run) };
            }
            let now = run.now;
            let current: u8 = if now.current == 255 {
                0
            } else {
                now.current + 1
            };
            let regs = FrameRegs { code: now.code, current, data: 0, data_type: 0 };
            run.now = regs;
            ParamAction::Fetch(regs)
        },
        ParamEvent::Code(mapped) => {
            let now = run.now;
            if now.code == 0 || !mapped {
                return ParamAction::Finish { free: true, regs: leave(run) };
            }
            let code: u64 = if now.code == u64::MAX {
                0
            } else {
                now.code + 1
            };
            let regs = FrameRegs {
                code,
                current: now.current,
                data: now.data,
                data_type: now.data_type,
            };
            run.now = regs;
            ParamAction::LookUp(regs)
        },
        ParamEvent::Handler { addr, mapped, ertti } => {
            if addr == 0 || !sane(addr) || !mapped {
                return ParamAction::Finish { free: true, regs: leave(run) };
            }
            run.ertti = ertti;
            ParamAction::Run { script_ref: ertti == 15 }
        },
        ParamEvent::Ran { regs, tname, raw } => {
            let ertti: u32 = run.ertti;
            let whole: bool = is_scalar(tname) || ertti == 9 || ertti == 10 || ertti == 5;
            let v: u64 = match raw {
                Some(x) => if whole {
                    x
                } else {
                    0
                },
                None => 0,
            };
            run.now = regs;
            run.values.push((v, tname));
            let n: usize = run.values.len();
            if n < run.count {
                ParamAction::Instance { free: true, index: n }
            } else {
                ParamAction::Finish { free: true, regs: leave(run) }
            }
        },
    }
}

/// The reading after a number of events.
pub open spec fn param_steps(run: ParamRunV, events: Seq<ParamEvent>) -> ParamRunV
    decreases events.len(),
{
    if events.len() == 0 {
        run
    } else {
        param_step(param_steps(run, events.drop_last()), events.last()).0
    }
}

/// A hook that lets the call go on leaves the frame as it found it, whatever
/// happens on the way.
pub proof fn hooks_leave_the_frame_as_it_was(run: ParamRunV, events: Seq<ParamEvent>, e: ParamEvent)
    requires
        !run.consume,
    ensures
        match param_step(param_steps(run, events), e).1 {
            ParamAction::Finish { regs, .. } => regs == run.saved,
            _ => true,
        },
{
    lemma_steps_keep(run, events);
}

proof fn lemma_steps_keep(run: ParamRunV, events: Seq<ParamEvent>)
    ensures
        param_steps(run, events).saved == run.saved,
        param_steps(run, events).consume == run.consume,
        param_steps(run, events).count == run.count,
    decreases events.len(),
{
    if events.len() > 0 {
        lemma_steps_keep(run, events.drop_last());
    }
}

} // verus!
