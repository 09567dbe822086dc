//! The outcome of decompressing a Kraken stream, and the header that announces
//! one. The decompressor itself is a native library of the program around this.
use vstd::prelude::*;

use crate::cursor::{le_value, Cursor};
use crate::text::{dec, push_dec, push_lit, string_of};

verus! {

/// The four bytes `KARK` that stand before a Kraken stream.
pub const KARK_MAGIC: u32 = 0x4B52_414B;

#[derive(Debug)]
pub enum KrakenError {
    /// No decompressor was built in.
    Unavailable,
    /// The decompressor ran, but gave another size than expected.
    SizeMismatch { got: usize, want: usize },
}

impl KrakenError {
    pub open spec fn text(self) -> Seq<char> {
        match self {
            KrakenError::Unavailable => {
                "descompressor Kraken indisponível (recompile o ooz para arm64 e ative a feature `kraken`)"@
            },
            KrakenError::SizeMismatch { got, want } => "Kraken descomprimiu "@ + dec(got as nat)
                + " bytes, esperado "@ + dec(want as nat),
        }
    }

    pub fn message(&self) -> (r: String)
        ensures
            r@ == self.text(),
    {
        match self {
            KrakenError::Unavailable => {
                "descompressor Kraken indisponível (recompile o ooz para arm64 e ative a feature `kraken`)".to_owned()
            },
            KrakenError::SizeMismatch { got, want } => {
                let mut out: Vec<char> = Vec::new();
                push_lit(&mut out, "Kraken descomprimiu ");
                push_dec(&mut out, *got as u128);
                push_lit(&mut out, " bytes, esperado ");
                push_dec(&mut out, *want as u128);
                proof {
                    assert(out@ =~= self.text());
                }
                string_of(out.as_slice())
            },
        }
    }
}

/// What comes of a decompression: `reply` is what the decompressor wrote and
/// the count it returned, or nothing where there is no decompressor. Only the
/// exact size is accepted.
pub fn decompress(reply: Option<(i64, Vec<u8>)>, out_size: usize) -> (r: Result<
    Vec<u8>,
    KrakenError,
>)
    ensures
        match reply {
            None => r == Err::<Vec<u8>, KrakenError>(KrakenError::Unavailable),
            Some((written, out)) => if written == out_size {
                r == Ok::<Vec<u8>, KrakenError>(out)
            } else {
                match r {
                    Err(KrakenError::SizeMismatch { got, want }) => want == out_size && got
                        == mismatch_size(written),
                    _ => false,
                }
            },
        },
{
    match reply {
        None => Err(KrakenError::Unavailable),
        Some((written, out)) => {
            if written < 0 {
                return Err(KrakenError::SizeMismatch { got: 0, want: out_size });
            }
            if written as u64 != out_size as u64 {
                let got: usize = if written as u64 > usize::MAX as u64 {
                    usize::MAX
                } else {
                    written as usize
                };
                return Err(KrakenError::SizeMismatch { got, want: out_size });
            }
            Ok(out)
        },
    }
}

/// The size that a mismatch reports: a negative count is none.
pub open spec fn mismatch_size(written: i64) -> int {
    if written < 0 {
        0
    } else if written > usize::MAX {
        usize::MAX as int
    } else {
        written as int
    }
}

/// How the bytes of a file are packed.
pub enum Packing {
    /// As they are.
    Plain,
    /// A Kraken stream behind a header of eight bytes, with its unpacked size.
    Kraken { size: u32 },
}

/// How the bytes of a file are packed, by their first eight.
pub open spec fn packing_of(bytes: Seq<u8>) -> Packing {
    if bytes.len() >= 8 && le_value(bytes.subrange(0, 4)) == KARK_MAGIC {
        Packing::Kraken { size: le_value(bytes.subrange(4, 8)) as u32 }
    } else {
        Packing::Plain
    }
}

pub fn packing(bytes: &[u8]) -> (r: Packing)
    ensures
        r == packing_of(bytes@),
{
    if bytes.len() < 8 {
        return Packing::Plain;
    }
    let mut cur = Cursor::new(bytes);
    if let Ok(magic) = cur.u32() {
        if magic == KARK_MAGIC {
            if let Ok(size) = cur.u32() {
                return Packing::Kraken { size };
            }
        }
    }
    Packing::Plain
}

/// The message for a list of names that could not be unpacked.
pub fn unpack_failure(e: &KrakenError) -> (r: String)
    ensures
        r@ == "descompressão Kraken da lista de nomes falhou ("@ + e.text()
            + "). Compile com a feature `kraken` (default) ou passe um .bin já descomprimido."@,
{
    let mut out: Vec<char> = Vec::new();
    push_lit(&mut out, "descompressão Kraken da lista de nomes falhou (");
    let m = e.message();
    push_lit(&mut out, m.as_str());
    push_lit(
        &mut out,
        "). Compile com a feature `kraken` (default) ou passe um .bin já descomprimido.",
    );
    proof {
        assert(out@ =~= "descompressão Kraken da lista de nomes falhou ("@ + e.text()
            + "). Compile com a feature `kraken` (default) ou passe um .bin já descomprimido."@);
    }
    string_of(out.as_slice())
}

} // verus!
