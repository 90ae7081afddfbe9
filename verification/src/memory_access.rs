//! How LuaJIT code reads and writes linear memory: each load or store goes
//! through a pointer field named after the integer it moves, whose width in
//! bytes bounds-checks the access.

use vstd::prelude::*;

use crate::ir::{LoadType, StoreType};
use crate::runtime_names::{load_stored_text, store_stored_text};

verus! {

/// The number of bytes a memory load reads.
pub open spec fn load_width(kind: LoadType) -> int {
    match kind {
        LoadType::I32S8 | LoadType::I32U8 | LoadType::I64S8 | LoadType::I64U8 => 1,
        LoadType::I32S16 | LoadType::I32U16 | LoadType::I64S16 | LoadType::I64U16 => 2,
        LoadType::I32 | LoadType::I64S32 | LoadType::I64U32 | LoadType::F32 => 4,
        LoadType::I64 | LoadType::F64 => 8,
    }
}

/// Whether a memory load reads its bytes as an unsigned integer.
pub open spec fn load_unsigned(kind: LoadType) -> bool {
    match kind {
        LoadType::I32U8 | LoadType::I64U8 | LoadType::I32U16 | LoadType::I64U16 | LoadType::I64U32 => true,
        _ => false,
    }
}

/// The number of bytes a memory store writes.
pub open spec fn store_width(kind: StoreType) -> int {
    match kind {
        StoreType::I32I8 | StoreType::I64I8 => 1,
        StoreType::I32I16 | StoreType::I64I16 => 2,
        StoreType::I32 | StoreType::I64I32 | StoreType::F32 => 4,
        StoreType::I64 | StoreType::F64 => 8,
    }
}

/// The number of bits in `width` bytes, written in decimal.
pub open spec fn bits_text(width: int) -> Seq<char> {
    if width == 1 {
        "8"@
    } else if width == 2 {
        "16"@
    } else if width == 4 {
        "32"@
    } else {
        "64"@
    }
}

/// The pointer field that moves an integer of `width` bytes, signed (`i`)
/// or unsigned (`u`).
pub open spec fn field_text(unsigned: bool, width: int) -> Seq<char> {
    (if unsigned {
        "u"@
    } else {
        "i"@
    }) + bits_text(width)
}

/// An access to linear memory: the pointer field it goes through and the
/// number of bytes it moves.
#[derive(Clone, Copy)]
pub struct Access {
    pub field: &'static str,
    pub width: i32,
}

impl Access {
    /// The access of a memory load: floating-point values are read through
    /// the signed integer field of their width.
    pub fn for_load(kind: LoadType) -> (access: Self)
        ensures
            access.width == load_width(kind),
            access.field@ == field_text(load_unsigned(kind), load_width(kind)),
    {
        proof {
            reveal_strlit("i");
            reveal_strlit("u");
            reveal_strlit("8");
            reveal_strlit("16");
            reveal_strlit("32");
            reveal_strlit("64");
            reveal_strlit("i8");
            reveal_strlit("u8");
            reveal_strlit("i16");
            reveal_strlit("u16");
            reveal_strlit("i32");
            reveal_strlit("u32");
            reveal_strlit("i64");
        }
        match kind {
            LoadType::I32S8 | LoadType::I64S8 => Access { field: "i8", width: 1 },
            LoadType::I32U8 | LoadType::I64U8 => Access { field: "u8", width: 1 },
            LoadType::I32S16 | LoadType::I64S16 => Access { field: "i16", width: 2 },
            LoadType::I32U16 | LoadType::I64U16 => Access { field: "u16", width: 2 },
            LoadType::I32 | LoadType::I64S32 | LoadType::F32 => Access { field: "i32", width: 4 },
            LoadType::I64U32 => Access { field: "u32", width: 4 },
            LoadType::I64 | LoadType::F64 => Access { field: "i64", width: 8 },
        }
    }

    /// The access of a memory store: every value is written through the
    /// signed integer field of its width.
    pub fn for_store(kind: StoreType) -> (access: Self)
        ensures
            access.width == store_width(kind),
            access.field@ == field_text(false, store_width(kind)),
    {
        proof {
            reveal_strlit("i");
            reveal_strlit("8");
            reveal_strlit("16");
            reveal_strlit("32");
            reveal_strlit("64");
            reveal_strlit("i8");
            reveal_strlit("i16");
            reveal_strlit("i32");
            reveal_strlit("i64");
        }
        match kind {
            StoreType::I32I8 | StoreType::I64I8 => Access { field: "i8", width: 1 },
            StoreType::I32I16 | StoreType::I64I16 => Access { field: "i16", width: 2 },
            StoreType::I32 | StoreType::I64I32 | StoreType::F32 => Access { field: "i32", width: 4 },
            StoreType::I64 | StoreType::F64 => Access { field: "i64", width: 8 },
        }
    }
}


/// The decimal digits of a number of bits: `8`, `16`, `32` or `64`.
pub open spec fn bit_digits(bits: int) -> Seq<char> {
    if bits == 8 {
        seq!['8']
    } else if bits == 16 {
        seq!['1', '6']
    } else if bits == 32 {
        seq!['3', '2']
    } else {
        seq!['6', '4']
    }
}

/// A load goes through the unsigned pointer field exactly when it reads an
/// unsigned narrow integer (`I32U8`, `I64U8`, `I32U16`, `I64U16`,
/// `I64U32`), and through the signed one otherwise; the field's digits
/// are the number of bits the load reads.
pub proof fn lemma_load_field_reads_signedness(kind: LoadType)
    ensures
        ({
            let field = field_text(load_unsigned(kind), load_width(kind));
            let unsigned = kind is I32U8 || kind is I64U8 || kind is I32U16 || kind is I64U16
                || kind is I64U32;
            &&& field.len() >= 2
            &&& field[0] == if unsigned { 'u' } else { 'i' }
            &&& field.drop_first() == bit_digits(8 * load_width(kind))
        }),
{
    reveal_strlit("i");
    reveal_strlit("u");
    reveal_strlit("8");
    reveal_strlit("16");
    reveal_strlit("32");
    reveal_strlit("64");
    let field = field_text(load_unsigned(kind), load_width(kind));
    assert(field.drop_first() =~= bit_digits(8 * load_width(kind)));
}

/// A load that reads a narrow integer goes through a field as wide as the
/// integer that the Luau runtime function of the same load reads, and the
/// field is unsigned exactly when that integer is (`u16` for a load that
/// the runtime names `u16`, `i16` for one it names `s16`).
pub proof fn lemma_load_field_matches_runtime(kind: LoadType)
    ensures
        load_stored_text(kind) matches Some(stored) ==> ({
            let field = field_text(load_unsigned(kind), load_width(kind));
            &&& stored.len() >= 2
            &&& field.len() >= 2
            &&& stored.drop_first() == field.drop_first()
            &&& (stored[0] == 'u') == (field[0] == 'u')
        }),
{
    reveal_strlit("i");
    reveal_strlit("u");
    reveal_strlit("8");
    reveal_strlit("16");
    reveal_strlit("32");
    reveal_strlit("64");
    reveal_strlit("s8");
    reveal_strlit("u8");
    reveal_strlit("s16");
    reveal_strlit("u16");
    reveal_strlit("s32");
    reveal_strlit("u32");
    let field = field_text(load_unsigned(kind), load_width(kind));
    if let Some(stored) = load_stored_text(kind) {
        assert(stored.drop_first() =~= field.drop_first());
    }
}

/// A store goes through the signed pointer field whose digits are the
/// number of bits it writes.
pub proof fn lemma_store_field_width(kind: StoreType)
    ensures
        ({
            let field = field_text(false, store_width(kind));
            &&& field.len() >= 2
            &&& field[0] == 'i'
            &&& field.drop_first() == bit_digits(8 * store_width(kind))
        }),
{
    reveal_strlit("i");
    reveal_strlit("8");
    reveal_strlit("16");
    reveal_strlit("32");
    reveal_strlit("64");
    let field = field_text(false, store_width(kind));
    assert(field.drop_first() =~= bit_digits(8 * store_width(kind)));
}


/// A store that writes a narrow integer goes through the field named like
/// the integer that the Luau runtime function of the same store writes
/// (`i16` for a store of the low 16 bits).
pub proof fn lemma_store_field_matches_runtime(kind: StoreType)
    ensures
        store_stored_text(kind) matches Some(stored) ==> stored == field_text(false, store_width(kind)),
{
    reveal_strlit("i");
    reveal_strlit("8");
    reveal_strlit("16");
    reveal_strlit("32");
    reveal_strlit("64");
    reveal_strlit("i8");
    reveal_strlit("i16");
    reveal_strlit("i32");
    if let Some(stored) = store_stored_text(kind) {
        assert(stored =~= field_text(false, store_width(kind)));
    }
}

} // verus!
