//! Names of the runtime functions that Luau code calls for the operations
//! it has no operator for.
//!
//! Every name is `rt_`, the operation, `_`, and the type it works on; an
//! operation whose result depends on signedness names the signed (`s`) or
//! unsigned (`u`) type, and a conversion names both of its types.

use vstd::prelude::*;

use crate::ir::{
    ExtendType, IntegerBinaryOperator, IntegerCompareOperator, IntegerType, IntegerUnaryOperator,
    LoadType, NumberBinaryOperator, NumberCompareOperator, NumberType, NumberUnaryOperator,
    StoreType,
};

verus! {

/// The runtime function for `operation` on values of type `operand`.
pub open spec fn runtime_name(operation: Seq<char>, operand: Seq<char>) -> Seq<char> {
    "rt_"@ + operation + "_"@ + operand
}

/// The runtime function for `operation` from values of type `from` to
/// values of type `to`.
pub open spec fn conversion_name(operation: Seq<char>, from: Seq<char>, to: Seq<char>) -> Seq<char> {
    "rt_"@ + operation + "_"@ + from + "_to_"@ + to
}

/// The width of an integer type.
pub open spec fn width_text(kind: IntegerType) -> Seq<char> {
    match kind {
        IntegerType::I32 => "32"@,
        IntegerType::I64 => "64"@,
    }
}

/// An integer type, whatever its signedness.
pub open spec fn integer_text(kind: IntegerType) -> Seq<char> {
    "i"@ + width_text(kind)
}

/// An integer type read as signed or as unsigned.
pub open spec fn signed_text(kind: IntegerType, signed: bool) -> Seq<char> {
    (if signed {
        "s"@
    } else {
        "u"@
    }) + width_text(kind)
}

/// A floating-point type.
pub open spec fn number_text(kind: NumberType) -> Seq<char> {
    match kind {
        NumberType::F32 => "f32"@,
        NumberType::F64 => "f64"@,
    }
}

/// The operation of a one-operand integer runtime function.
pub open spec fn integer_unary_word(operator: IntegerUnaryOperator) -> Seq<char> {
    match operator {
        IntegerUnaryOperator::CountOnes => "count_ones"@,
        IntegerUnaryOperator::LeadingZeroes => "leading_zeros"@,
        IntegerUnaryOperator::TrailingZeroes => "trailing_zeros"@,
    }
}

/// The runtime function of a one-operand integer operation.
pub open spec fn integer_unary_runtime(kind: IntegerType, operator: IntegerUnaryOperator) -> Seq<
    char,
> {
    runtime_name(integer_unary_word(operator), integer_text(kind))
}

/// The operation of a two-operand integer runtime function.
pub open spec fn integer_binary_word(operator: IntegerBinaryOperator) -> Seq<char> {
    match operator {
        IntegerBinaryOperator::Add => "add"@,
        IntegerBinaryOperator::Subtract => "subtract"@,
        IntegerBinaryOperator::Multiply => "multiply"@,
        IntegerBinaryOperator::Divide { .. } => "divide"@,
        IntegerBinaryOperator::Remainder { .. } => "remainder"@,
        IntegerBinaryOperator::And => "and"@,
        IntegerBinaryOperator::Or => "or"@,
        IntegerBinaryOperator::ExclusiveOr => "exclusive_or"@,
        IntegerBinaryOperator::ShiftLeft => "shift_left"@,
        IntegerBinaryOperator::ShiftRight { .. } => "shift_right"@,
        IntegerBinaryOperator::RotateLeft => "rotate_left"@,
        IntegerBinaryOperator::RotateRight => "rotate_right"@,
    }
}

/// The runtime function of a two-operand integer operation.
pub open spec fn integer_binary_runtime(kind: IntegerType, operator: IntegerBinaryOperator) -> Seq<
    char,
> {
    runtime_name(
        integer_binary_word(operator),
        match operator {
            IntegerBinaryOperator::Divide { signed }
            | IntegerBinaryOperator::Remainder { signed }
            | IntegerBinaryOperator::ShiftRight { signed } => signed_text(kind, signed),
            _ => integer_text(kind),
        },
    )
}

/// The runtime function of an integer comparison.
pub open spec fn integer_compare_runtime(kind: IntegerType, operator: IntegerCompareOperator) -> Seq<
    char,
> {
    match operator {
        IntegerCompareOperator::Equal => runtime_name("equal"@, integer_text(kind)),
        IntegerCompareOperator::NotEqual => runtime_name("not_equal"@, integer_text(kind)),
        IntegerCompareOperator::LessThan { signed } => runtime_name(
            "less_than"@,
            signed_text(kind, signed),
        ),
        IntegerCompareOperator::GreaterThan { signed } => runtime_name(
            "greater_than"@,
            signed_text(kind, signed),
        ),
        IntegerCompareOperator::LessThanEqual { signed } => runtime_name(
            "less_than_equal"@,
            signed_text(kind, signed),
        ),
        IntegerCompareOperator::GreaterThanEqual { signed } => runtime_name(
            "greater_than_equal"@,
            signed_text(kind, signed),
        ),
    }
}

/// The runtime function of a sign extension.
pub open spec fn integer_extend_runtime(kind: ExtendType) -> Seq<char> {
    match kind {
        ExtendType::I32S8 => conversion_name("extend"@, "s8"@, "i32"@),
        ExtendType::I32S16 => conversion_name("extend"@, "s16"@, "i32"@),
        ExtendType::I64S8 => conversion_name("extend"@, "s8"@, "i64"@),
        ExtendType::I64S16 => conversion_name("extend"@, "s16"@, "i64"@),
        ExtendType::I64S32 => conversion_name("extend"@, "s32"@, "i64"@),
    }
}

/// The floating-point type as wide as an integer type.
pub open spec fn number_of_width(kind: IntegerType) -> NumberType {
    match kind {
        IntegerType::I32 => NumberType::F32,
        IntegerType::I64 => NumberType::F64,
    }
}

/// The integer type as wide as a floating-point type.
pub open spec fn integer_of_width(kind: NumberType) -> IntegerType {
    match kind {
        NumberType::F32 => IntegerType::I32,
        NumberType::F64 => IntegerType::I64,
    }
}

/// The operation of a one-operand floating-point runtime function.
pub open spec fn number_unary_word(operator: NumberUnaryOperator) -> Seq<char> {
    match operator {
        NumberUnaryOperator::Absolute => "absolute"@,
        NumberUnaryOperator::Negate => "negate"@,
        NumberUnaryOperator::SquareRoot => "square_root"@,
        NumberUnaryOperator::RoundUp => "round_up"@,
        NumberUnaryOperator::RoundDown => "round_down"@,
        NumberUnaryOperator::Truncate => "truncate"@,
        NumberUnaryOperator::Nearest => "nearest"@,
    }
}

/// The runtime function of a one-operand floating-point operation.
pub open spec fn number_unary_runtime(kind: NumberType, operator: NumberUnaryOperator) -> Seq<char> {
    runtime_name(number_unary_word(operator), number_text(kind))
}

/// The operation of a two-operand floating-point runtime function.
pub open spec fn number_binary_word(operator: NumberBinaryOperator) -> Seq<char> {
    match operator {
        NumberBinaryOperator::Add => "add"@,
        NumberBinaryOperator::Subtract => "subtract"@,
        NumberBinaryOperator::Multiply => "multiply"@,
        NumberBinaryOperator::Divide => "divide"@,
        NumberBinaryOperator::Minimum => "minimum"@,
        NumberBinaryOperator::Maximum => "maximum"@,
        NumberBinaryOperator::CopySign => "copy_sign"@,
    }
}

/// The runtime function of a two-operand floating-point operation.
pub open spec fn number_binary_runtime(kind: NumberType, operator: NumberBinaryOperator) -> Seq<
    char,
> {
    runtime_name(number_binary_word(operator), number_text(kind))
}

/// The operation of a floating-point comparison runtime function.
pub open spec fn number_compare_word(operator: NumberCompareOperator) -> Seq<char> {
    match operator {
        NumberCompareOperator::Equal => "equal"@,
        NumberCompareOperator::NotEqual => "not_equal"@,
        NumberCompareOperator::LessThan => "less_than"@,
        NumberCompareOperator::GreaterThan => "greater_than"@,
        NumberCompareOperator::LessThanEqual => "less_than_equal"@,
        NumberCompareOperator::GreaterThanEqual => "greater_than_equal"@,
    }
}

/// The runtime function of a floating-point comparison.
pub open spec fn number_compare_runtime(kind: NumberType, operator: NumberCompareOperator) -> Seq<
    char,
> {
    runtime_name(number_compare_word(operator), number_text(kind))
}

/// The type a memory load makes of what it reads.
pub open spec fn load_value_text(kind: LoadType) -> Seq<char> {
    match kind {
        LoadType::I32S8 | LoadType::I32U8 | LoadType::I32S16 | LoadType::I32U16 | LoadType::I32 => "i32"@,
        LoadType::I64S8
        | LoadType::I64U8
        | LoadType::I64S16
        | LoadType::I64U16
        | LoadType::I64S32
        | LoadType::I64U32
        | LoadType::I64 => "i64"@,
        LoadType::F32 => "f32"@,
        LoadType::F64 => "f64"@,
    }
}

/// What a memory load reads, when it is narrower than the value it makes.
pub open spec fn load_stored_text(kind: LoadType) -> Option<Seq<char>> {
    match kind {
        LoadType::I32S8 | LoadType::I64S8 => Some("s8"@),
        LoadType::I32U8 | LoadType::I64U8 => Some("u8"@),
        LoadType::I32S16 | LoadType::I64S16 => Some("s16"@),
        LoadType::I32U16 | LoadType::I64U16 => Some("u16"@),
        LoadType::I64S32 => Some("s32"@),
        LoadType::I64U32 => Some("u32"@),
        _ => None,
    }
}

/// The runtime function of a memory load.
pub open spec fn memory_load_runtime(kind: LoadType) -> Seq<char> {
    "rt_load_"@ + load_value_text(kind) + match load_stored_text(kind) {
        Some(stored) => "_from_"@ + stored,
        None => Seq::empty(),
    }
}

/// The type of the value a memory store takes.
pub open spec fn store_value_text(kind: StoreType) -> Seq<char> {
    match kind {
        StoreType::I32I8 | StoreType::I32I16 | StoreType::I32 => "i32"@,
        StoreType::I64I8 | StoreType::I64I16 | StoreType::I64I32 | StoreType::I64 => "i64"@,
        StoreType::F32 => "f32"@,
        StoreType::F64 => "f64"@,
    }
}

/// What a memory store writes, when it is narrower than the value it takes.
pub open spec fn store_stored_text(kind: StoreType) -> Option<Seq<char>> {
    match kind {
        StoreType::I32I8 | StoreType::I64I8 => Some("i8"@),
        StoreType::I32I16 | StoreType::I64I16 => Some("i16"@),
        StoreType::I64I32 => Some("i32"@),
        _ => None,
    }
}

/// The runtime function of a memory store.
pub open spec fn memory_store_runtime(kind: StoreType) -> Seq<char> {
    "rt_store_"@ + store_value_text(kind) + match store_stored_text(kind) {
        Some(stored) => "_into_"@ + stored,
        None => Seq::empty(),
    }
}

/// The runtime function of a one-operand integer operation.
pub fn integer_unary_name(kind: IntegerType, operator: IntegerUnaryOperator) -> (name: &'static str)
    ensures
        name@ == integer_unary_runtime(kind, operator),
{
    proof {
        reveal_strlit("rt_");
        reveal_strlit("_");
        reveal_strlit("_to_");
        reveal_strlit("32");
        reveal_strlit("64");
        reveal_strlit("i");
        reveal_strlit("s");
        reveal_strlit("u");
        reveal_strlit("f32");
        reveal_strlit("f64");
        reveal_strlit("count_ones");
        reveal_strlit("leading_zeros");
        reveal_strlit("trailing_zeros");
    }
    match (kind, operator) {
        (IntegerType::I32, IntegerUnaryOperator::CountOnes) => {
            proof {
                reveal_strlit("rt_count_ones_i32");
            }
            "rt_count_ones_i32"
        },
        (IntegerType::I32, IntegerUnaryOperator::LeadingZeroes) => {
            proof {
                reveal_strlit("rt_leading_zeros_i32");
            }
            "rt_leading_zeros_i32"
        },
        (IntegerType::I32, IntegerUnaryOperator::TrailingZeroes) => {
            proof {
                reveal_strlit("rt_trailing_zeros_i32");
            }
            "rt_trailing_zeros_i32"
        },
        (IntegerType::I64, IntegerUnaryOperator::CountOnes) => {
            proof {
                reveal_strlit("rt_count_ones_i64");
            }
            "rt_count_ones_i64"
        },
        (IntegerType::I64, IntegerUnaryOperator::LeadingZeroes) => {
            proof {
                reveal_strlit("rt_leading_zeros_i64");
            }
            "rt_leading_zeros_i64"
        },
        (IntegerType::I64, IntegerUnaryOperator::TrailingZeroes) => {
            proof {
                reveal_strlit("rt_trailing_zeros_i64");
            }
            "rt_trailing_zeros_i64"
        },
    }
}

/// The runtime function of a two-operand integer operation.
pub fn integer_binary_name(kind: IntegerType, operator: IntegerBinaryOperator) -> (name: &'static str)
    ensures
        name@ == integer_binary_runtime(kind, operator),
{
    proof {
        reveal_strlit("rt_");
        reveal_strlit("_");
        reveal_strlit("_to_");
        reveal_strlit("32");
        reveal_strlit("64");
        reveal_strlit("i");
        reveal_strlit("s");
        reveal_strlit("u");
        reveal_strlit("f32");
        reveal_strlit("f64");
        reveal_strlit("add");
        reveal_strlit("subtract");
        reveal_strlit("multiply");
        reveal_strlit("divide");
        reveal_strlit("remainder");
        reveal_strlit("and");
        reveal_strlit("or");
        reveal_strlit("exclusive_or");
        reveal_strlit("shift_left");
        reveal_strlit("shift_right");
        reveal_strlit("rotate_left");
        reveal_strlit("rotate_right");
    }
    match (kind, operator) {
        (IntegerType::I32, IntegerBinaryOperator::Add) => {
            proof {
                reveal_strlit("rt_add_i32");
            }
            "rt_add_i32"
        },
        (IntegerType::I32, IntegerBinaryOperator::Subtract) => {
            proof {
                reveal_strlit("rt_subtract_i32");
            }
            "rt_subtract_i32"
        },
        (IntegerType::I32, IntegerBinaryOperator::Multiply) => {
            proof {
                reveal_strlit("rt_multiply_i32");
            }
            "rt_multiply_i32"
        },
        (IntegerType::I32, IntegerBinaryOperator::Divide { signed: true }) => {
            proof {
                reveal_strlit("rt_divide_s32");
            }
            "rt_divide_s32"
        },
        (IntegerType::I32, IntegerBinaryOperator::Divide { signed: false }) => {
            proof {
                reveal_strlit("rt_divide_u32");
            }
            "rt_divide_u32"
        },
        (IntegerType::I32, IntegerBinaryOperator::Remainder { signed: true }) => {
            proof {
                reveal_strlit("rt_remainder_s32");
            }
            "rt_remainder_s32"
        },
        (IntegerType::I32, IntegerBinaryOperator::Remainder { signed: false }) => {
            proof {
                reveal_strlit("rt_remainder_u32");
            }
            "rt_remainder_u32"
        },
        (IntegerType::I32, IntegerBinaryOperator::And) => {
            proof {
                reveal_strlit("rt_and_i32");
            }
            "rt_and_i32"
        },
        (IntegerType::I32, IntegerBinaryOperator::Or) => {
            proof {
                reveal_strlit("rt_or_i32");
            }
            "rt_or_i32"
        },
        (IntegerType::I32, IntegerBinaryOperator::ExclusiveOr) => {
            proof {
                reveal_strlit("rt_exclusive_or_i32");
            }
            "rt_exclusive_or_i32"
        },
        (IntegerType::I32, IntegerBinaryOperator::ShiftLeft) => {
            proof {
                reveal_strlit("rt_shift_left_i32");
            }
            "rt_shift_left_i32"
        },
        (IntegerType::I32, IntegerBinaryOperator::ShiftRight { signed: true }) => {
            proof {
                reveal_strlit("rt_shift_right_s32");
            }
            "rt_shift_right_s32"
        },
        (IntegerType::I32, IntegerBinaryOperator::ShiftRight { signed: false }) => {
            proof {
                reveal_strlit("rt_shift_right_u32");
            }
            "rt_shift_right_u32"
        },
        (IntegerType::I32, IntegerBinaryOperator::RotateLeft) => {
            proof {
                reveal_strlit("rt_rotate_left_i32");
            }
            "rt_rotate_left_i32"
        },
        (IntegerType::I32, IntegerBinaryOperator::RotateRight) => {
            proof {
                reveal_strlit("rt_rotate_right_i32");
            }
            "rt_rotate_right_i32"
        },
        (IntegerType::I64, IntegerBinaryOperator::Add) => {
            proof {
                reveal_strlit("rt_add_i64");
            }
            "rt_add_i64"
        },
        (IntegerType::I64, IntegerBinaryOperator::Subtract) => {
            proof {
                reveal_strlit("rt_subtract_i64");
            }
            "rt_subtract_i64"
        },
        (IntegerType::I64, IntegerBinaryOperator::Multiply) => {
            proof {
                reveal_strlit("rt_multiply_i64");
            }
            "rt_multiply_i64"
        },
        (IntegerType::I64, IntegerBinaryOperator::Divide { signed: true }) => {
            proof {
                reveal_strlit("rt_divide_s64");
            }
            "rt_divide_s64"
        },
        (IntegerType::I64, IntegerBinaryOperator::Divide { signed: false }) => {
            proof {
                reveal_strlit("rt_divide_u64");
            }
            "rt_divide_u64"
        },
        (IntegerType::I64, IntegerBinaryOperator::Remainder { signed: true }) => {
            proof {
                reveal_strlit("rt_remainder_s64");
            }
            "rt_remainder_s64"
        },
        (IntegerType::I64, IntegerBinaryOperator::Remainder { signed: false }) => {
            proof {
                reveal_strlit("rt_remainder_u64");
            }
            "rt_remainder_u64"
        },
        (IntegerType::I64, IntegerBinaryOperator::And) => {
            proof {
                reveal_strlit("rt_and_i64");
            }
            "rt_and_i64"
        },
        (IntegerType::I64, IntegerBinaryOperator::Or) => {
            proof {
                reveal_strlit("rt_or_i64");
            }
            "rt_or_i64"
        },
        (IntegerType::I64, IntegerBinaryOperator::ExclusiveOr) => {
            proof {
                reveal_strlit("rt_exclusive_or_i64");
            }
            "rt_exclusive_or_i64"
        },
        (IntegerType::I64, IntegerBinaryOperator::ShiftLeft) => {
            proof {
                reveal_strlit("rt_shift_left_i64");
            }
            "rt_shift_left_i64"
        },
        (IntegerType::I64, IntegerBinaryOperator::ShiftRight { signed: true }) => {
            proof {
                reveal_strlit("rt_shift_right_s64");
            }
            "rt_shift_right_s64"
        },
        (IntegerType::I64, IntegerBinaryOperator::ShiftRight { signed: false }) => {
            proof {
                reveal_strlit("rt_shift_right_u64");
            }
            "rt_shift_right_u64"
        },
        (IntegerType::I64, IntegerBinaryOperator::RotateLeft) => {
            proof {
                reveal_strlit("rt_rotate_left_i64");
            }
            "rt_rotate_left_i64"
        },
        (IntegerType::I64, IntegerBinaryOperator::RotateRight) => {
            proof {
                reveal_strlit("rt_rotate_right_i64");
            }
            "rt_rotate_right_i64"
        },
    }
}

/// The runtime function of an integer comparison.
pub fn integer_compare_name(kind: IntegerType, operator: IntegerCompareOperator) -> (name: &'static str)
    ensures
        name@ == integer_compare_runtime(kind, operator),
{
    proof {
        reveal_strlit("rt_");
        reveal_strlit("_");
        reveal_strlit("_to_");
        reveal_strlit("32");
        reveal_strlit("64");
        reveal_strlit("i");
        reveal_strlit("s");
        reveal_strlit("u");
        reveal_strlit("f32");
        reveal_strlit("f64");
        reveal_strlit("equal");
        reveal_strlit("not_equal");
        reveal_strlit("less_than");
        reveal_strlit("greater_than");
        reveal_strlit("less_than_equal");
        reveal_strlit("greater_than_equal");
    }
    match (kind, operator) {
        (IntegerType::I32, IntegerCompareOperator::Equal) => {
            proof {
                reveal_strlit("rt_equal_i32");
            }
            "rt_equal_i32"
        },
        (IntegerType::I32, IntegerCompareOperator::NotEqual) => {
            proof {
                reveal_strlit("rt_not_equal_i32");
            }
            "rt_not_equal_i32"
        },
        (IntegerType::I32, IntegerCompareOperator::LessThan { signed: true }) => {
            proof {
                reveal_strlit("rt_less_than_s32");
            }
            "rt_less_than_s32"
        },
        (IntegerType::I32, IntegerCompareOperator::LessThan { signed: false }) => {
            proof {
                reveal_strlit("rt_less_than_u32");
            }
            "rt_less_than_u32"
        },
        (IntegerType::I32, IntegerCompareOperator::GreaterThan { signed: true }) => {
            proof {
                reveal_strlit("rt_greater_than_s32");
            }
            "rt_greater_than_s32"
        },
        (IntegerType::I32, IntegerCompareOperator::GreaterThan { signed: false }) => {
            proof {
                reveal_strlit("rt_greater_than_u32");
            }
            "rt_greater_than_u32"
        },
        (IntegerType::I32, IntegerCompareOperator::LessThanEqual { signed: true }) => {
            proof {
                reveal_strlit("rt_less_than_equal_s32");
            }
            "rt_less_than_equal_s32"
        },
        (IntegerType::I32, IntegerCompareOperator::LessThanEqual { signed: false }) => {
            proof {
                reveal_strlit("rt_less_than_equal_u32");
            }
            "rt_less_than_equal_u32"
        },
        (IntegerType::I32, IntegerCompareOperator::GreaterThanEqual { signed: true }) => {
            proof {
                reveal_strlit("rt_greater_than_equal_s32");
            }
            "rt_greater_than_equal_s32"
        },
        (IntegerType::I32, IntegerCompareOperator::GreaterThanEqual { signed: false }) => {
            proof {
                reveal_strlit("rt_greater_than_equal_u32");
            }
            "rt_greater_than_equal_u32"
        },
        (IntegerType::I64, IntegerCompareOperator::Equal) => {
            proof {
                reveal_strlit("rt_equal_i64");
            }
            "rt_equal_i64"
        },
        (IntegerType::I64, IntegerCompareOperator::NotEqual) => {
            proof {
                reveal_strlit("rt_not_equal_i64");
            }
            "rt_not_equal_i64"
        },
        (IntegerType::I64, IntegerCompareOperator::LessThan { signed: true }) => {
            proof {
                reveal_strlit("rt_less_than_s64");
            }
            "rt_less_than_s64"
        },
        (IntegerType::I64, IntegerCompareOperator::LessThan { signed: false }) => {
            proof {
                reveal_strlit("rt_less_than_u64");
            }
            "rt_less_than_u64"
        },
        (IntegerType::I64, IntegerCompareOperator::GreaterThan { signed: true }) => {
            proof {
                reveal_strlit("rt_greater_than_s64");
            }
            "rt_greater_than_s64"
        },
        (IntegerType::I64, IntegerCompareOperator::GreaterThan { signed: false }) => {
            proof {
                reveal_strlit("rt_greater_than_u64");
            }
            "rt_greater_than_u64"
        },
        (IntegerType::I64, IntegerCompareOperator::LessThanEqual { signed: true }) => {
            proof {
                reveal_strlit("rt_less_than_equal_s64");
            }
            "rt_less_than_equal_s64"
        },
        (IntegerType::I64, IntegerCompareOperator::LessThanEqual { signed: false }) => {
            proof {
                reveal_strlit("rt_less_than_equal_u64");
            }
            "rt_less_than_equal_u64"
        },
        (IntegerType::I64, IntegerCompareOperator::GreaterThanEqual { signed: true }) => {
            proof {
                reveal_strlit("rt_greater_than_equal_s64");
            }
            "rt_greater_than_equal_s64"
        },
        (IntegerType::I64, IntegerCompareOperator::GreaterThanEqual { signed: false }) => {
            proof {
                reveal_strlit("rt_greater_than_equal_u64");
            }
            "rt_greater_than_equal_u64"
        },
    }
}

/// The runtime function of a sign extension.
pub fn integer_extend_name(kind: ExtendType) -> (name: &'static str)
    ensures
        name@ == integer_extend_runtime(kind),
{
    proof {
        reveal_strlit("rt_");
        reveal_strlit("_");
        reveal_strlit("_to_");
        reveal_strlit("32");
        reveal_strlit("64");
        reveal_strlit("i");
        reveal_strlit("s");
        reveal_strlit("u");
        reveal_strlit("f32");
        reveal_strlit("f64");
        reveal_strlit("extend");
        reveal_strlit("s8");
        reveal_strlit("s16");
        reveal_strlit("s32");
        reveal_strlit("i32");
        reveal_strlit("i64");
    }
    match kind {
        ExtendType::I32S8 => {
            proof {
                reveal_strlit("rt_extend_s8_to_i32");
            }
            "rt_extend_s8_to_i32"
        },
        ExtendType::I32S16 => {
            proof {
                reveal_strlit("rt_extend_s16_to_i32");
            }
            "rt_extend_s16_to_i32"
        },
        ExtendType::I64S8 => {
            proof {
                reveal_strlit("rt_extend_s8_to_i64");
            }
            "rt_extend_s8_to_i64"
        },
        ExtendType::I64S16 => {
            proof {
                reveal_strlit("rt_extend_s16_to_i64");
            }
            "rt_extend_s16_to_i64"
        },
        ExtendType::I64S32 => {
            proof {
                reveal_strlit("rt_extend_s32_to_i64");
            }
            "rt_extend_s32_to_i64"
        },
    }
}

/// The runtime function of a conversion from an integer, read as signed or
/// unsigned, to a floating-point value.
pub fn integer_convert_name(from: IntegerType, to: NumberType, signed: bool) -> (name: &'static str)
    ensures
        name@ == conversion_name("convert"@, signed_text(from, signed), number_text(to)),
{
    proof {
        reveal_strlit("rt_");
        reveal_strlit("_");
        reveal_strlit("_to_");
        reveal_strlit("32");
        reveal_strlit("64");
        reveal_strlit("i");
        reveal_strlit("s");
        reveal_strlit("u");
        reveal_strlit("f32");
        reveal_strlit("f64");
        reveal_strlit("convert");
    }
    match (from, to, signed) {
        (IntegerType::I32, NumberType::F32, true) => {
            proof {
                reveal_strlit("rt_convert_s32_to_f32");
            }
            "rt_convert_s32_to_f32"
        },
        (IntegerType::I32, NumberType::F32, false) => {
            proof {
                reveal_strlit("rt_convert_u32_to_f32");
            }
            "rt_convert_u32_to_f32"
        },
        (IntegerType::I32, NumberType::F64, true) => {
            proof {
                reveal_strlit("rt_convert_s32_to_f64");
            }
            "rt_convert_s32_to_f64"
        },
        (IntegerType::I32, NumberType::F64, false) => {
            proof {
                reveal_strlit("rt_convert_u32_to_f64");
            }
            "rt_convert_u32_to_f64"
        },
        (IntegerType::I64, NumberType::F32, true) => {
            proof {
                reveal_strlit("rt_convert_s64_to_f32");
            }
            "rt_convert_s64_to_f32"
        },
        (IntegerType::I64, NumberType::F32, false) => {
            proof {
                reveal_strlit("rt_convert_u64_to_f32");
            }
            "rt_convert_u64_to_f32"
        },
        (IntegerType::I64, NumberType::F64, true) => {
            proof {
                reveal_strlit("rt_convert_s64_to_f64");
            }
            "rt_convert_s64_to_f64"
        },
        (IntegerType::I64, NumberType::F64, false) => {
            proof {
                reveal_strlit("rt_convert_u64_to_f64");
            }
            "rt_convert_u64_to_f64"
        },
    }
}

/// The runtime function that reads the bits of an integer as a
/// floating-point value of the same width.
pub fn integer_transmute_name(from: IntegerType) -> (name: &'static str)
    ensures
        name@ == conversion_name("transmute"@, integer_text(from), number_text(number_of_width(from))),
{
    proof {
        reveal_strlit("rt_");
        reveal_strlit("_");
        reveal_strlit("_to_");
        reveal_strlit("32");
        reveal_strlit("64");
        reveal_strlit("i");
        reveal_strlit("s");
        reveal_strlit("u");
        reveal_strlit("f32");
        reveal_strlit("f64");
        reveal_strlit("transmute");
    }
    match from {
        IntegerType::I32 => {
            proof {
                reveal_strlit("rt_transmute_i32_to_f32");
            }
            "rt_transmute_i32_to_f32"
        },
        IntegerType::I64 => {
            proof {
                reveal_strlit("rt_transmute_i64_to_f64");
            }
            "rt_transmute_i64_to_f64"
        },
    }
}

/// The runtime function of a one-operand floating-point operation.
pub fn number_unary_name(kind: NumberType, operator: NumberUnaryOperator) -> (name: &'static str)
    ensures
        name@ == number_unary_runtime(kind, operator),
{
    proof {
        reveal_strlit("rt_");
        reveal_strlit("_");
        reveal_strlit("_to_");
        reveal_strlit("32");
        reveal_strlit("64");
        reveal_strlit("i");
        reveal_strlit("s");
        reveal_strlit("u");
        reveal_strlit("f32");
        reveal_strlit("f64");
        reveal_strlit("absolute");
        reveal_strlit("negate");
        reveal_strlit("square_root");
        reveal_strlit("round_up");
        reveal_strlit("round_down");
        reveal_strlit("truncate");
        reveal_strlit("nearest");
    }
    match (kind, operator) {
        (NumberType::F32, NumberUnaryOperator::Absolute) => {
            proof {
                reveal_strlit("rt_absolute_f32");
            }
            "rt_absolute_f32"
        },
        (NumberType::F32, NumberUnaryOperator::Negate) => {
            proof {
                reveal_strlit("rt_negate_f32");
            }
            "rt_negate_f32"
        },
        (NumberType::F32, NumberUnaryOperator::SquareRoot) => {
            proof {
                reveal_strlit("rt_square_root_f32");
            }
            "rt_square_root_f32"
        },
        (NumberType::F32, NumberUnaryOperator::RoundUp) => {
            proof {
                reveal_strlit("rt_round_up_f32");
            }
            "rt_round_up_f32"
        },
        (NumberType::F32, NumberUnaryOperator::RoundDown) => {
            proof {
                reveal_strlit("rt_round_down_f32");
            }
            "rt_round_down_f32"
        },
        (NumberType::F32, NumberUnaryOperator::Truncate) => {
            proof {
                reveal_strlit("rt_truncate_f32");
            }
            "rt_truncate_f32"
        },
        (NumberType::F32, NumberUnaryOperator::Nearest) => {
            proof {
                reveal_strlit("rt_nearest_f32");
            }
            "rt_nearest_f32"
        },
        (NumberType::F64, NumberUnaryOperator::Absolute) => {
            proof {
                reveal_strlit("rt_absolute_f64");
            }
            "rt_absolute_f64"
        },
        (NumberType::F64, NumberUnaryOperator::Negate) => {
            proof {
                reveal_strlit("rt_negate_f64");
            }
            "rt_negate_f64"
        },
        (NumberType::F64, NumberUnaryOperator::SquareRoot) => {
            proof {
                reveal_strlit("rt_square_root_f64");
            }
            "rt_square_root_f64"
        },
        (NumberType::F64, NumberUnaryOperator::RoundUp) => {
            proof {
                reveal_strlit("rt_round_up_f64");
            }
            "rt_round_up_f64"
        },
        (NumberType::F64, NumberUnaryOperator::RoundDown) => {
            proof {
                reveal_strlit("rt_round_down_f64");
            }
            "rt_round_down_f64"
        },
        (NumberType::F64, NumberUnaryOperator::Truncate) => {
            proof {
                reveal_strlit("rt_truncate_f64");
            }
            "rt_truncate_f64"
        },
        (NumberType::F64, NumberUnaryOperator::Nearest) => {
            proof {
                reveal_strlit("rt_nearest_f64");
            }
            "rt_nearest_f64"
        },
    }
}

/// The runtime function of a two-operand floating-point operation.
pub fn number_binary_name(kind: NumberType, operator: NumberBinaryOperator) -> (name: &'static str)
    ensures
        name@ == number_binary_runtime(kind, operator),
{
    proof {
        reveal_strlit("rt_");
        reveal_strlit("_");
        reveal_strlit("_to_");
        reveal_strlit("32");
        reveal_strlit("64");
        reveal_strlit("i");
        reveal_strlit("s");
        reveal_strlit("u");
        reveal_strlit("f32");
        reveal_strlit("f64");
        reveal_strlit("add");
        reveal_strlit("subtract");
        reveal_strlit("multiply");
        reveal_strlit("divide");
        reveal_strlit("minimum");
        reveal_strlit("maximum");
        reveal_strlit("copy_sign");
    }
    match (kind, operator) {
        (NumberType::F32, NumberBinaryOperator::Add) => {
            proof {
                reveal_strlit("rt_add_f32");
            }
            "rt_add_f32"
        },
        (NumberType::F32, NumberBinaryOperator::Subtract) => {
            proof {
                reveal_strlit("rt_subtract_f32");
            }
            "rt_subtract_f32"
        },
        (NumberType::F32, NumberBinaryOperator::Multiply) => {
            proof {
                reveal_strlit("rt_multiply_f32");
            }
            "rt_multiply_f32"
        },
        (NumberType::F32, NumberBinaryOperator::Divide) => {
            proof {
                reveal_strlit("rt_divide_f32");
            }
            "rt_divide_f32"
        },
        (NumberType::F32, NumberBinaryOperator::Minimum) => {
            proof {
                reveal_strlit("rt_minimum_f32");
            }
            "rt_minimum_f32"
        },
        (NumberType::F32, NumberBinaryOperator::Maximum) => {
            proof {
                reveal_strlit("rt_maximum_f32");
            }
            "rt_maximum_f32"
        },
        (NumberType::F32, NumberBinaryOperator::CopySign) => {
            proof {
                reveal_strlit("rt_copy_sign_f32");
            }
            "rt_copy_sign_f32"
        },
        (NumberType::F64, NumberBinaryOperator::Add) => {
            proof {
                reveal_strlit("rt_add_f64");
            }
            "rt_add_f64"
        },
        (NumberType::F64, NumberBinaryOperator::Subtract) => {
            proof {
                reveal_strlit("rt_subtract_f64");
            }
            "rt_subtract_f64"
        },
        (NumberType::F64, NumberBinaryOperator::Multiply) => {
            proof {
                reveal_strlit("rt_multiply_f64");
            }
            "rt_multiply_f64"
        },
        (NumberType::F64, NumberBinaryOperator::Divide) => {
            proof {
                reveal_strlit("rt_divide_f64");
            }
            "rt_divide_f64"
        },
        (NumberType::F64, NumberBinaryOperator::Minimum) => {
            proof {
                reveal_strlit("rt_minimum_f64");
            }
            "rt_minimum_f64"
        },
        (NumberType::F64, NumberBinaryOperator::Maximum) => {
            proof {
                reveal_strlit("rt_maximum_f64");
            }
            "rt_maximum_f64"
        },
        (NumberType::F64, NumberBinaryOperator::CopySign) => {
            proof {
                reveal_strlit("rt_copy_sign_f64");
            }
            "rt_copy_sign_f64"
        },
    }
}

/// The runtime function of a floating-point comparison.
pub fn number_compare_name(kind: NumberType, operator: NumberCompareOperator) -> (name: &'static str)
    ensures
        name@ == number_compare_runtime(kind, operator),
{
    proof {
        reveal_strlit("rt_");
        reveal_strlit("_");
        reveal_strlit("_to_");
        reveal_strlit("32");
        reveal_strlit("64");
        reveal_strlit("i");
        reveal_strlit("s");
        reveal_strlit("u");
        reveal_strlit("f32");
        reveal_strlit("f64");
        reveal_strlit("equal");
        reveal_strlit("not_equal");
        reveal_strlit("less_than");
        reveal_strlit("greater_than");
        reveal_strlit("less_than_equal");
        reveal_strlit("greater_than_equal");
    }
    match (kind, operator) {
        (NumberType::F32, NumberCompareOperator::Equal) => {
            proof {
                reveal_strlit("rt_equal_f32");
            }
            "rt_equal_f32"
        },
        (NumberType::F32, NumberCompareOperator::NotEqual) => {
            proof {
                reveal_strlit("rt_not_equal_f32");
            }
            "rt_not_equal_f32"
        },
        (NumberType::F32, NumberCompareOperator::LessThan) => {
            proof {
                reveal_strlit("rt_less_than_f32");
            }
            "rt_less_than_f32"
        },
        (NumberType::F32, NumberCompareOperator::GreaterThan) => {
            proof {
                reveal_strlit("rt_greater_than_f32");
            }
            "rt_greater_than_f32"
        },
        (NumberType::F32, NumberCompareOperator::LessThanEqual) => {
            proof {
                reveal_strlit("rt_less_than_equal_f32");
            }
            "rt_less_than_equal_f32"
        },
        (NumberType::F32, NumberCompareOperator::GreaterThanEqual) => {
            proof {
                reveal_strlit("rt_greater_than_equal_f32");
            }
            "rt_greater_than_equal_f32"
        },
        (NumberType::F64, NumberCompareOperator::Equal) => {
            proof {
                reveal_strlit("rt_equal_f64");
            }
            "rt_equal_f64"
        },
        (NumberType::F64, NumberCompareOperator::NotEqual) => {
            proof {
                reveal_strlit("rt_not_equal_f64");
            }
            "rt_not_equal_f64"
        },
        (NumberType::F64, NumberCompareOperator::LessThan) => {
            proof {
                reveal_strlit("rt_less_than_f64");
            }
            "rt_less_than_f64"
        },
        (NumberType::F64, NumberCompareOperator::GreaterThan) => {
            proof {
                reveal_strlit("rt_greater_than_f64");
            }
            "rt_greater_than_f64"
        },
        (NumberType::F64, NumberCompareOperator::LessThanEqual) => {
            proof {
                reveal_strlit("rt_less_than_equal_f64");
            }
            "rt_less_than_equal_f64"
        },
        (NumberType::F64, NumberCompareOperator::GreaterThanEqual) => {
            proof {
                reveal_strlit("rt_greater_than_equal_f64");
            }
            "rt_greater_than_equal_f64"
        },
    }
}

/// The runtime function that turns a floating-point value into an integer,
/// signed or unsigned, saturating at the bounds of the integer type or not.
pub fn number_truncate_name(from: NumberType, to: IntegerType, signed: bool, saturating: bool) -> (name: &'static str)
    ensures
        name@ == conversion_name(
            if saturating {
                "saturate"@
            } else {
                "truncate"@
            },
            number_text(from),
            signed_text(to, signed),
        ),
{
    proof {
        reveal_strlit("rt_");
        reveal_strlit("_");
        reveal_strlit("_to_");
        reveal_strlit("32");
        reveal_strlit("64");
        reveal_strlit("i");
        reveal_strlit("s");
        reveal_strlit("u");
        reveal_strlit("f32");
        reveal_strlit("f64");
        reveal_strlit("saturate");
        reveal_strlit("truncate");
    }
    match (from, to, signed, saturating) {
        (NumberType::F32, IntegerType::I32, true, true) => {
            proof {
                reveal_strlit("rt_saturate_f32_to_s32");
            }
            "rt_saturate_f32_to_s32"
        },
        (NumberType::F32, IntegerType::I32, true, false) => {
            proof {
                reveal_strlit("rt_truncate_f32_to_s32");
            }
            "rt_truncate_f32_to_s32"
        },
        (NumberType::F32, IntegerType::I32, false, true) => {
            proof {
                reveal_strlit("rt_saturate_f32_to_u32");
            }
            "rt_saturate_f32_to_u32"
        },
        (NumberType::F32, IntegerType::I32, false, false) => {
            proof {
                reveal_strlit("rt_truncate_f32_to_u32");
            }
            "rt_truncate_f32_to_u32"
        },
        (NumberType::F32, IntegerType::I64, true, true) => {
            proof {
                reveal_strlit("rt_saturate_f32_to_s64");
            }
            "rt_saturate_f32_to_s64"
        },
        (NumberType::F32, IntegerType::I64, true, false) => {
            proof {
                reveal_strlit("rt_truncate_f32_to_s64");
            }
            "rt_truncate_f32_to_s64"
        },
        (NumberType::F32, IntegerType::I64, false, true) => {
            proof {
                reveal_strlit("rt_saturate_f32_to_u64");
            }
            "rt_saturate_f32_to_u64"
        },
        (NumberType::F32, IntegerType::I64, false, false) => {
            proof {
                reveal_strlit("rt_truncate_f32_to_u64");
            }
            "rt_truncate_f32_to_u64"
        },
        (NumberType::F64, IntegerType::I32, true, true) => {
            proof {
                reveal_strlit("rt_saturate_f64_to_s32");
            }
            "rt_saturate_f64_to_s32"
        },
        (NumberType::F64, IntegerType::I32, true, false) => {
            proof {
                reveal_strlit("rt_truncate_f64_to_s32");
            }
            "rt_truncate_f64_to_s32"
        },
        (NumberType::F64, IntegerType::I32, false, true) => {
            proof {
                reveal_strlit("rt_saturate_f64_to_u32");
            }
            "rt_saturate_f64_to_u32"
        },
        (NumberType::F64, IntegerType::I32, false, false) => {
            proof {
                reveal_strlit("rt_truncate_f64_to_u32");
            }
            "rt_truncate_f64_to_u32"
        },
        (NumberType::F64, IntegerType::I64, true, true) => {
            proof {
                reveal_strlit("rt_saturate_f64_to_s64");
            }
            "rt_saturate_f64_to_s64"
        },
        (NumberType::F64, IntegerType::I64, true, false) => {
            proof {
                reveal_strlit("rt_truncate_f64_to_s64");
            }
            "rt_truncate_f64_to_s64"
        },
        (NumberType::F64, IntegerType::I64, false, true) => {
            proof {
                reveal_strlit("rt_saturate_f64_to_u64");
            }
            "rt_saturate_f64_to_u64"
        },
        (NumberType::F64, IntegerType::I64, false, false) => {
            proof {
                reveal_strlit("rt_truncate_f64_to_u64");
            }
            "rt_truncate_f64_to_u64"
        },
    }
}

/// The runtime function that reads the bits of a floating-point value as
/// an integer of the same width.
pub fn number_transmute_name(from: NumberType) -> (name: &'static str)
    ensures
        name@ == conversion_name("transmute"@, number_text(from), integer_text(integer_of_width(from))),
{
    proof {
        reveal_strlit("rt_");
        reveal_strlit("_");
        reveal_strlit("_to_");
        reveal_strlit("32");
        reveal_strlit("64");
        reveal_strlit("i");
        reveal_strlit("s");
        reveal_strlit("u");
        reveal_strlit("f32");
        reveal_strlit("f64");
        reveal_strlit("transmute");
    }
    match from {
        NumberType::F32 => {
            proof {
                reveal_strlit("rt_transmute_f32_to_i32");
            }
            "rt_transmute_f32_to_i32"
        },
        NumberType::F64 => {
            proof {
                reveal_strlit("rt_transmute_f64_to_i64");
            }
            "rt_transmute_f64_to_i64"
        },
    }
}

/// The runtime function of a memory load.
pub fn memory_load_name(kind: LoadType) -> (name: &'static str)
    ensures
        name@ == memory_load_runtime(kind),
{
    proof {
        reveal_strlit("rt_load_");
        reveal_strlit("_from_");
        reveal_strlit("i32");
        reveal_strlit("i64");
        reveal_strlit("f32");
        reveal_strlit("f64");
        reveal_strlit("s8");
        reveal_strlit("u8");
        reveal_strlit("s16");
        reveal_strlit("u16");
        reveal_strlit("s32");
        reveal_strlit("u32");
    }
    match kind {
        LoadType::I32S8 => {
            proof {
                reveal_strlit("rt_load_i32_from_s8");
            }
            "rt_load_i32_from_s8"
        },
        LoadType::I32U8 => {
            proof {
                reveal_strlit("rt_load_i32_from_u8");
            }
            "rt_load_i32_from_u8"
        },
        LoadType::I32S16 => {
            proof {
                reveal_strlit("rt_load_i32_from_s16");
            }
            "rt_load_i32_from_s16"
        },
        LoadType::I32U16 => {
            proof {
                reveal_strlit("rt_load_i32_from_u16");
            }
            "rt_load_i32_from_u16"
        },
        LoadType::I32 => {
            proof {
                reveal_strlit("rt_load_i32");
            }
            "rt_load_i32"
        },
        LoadType::I64S8 => {
            proof {
                reveal_strlit("rt_load_i64_from_s8");
            }
            "rt_load_i64_from_s8"
        },
        LoadType::I64U8 => {
            proof {
                reveal_strlit("rt_load_i64_from_u8");
            }
            "rt_load_i64_from_u8"
        },
        LoadType::I64S16 => {
            proof {
                reveal_strlit("rt_load_i64_from_s16");
            }
            "rt_load_i64_from_s16"
        },
        LoadType::I64U16 => {
            proof {
                reveal_strlit("rt_load_i64_from_u16");
            }
            "rt_load_i64_from_u16"
        },
        LoadType::I64S32 => {
            proof {
                reveal_strlit("rt_load_i64_from_s32");
            }
            "rt_load_i64_from_s32"
        },
        LoadType::I64U32 => {
            proof {
                reveal_strlit("rt_load_i64_from_u32");
            }
            "rt_load_i64_from_u32"
        },
        LoadType::I64 => {
            proof {
                reveal_strlit("rt_load_i64");
            }
            "rt_load_i64"
        },
        LoadType::F32 => {
            proof {
                reveal_strlit("rt_load_f32");
            }
            "rt_load_f32"
        },
        LoadType::F64 => {
            proof {
                reveal_strlit("rt_load_f64");
            }
            "rt_load_f64"
        },
    }
}

/// The runtime function of a memory store.
pub fn memory_store_name(kind: StoreType) -> (name: &'static str)
    ensures
        name@ == memory_store_runtime(kind),
{
    proof {
        reveal_strlit("rt_store_");
        reveal_strlit("_into_");
        reveal_strlit("i32");
        reveal_strlit("i64");
        reveal_strlit("f32");
        reveal_strlit("f64");
        reveal_strlit("i8");
        reveal_strlit("i16");
    }
    match kind {
        StoreType::I32I8 => {
            proof {
                reveal_strlit("rt_store_i32_into_i8");
            }
            "rt_store_i32_into_i8"
        },
        StoreType::I32I16 => {
            proof {
                reveal_strlit("rt_store_i32_into_i16");
            }
            "rt_store_i32_into_i16"
        },
        StoreType::I32 => {
            proof {
                reveal_strlit("rt_store_i32");
            }
            "rt_store_i32"
        },
        StoreType::I64I8 => {
            proof {
                reveal_strlit("rt_store_i64_into_i8");
            }
            "rt_store_i64_into_i8"
        },
        StoreType::I64I16 => {
            proof {
                reveal_strlit("rt_store_i64_into_i16");
            }
            "rt_store_i64_into_i16"
        },
        StoreType::I64I32 => {
            proof {
                reveal_strlit("rt_store_i64_into_i32");
            }
            "rt_store_i64_into_i32"
        },
        StoreType::I64 => {
            proof {
                reveal_strlit("rt_store_i64");
            }
            "rt_store_i64"
        },
        StoreType::F32 => {
            proof {
                reveal_strlit("rt_store_f32");
            }
            "rt_store_f32"
        },
        StoreType::F64 => {
            proof {
                reveal_strlit("rt_store_f64");
            }
            "rt_store_f64"
        },
    }
}


/// Whether `name` ends in `letter` and then the decimal digits of the
/// width of `kind`, `32` or `64`.
pub open spec fn ends_in_type(name: Seq<char>, letter: char, kind: IntegerType) -> bool {
    let digits = match kind {
        IntegerType::I32 => seq!['3', '2'],
        IntegerType::I64 => seq!['6', '4'],
    };
    &&& name.len() >= 3
    &&& name.subrange(name.len() - 3, name.len() as int) == seq![letter] + digits
}

/// The letter that names an integer type read as signed (`s`), read as
/// unsigned (`u`), or read either way (`i`).
pub open spec fn signedness_letter(signedness: Option<bool>) -> char {
    match signedness {
        Some(true) => 's',
        Some(false) => 'u',
        None => 'i',
    }
}

/// Whether an integer comparison reads its operands as signed, for one
/// whose result depends on that.
pub open spec fn compare_signedness(operator: IntegerCompareOperator) -> Option<bool> {
    match operator {
        IntegerCompareOperator::LessThan { signed }
        | IntegerCompareOperator::GreaterThan { signed }
        | IntegerCompareOperator::LessThanEqual { signed }
        | IntegerCompareOperator::GreaterThanEqual { signed } => Some(signed),
        _ => None,
    }
}

/// Whether a two-operand integer operation reads its operands as signed,
/// for one whose result depends on that.
pub open spec fn binary_signedness(operator: IntegerBinaryOperator) -> Option<bool> {
    match operator {
        IntegerBinaryOperator::Divide { signed }
        | IntegerBinaryOperator::Remainder { signed }
        | IntegerBinaryOperator::ShiftRight { signed } => Some(signed),
        _ => None,
    }
}

/// The runtime function of an integer comparison names the type its
/// operands are read as: `s` and the width for a signed comparison, `u`
/// and the width for an unsigned one, `i` and the width for equality.
pub proof fn lemma_compare_name_reads_signedness(kind: IntegerType, operator: IntegerCompareOperator)
    ensures
        integer_compare_runtime(kind, operator).take(3) == "rt_"@,
        ends_in_type(
            integer_compare_runtime(kind, operator),
            signedness_letter(compare_signedness(operator)),
            kind,
        ),
{
    reveal_strlit("rt_");
    reveal_strlit("_");
    reveal_strlit("32");
    reveal_strlit("64");
    reveal_strlit("i");
    reveal_strlit("s");
    reveal_strlit("u");
    reveal_strlit("equal");
    reveal_strlit("not_equal");
    reveal_strlit("less_than");
    reveal_strlit("greater_than");
    reveal_strlit("less_than_equal");
    reveal_strlit("greater_than_equal");
    let name = integer_compare_runtime(kind, operator);
    assert(name.take(3) =~= "rt_"@);
    assert(name.subrange(name.len() - 3, name.len() as int) =~= seq![
        signedness_letter(compare_signedness(operator)),
    ] + match kind {
        IntegerType::I32 => seq!['3', '2'],
        IntegerType::I64 => seq!['6', '4'],
    });
}

/// The runtime function of a two-operand integer operation names the type
/// its operands are read as: `s` and the width for a signed division,
/// remainder or right shift, `u` and the width for an unsigned one, `i`
/// and the width for every other operation.
pub proof fn lemma_binary_name_reads_signedness(kind: IntegerType, operator: IntegerBinaryOperator)
    ensures
        integer_binary_runtime(kind, operator).take(3) == "rt_"@,
        ends_in_type(
            integer_binary_runtime(kind, operator),
            signedness_letter(binary_signedness(operator)),
            kind,
        ),
{
    reveal_strlit("rt_");
    reveal_strlit("_");
    reveal_strlit("32");
    reveal_strlit("64");
    reveal_strlit("i");
    reveal_strlit("s");
    reveal_strlit("u");
    let name = integer_binary_runtime(kind, operator);
    assert(name.take(3) =~= "rt_"@);
    assert(name.subrange(name.len() - 3, name.len() as int) =~= seq![
        signedness_letter(binary_signedness(operator)),
    ] + match kind {
        IntegerType::I32 => seq!['3', '2'],
        IntegerType::I64 => seq!['6', '4'],
    });
}

/// No two integer comparisons share a runtime function: the name tells the
/// width, the comparison and how it reads its operands.
pub proof fn lemma_compare_names_are_distinct(
    first_kind: IntegerType,
    first: IntegerCompareOperator,
    second_kind: IntegerType,
    second: IntegerCompareOperator,
)
    requires
        integer_compare_runtime(first_kind, first) == integer_compare_runtime(second_kind, second),
    ensures
        first_kind == second_kind,
        first == second,
{
    reveal_strlit("rt_");
    reveal_strlit("_");
    reveal_strlit("32");
    reveal_strlit("64");
    reveal_strlit("i");
    reveal_strlit("s");
    reveal_strlit("u");
    reveal_strlit("equal");
    reveal_strlit("not_equal");
    reveal_strlit("less_than");
    reveal_strlit("greater_than");
    reveal_strlit("less_than_equal");
    reveal_strlit("greater_than_equal");
    lemma_compare_name_reads_signedness(first_kind, first);
    lemma_compare_name_reads_signedness(second_kind, second);
    let name = integer_compare_runtime(first_kind, first);
    let tail = name.subrange(name.len() - 3, name.len() as int);
    assert(tail[0] == signedness_letter(compare_signedness(first)));
    assert(tail[0] == signedness_letter(compare_signedness(second)));
    assert(tail[1] == if first_kind == IntegerType::I32 { '3' } else { '6' });
    assert(tail[1] == if second_kind == IntegerType::I32 { '3' } else { '6' });
}


/// Two runtime names of operations on types spelled with three letters are
/// the same only when their operations and their types are.
proof fn lemma_runtime_name_parts(
    operation: Seq<char>,
    operand: Seq<char>,
    other_operation: Seq<char>,
    other_operand: Seq<char>,
)
    requires
        operand.len() == 3,
        other_operand.len() == 3,
        runtime_name(operation, operand) == runtime_name(other_operation, other_operand),
    ensures
        operation == other_operation,
        operand == other_operand,
{
    reveal_strlit("rt_");
    reveal_strlit("_");
    let name = runtime_name(operation, operand);
    assert(operand =~= name.subrange(name.len() - 3, name.len() as int));
    assert(other_operand =~= name.subrange(name.len() - 3, name.len() as int));
    assert(operation =~= name.subrange(3, name.len() - 4));
    assert(other_operation =~= name.subrange(3, name.len() - 4));
}

/// No two one-operand integer operations share a runtime function.
pub proof fn lemma_unary_names_are_distinct(
    first_kind: IntegerType,
    first: IntegerUnaryOperator,
    second_kind: IntegerType,
    second: IntegerUnaryOperator,
)
    requires
        integer_unary_runtime(first_kind, first) == integer_unary_runtime(second_kind, second),
    ensures
        first_kind == second_kind,
        first == second,
{
    reveal_strlit("rt_");
    reveal_strlit("_");
    reveal_strlit("32");
    reveal_strlit("64");
    reveal_strlit("i");
    reveal_strlit("s");
    reveal_strlit("u");
    reveal_strlit("f32");
    reveal_strlit("f64");
    reveal_strlit("count_ones");
    reveal_strlit("leading_zeros");
    reveal_strlit("trailing_zeros");
    assert("count_ones"@.len() == 10 && "count_ones"@[0] == 'c' && "count_ones"@[1] == 'o' && "count_ones"@[2] == 'u' && "count_ones"@[3] == 'n' && "count_ones"@[4] == 't' && "count_ones"@[5] == '_' && "count_ones"@[6] == 'o' && "count_ones"@[7] == 'n' && "count_ones"@[8] == 'e' && "count_ones"@[9] == 's');
    assert("leading_zeros"@.len() == 13 && "leading_zeros"@[0] == 'l' && "leading_zeros"@[1] == 'e' && "leading_zeros"@[2] == 'a' && "leading_zeros"@[3] == 'd' && "leading_zeros"@[4] == 'i' && "leading_zeros"@[5] == 'n' && "leading_zeros"@[6] == 'g' && "leading_zeros"@[7] == '_' && "leading_zeros"@[8] == 'z' && "leading_zeros"@[9] == 'e' && "leading_zeros"@[10] == 'r' && "leading_zeros"@[11] == 'o' && "leading_zeros"@[12] == 's');
    assert("trailing_zeros"@.len() == 14 && "trailing_zeros"@[0] == 't' && "trailing_zeros"@[1] == 'r' && "trailing_zeros"@[2] == 'a' && "trailing_zeros"@[3] == 'i' && "trailing_zeros"@[4] == 'l' && "trailing_zeros"@[5] == 'i' && "trailing_zeros"@[6] == 'n' && "trailing_zeros"@[7] == 'g' && "trailing_zeros"@[8] == '_' && "trailing_zeros"@[9] == 'z' && "trailing_zeros"@[10] == 'e' && "trailing_zeros"@[11] == 'r' && "trailing_zeros"@[12] == 'o' && "trailing_zeros"@[13] == 's');
    assert(integer_text(IntegerType::I32)[1] == '3' && integer_text(IntegerType::I64)[1] == '6');
    assert(signed_text(IntegerType::I32, true)[0] == 's' && signed_text(IntegerType::I32, false)[0] == 'u');
    assert(signed_text(IntegerType::I64, true)[0] == 's' && signed_text(IntegerType::I64, false)[0] == 'u');
    assert(signed_text(IntegerType::I32, true)[1] == '3' && signed_text(IntegerType::I64, true)[1] == '6');
    assert(signed_text(IntegerType::I32, false)[1] == '3' && signed_text(IntegerType::I64, false)[1] == '6');
    assert(integer_text(IntegerType::I32)[0] == 'i' && integer_text(IntegerType::I64)[0] == 'i');
    assert(number_text(NumberType::F32)[1] == '3' && number_text(NumberType::F64)[1] == '6');
    lemma_runtime_name_parts(
        integer_unary_word(first),
        integer_text(first_kind),
        integer_unary_word(second),
        integer_text(second_kind),
    );
}

/// No two two-operand integer operations share a runtime function: the
/// name tells the operation, the width and, for division, remainder and
/// right shift, how the operands are read.
pub proof fn lemma_binary_names_are_distinct(
    first_kind: IntegerType,
    first: IntegerBinaryOperator,
    second_kind: IntegerType,
    second: IntegerBinaryOperator,
)
    requires
        integer_binary_runtime(first_kind, first) == integer_binary_runtime(second_kind, second),
    ensures
        first_kind == second_kind,
        first == second,
{
    reveal_strlit("rt_");
    reveal_strlit("_");
    reveal_strlit("32");
    reveal_strlit("64");
    reveal_strlit("i");
    reveal_strlit("s");
    reveal_strlit("u");
    reveal_strlit("f32");
    reveal_strlit("f64");
    reveal_strlit("add");
    reveal_strlit("subtract");
    reveal_strlit("multiply");
    reveal_strlit("divide");
    reveal_strlit("remainder");
    reveal_strlit("and");
    reveal_strlit("or");
    reveal_strlit("exclusive_or");
    reveal_strlit("shift_left");
    reveal_strlit("shift_right");
    reveal_strlit("rotate_left");
    reveal_strlit("rotate_right");
    assert("add"@.len() == 3 && "add"@[0] == 'a' && "add"@[1] == 'd' && "add"@[2] == 'd');
    assert("subtract"@.len() == 8 && "subtract"@[0] == 's' && "subtract"@[1] == 'u' && "subtract"@[2] == 'b' && "subtract"@[3] == 't' && "subtract"@[4] == 'r' && "subtract"@[5] == 'a' && "subtract"@[6] == 'c' && "subtract"@[7] == 't');
    assert("multiply"@.len() == 8 && "multiply"@[0] == 'm' && "multiply"@[1] == 'u' && "multiply"@[2] == 'l' && "multiply"@[3] == 't' && "multiply"@[4] == 'i' && "multiply"@[5] == 'p' && "multiply"@[6] == 'l' && "multiply"@[7] == 'y');
    assert("divide"@.len() == 6 && "divide"@[0] == 'd' && "divide"@[1] == 'i' && "divide"@[2] == 'v' && "divide"@[3] == 'i' && "divide"@[4] == 'd' && "divide"@[5] == 'e');
    assert("remainder"@.len() == 9 && "remainder"@[0] == 'r' && "remainder"@[1] == 'e' && "remainder"@[2] == 'm' && "remainder"@[3] == 'a' && "remainder"@[4] == 'i' && "remainder"@[5] == 'n' && "remainder"@[6] == 'd' && "remainder"@[7] == 'e' && "remainder"@[8] == 'r');
    assert("and"@.len() == 3 && "and"@[0] == 'a' && "and"@[1] == 'n' && "and"@[2] == 'd');
    assert("or"@.len() == 2 && "or"@[0] == 'o' && "or"@[1] == 'r');
    assert("exclusive_or"@.len() == 12 && "exclusive_or"@[0] == 'e' && "exclusive_or"@[1] == 'x' && "exclusive_or"@[2] == 'c' && "exclusive_or"@[3] == 'l' && "exclusive_or"@[4] == 'u' && "exclusive_or"@[5] == 's' && "exclusive_or"@[6] == 'i' && "exclusive_or"@[7] == 'v' && "exclusive_or"@[8] == 'e' && "exclusive_or"@[9] == '_' && "exclusive_or"@[10] == 'o' && "exclusive_or"@[11] == 'r');
    assert("shift_left"@.len() == 10 && "shift_left"@[0] == 's' && "shift_left"@[1] == 'h' && "shift_left"@[2] == 'i' && "shift_left"@[3] == 'f' && "shift_left"@[4] == 't' && "shift_left"@[5] == '_' && "shift_left"@[6] == 'l' && "shift_left"@[7] == 'e' && "shift_left"@[8] == 'f' && "shift_left"@[9] == 't');
    assert("shift_right"@.len() == 11 && "shift_right"@[0] == 's' && "shift_right"@[1] == 'h' && "shift_right"@[2] == 'i' && "shift_right"@[3] == 'f' && "shift_right"@[4] == 't' && "shift_right"@[5] == '_' && "shift_right"@[6] == 'r' && "shift_right"@[7] == 'i' && "shift_right"@[8] == 'g' && "shift_right"@[9] == 'h' && "shift_right"@[10] == 't');
    assert("rotate_left"@.len() == 11 && "rotate_left"@[0] == 'r' && "rotate_left"@[1] == 'o' && "rotate_left"@[2] == 't' && "rotate_left"@[3] == 'a' && "rotate_left"@[4] == 't' && "rotate_left"@[5] == 'e' && "rotate_left"@[6] == '_' && "rotate_left"@[7] == 'l' && "rotate_left"@[8] == 'e' && "rotate_left"@[9] == 'f' && "rotate_left"@[10] == 't');
    assert("rotate_right"@.len() == 12 && "rotate_right"@[0] == 'r' && "rotate_right"@[1] == 'o' && "rotate_right"@[2] == 't' && "rotate_right"@[3] == 'a' && "rotate_right"@[4] == 't' && "rotate_right"@[5] == 'e' && "rotate_right"@[6] == '_' && "rotate_right"@[7] == 'r' && "rotate_right"@[8] == 'i' && "rotate_right"@[9] == 'g' && "rotate_right"@[10] == 'h' && "rotate_right"@[11] == 't');
    assert(integer_text(IntegerType::I32)[1] == '3' && integer_text(IntegerType::I64)[1] == '6');
    assert(signed_text(IntegerType::I32, true)[0] == 's' && signed_text(IntegerType::I32, false)[0] == 'u');
    assert(signed_text(IntegerType::I64, true)[0] == 's' && signed_text(IntegerType::I64, false)[0] == 'u');
    assert(signed_text(IntegerType::I32, true)[1] == '3' && signed_text(IntegerType::I64, true)[1] == '6');
    assert(signed_text(IntegerType::I32, false)[1] == '3' && signed_text(IntegerType::I64, false)[1] == '6');
    assert(integer_text(IntegerType::I32)[0] == 'i' && integer_text(IntegerType::I64)[0] == 'i');
    assert(number_text(NumberType::F32)[1] == '3' && number_text(NumberType::F64)[1] == '6');
    let first_operand = match first {
        IntegerBinaryOperator::Divide { signed }
        | IntegerBinaryOperator::Remainder { signed }
        | IntegerBinaryOperator::ShiftRight { signed } => signed_text(first_kind, signed),
        _ => integer_text(first_kind),
    };
    let second_operand = match second {
        IntegerBinaryOperator::Divide { signed }
        | IntegerBinaryOperator::Remainder { signed }
        | IntegerBinaryOperator::ShiftRight { signed } => signed_text(second_kind, signed),
        _ => integer_text(second_kind),
    };
    lemma_runtime_name_parts(
        integer_binary_word(first),
        first_operand,
        integer_binary_word(second),
        second_operand,
    );
}

/// No two one-operand floating-point operations share a runtime function.
pub proof fn lemma_number_unary_names_are_distinct(
    first_kind: NumberType,
    first: NumberUnaryOperator,
    second_kind: NumberType,
    second: NumberUnaryOperator,
)
    requires
        number_unary_runtime(first_kind, first) == number_unary_runtime(second_kind, second),
    ensures
        first_kind == second_kind,
        first == second,
{
    reveal_strlit("rt_");
    reveal_strlit("_");
    reveal_strlit("32");
    reveal_strlit("64");
    reveal_strlit("i");
    reveal_strlit("s");
    reveal_strlit("u");
    reveal_strlit("f32");
    reveal_strlit("f64");
    reveal_strlit("absolute");
    reveal_strlit("negate");
    reveal_strlit("square_root");
    reveal_strlit("round_up");
    reveal_strlit("round_down");
    reveal_strlit("truncate");
    reveal_strlit("nearest");
    assert("absolute"@.len() == 8 && "absolute"@[0] == 'a' && "absolute"@[1] == 'b' && "absolute"@[2] == 's' && "absolute"@[3] == 'o' && "absolute"@[4] == 'l' && "absolute"@[5] == 'u' && "absolute"@[6] == 't' && "absolute"@[7] == 'e');
    assert("negate"@.len() == 6 && "negate"@[0] == 'n' && "negate"@[1] == 'e' && "negate"@[2] == 'g' && "negate"@[3] == 'a' && "negate"@[4] == 't' && "negate"@[5] == 'e');
    assert("square_root"@.len() == 11 && "square_root"@[0] == 's' && "square_root"@[1] == 'q' && "square_root"@[2] == 'u' && "square_root"@[3] == 'a' && "square_root"@[4] == 'r' && "square_root"@[5] == 'e' && "square_root"@[6] == '_' && "square_root"@[7] == 'r' && "square_root"@[8] == 'o' && "square_root"@[9] == 'o' && "square_root"@[10] == 't');
    assert("round_up"@.len() == 8 && "round_up"@[0] == 'r' && "round_up"@[1] == 'o' && "round_up"@[2] == 'u' && "round_up"@[3] == 'n' && "round_up"@[4] == 'd' && "round_up"@[5] == '_' && "round_up"@[6] == 'u' && "round_up"@[7] == 'p');
    assert("round_down"@.len() == 10 && "round_down"@[0] == 'r' && "round_down"@[1] == 'o' && "round_down"@[2] == 'u' && "round_down"@[3] == 'n' && "round_down"@[4] == 'd' && "round_down"@[5] == '_' && "round_down"@[6] == 'd' && "round_down"@[7] == 'o' && "round_down"@[8] == 'w' && "round_down"@[9] == 'n');
    assert("truncate"@.len() == 8 && "truncate"@[0] == 't' && "truncate"@[1] == 'r' && "truncate"@[2] == 'u' && "truncate"@[3] == 'n' && "truncate"@[4] == 'c' && "truncate"@[5] == 'a' && "truncate"@[6] == 't' && "truncate"@[7] == 'e');
    assert("nearest"@.len() == 7 && "nearest"@[0] == 'n' && "nearest"@[1] == 'e' && "nearest"@[2] == 'a' && "nearest"@[3] == 'r' && "nearest"@[4] == 'e' && "nearest"@[5] == 's' && "nearest"@[6] == 't');
    assert(integer_text(IntegerType::I32)[1] == '3' && integer_text(IntegerType::I64)[1] == '6');
    assert(signed_text(IntegerType::I32, true)[0] == 's' && signed_text(IntegerType::I32, false)[0] == 'u');
    assert(signed_text(IntegerType::I64, true)[0] == 's' && signed_text(IntegerType::I64, false)[0] == 'u');
    assert(signed_text(IntegerType::I32, true)[1] == '3' && signed_text(IntegerType::I64, true)[1] == '6');
    assert(signed_text(IntegerType::I32, false)[1] == '3' && signed_text(IntegerType::I64, false)[1] == '6');
    assert(integer_text(IntegerType::I32)[0] == 'i' && integer_text(IntegerType::I64)[0] == 'i');
    assert(number_text(NumberType::F32)[1] == '3' && number_text(NumberType::F64)[1] == '6');
    lemma_runtime_name_parts(
        number_unary_word(first),
        number_text(first_kind),
        number_unary_word(second),
        number_text(second_kind),
    );
}

/// No two two-operand floating-point operations share a runtime function.
pub proof fn lemma_number_binary_names_are_distinct(
    first_kind: NumberType,
    first: NumberBinaryOperator,
    second_kind: NumberType,
    second: NumberBinaryOperator,
)
    requires
        number_binary_runtime(first_kind, first) == number_binary_runtime(second_kind, second),
    ensures
        first_kind == second_kind,
        first == second,
{
    reveal_strlit("rt_");
    reveal_strlit("_");
    reveal_strlit("32");
    reveal_strlit("64");
    reveal_strlit("i");
    reveal_strlit("s");
    reveal_strlit("u");
    reveal_strlit("f32");
    reveal_strlit("f64");
    reveal_strlit("add");
    reveal_strlit("subtract");
    reveal_strlit("multiply");
    reveal_strlit("divide");
    reveal_strlit("minimum");
    reveal_strlit("maximum");
    reveal_strlit("copy_sign");
    assert("add"@.len() == 3 && "add"@[0] == 'a' && "add"@[1] == 'd' && "add"@[2] == 'd');
    assert("subtract"@.len() == 8 && "subtract"@[0] == 's' && "subtract"@[1] == 'u' && "subtract"@[2] == 'b' && "subtract"@[3] == 't' && "subtract"@[4] == 'r' && "subtract"@[5] == 'a' && "subtract"@[6] == 'c' && "subtract"@[7] == 't');
    assert("multiply"@.len() == 8 && "multiply"@[0] == 'm' && "multiply"@[1] == 'u' && "multiply"@[2] == 'l' && "multiply"@[3] == 't' && "multiply"@[4] == 'i' && "multiply"@[5] == 'p' && "multiply"@[6] == 'l' && "multiply"@[7] == 'y');
    assert("divide"@.len() == 6 && "divide"@[0] == 'd' && "divide"@[1] == 'i' && "divide"@[2] == 'v' && "divide"@[3] == 'i' && "divide"@[4] == 'd' && "divide"@[5] == 'e');
    assert("minimum"@.len() == 7 && "minimum"@[0] == 'm' && "minimum"@[1] == 'i' && "minimum"@[2] == 'n' && "minimum"@[3] == 'i' && "minimum"@[4] == 'm' && "minimum"@[5] == 'u' && "minimum"@[6] == 'm');
    assert("maximum"@.len() == 7 && "maximum"@[0] == 'm' && "maximum"@[1] == 'a' && "maximum"@[2] == 'x' && "maximum"@[3] == 'i' && "maximum"@[4] == 'm' && "maximum"@[5] == 'u' && "maximum"@[6] == 'm');
    assert("copy_sign"@.len() == 9 && "copy_sign"@[0] == 'c' && "copy_sign"@[1] == 'o' && "copy_sign"@[2] == 'p' && "copy_sign"@[3] == 'y' && "copy_sign"@[4] == '_' && "copy_sign"@[5] == 's' && "copy_sign"@[6] == 'i' && "copy_sign"@[7] == 'g' && "copy_sign"@[8] == 'n');
    assert(integer_text(IntegerType::I32)[1] == '3' && integer_text(IntegerType::I64)[1] == '6');
    assert(signed_text(IntegerType::I32, true)[0] == 's' && signed_text(IntegerType::I32, false)[0] == 'u');
    assert(signed_text(IntegerType::I64, true)[0] == 's' && signed_text(IntegerType::I64, false)[0] == 'u');
    assert(signed_text(IntegerType::I32, true)[1] == '3' && signed_text(IntegerType::I64, true)[1] == '6');
    assert(signed_text(IntegerType::I32, false)[1] == '3' && signed_text(IntegerType::I64, false)[1] == '6');
    assert(integer_text(IntegerType::I32)[0] == 'i' && integer_text(IntegerType::I64)[0] == 'i');
    assert(number_text(NumberType::F32)[1] == '3' && number_text(NumberType::F64)[1] == '6');
    lemma_runtime_name_parts(
        number_binary_word(first),
        number_text(first_kind),
        number_binary_word(second),
        number_text(second_kind),
    );
}

/// No two floating-point comparisons share a runtime function.
pub proof fn lemma_number_compare_names_are_distinct(
    first_kind: NumberType,
    first: NumberCompareOperator,
    second_kind: NumberType,
    second: NumberCompareOperator,
)
    requires
        number_compare_runtime(first_kind, first) == number_compare_runtime(second_kind, second),
    ensures
        first_kind == second_kind,
        first == second,
{
    reveal_strlit("rt_");
    reveal_strlit("_");
    reveal_strlit("32");
    reveal_strlit("64");
    reveal_strlit("i");
    reveal_strlit("s");
    reveal_strlit("u");
    reveal_strlit("f32");
    reveal_strlit("f64");
    reveal_strlit("equal");
    reveal_strlit("not_equal");
    reveal_strlit("less_than");
    reveal_strlit("greater_than");
    reveal_strlit("less_than_equal");
    reveal_strlit("greater_than_equal");
    assert("equal"@.len() == 5 && "equal"@[0] == 'e' && "equal"@[1] == 'q' && "equal"@[2] == 'u' && "equal"@[3] == 'a' && "equal"@[4] == 'l');
    assert("not_equal"@.len() == 9 && "not_equal"@[0] == 'n' && "not_equal"@[1] == 'o' && "not_equal"@[2] == 't' && "not_equal"@[3] == '_' && "not_equal"@[4] == 'e' && "not_equal"@[5] == 'q' && "not_equal"@[6] == 'u' && "not_equal"@[7] == 'a' && "not_equal"@[8] == 'l');
    assert("less_than"@.len() == 9 && "less_than"@[0] == 'l' && "less_than"@[1] == 'e' && "less_than"@[2] == 's' && "less_than"@[3] == 's' && "less_than"@[4] == '_' && "less_than"@[5] == 't' && "less_than"@[6] == 'h' && "less_than"@[7] == 'a' && "less_than"@[8] == 'n');
    assert("greater_than"@.len() == 12 && "greater_than"@[0] == 'g' && "greater_than"@[1] == 'r' && "greater_than"@[2] == 'e' && "greater_than"@[3] == 'a' && "greater_than"@[4] == 't' && "greater_than"@[5] == 'e' && "greater_than"@[6] == 'r' && "greater_than"@[7] == '_' && "greater_than"@[8] == 't' && "greater_than"@[9] == 'h' && "greater_than"@[10] == 'a' && "greater_than"@[11] == 'n');
    assert("less_than_equal"@.len() == 15 && "less_than_equal"@[0] == 'l' && "less_than_equal"@[1] == 'e' && "less_than_equal"@[2] == 's' && "less_than_equal"@[3] == 's' && "less_than_equal"@[4] == '_' && "less_than_equal"@[5] == 't' && "less_than_equal"@[6] == 'h' && "less_than_equal"@[7] == 'a' && "less_than_equal"@[8] == 'n' && "less_than_equal"@[9] == '_' && "less_than_equal"@[10] == 'e' && "less_than_equal"@[11] == 'q' && "less_than_equal"@[12] == 'u' && "less_than_equal"@[13] == 'a' && "less_than_equal"@[14] == 'l');
    assert("greater_than_equal"@.len() == 18 && "greater_than_equal"@[0] == 'g' && "greater_than_equal"@[1] == 'r' && "greater_than_equal"@[2] == 'e' && "greater_than_equal"@[3] == 'a' && "greater_than_equal"@[4] == 't' && "greater_than_equal"@[5] == 'e' && "greater_than_equal"@[6] == 'r' && "greater_than_equal"@[7] == '_' && "greater_than_equal"@[8] == 't' && "greater_than_equal"@[9] == 'h' && "greater_than_equal"@[10] == 'a' && "greater_than_equal"@[11] == 'n' && "greater_than_equal"@[12] == '_' && "greater_than_equal"@[13] == 'e' && "greater_than_equal"@[14] == 'q' && "greater_than_equal"@[15] == 'u' && "greater_than_equal"@[16] == 'a' && "greater_than_equal"@[17] == 'l');
    assert(integer_text(IntegerType::I32)[1] == '3' && integer_text(IntegerType::I64)[1] == '6');
    assert(signed_text(IntegerType::I32, true)[0] == 's' && signed_text(IntegerType::I32, false)[0] == 'u');
    assert(signed_text(IntegerType::I64, true)[0] == 's' && signed_text(IntegerType::I64, false)[0] == 'u');
    assert(signed_text(IntegerType::I32, true)[1] == '3' && signed_text(IntegerType::I64, true)[1] == '6');
    assert(signed_text(IntegerType::I32, false)[1] == '3' && signed_text(IntegerType::I64, false)[1] == '6');
    assert(integer_text(IntegerType::I32)[0] == 'i' && integer_text(IntegerType::I64)[0] == 'i');
    assert(number_text(NumberType::F32)[1] == '3' && number_text(NumberType::F64)[1] == '6');
    lemma_runtime_name_parts(
        number_compare_word(first),
        number_text(first_kind),
        number_compare_word(second),
        number_text(second_kind),
    );
}


/// The runtime function of a non-strict comparison is that of the strict
/// comparison of the same direction and signedness with `_equal` after the
/// operation, and inequality is equality with `not_` before it; the same
/// holds of floating-point comparisons.
pub proof fn lemma_compare_names_relate(kind: IntegerType, signed: bool, number: NumberType)
    ensures
        ({
            let less = integer_compare_runtime(kind, IntegerCompareOperator::LessThan { signed });
            let greater = integer_compare_runtime(kind, IntegerCompareOperator::GreaterThan { signed });
            let equal = integer_compare_runtime(kind, IntegerCompareOperator::Equal);
            &&& less.len() >= 4 && greater.len() >= 4 && equal.len() >= 3
            &&& integer_compare_runtime(kind, IntegerCompareOperator::LessThanEqual { signed })
                == less.take(less.len() - 4) + "_equal"@ + less.skip(less.len() - 4)
            &&& integer_compare_runtime(kind, IntegerCompareOperator::GreaterThanEqual { signed })
                == greater.take(greater.len() - 4) + "_equal"@ + greater.skip(greater.len() - 4)
            &&& integer_compare_runtime(kind, IntegerCompareOperator::NotEqual) == "rt_not_"@
                + equal.skip(3)
        }),
        ({
            let less = number_compare_runtime(number, NumberCompareOperator::LessThan);
            let greater = number_compare_runtime(number, NumberCompareOperator::GreaterThan);
            let equal = number_compare_runtime(number, NumberCompareOperator::Equal);
            &&& less.len() >= 4 && greater.len() >= 4 && equal.len() >= 3
            &&& number_compare_runtime(number, NumberCompareOperator::LessThanEqual) == less.take(
                less.len() - 4,
            ) + "_equal"@ + less.skip(less.len() - 4)
            &&& number_compare_runtime(number, NumberCompareOperator::GreaterThanEqual)
                == greater.take(greater.len() - 4) + "_equal"@ + greater.skip(greater.len() - 4)
            &&& number_compare_runtime(number, NumberCompareOperator::NotEqual) == "rt_not_"@
                + equal.skip(3)
        }),
{
    reveal_strlit("rt_");
    reveal_strlit("_");
    reveal_strlit("32");
    reveal_strlit("64");
    reveal_strlit("i");
    reveal_strlit("s");
    reveal_strlit("u");
    reveal_strlit("f32");
    reveal_strlit("f64");
    reveal_strlit("equal");
    reveal_strlit("not_equal");
    reveal_strlit("less_than");
    reveal_strlit("greater_than");
    reveal_strlit("less_than_equal");
    reveal_strlit("greater_than_equal");
    reveal_strlit("_equal");
    reveal_strlit("rt_not_");
    let less = integer_compare_runtime(kind, IntegerCompareOperator::LessThan { signed });
    let greater = integer_compare_runtime(kind, IntegerCompareOperator::GreaterThan { signed });
    let equal = integer_compare_runtime(kind, IntegerCompareOperator::Equal);
    assert(integer_compare_runtime(kind, IntegerCompareOperator::LessThanEqual { signed })
        =~= less.take(less.len() - 4) + "_equal"@ + less.skip(less.len() - 4));
    assert(integer_compare_runtime(kind, IntegerCompareOperator::GreaterThanEqual { signed })
        =~= greater.take(greater.len() - 4) + "_equal"@ + greater.skip(greater.len() - 4));
    assert(integer_compare_runtime(kind, IntegerCompareOperator::NotEqual) =~= "rt_not_"@
        + equal.skip(3));
    let less = number_compare_runtime(number, NumberCompareOperator::LessThan);
    let greater = number_compare_runtime(number, NumberCompareOperator::GreaterThan);
    let equal = number_compare_runtime(number, NumberCompareOperator::Equal);
    assert(number_compare_runtime(number, NumberCompareOperator::LessThanEqual) =~= less.take(
        less.len() - 4,
    ) + "_equal"@ + less.skip(less.len() - 4));
    assert(number_compare_runtime(number, NumberCompareOperator::GreaterThanEqual) =~= greater.take(
        greater.len() - 4,
    ) + "_equal"@ + greater.skip(greater.len() - 4));
    assert(number_compare_runtime(number, NumberCompareOperator::NotEqual) =~= "rt_not_"@
        + equal.skip(3));
}

} // verus!
