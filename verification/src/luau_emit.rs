//! The Luau emitter's expressions for the target's own operations: bit32
//! and math library calls, Lua operators, bit transmutes, buffers, vectors
//! and table elements.

use vstd::prelude::*;

use crate::ir::{
    ExtendType, IntegerBinaryOperator, IntegerCompareOperator, IntegerType, IntegerUnaryOperator,
    Link, NumberBinaryOperator, NumberCompareOperator, NumberType, NumberUnaryOperator,
};
use crate::luajit::Local;
use crate::luajit_data::{local_for, register_of, DEFERRED};
use crate::luajit_emit::can_emit;
use crate::luau_code::{pushed, CodeHandler, Statement};
use crate::luau_data::{
    after_all, all_loadable, is_apply, is_boolean_apply, link_list1, link_list2, loaded_all,
    DataHandler, Expression,
};
use crate::runtime_names::{
    conversion_name, integer_binary_runtime, integer_compare_runtime, integer_extend_runtime,
    integer_of_width, integer_text, integer_unary_runtime, number_binary_runtime,
    number_compare_runtime, number_of_width, number_text, number_unary_runtime, signed_text,
    binary_signedness, compare_signedness, ends_in_type, lemma_binary_name_reads_signedness,
    lemma_compare_name_reads_signedness, signedness_letter,
};

verus! {

/// An operation of the Luau target that computes a value, with the outputs
/// it reads; an import names what it imports, and a buffer load names the
/// buffer function it calls.
pub enum LuauForeign {
    Import { namespace: String, identifier: String },
    TuringAsk,
    Bit32And { lhs: Link, rhs: Link },
    Bit32Or { lhs: Link, rhs: Link },
    Bit32Xor { lhs: Link, rhs: Link },
    Bit32LShift { lhs: Link, rhs: Link },
    Bit32RShift { lhs: Link, rhs: Link },
    Bit32ArShift { lhs: Link, rhs: Link },
    Bit32LRotate { lhs: Link, rhs: Link },
    Bit32RRotate { lhs: Link, rhs: Link },
    Bit32CountLz { source: Link },
    Bit32CountRz { source: Link },
    LuauAdd { lhs: Link, rhs: Link },
    LuauSubtract { lhs: Link, rhs: Link },
    LuauMultiply { lhs: Link, rhs: Link },
    LuauDivide { lhs: Link, rhs: Link },
    LuauFloorDivide { lhs: Link, rhs: Link },
    LuauModulo { lhs: Link, rhs: Link },
    LuauNegate { source: Link },
    LuauEqual { lhs: Link, rhs: Link },
    LuauNotEqual { lhs: Link, rhs: Link },
    LuauLessThan { lhs: Link, rhs: Link },
    LuauLessThanEqual { lhs: Link, rhs: Link },
    IntoBitsI64 { lhs: Link, rhs: Link },
    FromBitsI64 { source: Link },
    FlipMostSignificant { source: Link },
    FromBitsF32 { source: Link },
    IntoBitsF32 { source: Link },
    IsPositive { source: Link },
    BooleanToInteger { source: Link },
    MathAbs { source: Link },
    MathSqrt { source: Link },
    MathCeil { source: Link },
    MathFloor { source: Link },
    MathModf { source: Link },
    MathMin { lhs: Link, rhs: Link },
    MathMax { lhs: Link, rhs: Link },
    MathFmod { lhs: Link, rhs: Link },
    BufferLoad { name: &'static str, buffer: Link, offset: Link },
    BufferLength { source: Link },
    VectorCreate { source: Link },
    VectorX { source: Link },
    TableLoad { reference: Link, offset: Link },
    TableLength { source: Link },
}

/// The outputs an operation reads, in the order they are read.
pub open spec fn foreign_reads(foreign: LuauForeign) -> Seq<Link> {
    match foreign {
        LuauForeign::Import { .. } => Seq::empty(),
        LuauForeign::TuringAsk => Seq::empty(),
        LuauForeign::Bit32And { lhs, rhs } => seq![lhs, rhs],
        LuauForeign::Bit32Or { lhs, rhs } => seq![lhs, rhs],
        LuauForeign::Bit32Xor { lhs, rhs } => seq![lhs, rhs],
        LuauForeign::Bit32LShift { lhs, rhs } => seq![lhs, rhs],
        LuauForeign::Bit32RShift { lhs, rhs } => seq![lhs, rhs],
        LuauForeign::Bit32ArShift { lhs, rhs } => seq![lhs, rhs],
        LuauForeign::Bit32LRotate { lhs, rhs } => seq![lhs, rhs],
        LuauForeign::Bit32RRotate { lhs, rhs } => seq![lhs, rhs],
        LuauForeign::Bit32CountLz { source } => seq![source],
        LuauForeign::Bit32CountRz { source } => seq![source],
        LuauForeign::LuauAdd { lhs, rhs } => seq![lhs, rhs],
        LuauForeign::LuauSubtract { lhs, rhs } => seq![lhs, rhs],
        LuauForeign::LuauMultiply { lhs, rhs } => seq![lhs, rhs],
        LuauForeign::LuauDivide { lhs, rhs } => seq![lhs, rhs],
        LuauForeign::LuauFloorDivide { lhs, rhs } => seq![lhs, rhs],
        LuauForeign::LuauModulo { lhs, rhs } => seq![lhs, rhs],
        LuauForeign::LuauNegate { source } => seq![source],
        LuauForeign::LuauEqual { lhs, rhs } => seq![lhs, rhs],
        LuauForeign::LuauNotEqual { lhs, rhs } => seq![lhs, rhs],
        LuauForeign::LuauLessThan { lhs, rhs } => seq![lhs, rhs],
        LuauForeign::LuauLessThanEqual { lhs, rhs } => seq![lhs, rhs],
        LuauForeign::IntoBitsI64 { lhs, rhs } => seq![lhs, rhs],
        LuauForeign::FromBitsI64 { source } => seq![source],
        LuauForeign::FlipMostSignificant { source } => seq![source],
        LuauForeign::FromBitsF32 { source } => seq![source],
        LuauForeign::IntoBitsF32 { source } => seq![source],
        LuauForeign::IsPositive { source } => seq![source],
        LuauForeign::BooleanToInteger { source } => seq![source],
        LuauForeign::MathAbs { source } => seq![source],
        LuauForeign::MathSqrt { source } => seq![source],
        LuauForeign::MathCeil { source } => seq![source],
        LuauForeign::MathFloor { source } => seq![source],
        LuauForeign::MathModf { source } => seq![source],
        LuauForeign::MathMin { lhs, rhs } => seq![lhs, rhs],
        LuauForeign::MathMax { lhs, rhs } => seq![lhs, rhs],
        LuauForeign::MathFmod { lhs, rhs } => seq![lhs, rhs],
        LuauForeign::BufferLoad { buffer, offset, .. } => seq![buffer, offset],
        LuauForeign::BufferLength { source } => seq![source],
        LuauForeign::VectorCreate { source } => seq![source],
        LuauForeign::VectorX { source } => seq![source],
        LuauForeign::TableLoad { reference, offset } => seq![reference, offset],
        LuauForeign::TableLength { source } => seq![source],
    }
}

/// Whether `expression` is what the operation becomes, given the
/// expressions read from its inputs in order.
pub open spec fn is_foreign_value(expression: Expression, foreign: LuauForeign, read: Seq<Expression>) -> bool {
    match foreign {
        LuauForeign::Import { namespace, identifier } => is_apply(
            expression,
            "rt_import"@,
            seq![Expression::String(namespace), Expression::String(identifier)],
        ),
        LuauForeign::TuringAsk => is_apply(expression, "rt_turing_ask"@, Seq::empty()),
        LuauForeign::Bit32And { .. } => is_apply(expression, "bit32_and"@, read),
        LuauForeign::Bit32Or { .. } => is_apply(expression, "bit32_or"@, read),
        LuauForeign::Bit32Xor { .. } => is_apply(expression, "bit32_xor"@, read),
        LuauForeign::Bit32LShift { .. } => is_apply(expression, "bit32_lshift"@, read),
        LuauForeign::Bit32RShift { .. } => is_apply(expression, "bit32_rshift"@, read),
        LuauForeign::Bit32ArShift { .. } => is_apply(expression, "bit32_arshift"@, read),
        LuauForeign::Bit32LRotate { .. } => is_apply(expression, "bit32_lrotate"@, read),
        LuauForeign::Bit32RRotate { .. } => is_apply(expression, "bit32_rrotate"@, read),
        LuauForeign::Bit32CountLz { .. } => is_apply(expression, "bit32_countlz"@, read),
        LuauForeign::Bit32CountRz { .. } => is_apply(expression, "bit32_countrz"@, read),
        LuauForeign::LuauAdd { .. } => expression matches Expression::Infix { operator, lhs, rhs } && operator@ == "+"@
            && *lhs == read[0] && *rhs == read[1],
        LuauForeign::LuauSubtract { .. } => expression matches Expression::Infix { operator, lhs, rhs } && operator@ == "-"@
            && *lhs == read[0] && *rhs == read[1],
        LuauForeign::LuauMultiply { .. } => expression matches Expression::Infix { operator, lhs, rhs } && operator@ == "*"@
            && *lhs == read[0] && *rhs == read[1],
        LuauForeign::LuauDivide { .. } => expression matches Expression::Infix { operator, lhs, rhs } && operator@ == "/"@
            && *lhs == read[0] && *rhs == read[1],
        LuauForeign::LuauFloorDivide { .. } => expression matches Expression::Infix { operator, lhs, rhs } && operator@ == "//"@
            && *lhs == read[0] && *rhs == read[1],
        LuauForeign::LuauModulo { .. } => expression matches Expression::Infix { operator, lhs, rhs } && operator@ == "%"@
            && *lhs == read[0] && *rhs == read[1],
        LuauForeign::LuauNegate { .. } => expression matches Expression::Prefix { operator, source } && operator@ == "-"@
            && *source == read[0],
        LuauForeign::LuauEqual { .. } => expression matches Expression::Infix { operator, lhs, rhs } && operator@ == "=="@
            && *lhs == read[0] && *rhs == read[1],
        LuauForeign::LuauNotEqual { .. } => expression matches Expression::Infix { operator, lhs, rhs } && operator@ == "~="@
            && *lhs == read[0] && *rhs == read[1],
        LuauForeign::LuauLessThan { .. } => expression matches Expression::Infix { operator, lhs, rhs } && operator@ == "<"@
            && *lhs == read[0] && *rhs == read[1],
        LuauForeign::LuauLessThanEqual { .. } => expression matches Expression::Infix { operator, lhs, rhs } && operator@ == "<="@
            && *lhs == read[0] && *rhs == read[1],
        LuauForeign::IntoBitsI64 { .. } => is_apply(expression, "into_bits_i64"@, read),
        LuauForeign::FromBitsI64 { .. } => is_apply(expression, "from_bits_i64"@, read),
        LuauForeign::FlipMostSignificant { .. } => is_apply(expression, "flip_most_significant"@, read),
        LuauForeign::FromBitsF32 { .. } => is_apply(expression, "from_bits_f32"@, read),
        LuauForeign::IntoBitsF32 { .. } => is_apply(expression, "into_bits_f32"@, read),
        LuauForeign::IsPositive { .. } => is_apply(expression, "is_positive"@, read),
        LuauForeign::BooleanToInteger { .. } => expression == (Expression::BooleanToInteger { source: Box::new(read[0]) }),
        LuauForeign::MathAbs { .. } => is_apply(expression, "math_abs"@, read),
        LuauForeign::MathSqrt { .. } => is_apply(expression, "math_sqrt"@, read),
        LuauForeign::MathCeil { .. } => is_apply(expression, "math_ceil"@, read),
        LuauForeign::MathFloor { .. } => is_apply(expression, "math_floor"@, read),
        LuauForeign::MathModf { .. } => is_apply(expression, "math_modf"@, read),
        LuauForeign::MathMin { .. } => is_apply(expression, "math_min"@, read),
        LuauForeign::MathMax { .. } => is_apply(expression, "math_max"@, read),
        LuauForeign::MathFmod { .. } => is_apply(expression, "math_fmod"@, read),
        LuauForeign::BufferLoad { name, .. } => is_apply(expression, name@, read),
        LuauForeign::BufferLength { .. } => expression == (Expression::BufferLength { source: Box::new(read[0]) }),
        LuauForeign::VectorCreate { .. } => is_apply(expression, "vector_create"@, seq![read[0], Expression::I32(0), Expression::I32(0)]),
        LuauForeign::VectorX { .. } => expression == (Expression::VectorX { source: Box::new(read[0]) }),
        LuauForeign::TableLoad { .. } => expression == (Expression::Index { source: Box::new(read[0]), offset: Box::new(read[1]) }),
        LuauForeign::TableLength { .. } => expression == (Expression::TableSize { source: Box::new(read[0]) }),
    }
}

/// The expression of an operation of the Luau target imported from outside
/// or asked of the host.
pub fn build_foreign(foreign: &LuauForeign) -> (expression: Expression)
    requires
        foreign is Import || foreign is TuringAsk,
    ensures
        is_foreign_value(expression, *foreign, Seq::empty()),
{
    let mut arguments: Vec<Expression> = Vec::new();
    match foreign {
        LuauForeign::Import { namespace, identifier } => {
            arguments.push(Expression::String(namespace.clone()));
            arguments.push(Expression::String(identifier.clone()));
            assert(arguments@ =~= seq![Expression::String(*namespace), Expression::String(*identifier)]);
            proof {
                reveal_strlit("rt_import");
            }
            Expression::Apply { name: "rt_import", arguments }
        },
        _ => {
            assert(arguments@ =~= Seq::<Expression>::empty());
            proof {
                reveal_strlit("rt_turing_ask");
            }
            Expression::Apply { name: "rt_turing_ask", arguments }
        },
    }
}

/// The expression an operation of the Luau target becomes: its inputs are
/// read in order, taking the expressions of deferred ones.
pub fn value_foreign(data: &mut DataHandler, region: u32, foreign: &LuauForeign) -> (expression: Expression)
    requires
        all_loadable(old(data).arena(), old(data).stored(), region, foreign_reads(*foreign)),
    ensures
        is_foreign_value(expression, *foreign, loaded_all(old(data).arena(), old(data).stored(), region, foreign_reads(*foreign))),
        final(data).stored() == after_all(old(data).arena(), old(data).stored(), region, foreign_reads(*foreign)),
        final(data).arena() == old(data).arena(),
{
    proof {
        reveal_with_fuel(all_loadable, 3);
        reveal_with_fuel(crate::luau_data::load_all_result, 3);
    }
    match foreign {
        LuauForeign::Import { .. } => build_foreign(foreign),
        LuauForeign::TuringAsk => build_foreign(foreign),
        LuauForeign::Bit32And { lhs, rhs } => data.build_apply(region, "bit32_and", link_list2(*lhs, *rhs).as_slice()),
        LuauForeign::Bit32Or { lhs, rhs } => data.build_apply(region, "bit32_or", link_list2(*lhs, *rhs).as_slice()),
        LuauForeign::Bit32Xor { lhs, rhs } => data.build_apply(region, "bit32_xor", link_list2(*lhs, *rhs).as_slice()),
        LuauForeign::Bit32LShift { lhs, rhs } => data.build_apply(region, "bit32_lshift", link_list2(*lhs, *rhs).as_slice()),
        LuauForeign::Bit32RShift { lhs, rhs } => data.build_apply(region, "bit32_rshift", link_list2(*lhs, *rhs).as_slice()),
        LuauForeign::Bit32ArShift { lhs, rhs } => data.build_apply(region, "bit32_arshift", link_list2(*lhs, *rhs).as_slice()),
        LuauForeign::Bit32LRotate { lhs, rhs } => data.build_apply(region, "bit32_lrotate", link_list2(*lhs, *rhs).as_slice()),
        LuauForeign::Bit32RRotate { lhs, rhs } => data.build_apply(region, "bit32_rrotate", link_list2(*lhs, *rhs).as_slice()),
        LuauForeign::Bit32CountLz { source } => data.build_apply(region, "bit32_countlz", link_list1(*source).as_slice()),
        LuauForeign::Bit32CountRz { source } => data.build_apply(region, "bit32_countrz", link_list1(*source).as_slice()),
        LuauForeign::LuauAdd { lhs, rhs } => data.build_infix(region, "+", *lhs, *rhs),
        LuauForeign::LuauSubtract { lhs, rhs } => data.build_infix(region, "-", *lhs, *rhs),
        LuauForeign::LuauMultiply { lhs, rhs } => data.build_infix(region, "*", *lhs, *rhs),
        LuauForeign::LuauDivide { lhs, rhs } => data.build_infix(region, "/", *lhs, *rhs),
        LuauForeign::LuauFloorDivide { lhs, rhs } => data.build_infix(region, "//", *lhs, *rhs),
        LuauForeign::LuauModulo { lhs, rhs } => data.build_infix(region, "%", *lhs, *rhs),
        LuauForeign::LuauNegate { source } => data.build_prefix(region, "-", *source),
        LuauForeign::LuauEqual { lhs, rhs } => data.build_infix(region, "==", *lhs, *rhs),
        LuauForeign::LuauNotEqual { lhs, rhs } => data.build_infix(region, "~=", *lhs, *rhs),
        LuauForeign::LuauLessThan { lhs, rhs } => data.build_infix(region, "<", *lhs, *rhs),
        LuauForeign::LuauLessThanEqual { lhs, rhs } => data.build_infix(region, "<=", *lhs, *rhs),
        LuauForeign::IntoBitsI64 { lhs, rhs } => data.build_apply(region, "into_bits_i64", link_list2(*lhs, *rhs).as_slice()),
        LuauForeign::FromBitsI64 { source } => data.build_apply(region, "from_bits_i64", link_list1(*source).as_slice()),
        LuauForeign::FlipMostSignificant { source } => data.build_apply(region, "flip_most_significant", link_list1(*source).as_slice()),
        LuauForeign::FromBitsF32 { source } => data.build_apply(region, "from_bits_f32", link_list1(*source).as_slice()),
        LuauForeign::IntoBitsF32 { source } => data.build_apply(region, "into_bits_f32", link_list1(*source).as_slice()),
        LuauForeign::IsPositive { source } => data.build_apply(region, "is_positive", link_list1(*source).as_slice()),
        LuauForeign::BooleanToInteger { source } => data.build_boolean_to_integer(region, *source),
        LuauForeign::MathAbs { source } => data.build_apply(region, "math_abs", link_list1(*source).as_slice()),
        LuauForeign::MathSqrt { source } => data.build_apply(region, "math_sqrt", link_list1(*source).as_slice()),
        LuauForeign::MathCeil { source } => data.build_apply(region, "math_ceil", link_list1(*source).as_slice()),
        LuauForeign::MathFloor { source } => data.build_apply(region, "math_floor", link_list1(*source).as_slice()),
        LuauForeign::MathModf { source } => data.build_apply(region, "math_modf", link_list1(*source).as_slice()),
        LuauForeign::MathMin { lhs, rhs } => data.build_apply(region, "math_min", link_list2(*lhs, *rhs).as_slice()),
        LuauForeign::MathMax { lhs, rhs } => data.build_apply(region, "math_max", link_list2(*lhs, *rhs).as_slice()),
        LuauForeign::MathFmod { lhs, rhs } => data.build_apply(region, "math_fmod", link_list2(*lhs, *rhs).as_slice()),
        LuauForeign::BufferLoad { name, buffer, offset } => data.build_apply(region, *name, link_list2(*buffer, *offset).as_slice()),
        LuauForeign::BufferLength { source } => data.build_buffer_length(region, *source),
        LuauForeign::VectorCreate { source } => data.build_vector_create(region, *source),
        LuauForeign::VectorX { source } => data.build_vector_x(region, *source),
        LuauForeign::TableLoad { reference, offset } => data.build_index(region, *reference, *offset),
        LuauForeign::TableLength { source } => data.build_table_length(region, *source),
    }
}

/// The place of an operation of the Luau target in the list of them,
/// whatever it reads: two operations have the same place exactly when
/// they are the same operation.
pub open spec fn foreign_index(foreign: LuauForeign) -> int {
    match foreign {
        LuauForeign::Import { .. } => 0,
        LuauForeign::TuringAsk => 1,
        LuauForeign::Bit32And { .. } => 2,
        LuauForeign::Bit32Or { .. } => 3,
        LuauForeign::Bit32Xor { .. } => 4,
        LuauForeign::Bit32LShift { .. } => 5,
        LuauForeign::Bit32RShift { .. } => 6,
        LuauForeign::Bit32ArShift { .. } => 7,
        LuauForeign::Bit32LRotate { .. } => 8,
        LuauForeign::Bit32RRotate { .. } => 9,
        LuauForeign::Bit32CountLz { .. } => 10,
        LuauForeign::Bit32CountRz { .. } => 11,
        LuauForeign::LuauAdd { .. } => 12,
        LuauForeign::LuauSubtract { .. } => 13,
        LuauForeign::LuauMultiply { .. } => 14,
        LuauForeign::LuauDivide { .. } => 15,
        LuauForeign::LuauFloorDivide { .. } => 16,
        LuauForeign::LuauModulo { .. } => 17,
        LuauForeign::LuauNegate { .. } => 18,
        LuauForeign::LuauEqual { .. } => 19,
        LuauForeign::LuauNotEqual { .. } => 20,
        LuauForeign::LuauLessThan { .. } => 21,
        LuauForeign::LuauLessThanEqual { .. } => 22,
        LuauForeign::IntoBitsI64 { .. } => 23,
        LuauForeign::FromBitsI64 { .. } => 24,
        LuauForeign::FlipMostSignificant { .. } => 25,
        LuauForeign::FromBitsF32 { .. } => 26,
        LuauForeign::IntoBitsF32 { .. } => 27,
        LuauForeign::IsPositive { .. } => 28,
        LuauForeign::BooleanToInteger { .. } => 29,
        LuauForeign::MathAbs { .. } => 30,
        LuauForeign::MathSqrt { .. } => 31,
        LuauForeign::MathCeil { .. } => 32,
        LuauForeign::MathFloor { .. } => 33,
        LuauForeign::MathModf { .. } => 34,
        LuauForeign::MathMin { .. } => 35,
        LuauForeign::MathMax { .. } => 36,
        LuauForeign::MathFmod { .. } => 37,
        LuauForeign::BufferLoad { .. } => 38,
        LuauForeign::BufferLength { .. } => 39,
        LuauForeign::VectorCreate { .. } => 40,
        LuauForeign::VectorX { .. } => 41,
        LuauForeign::TableLoad { .. } => 42,
        LuauForeign::TableLength { .. } => 43,
    }
}

/// The place of the operation whose runtime or library function is named
/// `name`, or -1.
spec fn apply_index(name: Seq<char>) -> int {
    if name == "rt_import"@ {
        0
    } else if name == "rt_turing_ask"@ {
        1
    } else if name == "bit32_and"@ {
        2
    } else if name == "bit32_or"@ {
        3
    } else if name == "bit32_xor"@ {
        4
    } else if name == "bit32_lshift"@ {
        5
    } else if name == "bit32_rshift"@ {
        6
    } else if name == "bit32_arshift"@ {
        7
    } else if name == "bit32_lrotate"@ {
        8
    } else if name == "bit32_rrotate"@ {
        9
    } else if name == "bit32_countlz"@ {
        10
    } else if name == "bit32_countrz"@ {
        11
    } else if name == "into_bits_i64"@ {
        23
    } else if name == "from_bits_i64"@ {
        24
    } else if name == "flip_most_significant"@ {
        25
    } else if name == "from_bits_f32"@ {
        26
    } else if name == "into_bits_f32"@ {
        27
    } else if name == "is_positive"@ {
        28
    } else if name == "math_abs"@ {
        30
    } else if name == "math_sqrt"@ {
        31
    } else if name == "math_ceil"@ {
        32
    } else if name == "math_floor"@ {
        33
    } else if name == "math_modf"@ {
        34
    } else if name == "math_min"@ {
        35
    } else if name == "math_max"@ {
        36
    } else if name == "math_fmod"@ {
        37
    } else if name == "vector_create"@ {
        40
    } else {
        -1
    }
}

/// The place of the operation written with the Lua infix operator
/// `operator`, or -1.
spec fn infix_index(operator: Seq<char>) -> int {
    if operator == "+"@ {
        12
    } else if operator == "-"@ {
        13
    } else if operator == "*"@ {
        14
    } else if operator == "/"@ {
        15
    } else if operator == "//"@ {
        16
    } else if operator == "%"@ {
        17
    } else if operator == "=="@ {
        19
    } else if operator == "~="@ {
        20
    } else if operator == "<"@ {
        21
    } else if operator == "<="@ {
        22
    } else {
        -1
    }
}

/// The place of the operation that `expression` is the value of, read off
/// the expression alone, or -1.
spec fn expression_index(expression: Expression) -> int {
    match expression {
        Expression::Apply { name, .. } => apply_index(name@),
        Expression::Infix { operator, .. } => infix_index(operator@),
        Expression::Prefix { operator, .. } => if operator@ == "-"@ {
            18
        } else {
            -1
        },
        Expression::BooleanToInteger { .. } => 29,
        Expression::BufferLength { .. } => 39,
        Expression::VectorX { .. } => 41,
        Expression::Index { .. } => 42,
        Expression::TableSize { .. } => 43,
        _ => -1,
    }
}

/// What an operation other than a buffer load becomes tells which
/// operation it is.
proof fn lemma_expression_index(expression: Expression, foreign: LuauForeign, read: Seq<Expression>)
    requires
        !(foreign is BufferLoad),
        is_foreign_value(expression, foreign, read),
    ensures
        expression_index(expression) == foreign_index(foreign),
{
    reveal_strlit("%");
    reveal_strlit("*");
    reveal_strlit("+");
    reveal_strlit("-");
    reveal_strlit("/");
    reveal_strlit("//");
    reveal_strlit("<");
    reveal_strlit("<=");
    reveal_strlit("==");
    reveal_strlit("bit32_and");
    reveal_strlit("bit32_arshift");
    reveal_strlit("bit32_countlz");
    reveal_strlit("bit32_countrz");
    reveal_strlit("bit32_lrotate");
    reveal_strlit("bit32_lshift");
    reveal_strlit("bit32_or");
    reveal_strlit("bit32_rrotate");
    reveal_strlit("bit32_rshift");
    reveal_strlit("bit32_xor");
    reveal_strlit("flip_most_significant");
    reveal_strlit("from_bits_f32");
    reveal_strlit("from_bits_i64");
    reveal_strlit("into_bits_f32");
    reveal_strlit("into_bits_i64");
    reveal_strlit("is_positive");
    reveal_strlit("math_abs");
    reveal_strlit("math_ceil");
    reveal_strlit("math_floor");
    reveal_strlit("math_fmod");
    reveal_strlit("math_max");
    reveal_strlit("math_min");
    reveal_strlit("math_modf");
    reveal_strlit("math_sqrt");
    reveal_strlit("rt_import");
    reveal_strlit("rt_turing_ask");
    reveal_strlit("vector_create");
    reveal_strlit("~=");
    // Each name spelled out letter by letter, so that any two of them differ
    // in their length or in some letter.
    assert("%"@.len() == 1 && "%"@[0] == '%');
    assert("*"@.len() == 1 && "*"@[0] == '*');
    assert("+"@.len() == 1 && "+"@[0] == '+');
    assert("-"@.len() == 1 && "-"@[0] == '-');
    assert("/"@.len() == 1 && "/"@[0] == '/');
    assert("//"@.len() == 2 && "//"@[0] == '/' && "//"@[1] == '/');
    assert("<"@.len() == 1 && "<"@[0] == '<');
    assert("<="@.len() == 2 && "<="@[0] == '<' && "<="@[1] == '=');
    assert("=="@.len() == 2 && "=="@[0] == '=' && "=="@[1] == '=');
    assert("bit32_and"@.len() == 9 && "bit32_and"@[0] == 'b' && "bit32_and"@[1] == 'i' && "bit32_and"@[2] == 't' && "bit32_and"@[3] == '3' && "bit32_and"@[4] == '2' && "bit32_and"@[5] == '_' && "bit32_and"@[6] == 'a' && "bit32_and"@[7] == 'n' && "bit32_and"@[8] == 'd');
    assert("bit32_arshift"@.len() == 13 && "bit32_arshift"@[0] == 'b' && "bit32_arshift"@[1] == 'i' && "bit32_arshift"@[2] == 't' && "bit32_arshift"@[3] == '3' && "bit32_arshift"@[4] == '2' && "bit32_arshift"@[5] == '_' && "bit32_arshift"@[6] == 'a' && "bit32_arshift"@[7] == 'r' && "bit32_arshift"@[8] == 's' && "bit32_arshift"@[9] == 'h' && "bit32_arshift"@[10] == 'i' && "bit32_arshift"@[11] == 'f' && "bit32_arshift"@[12] == 't');
    assert("bit32_countlz"@.len() == 13 && "bit32_countlz"@[0] == 'b' && "bit32_countlz"@[1] == 'i' && "bit32_countlz"@[2] == 't' && "bit32_countlz"@[3] == '3' && "bit32_countlz"@[4] == '2' && "bit32_countlz"@[5] == '_' && "bit32_countlz"@[6] == 'c' && "bit32_countlz"@[7] == 'o' && "bit32_countlz"@[8] == 'u' && "bit32_countlz"@[9] == 'n' && "bit32_countlz"@[10] == 't' && "bit32_countlz"@[11] == 'l' && "bit32_countlz"@[12] == 'z');
    assert("bit32_countrz"@.len() == 13 && "bit32_countrz"@[0] == 'b' && "bit32_countrz"@[1] == 'i' && "bit32_countrz"@[2] == 't' && "bit32_countrz"@[3] == '3' && "bit32_countrz"@[4] == '2' && "bit32_countrz"@[5] == '_' && "bit32_countrz"@[6] == 'c' && "bit32_countrz"@[7] == 'o' && "bit32_countrz"@[8] == 'u' && "bit32_countrz"@[9] == 'n' && "bit32_countrz"@[10] == 't' && "bit32_countrz"@[11] == 'r' && "bit32_countrz"@[12] == 'z');
    assert("bit32_lrotate"@.len() == 13 && "bit32_lrotate"@[0] == 'b' && "bit32_lrotate"@[1] == 'i' && "bit32_lrotate"@[2] == 't' && "bit32_lrotate"@[3] == '3' && "bit32_lrotate"@[4] == '2' && "bit32_lrotate"@[5] == '_' && "bit32_lrotate"@[6] == 'l' && "bit32_lrotate"@[7] == 'r' && "bit32_lrotate"@[8] == 'o' && "bit32_lrotate"@[9] == 't' && "bit32_lrotate"@[10] == 'a' && "bit32_lrotate"@[11] == 't' && "bit32_lrotate"@[12] == 'e');
    assert("bit32_lshift"@.len() == 12 && "bit32_lshift"@[0] == 'b' && "bit32_lshift"@[1] == 'i' && "bit32_lshift"@[2] == 't' && "bit32_lshift"@[3] == '3' && "bit32_lshift"@[4] == '2' && "bit32_lshift"@[5] == '_' && "bit32_lshift"@[6] == 'l' && "bit32_lshift"@[7] == 's' && "bit32_lshift"@[8] == 'h' && "bit32_lshift"@[9] == 'i' && "bit32_lshift"@[10] == 'f' && "bit32_lshift"@[11] == 't');
    assert("bit32_or"@.len() == 8 && "bit32_or"@[0] == 'b' && "bit32_or"@[1] == 'i' && "bit32_or"@[2] == 't' && "bit32_or"@[3] == '3' && "bit32_or"@[4] == '2' && "bit32_or"@[5] == '_' && "bit32_or"@[6] == 'o' && "bit32_or"@[7] == 'r');
    assert("bit32_rrotate"@.len() == 13 && "bit32_rrotate"@[0] == 'b' && "bit32_rrotate"@[1] == 'i' && "bit32_rrotate"@[2] == 't' && "bit32_rrotate"@[3] == '3' && "bit32_rrotate"@[4] == '2' && "bit32_rrotate"@[5] == '_' && "bit32_rrotate"@[6] == 'r' && "bit32_rrotate"@[7] == 'r' && "bit32_rrotate"@[8] == 'o' && "bit32_rrotate"@[9] == 't' && "bit32_rrotate"@[10] == 'a' && "bit32_rrotate"@[11] == 't' && "bit32_rrotate"@[12] == 'e');
    assert("bit32_rshift"@.len() == 12 && "bit32_rshift"@[0] == 'b' && "bit32_rshift"@[1] == 'i' && "bit32_rshift"@[2] == 't' && "bit32_rshift"@[3] == '3' && "bit32_rshift"@[4] == '2' && "bit32_rshift"@[5] == '_' && "bit32_rshift"@[6] == 'r' && "bit32_rshift"@[7] == 's' && "bit32_rshift"@[8] == 'h' && "bit32_rshift"@[9] == 'i' && "bit32_rshift"@[10] == 'f' && "bit32_rshift"@[11] == 't');
    assert("bit32_xor"@.len() == 9 && "bit32_xor"@[0] == 'b' && "bit32_xor"@[1] == 'i' && "bit32_xor"@[2] == 't' && "bit32_xor"@[3] == '3' && "bit32_xor"@[4] == '2' && "bit32_xor"@[5] == '_' && "bit32_xor"@[6] == 'x' && "bit32_xor"@[7] == 'o' && "bit32_xor"@[8] == 'r');
    assert("flip_most_significant"@.len() == 21 && "flip_most_significant"@[0] == 'f' && "flip_most_significant"@[1] == 'l' && "flip_most_significant"@[2] == 'i' && "flip_most_significant"@[3] == 'p' && "flip_most_significant"@[4] == '_' && "flip_most_significant"@[5] == 'm' && "flip_most_significant"@[6] == 'o' && "flip_most_significant"@[7] == 's' && "flip_most_significant"@[8] == 't' && "flip_most_significant"@[9] == '_' && "flip_most_significant"@[10] == 's' && "flip_most_significant"@[11] == 'i' && "flip_most_significant"@[12] == 'g' && "flip_most_significant"@[13] == 'n' && "flip_most_significant"@[14] == 'i' && "flip_most_significant"@[15] == 'f' && "flip_most_significant"@[16] == 'i' && "flip_most_significant"@[17] == 'c' && "flip_most_significant"@[18] == 'a' && "flip_most_significant"@[19] == 'n' && "flip_most_significant"@[20] == 't');
    assert("from_bits_f32"@.len() == 13 && "from_bits_f32"@[0] == 'f' && "from_bits_f32"@[1] == 'r' && "from_bits_f32"@[2] == 'o' && "from_bits_f32"@[3] == 'm' && "from_bits_f32"@[4] == '_' && "from_bits_f32"@[5] == 'b' && "from_bits_f32"@[6] == 'i' && "from_bits_f32"@[7] == 't' && "from_bits_f32"@[8] == 's' && "from_bits_f32"@[9] == '_' && "from_bits_f32"@[10] == 'f' && "from_bits_f32"@[11] == '3' && "from_bits_f32"@[12] == '2');
    assert("from_bits_i64"@.len() == 13 && "from_bits_i64"@[0] == 'f' && "from_bits_i64"@[1] == 'r' && "from_bits_i64"@[2] == 'o' && "from_bits_i64"@[3] == 'm' && "from_bits_i64"@[4] == '_' && "from_bits_i64"@[5] == 'b' && "from_bits_i64"@[6] == 'i' && "from_bits_i64"@[7] == 't' && "from_bits_i64"@[8] == 's' && "from_bits_i64"@[9] == '_' && "from_bits_i64"@[10] == 'i' && "from_bits_i64"@[11] == '6' && "from_bits_i64"@[12] == '4');
    assert("into_bits_f32"@.len() == 13 && "into_bits_f32"@[0] == 'i' && "into_bits_f32"@[1] == 'n' && "into_bits_f32"@[2] == 't' && "into_bits_f32"@[3] == 'o' && "into_bits_f32"@[4] == '_' && "into_bits_f32"@[5] == 'b' && "into_bits_f32"@[6] == 'i' && "into_bits_f32"@[7] == 't' && "into_bits_f32"@[8] == 's' && "into_bits_f32"@[9] == '_' && "into_bits_f32"@[10] == 'f' && "into_bits_f32"@[11] == '3' && "into_bits_f32"@[12] == '2');
    assert("into_bits_i64"@.len() == 13 && "into_bits_i64"@[0] == 'i' && "into_bits_i64"@[1] == 'n' && "into_bits_i64"@[2] == 't' && "into_bits_i64"@[3] == 'o' && "into_bits_i64"@[4] == '_' && "into_bits_i64"@[5] == 'b' && "into_bits_i64"@[6] == 'i' && "into_bits_i64"@[7] == 't' && "into_bits_i64"@[8] == 's' && "into_bits_i64"@[9] == '_' && "into_bits_i64"@[10] == 'i' && "into_bits_i64"@[11] == '6' && "into_bits_i64"@[12] == '4');
    assert("is_positive"@.len() == 11 && "is_positive"@[0] == 'i' && "is_positive"@[1] == 's' && "is_positive"@[2] == '_' && "is_positive"@[3] == 'p' && "is_positive"@[4] == 'o' && "is_positive"@[5] == 's' && "is_positive"@[6] == 'i' && "is_positive"@[7] == 't' && "is_positive"@[8] == 'i' && "is_positive"@[9] == 'v' && "is_positive"@[10] == 'e');
    assert("math_abs"@.len() == 8 && "math_abs"@[0] == 'm' && "math_abs"@[1] == 'a' && "math_abs"@[2] == 't' && "math_abs"@[3] == 'h' && "math_abs"@[4] == '_' && "math_abs"@[5] == 'a' && "math_abs"@[6] == 'b' && "math_abs"@[7] == 's');
    assert("math_ceil"@.len() == 9 && "math_ceil"@[0] == 'm' && "math_ceil"@[1] == 'a' && "math_ceil"@[2] == 't' && "math_ceil"@[3] == 'h' && "math_ceil"@[4] == '_' && "math_ceil"@[5] == 'c' && "math_ceil"@[6] == 'e' && "math_ceil"@[7] == 'i' && "math_ceil"@[8] == 'l');
    assert("math_floor"@.len() == 10 && "math_floor"@[0] == 'm' && "math_floor"@[1] == 'a' && "math_floor"@[2] == 't' && "math_floor"@[3] == 'h' && "math_floor"@[4] == '_' && "math_floor"@[5] == 'f' && "math_floor"@[6] == 'l' && "math_floor"@[7] == 'o' && "math_floor"@[8] == 'o' && "math_floor"@[9] == 'r');
    assert("math_fmod"@.len() == 9 && "math_fmod"@[0] == 'm' && "math_fmod"@[1] == 'a' && "math_fmod"@[2] == 't' && "math_fmod"@[3] == 'h' && "math_fmod"@[4] == '_' && "math_fmod"@[5] == 'f' && "math_fmod"@[6] == 'm' && "math_fmod"@[7] == 'o' && "math_fmod"@[8] == 'd');
    assert("math_max"@.len() == 8 && "math_max"@[0] == 'm' && "math_max"@[1] == 'a' && "math_max"@[2] == 't' && "math_max"@[3] == 'h' && "math_max"@[4] == '_' && "math_max"@[5] == 'm' && "math_max"@[6] == 'a' && "math_max"@[7] == 'x');
    assert("math_min"@.len() == 8 && "math_min"@[0] == 'm' && "math_min"@[1] == 'a' && "math_min"@[2] == 't' && "math_min"@[3] == 'h' && "math_min"@[4] == '_' && "math_min"@[5] == 'm' && "math_min"@[6] == 'i' && "math_min"@[7] == 'n');
    assert("math_modf"@.len() == 9 && "math_modf"@[0] == 'm' && "math_modf"@[1] == 'a' && "math_modf"@[2] == 't' && "math_modf"@[3] == 'h' && "math_modf"@[4] == '_' && "math_modf"@[5] == 'm' && "math_modf"@[6] == 'o' && "math_modf"@[7] == 'd' && "math_modf"@[8] == 'f');
    assert("math_sqrt"@.len() == 9 && "math_sqrt"@[0] == 'm' && "math_sqrt"@[1] == 'a' && "math_sqrt"@[2] == 't' && "math_sqrt"@[3] == 'h' && "math_sqrt"@[4] == '_' && "math_sqrt"@[5] == 's' && "math_sqrt"@[6] == 'q' && "math_sqrt"@[7] == 'r' && "math_sqrt"@[8] == 't');
    assert("rt_import"@.len() == 9 && "rt_import"@[0] == 'r' && "rt_import"@[1] == 't' && "rt_import"@[2] == '_' && "rt_import"@[3] == 'i' && "rt_import"@[4] == 'm' && "rt_import"@[5] == 'p' && "rt_import"@[6] == 'o' && "rt_import"@[7] == 'r' && "rt_import"@[8] == 't');
    assert("rt_turing_ask"@.len() == 13 && "rt_turing_ask"@[0] == 'r' && "rt_turing_ask"@[1] == 't' && "rt_turing_ask"@[2] == '_' && "rt_turing_ask"@[3] == 't' && "rt_turing_ask"@[4] == 'u' && "rt_turing_ask"@[5] == 'r' && "rt_turing_ask"@[6] == 'i' && "rt_turing_ask"@[7] == 'n' && "rt_turing_ask"@[8] == 'g' && "rt_turing_ask"@[9] == '_' && "rt_turing_ask"@[10] == 'a' && "rt_turing_ask"@[11] == 's' && "rt_turing_ask"@[12] == 'k');
    assert("vector_create"@.len() == 13 && "vector_create"@[0] == 'v' && "vector_create"@[1] == 'e' && "vector_create"@[2] == 'c' && "vector_create"@[3] == 't' && "vector_create"@[4] == 'o' && "vector_create"@[5] == 'r' && "vector_create"@[6] == '_' && "vector_create"@[7] == 'c' && "vector_create"@[8] == 'r' && "vector_create"@[9] == 'e' && "vector_create"@[10] == 'a' && "vector_create"@[11] == 't' && "vector_create"@[12] == 'e');
    assert("~="@.len() == 2 && "~="@[0] == '~' && "~="@[1] == '=');
}

/// No two operations of the Luau target become the same expression, each
/// Lua operator, library function and runtime function belonging to one
/// operation (`<=` to `LuauLessThanEqual` alone, `<` to `LuauLessThan`);
/// a buffer load calls the function it is given, so it is set apart.
pub proof fn lemma_foreign_values_are_distinct(
    expression: Expression,
    first: LuauForeign,
    first_read: Seq<Expression>,
    second: LuauForeign,
    second_read: Seq<Expression>,
)
    requires
        !(first is BufferLoad),
        !(second is BufferLoad),
        is_foreign_value(expression, first, first_read),
        is_foreign_value(expression, second, second_read),
    ensures
        foreign_index(first) == foreign_index(second),
{
    lemma_expression_index(expression, first, first_read);
    lemma_expression_index(expression, second, second_read);
}

/// A node that computes a value in the Luau back end, with the outputs it
/// reads.
pub enum LuauValue {
    Foreign(LuauForeign),
    Trap,
    Null,
    I32 { value: i32 },
    I64 { value: i64 },
    /// A 32-bit floating-point constant, by its bits.
    F32 { bits: u32 },
    /// A 64-bit floating-point constant, by its bits.
    F64 { bits: u64 },
    RefIsNull { source: Link },
    IntegerUnaryOperation { source: Link, kind: IntegerType, operator: IntegerUnaryOperator },
    IntegerBinaryOperation { lhs: Link, rhs: Link, kind: IntegerType, operator: IntegerBinaryOperator },
    IntegerCompareOperation { lhs: Link, rhs: Link, kind: IntegerType, operator: IntegerCompareOperator },
    IntegerNarrow { source: Link },
    IntegerWiden { source: Link },
    IntegerSignExtend { source: Link, kind: ExtendType },
    IntegerConvertToNumber { source: Link, is_signed: bool, to: NumberType, from: IntegerType },
    IntegerTransmuteToNumber { source: Link, from: IntegerType },
    NumberUnaryOperation { source: Link, kind: NumberType, operator: NumberUnaryOperator },
    NumberBinaryOperation { lhs: Link, rhs: Link, kind: NumberType, operator: NumberBinaryOperator },
    NumberCompareOperation { lhs: Link, rhs: Link, kind: NumberType, operator: NumberCompareOperator },
    NumberNarrow { source: Link },
    NumberWiden { source: Link },
    NumberTruncateToInteger { source: Link, is_signed: bool, is_saturating: bool, to: IntegerType, from: NumberType },
    NumberTransmuteToInteger { source: Link, from: NumberType },
    MutableNew { initializer: Link },
    Aggregate { fields: Vec<Link> },
    Extract { source: Link, index: u32 },
    TableNew { initializer: Vec<(Link, u32)>, minimum: u32, maximum: u32 },
}

/// The outputs a value node reads, in the order they are read.
pub open spec fn value_reads(value: LuauValue) -> Seq<Link> {
    match value {
        LuauValue::Foreign(foreign) => foreign_reads(foreign),
        LuauValue::RefIsNull { source } => seq![source],
        LuauValue::IntegerUnaryOperation { source, .. } => seq![source],
        LuauValue::IntegerBinaryOperation { lhs, rhs, .. } => seq![lhs, rhs],
        LuauValue::IntegerCompareOperation { lhs, rhs, .. } => seq![lhs, rhs],
        LuauValue::IntegerNarrow { source } => seq![source],
        LuauValue::IntegerWiden { source } => seq![source],
        LuauValue::IntegerSignExtend { source, .. } => seq![source],
        LuauValue::IntegerConvertToNumber { source, .. } => seq![source],
        LuauValue::IntegerTransmuteToNumber { source, .. } => seq![source],
        LuauValue::NumberUnaryOperation { source, .. } => seq![source],
        LuauValue::NumberBinaryOperation { lhs, rhs, .. } => seq![lhs, rhs],
        LuauValue::NumberCompareOperation { lhs, rhs, .. } => seq![lhs, rhs],
        LuauValue::NumberNarrow { source } => seq![source],
        LuauValue::NumberWiden { source } => seq![source],
        LuauValue::NumberTruncateToInteger { source, .. } => seq![source],
        LuauValue::NumberTransmuteToInteger { source, .. } => seq![source],
        LuauValue::MutableNew { initializer } => seq![initializer],
        LuauValue::Aggregate { fields } => fields@,
        LuauValue::Extract { source, .. } => seq![source],
        LuauValue::TableNew { initializer, .. } => initializer@.map_values(|pair: (Link, u32)| pair.0),
        _ => Seq::empty(),
    }
}

/// Whether `expression` is what a value node becomes, given the expressions
/// read from its inputs in order.
pub open spec fn is_luau_value(expression: Expression, value: LuauValue, read: Seq<Expression>) -> bool {
    match value {
        LuauValue::Foreign(foreign) => is_foreign_value(expression, foreign, read),
        LuauValue::Trap => expression == Expression::Trap,
        LuauValue::Null => expression == Expression::Null,
        LuauValue::I32 { value } => expression == Expression::I32(value),
        LuauValue::I64 { value } => expression == Expression::I64(value),
        LuauValue::F32 { bits } => expression == (Expression::F32 { bits }),
        LuauValue::F64 { bits } => expression == (Expression::F64 { bits }),
        LuauValue::RefIsNull { source, .. } => expression == (Expression::BooleanToInteger { source: Box::new(Expression::RefIsNull { source: Box::new(read[0]) }) }),
        LuauValue::IntegerUnaryOperation { kind, operator, .. } => is_apply(expression, integer_unary_runtime(kind, operator), read),
        LuauValue::IntegerBinaryOperation { kind, operator, .. } => is_apply(expression, integer_binary_runtime(kind, operator), read),
        LuauValue::IntegerCompareOperation { kind, operator, .. } => is_boolean_apply(expression, integer_compare_runtime(kind, operator), read),
        LuauValue::IntegerNarrow { .. } => is_apply(expression, "rt_narrow_i64"@, read),
        LuauValue::IntegerWiden { .. } => is_apply(expression, "rt_widen_i32"@, read),
        LuauValue::IntegerSignExtend { kind, .. } => is_apply(expression, integer_extend_runtime(kind), read),
        LuauValue::IntegerConvertToNumber { is_signed, to, from, .. } => is_apply(expression, conversion_name("convert"@, signed_text(from, is_signed), number_text(to)), read),
        LuauValue::IntegerTransmuteToNumber { from, .. } => is_apply(expression, conversion_name("transmute"@, integer_text(from), number_text(number_of_width(from))), read),
        LuauValue::NumberUnaryOperation { kind, operator, .. } => is_apply(expression, number_unary_runtime(kind, operator), read),
        LuauValue::NumberBinaryOperation { kind, operator, .. } => is_apply(expression, number_binary_runtime(kind, operator), read),
        LuauValue::NumberCompareOperation { kind, operator, .. } => is_boolean_apply(expression, number_compare_runtime(kind, operator), read),
        LuauValue::NumberNarrow { .. } => is_apply(expression, "rt_narrow_f64"@, read),
        LuauValue::NumberWiden { .. } => is_apply(expression, "rt_widen_f32"@, read),
        LuauValue::NumberTruncateToInteger { is_signed, is_saturating, to, from, .. } => is_apply(expression, conversion_name(if is_saturating { "saturate"@ } else { "truncate"@ }, number_text(from), signed_text(to, is_signed)), read),
        LuauValue::NumberTransmuteToInteger { from, .. } => is_apply(expression, conversion_name("transmute"@, number_text(from), integer_text(integer_of_width(from))), read),
        LuauValue::MutableNew { initializer, .. } => expression == (Expression::GlobalNew { initializer: Box::new(read[0]) }),
        LuauValue::Aggregate { fields, .. } => expression matches Expression::Aggregate { fields } && fields@ == read,
        LuauValue::Extract { source, index, .. } => expression == (Expression::Extract { source: Box::new(read[0]), index }),
        LuauValue::TableNew { initializer, minimum, maximum } => expression matches Expression::TableNew {
            initializer: values,
            minimum: low,
            maximum: high,
        } && low == minimum && high == maximum && values@.len() == initializer@.len() && forall|i: int|
            0 <= i < initializer@.len() ==> #[trigger] values@[i] == (read[i], initializer@[i].1),
    }
}

/// The Luau expression of a constant keeps its value or bits, and that of
/// an extraction its index.
pub proof fn lemma_luau_value_keeps_constants(expression: Expression, value: LuauValue, read: Seq<Expression>)
    requires
        is_luau_value(expression, value, read),
    ensures
        value matches LuauValue::I32 { value: n } ==> (expression matches Expression::I32(v) && v
            == n),
        value matches LuauValue::I64 { value: n } ==> (expression matches Expression::I64(v) && v
            == n),
        value matches LuauValue::F32 { bits } ==> (expression matches Expression::F32 { bits: b }
            && b == bits),
        value matches LuauValue::F64 { bits } ==> (expression matches Expression::F64 { bits: b }
            && b == bits),
        value matches LuauValue::Extract { index, .. } ==> (expression matches Expression::Extract {
            index: i,
            ..
        } && i == index),
{
}

/// A Luau node whose result depends on how it reads an integer calls the
/// runtime function that names that reading: `s` and the width for a
/// signed comparison, division, remainder, right shift, conversion or
/// truncation, `u` and the width for an unsigned one (a signed conversion
/// of a 32-bit integer calls `rt_convert_s32_to_..`).
pub proof fn lemma_runtime_call_reads_signedness(expression: Expression, value: LuauValue, read: Seq<Expression>)
    requires
        is_luau_value(expression, value, read),
    ensures
        value matches LuauValue::IntegerCompareOperation { kind, operator, .. } ==> (
        expression matches Expression::BooleanToInteger { source } && (*source) matches
        Expression::Apply { name, .. } && ends_in_type(
            name@,
            signedness_letter(compare_signedness(operator)),
            kind,
        )),
        value matches LuauValue::IntegerBinaryOperation { kind, operator, .. } ==> (
        expression matches Expression::Apply { name, .. } && ends_in_type(
            name@,
            signedness_letter(binary_signedness(operator)),
            kind,
        )),
        value matches LuauValue::IntegerConvertToNumber { is_signed, from, .. } ==> (
        expression matches Expression::Apply { name, .. } && name@.len() >= 14 && ends_in_type(
            name@.take(14),
            signedness_letter(Some(is_signed)),
            from,
        )),
        value matches LuauValue::NumberTruncateToInteger { is_signed, to, .. } ==> (
        expression matches Expression::Apply { name, .. } && ends_in_type(
            name@,
            signedness_letter(Some(is_signed)),
            to,
        )),
{
    reveal_strlit("rt_");
    reveal_strlit("_");
    reveal_strlit("_to_");
    reveal_strlit("convert");
    reveal_strlit("saturate");
    reveal_strlit("truncate");
    reveal_strlit("32");
    reveal_strlit("64");
    reveal_strlit("s");
    reveal_strlit("u");
    reveal_strlit("f32");
    reveal_strlit("f64");
    match value {
        LuauValue::IntegerCompareOperation { kind, operator, .. } => {
            lemma_compare_name_reads_signedness(kind, operator);
        },
        LuauValue::IntegerBinaryOperation { kind, operator, .. } => {
            lemma_binary_name_reads_signedness(kind, operator);
        },
        LuauValue::IntegerConvertToNumber { is_signed, from, .. } => {
            if let Expression::Apply { name, .. } = expression {
                let start = name@.take(14);
                assert(start.subrange(11, 14) =~= seq![signedness_letter(Some(is_signed))] + match from {
                    IntegerType::I32 => seq!['3', '2'],
                    IntegerType::I64 => seq!['6', '4'],
                });
            }
        },
        LuauValue::NumberTruncateToInteger { is_signed, to, .. } => {
            if let Expression::Apply { name, .. } = expression {
                assert(name@.subrange(name@.len() - 3, name@.len() as int) =~= seq![
                    signedness_letter(Some(is_signed)),
                ] + match to {
                    IntegerType::I32 => seq!['3', '2'],
                    IntegerType::I64 => seq!['6', '4'],
                });
            }
        },
        _ => {},
    }
}

/// The expression value node `value` of region `region` becomes: its inputs
/// are read in order, taking the expressions of deferred ones.
pub fn expression_of(data: &mut DataHandler, region: u32, value: &LuauValue) -> (expression: Expression)
    requires
        all_loadable(old(data).arena(), old(data).stored(), region, value_reads(*value)),
    ensures
        is_luau_value(expression, *value, loaded_all(old(data).arena(), old(data).stored(), region, value_reads(*value))),
        final(data).stored() == after_all(old(data).arena(), old(data).stored(), region, value_reads(*value)),
        final(data).arena() == old(data).arena(),
{
    proof {
        reveal_with_fuel(all_loadable, 3);
        reveal_with_fuel(crate::luau_data::load_all_result, 3);
    }
    match value {
        LuauValue::Foreign(foreign) => value_foreign(data, region, foreign),
        LuauValue::Trap => Expression::Trap,
        LuauValue::Null => Expression::Null,
        LuauValue::I32 { value } => Expression::I32(*value),
        LuauValue::I64 { value } => Expression::I64(*value),
        LuauValue::F32 { bits } => Expression::F32 { bits: *bits },
        LuauValue::F64 { bits } => Expression::F64 { bits: *bits },
        LuauValue::RefIsNull { source } => data.build_ref_is_null(region, *source),
        LuauValue::IntegerUnaryOperation { source, kind, operator } => data.build_integer_unary_operation(region, *source, *kind, *operator),
        LuauValue::IntegerBinaryOperation { lhs, rhs, kind, operator } => data.build_integer_binary_operation(region, *lhs, *rhs, *kind, *operator),
        LuauValue::IntegerCompareOperation { lhs, rhs, kind, operator } => data.build_integer_compare_operation(region, *lhs, *rhs, *kind, *operator),
        LuauValue::IntegerNarrow { source } => data.build_integer_narrow(region, *source),
        LuauValue::IntegerWiden { source } => data.build_integer_widen(region, *source),
        LuauValue::IntegerSignExtend { source, kind } => data.build_integer_sign_extend(region, *source, *kind),
        LuauValue::IntegerConvertToNumber { source, is_signed, to, from } => data.build_integer_convert_to_number(region, *source, *is_signed, *to, *from),
        LuauValue::IntegerTransmuteToNumber { source, from } => data.build_integer_transmute_to_number(region, *source, *from),
        LuauValue::NumberUnaryOperation { source, kind, operator } => data.build_number_unary_operation(region, *source, *kind, *operator),
        LuauValue::NumberBinaryOperation { lhs, rhs, kind, operator } => data.build_number_binary_operation(region, *lhs, *rhs, *kind, *operator),
        LuauValue::NumberCompareOperation { lhs, rhs, kind, operator } => data.build_number_compare_operation(region, *lhs, *rhs, *kind, *operator),
        LuauValue::NumberNarrow { source } => data.build_number_narrow(region, *source),
        LuauValue::NumberWiden { source } => data.build_number_widen(region, *source),
        LuauValue::NumberTruncateToInteger { source, is_signed, is_saturating, to, from } => data.build_number_truncate_to_integer(region, *source, *is_signed, *is_saturating, *to, *from),
        LuauValue::NumberTransmuteToInteger { source, from } => data.build_number_transmute_to_integer(region, *source, *from),
        LuauValue::MutableNew { initializer } => data.build_mutable_new(region, *initializer),
        LuauValue::Aggregate { fields } => data.build_aggregate(region, fields.as_slice()),
        LuauValue::Extract { source, index } => data.build_extract(region, *source, *index),
        LuauValue::TableNew { initializer, minimum, maximum } =>
            data.build_table_new(region, initializer.as_slice(), *minimum, *maximum),
    }
}

/// Hands the expression of node `id` of region `region` on: a deferred
/// node keeps it for its one reader; any other node's value is assigned to
/// the local of its value port, unless it already is that local.
pub fn emit_or_defer(
    data: &mut DataHandler,
    code: &mut CodeHandler,
    region: u32,
    id: u32,
    expression: Expression,
)
    requires
        can_emit(old(data).arena(), region, id),
        old(code)@.len() > 0,
    ensures
        final(data).arena() == old(data).arena(),
        ({
            let register = register_of(old(data).arena(), region, Link { node: id, port: 0 });
            let destination = local_for(register);
            if register == DEFERRED {
                &&& final(data).stored() == old(data).stored().insert((region, id), expression)
                &&& final(code)@ == old(code)@
            } else {
                &&& final(data).stored() == old(data).stored()
                &&& (expression matches Expression::Local(local) && local == destination) ==> final(code)@
                    == old(code)@
                &&& !(expression matches Expression::Local(local) && local == destination) ==> final(code)@
                    == pushed(old(code)@, Statement::Assign { destination, source: expression })
            }
        }),
{
    if data.is_deferred(region, id) {
        data.store(region, id, expression);
    } else {
        let destination = data.local_of(region, Link { node: id, port: 0 });
        code.emit_assign(destination, expression);
    }
}

/// Whether `after` is `before` with the assignment of what `value` becomes
/// to `destination` appended.
pub open spec fn assigned_last(
    after: Seq<Statement>,
    before: Seq<Statement>,
    destination: Local,
    value: LuauValue,
    read: Seq<Expression>,
) -> bool {
    &&& after.len() == before.len() + 1
    &&& after.drop_last() == before
    &&& after.last() matches Statement::Assign { destination: target, source } && target == destination
        && is_luau_value(source, value, read)
}

/// Builds the expression of value node `id` of region `region` and hands
/// it on, as [`emit_or_defer`] does.
pub fn emit_expression(data: &mut DataHandler, code: &mut CodeHandler, region: u32, id: u32, value: &LuauValue)
    requires
        all_loadable(old(data).arena(), old(data).stored(), region, value_reads(*value)),
        can_emit(old(data).arena(), region, id),
        old(code)@.len() > 0,
    ensures
        final(data).arena() == old(data).arena(),
        ({
            let register = register_of(old(data).arena(), region, Link { node: id, port: 0 });
            let read = loaded_all(old(data).arena(), old(data).stored(), region, value_reads(*value));
            let left = after_all(old(data).arena(), old(data).stored(), region, value_reads(*value));
            if register == DEFERRED {
                &&& final(code)@ == old(code)@
                &&& final(data).stored().contains_key((region, id))
                &&& final(data).stored() == left.insert((region, id), final(data).stored()[(region, id)])
                &&& is_luau_value(final(data).stored()[(region, id)], *value, read)
            } else {
                &&& final(data).stored() == left
                &&& final(code)@.len() == old(code)@.len()
                &&& final(code)@.drop_last() == old(code)@.drop_last()
                &&& final(code)@.last() == old(code)@.last() || assigned_last(
                    final(code)@.last(),
                    old(code)@.last(),
                    local_for(register),
                    *value,
                    read,
                )
            }
        }),
{
    let expression = expression_of(data, region, value);
    let ghost before = code@;
    emit_or_defer(data, code, region, id, expression);
    proof {
        assert(code@.drop_last() =~= before.drop_last());
        if code@.last() != before.last() {
            assert(code@.last().drop_last() =~= before.last());
        }
    }
}

} // verus!
