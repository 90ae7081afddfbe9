use spider::ir::{
    ExtendType, IntegerBinaryOperator, IntegerCompareOperator, IntegerType, IntegerUnaryOperator,
    LoadType, NumberBinaryOperator, NumberCompareOperator, NumberType, NumberUnaryOperator,
    StoreType,
};
use spider::ir::Link;
use spider::lowering::{transmute_to_integer, transmute_to_number};
use spider::memory_access::Access;
use spider::runtime_names::{
    integer_binary_name, integer_compare_name, integer_convert_name, integer_extend_name,
    integer_transmute_name, integer_unary_name, memory_load_name, memory_store_name,
    number_binary_name, number_compare_name, number_transmute_name, number_truncate_name,
    number_unary_name,
};

#[test]
fn integer_operations_name_their_width_and_sign() {
    assert_eq!(
        integer_unary_name(IntegerType::I64, IntegerUnaryOperator::LeadingZeroes),
        "rt_leading_zeros_i64"
    );
    assert_eq!(integer_binary_name(IntegerType::I32, IntegerBinaryOperator::Add), "rt_add_i32");
    assert_eq!(
        integer_binary_name(IntegerType::I64, IntegerBinaryOperator::Divide { signed: false }),
        "rt_divide_u64"
    );
    assert_eq!(
        integer_binary_name(IntegerType::I32, IntegerBinaryOperator::ShiftRight { signed: true }),
        "rt_shift_right_s32"
    );
    assert_eq!(
        integer_binary_name(IntegerType::I64, IntegerBinaryOperator::ExclusiveOr),
        "rt_exclusive_or_i64"
    );
    assert_eq!(
        integer_compare_name(IntegerType::I32, IntegerCompareOperator::NotEqual),
        "rt_not_equal_i32"
    );
    assert_eq!(
        integer_compare_name(
            IntegerType::I64,
            IntegerCompareOperator::GreaterThanEqual { signed: false }
        ),
        "rt_greater_than_equal_u64"
    );
}

#[test]
fn conversions_name_both_types() {
    assert_eq!(integer_extend_name(ExtendType::I64S16), "rt_extend_s16_to_i64");
    assert_eq!(
        integer_convert_name(IntegerType::I32, NumberType::F64, false),
        "rt_convert_u32_to_f64"
    );
    assert_eq!(integer_transmute_name(IntegerType::I64), "rt_transmute_i64_to_f64");
    assert_eq!(
        number_truncate_name(NumberType::F32, IntegerType::I64, true, true),
        "rt_saturate_f32_to_s64"
    );
    assert_eq!(
        number_truncate_name(NumberType::F64, IntegerType::I32, false, false),
        "rt_truncate_f64_to_u32"
    );
    assert_eq!(number_transmute_name(NumberType::F32), "rt_transmute_f32_to_i32");
}

#[test]
fn floating_point_operations_name_their_width() {
    assert_eq!(
        number_unary_name(NumberType::F32, NumberUnaryOperator::SquareRoot),
        "rt_square_root_f32"
    );
    assert_eq!(
        number_binary_name(NumberType::F64, NumberBinaryOperator::CopySign),
        "rt_copy_sign_f64"
    );
    assert_eq!(
        number_compare_name(NumberType::F64, NumberCompareOperator::LessThanEqual),
        "rt_less_than_equal_f64"
    );
}

#[test]
fn memory_accesses_name_the_narrow_type() {
    assert_eq!(memory_load_name(LoadType::I32U16), "rt_load_i32_from_u16");
    assert_eq!(memory_load_name(LoadType::I64S32), "rt_load_i64_from_s32");
    assert_eq!(memory_load_name(LoadType::F64), "rt_load_f64");
    assert_eq!(memory_store_name(StoreType::I64I32), "rt_store_i64_into_i32");
    assert_eq!(memory_store_name(StoreType::I32), "rt_store_i32");
}

#[test]
fn memory_accesses_go_through_the_field_of_their_width() {
    let byte = Access::for_load(LoadType::I64U8);
    assert_eq!((byte.field, byte.width), ("u8", 1));
    let half = Access::for_load(LoadType::I32S16);
    assert_eq!((half.field, half.width), ("i16", 2));
    let float = Access::for_load(LoadType::F32);
    assert_eq!((float.field, float.width), ("i32", 4));
    let word = Access::for_load(LoadType::I64U32);
    assert_eq!((word.field, word.width), ("u32", 4));
    let long = Access::for_store(StoreType::F64);
    assert_eq!((long.field, long.width), ("i64", 8));
    let narrow = Access::for_store(StoreType::I64I16);
    assert_eq!((narrow.field, narrow.width), ("i16", 2));
}

#[test]
fn reinterpretations_read_their_source() {
    let source = Link { node: 4, port: 1 };
    assert_eq!(transmute_to_number(source, IntegerType::I64), source);
    assert_eq!(transmute_to_integer(source, NumberType::F32), source);
}
