//! The LuaJIT emitter's choices for one node: the expression a value node
//! becomes, and whether that expression waits for its one reader or is
//! assigned to the node's local at once.

use vstd::prelude::*;

use crate::ir::{
    ExtendType, IntegerBinaryOperator, IntegerCompareOperator, IntegerType, IntegerUnaryOperator,
    Link, NumberBinaryOperator, NumberCompareOperator, NumberType, NumberUnaryOperator,
};
use crate::luajit_data::{
    after_all, all_loadable, build_import, has_local, has_port, loaded_all, local_for, register_of,
    DataHandler, Expression, Location, DEFERRED,
};
use crate::luajit_tree::Assign;

verus! {

/// A node that computes a value, with the outputs it reads.
pub enum ValueOperation {
    Import { namespace: String, identifier: String },
    Trap,
    Null,
    I32 { value: i32 },
    I64 { value: i64 },
    /// A 32-bit floating-point constant, by its bits.
    F32 { bits: u32 },
    /// A 64-bit floating-point constant, by its bits.
    F64 { bits: u64 },
    RefIsNull { source: Link },
    IntegerUnaryOperation { source: Link, kind: IntegerType, operator: IntegerUnaryOperator },
    IntegerBinaryOperation { lhs: Link, rhs: Link, kind: IntegerType, operator: IntegerBinaryOperator },
    IntegerCompareOperation {
        lhs: Link,
        rhs: Link,
        kind: IntegerType,
        operator: IntegerCompareOperator,
    },
    IntegerNarrow { source: Link },
    IntegerWiden { source: Link },
    IntegerSignExtend { source: Link, kind: ExtendType },
    IntegerConvertToNumber { source: Link, is_signed: bool, to: NumberType, from: IntegerType },
    IntegerTransmuteToNumber { source: Link, from: IntegerType },
    NumberUnaryOperation { source: Link, kind: NumberType, operator: NumberUnaryOperator },
    NumberBinaryOperation { lhs: Link, rhs: Link, kind: NumberType, operator: NumberBinaryOperator },
    NumberCompareOperation { lhs: Link, rhs: Link, kind: NumberType, operator: NumberCompareOperator },
    NumberNarrow { source: Link },
    NumberWiden { source: Link },
    NumberTruncateToInteger {
        source: Link,
        is_signed: bool,
        is_saturating: bool,
        to: IntegerType,
        from: NumberType,
    },
    NumberTransmuteToInteger { source: Link, from: NumberType },
    MutableNew { initializer: Link },
    Aggregate { fields: Vec<Link> },
    Extract { source: Link, index: u32 },
    TableNew { initializer: Vec<(Link, u32)>, minimum: u32, maximum: u32 },
    TableGet { reference: Link, offset: Link },
    TableSize { source: Link },
    TableGrow { destination: Link, initializer: Link, size: Link },
}

/// The outputs a value node reads, in the order they are read.
pub open spec fn reads_of(operation: ValueOperation) -> Seq<Link> {
    match operation {
        ValueOperation::RefIsNull { source } => seq![source],
        ValueOperation::IntegerUnaryOperation { source, .. } => seq![source],
        ValueOperation::IntegerBinaryOperation { lhs, rhs, .. } => seq![lhs, rhs],
        ValueOperation::IntegerCompareOperation { lhs, rhs, .. } => seq![lhs, rhs],
        ValueOperation::IntegerNarrow { source } => seq![source],
        ValueOperation::IntegerWiden { source } => seq![source],
        ValueOperation::IntegerSignExtend { source, .. } => seq![source],
        ValueOperation::IntegerConvertToNumber { source, .. } => seq![source],
        ValueOperation::IntegerTransmuteToNumber { source, .. } => seq![source],
        ValueOperation::NumberUnaryOperation { source, .. } => seq![source],
        ValueOperation::NumberBinaryOperation { lhs, rhs, .. } => seq![lhs, rhs],
        ValueOperation::NumberCompareOperation { lhs, rhs, .. } => seq![lhs, rhs],
        ValueOperation::NumberNarrow { source } => seq![source],
        ValueOperation::NumberWiden { source } => seq![source],
        ValueOperation::NumberTruncateToInteger { source, .. } => seq![source],
        ValueOperation::NumberTransmuteToInteger { source, .. } => seq![source],
        ValueOperation::MutableNew { initializer } => seq![initializer],
        ValueOperation::Aggregate { fields } => fields@,
        ValueOperation::Extract { source, .. } => seq![source],
        ValueOperation::TableNew { initializer, .. } => initializer@.map_values(
            |pair: (Link, u32)| pair.0,
        ),
        ValueOperation::TableGet { reference, offset } => seq![reference, offset],
        ValueOperation::TableSize { source } => seq![source],
        ValueOperation::TableGrow { destination, initializer, size } => seq![
            destination,
            initializer,
            size,
        ],
        _ => Seq::empty(),
    }
}

/// Whether `expression` is what a value node becomes, given the
/// expressions read from its inputs in order.
pub open spec fn is_value_expression(
    expression: Expression,
    operation: ValueOperation,
    read: Seq<Expression>,
) -> bool {
    match operation {
        ValueOperation::Import { namespace, identifier } => expression matches Expression::RuntimeCall {
            name,
            arguments,
        } && name@ == "import"@ && arguments@ == seq![
            Expression::String(namespace),
            Expression::String(identifier),
        ],
        ValueOperation::Trap => expression == Expression::Trap,
        ValueOperation::Null => expression == Expression::Null,
        ValueOperation::I32 { value } => expression == Expression::I32(value),
        ValueOperation::I64 { value } => expression == Expression::I64(value),
        ValueOperation::F32 { bits } => expression == (Expression::F32 { bits }),
        ValueOperation::F64 { bits } => expression == (Expression::F64 { bits }),
        ValueOperation::RefIsNull { .. } => expression == (Expression::BooleanToInteger {
            source: Box::new(Expression::RefIsNull { source: Box::new(read[0]) }),
        }),
        ValueOperation::IntegerUnaryOperation { kind, operator, .. } => expression == (
        Expression::IntegerUnaryOperation { source: Box::new(read[0]), kind, operator }),
        ValueOperation::IntegerBinaryOperation { kind, operator, .. } => expression == (
        Expression::IntegerBinaryOperation {
            lhs: Box::new(read[0]),
            rhs: Box::new(read[1]),
            kind,
            operator,
        }),
        ValueOperation::IntegerCompareOperation { kind, operator, .. } => expression == (
        Expression::BooleanToInteger {
            source: Box::new(
                Expression::IntegerCompareOperation {
                    lhs: Box::new(read[0]),
                    rhs: Box::new(read[1]),
                    kind,
                    operator,
                },
            ),
        }),
        ValueOperation::IntegerNarrow { .. } => expression == (Expression::IntegerNarrow {
            source: Box::new(read[0]),
        }),
        ValueOperation::IntegerWiden { .. } => expression == (Expression::IntegerWiden {
            source: Box::new(read[0]),
        }),
        ValueOperation::IntegerSignExtend { kind, .. } => expression == (Expression::IntegerExtend {
            source: Box::new(read[0]),
            kind,
        }),
        ValueOperation::IntegerConvertToNumber { is_signed, to, from, .. } => expression == (
        Expression::IntegerConvertToNumber { source: Box::new(read[0]), is_signed, to, from }),
        ValueOperation::IntegerTransmuteToNumber { from, .. } => expression == (
        Expression::IntegerTransmuteToNumber { source: Box::new(read[0]), from }),
        ValueOperation::NumberUnaryOperation { kind, operator, .. } => expression == (
        Expression::NumberUnaryOperation { source: Box::new(read[0]), kind, operator }),
        ValueOperation::NumberBinaryOperation { kind, operator, .. } => expression == (
        Expression::NumberBinaryOperation {
            lhs: Box::new(read[0]),
            rhs: Box::new(read[1]),
            kind,
            operator,
        }),
        ValueOperation::NumberCompareOperation { kind, operator, .. } => expression == (
        Expression::BooleanToInteger {
            source: Box::new(
                Expression::NumberCompareOperation {
                    lhs: Box::new(read[0]),
                    rhs: Box::new(read[1]),
                    kind,
                    operator,
                },
            ),
        }),
        ValueOperation::NumberNarrow { .. } => expression == (Expression::NumberNarrow {
            source: Box::new(read[0]),
        }),
        ValueOperation::NumberWiden { .. } => expression == (Expression::NumberWiden {
            source: Box::new(read[0]),
        }),
        ValueOperation::NumberTruncateToInteger { is_signed, is_saturating, to, from, .. } =>
            expression == (Expression::NumberTruncateToInteger {
            source: Box::new(read[0]),
            is_signed,
            is_saturating,
            to,
            from,
        }),
        ValueOperation::NumberTransmuteToInteger { from, .. } => expression == (
        Expression::NumberTransmuteToInteger { source: Box::new(read[0]), from }),
        ValueOperation::MutableNew { .. } => expression == (Expression::GlobalNew {
            initializer: Box::new(read[0]),
        }),
        ValueOperation::Aggregate { .. } => expression matches Expression::Aggregate { fields }
            && fields@ == read,
        ValueOperation::Extract { index, .. } => expression == (Expression::Extract {
            source: Box::new(read[0]),
            index,
        }),
        ValueOperation::TableNew { initializer, minimum, maximum } => expression matches
        Expression::TableNew { initializer: values, minimum: low, maximum: high } && low == minimum
            && high == maximum && values@.len() == initializer@.len() && forall|i: int|
            0 <= i < initializer@.len() ==> #[trigger] values@[i] == (read[i], initializer@[i].1),
        ValueOperation::TableGet { .. } => expression == (Expression::TableGet {
            source: Box::new(Location { reference: read[0], offset: read[1] }),
        }),
        ValueOperation::TableSize { .. } => expression == (Expression::TableSize {
            source: Box::new(read[0]),
        }),
        ValueOperation::TableGrow { .. } => expression == (Expression::TableGrow {
            destination: Box::new(read[0]),
            initializer: Box::new(read[1]),
            size: Box::new(read[2]),
        }),
    }
}

/// The expression value node `operation` of region `region` becomes: its
/// inputs are read in order, taking the expressions of deferred ones.
pub fn expression_of(data: &mut DataHandler, region: u32, operation: &ValueOperation) -> (expression: Expression)
    requires
        all_loadable(old(data).arena(), old(data).stored(), region, reads_of(*operation)),
    ensures
        is_value_expression(
            expression,
            *operation,
            loaded_all(old(data).arena(), old(data).stored(), region, reads_of(*operation)),
        ),
        final(data).stored() == after_all(
            old(data).arena(),
            old(data).stored(),
            region,
            reads_of(*operation),
        ),
        final(data).arena() == old(data).arena(),
{
    let ghost arena = data.arena();
    let ghost stored = data.stored();
    proof {
        reveal_with_fuel(all_loadable, 4);
        reveal_with_fuel(crate::luajit_data::load_all_result, 4);
    }
    match operation {
        ValueOperation::Import { namespace, identifier } => build_import(namespace.clone(), identifier.clone()),
        ValueOperation::Trap => Expression::Trap,
        ValueOperation::Null => Expression::Null,
        ValueOperation::I32 { value } => Expression::I32(*value),
        ValueOperation::I64 { value } => Expression::I64(*value),
        ValueOperation::F32 { bits } => Expression::F32 { bits: *bits },
        ValueOperation::F64 { bits } => Expression::F64 { bits: *bits },
        ValueOperation::RefIsNull { source } => data.build_ref_is_null(region, *source),
        ValueOperation::IntegerUnaryOperation { source, kind, operator } =>
            data.build_integer_unary_operation(region, *source, *kind, *operator),
        ValueOperation::IntegerBinaryOperation { lhs, rhs, kind, operator } =>
            data.build_integer_binary_operation(region, *lhs, *rhs, *kind, *operator),
        ValueOperation::IntegerCompareOperation { lhs, rhs, kind, operator } =>
            data.build_integer_compare_operation(region, *lhs, *rhs, *kind, *operator),
        ValueOperation::IntegerNarrow { source } => data.build_integer_narrow(region, *source),
        ValueOperation::IntegerWiden { source } => data.build_integer_widen(region, *source),
        ValueOperation::IntegerSignExtend { source, kind } =>
            data.build_integer_sign_extend(region, *source, *kind),
        ValueOperation::IntegerConvertToNumber { source, is_signed, to, from } =>
            data.build_integer_convert_to_number(region, *source, *is_signed, *to, *from),
        ValueOperation::IntegerTransmuteToNumber { source, from } =>
            data.build_integer_transmute_to_number(region, *source, *from),
        ValueOperation::NumberUnaryOperation { source, kind, operator } =>
            data.build_number_unary_operation(region, *source, *kind, *operator),
        ValueOperation::NumberBinaryOperation { lhs, rhs, kind, operator } =>
            data.build_number_binary_operation(region, *lhs, *rhs, *kind, *operator),
        ValueOperation::NumberCompareOperation { lhs, rhs, kind, operator } =>
            data.build_number_compare_operation(region, *lhs, *rhs, *kind, *operator),
        ValueOperation::NumberNarrow { source } => data.build_number_narrow(region, *source),
        ValueOperation::NumberWiden { source } => data.build_number_widen(region, *source),
        ValueOperation::NumberTruncateToInteger { source, is_signed, is_saturating, to, from } =>
            data.build_number_truncate_to_integer(region, *source, *is_signed, *is_saturating, *to, *from),
        ValueOperation::NumberTransmuteToInteger { source, from } =>
            data.build_number_transmute_to_integer(region, *source, *from),
        ValueOperation::MutableNew { initializer } => data.build_mutable_new(region, *initializer),
        ValueOperation::Aggregate { fields } => data.build_aggregate(region, fields.as_slice()),
        ValueOperation::Extract { source, index } => data.build_extract(region, *source, *index),
        ValueOperation::TableNew { initializer, minimum, maximum } =>
            data.build_table_new(region, initializer.as_slice(), *minimum, *maximum),
        ValueOperation::TableGet { reference, offset } => data.build_table_get(region, *reference, *offset),
        ValueOperation::TableSize { source } => data.build_table_size(region, *source),
        ValueOperation::TableGrow { destination, initializer, size } =>
            data.build_table_grow(region, *destination, *initializer, *size),
    }
}

/// The LuaJIT expression of a node keeps what the node says of its
/// operation: a constant keeps its value or bits, an extraction its index,
/// the width, operator, signedness and saturation of an operation or a
/// conversion are those of the node, and a two-operand operation reads its
/// left input on the left.
pub proof fn lemma_expression_keeps_operation(
    expression: Expression,
    operation: ValueOperation,
    read: Seq<Expression>,
)
    requires
        is_value_expression(expression, operation, read),
    ensures
        operation matches ValueOperation::I32 { value } ==> (expression matches Expression::I32(v)
            && v == value),
        operation matches ValueOperation::I64 { value } ==> (expression matches Expression::I64(v)
            && v == value),
        operation matches ValueOperation::F32 { bits } ==> (expression matches Expression::F32 {
            bits: b,
        } && b == bits),
        operation matches ValueOperation::F64 { bits } ==> (expression matches Expression::F64 {
            bits: b,
        } && b == bits),
        operation matches ValueOperation::Extract { index, .. } ==> (
        expression matches Expression::Extract { index: i, .. } && i == index),
        operation matches ValueOperation::IntegerUnaryOperation { kind, operator, .. } ==> (
        expression matches Expression::IntegerUnaryOperation { kind: k, operator: o, .. } && k == kind
            && o == operator),
        operation matches ValueOperation::IntegerBinaryOperation { kind, operator, .. } ==> (
        expression matches Expression::IntegerBinaryOperation { lhs, rhs, kind: k, operator: o }
            && k == kind && o == operator && *lhs == read[0] && *rhs == read[1]),
        operation matches ValueOperation::IntegerCompareOperation { kind, operator, .. } ==> (
        expression matches Expression::BooleanToInteger { source } && (*source) matches
        Expression::IntegerCompareOperation { lhs, rhs, kind: k, operator: o } && k == kind && o
            == operator && *lhs == read[0] && *rhs == read[1]),
        operation matches ValueOperation::IntegerSignExtend { kind, .. } ==> (
        expression matches Expression::IntegerExtend { kind: k, .. } && k == kind),
        operation matches ValueOperation::IntegerConvertToNumber { is_signed, to, from, .. } ==> (
        expression matches Expression::IntegerConvertToNumber { is_signed: s, to: t, from: f, .. }
            && s == is_signed && t == to && f == from),
        operation matches ValueOperation::IntegerTransmuteToNumber { from, .. } ==> (
        expression matches Expression::IntegerTransmuteToNumber { from: f, .. } && f == from),
        operation matches ValueOperation::NumberUnaryOperation { kind, operator, .. } ==> (
        expression matches Expression::NumberUnaryOperation { kind: k, operator: o, .. } && k == kind
            && o == operator),
        operation matches ValueOperation::NumberBinaryOperation { kind, operator, .. } ==> (
        expression matches Expression::NumberBinaryOperation { lhs, rhs, kind: k, operator: o }
            && k == kind && o == operator && *lhs == read[0] && *rhs == read[1]),
        operation matches ValueOperation::NumberCompareOperation { kind, operator, .. } ==> (
        expression matches Expression::BooleanToInteger { source } && (*source) matches
        Expression::NumberCompareOperation { lhs, rhs, kind: k, operator: o } && k == kind && o
            == operator && *lhs == read[0] && *rhs == read[1]),
        operation matches ValueOperation::NumberTruncateToInteger {
            is_signed,
            is_saturating,
            to,
            from,
            ..
        } ==> (expression matches Expression::NumberTruncateToInteger {
            is_signed: s,
            is_saturating: saturating,
            to: t,
            from: f,
            ..
        } && s == is_signed && saturating == is_saturating && t == to && f == from),
        operation matches ValueOperation::NumberTransmuteToInteger { from, .. } ==> (
        expression matches Expression::NumberTransmuteToInteger { from: f, .. } && f == from),
{
}

/// Whether node `id` of region `region` can take its expression: its value
/// port has a register, and a register that is not deferred has a local.
pub open spec fn can_emit(arena: Seq<Seq<Seq<u32>>>, region: u32, id: u32) -> bool {
    let port = Link { node: id, port: 0 };
    &&& has_port(arena, region, port)
    &&& register_of(arena, region, port) != DEFERRED ==> has_local(register_of(arena, region, port))
}

/// Hands the expression of node `id` of region `region` on: a deferred
/// node keeps it for its one reader and asks for no statement; any other
/// node asks for its assignment to the local of its value port.
pub fn emit_or_defer(data: &mut DataHandler, region: u32, id: u32, expression: Expression) -> (assignment: Option<Assign>)
    requires
        can_emit(old(data).arena(), region, id),
    ensures
        final(data).arena() == old(data).arena(),
        ({
            let register = register_of(old(data).arena(), region, Link { node: id, port: 0 });
            if register == DEFERRED {
                &&& assignment is None
                &&& final(data).stored() == old(data).stored().insert((region, id), expression)
            } else {
                &&& assignment == Some(Assign { destination: local_for(register), source: expression })
                &&& final(data).stored() == old(data).stored()
            }
        }),
{
    if data.is_deferred(region, id) {
        data.store(region, id, expression);
        None
    } else {
        let destination = data.local_of(region, Link { node: id, port: 0 });
        Some(Assign { destination, source: expression })
    }
}

/// Builds the expression of value node `id` of region `region` and hands
/// it on, as [`emit_or_defer`] does.
pub fn emit_expression(data: &mut DataHandler, region: u32, id: u32, operation: &ValueOperation) -> (assignment: Option<Assign>)
    requires
        all_loadable(old(data).arena(), old(data).stored(), region, reads_of(*operation)),
        can_emit(old(data).arena(), region, id),
    ensures
        final(data).arena() == old(data).arena(),
        ({
            let register = register_of(old(data).arena(), region, Link { node: id, port: 0 });
            let read = loaded_all(old(data).arena(), old(data).stored(), region, reads_of(*operation));
            let left = after_all(old(data).arena(), old(data).stored(), region, reads_of(*operation));
            if register == DEFERRED {
                &&& assignment is None
                &&& left.insert((region, id), final(data).stored()[(region, id)]) == final(data).stored()
                &&& final(data).stored().contains_key((region, id))
                &&& is_value_expression(final(data).stored()[(region, id)], *operation, read)
            } else {
                &&& assignment matches Some(assign) && assign.destination == local_for(register)
                    && is_value_expression(assign.source, *operation, read)
                &&& final(data).stored() == left
            }
        }),
{
    let expression = expression_of(data, region, operation);
    emit_or_defer(data, region, id, expression)
}

} // verus!
