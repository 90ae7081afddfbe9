//! Labels of the nodes in the JSON rendering of a graph.
//!
//! Most nodes have a fixed label; constants and arithmetic operations spell
//! out their value or operator.

use vstd::prelude::*;

use crate::ir::{
    ExtendType, IntegerBinaryOperator, IntegerCompareOperator, IntegerType, IntegerUnaryOperator,
    Node, NumberBinaryOperator, NumberCompareOperator, NumberType, NumberUnaryOperator, Operation,
};
use crate::runtime_names::{binary_signedness, compare_signedness};
use crate::text::{push_signed_decimal, push_str, signed_decimal};

verus! {

/// The fixed label of a node, or `None` for the nodes whose label depends on
/// their value or operator.
pub open spec fn static_label(operation: Operation) -> Option<Seq<char>> {
    match operation {
        Operation::Function { .. } => Some("Function"@),
        Operation::Match { .. } => Some("Match"@),
        Operation::Repeat { .. } => Some("Repeat"@),
        Operation::ModuleArguments => Some("Module Arguments"@),
        Operation::ModuleResults => Some("Module Results"@),
        Operation::FunctionCaptures => Some("Function Captures"@),
        Operation::FunctionArguments => Some("Function Arguments"@),
        Operation::FunctionResults => Some("Function Results"@),
        Operation::BranchArguments => Some("Branch Arguments"@),
        Operation::BranchResults => Some("Branch Results"@),
        Operation::RepeatArguments => Some("Repeat Arguments"@),
        Operation::RepeatResults => Some("Repeat Results"@),
        Operation::I32 { .. } => None,
        Operation::I64 { .. } => None,
        Operation::F32 { .. } => None,
        Operation::F64 { .. } => None,
        Operation::IntegerUnaryOperation { .. } => None,
        Operation::IntegerBinaryOperation { .. } => None,
        Operation::IntegerCompareOperation { .. } => None,
        Operation::IntegerSignExtend { .. } => None,
        Operation::NumberUnaryOperation { .. } => None,
        Operation::NumberBinaryOperation { .. } => None,
        Operation::NumberCompareOperation { .. } => None,
        Operation::Foreign { identifier, .. } => Some(identifier@),
        Operation::Trap => Some("Trap"@),
        Operation::Null => Some("Null"@),
        Operation::Identity => Some("Identity"@),
        Operation::Fence => Some("Fence"@),
        Operation::Apply => Some("Apply"@),
        Operation::RefIsNull => Some("Ref Is Null"@),
        Operation::IntegerNarrow => Some("Integer Narrow"@),
        Operation::IntegerWiden => Some("Integer Widen"@),
        Operation::IntegerConvertToNumber => Some("Convert To Number"@),
        Operation::IntegerTransmuteToNumber => Some("Transmute To Number"@),
        Operation::NumberNarrow => Some("Number Narrow"@),
        Operation::NumberWiden => Some("Number Widen"@),
        Operation::NumberTruncateToInteger => Some("Truncate To Integer"@),
        Operation::NumberTransmuteToInteger => Some("Transmute To Integer"@),
        Operation::MutableNew => Some("Mutable New"@),
        Operation::MutableGet => Some("Mutable Get"@),
        Operation::MutableSet => Some("Mutable Set"@),
        Operation::TableNew => Some("Table New"@),
        Operation::TableGet => Some("Table Get"@),
        Operation::TableSet => Some("Table Set"@),
        Operation::TableSize => Some("Table Size"@),
        Operation::TableGrow => Some("Table Grow"@),
        Operation::TableFill => Some("Table Fill"@),
        Operation::TableCopy => Some("Table Copy"@),
        Operation::TableDrop => Some("Table Drop"@),
        Operation::MemoryNew => Some("Memory New"@),
        Operation::MemoryLoad => Some("Memory Load"@),
        Operation::MemoryStore => Some("Memory Store"@),
        Operation::MemorySize => Some("Memory Size"@),
        Operation::MemoryGrow => Some("Memory Grow"@),
        Operation::MemoryFill => Some("Memory Fill"@),
        Operation::MemoryCopy => Some("Memory Copy"@),
        Operation::MemoryDrop => Some("Memory Drop"@),
    }
}

/// The fixed label of a node, if it has one.
pub fn get_static(node: &Node) -> (label: Option<&'static str>)
    ensures
        label.is_some() == static_label(node.operation).is_some(),
        label.is_some() ==> label.unwrap()@ == static_label(node.operation).unwrap(),
{
    match &node.operation {
        Operation::Function { .. } => Some("Function"),
        Operation::Match { .. } => Some("Match"),
        Operation::Repeat { .. } => Some("Repeat"),
        Operation::ModuleArguments => Some("Module Arguments"),
        Operation::ModuleResults => Some("Module Results"),
        Operation::FunctionCaptures => Some("Function Captures"),
        Operation::FunctionArguments => Some("Function Arguments"),
        Operation::FunctionResults => Some("Function Results"),
        Operation::BranchArguments => Some("Branch Arguments"),
        Operation::BranchResults => Some("Branch Results"),
        Operation::RepeatArguments => Some("Repeat Arguments"),
        Operation::RepeatResults => Some("Repeat Results"),
        Operation::I32 { .. }
        | Operation::I64 { .. }
        | Operation::F32 { .. }
        | Operation::F64 { .. }
        | Operation::IntegerUnaryOperation { .. }
        | Operation::IntegerBinaryOperation { .. }
        | Operation::IntegerCompareOperation { .. }
        | Operation::IntegerSignExtend { .. }
        | Operation::NumberUnaryOperation { .. }
        | Operation::NumberBinaryOperation { .. }
        | Operation::NumberCompareOperation { .. } => None,
        Operation::Foreign { identifier, .. } => Some(*identifier),
        Operation::Trap => Some("Trap"),
        Operation::Null => Some("Null"),
        Operation::Identity => Some("Identity"),
        Operation::Fence => Some("Fence"),
        Operation::Apply => Some("Apply"),
        Operation::RefIsNull => Some("Ref Is Null"),
        Operation::IntegerNarrow => Some("Integer Narrow"),
        Operation::IntegerWiden => Some("Integer Widen"),
        Operation::IntegerConvertToNumber => Some("Convert To Number"),
        Operation::IntegerTransmuteToNumber => Some("Transmute To Number"),
        Operation::NumberNarrow => Some("Number Narrow"),
        Operation::NumberWiden => Some("Number Widen"),
        Operation::NumberTruncateToInteger => Some("Truncate To Integer"),
        Operation::NumberTransmuteToInteger => Some("Transmute To Integer"),
        Operation::MutableNew => Some("Mutable New"),
        Operation::MutableGet => Some("Mutable Get"),
        Operation::MutableSet => Some("Mutable Set"),
        Operation::TableNew => Some("Table New"),
        Operation::TableGet => Some("Table Get"),
        Operation::TableSet => Some("Table Set"),
        Operation::TableSize => Some("Table Size"),
        Operation::TableGrow => Some("Table Grow"),
        Operation::TableFill => Some("Table Fill"),
        Operation::TableCopy => Some("Table Copy"),
        Operation::TableDrop => Some("Table Drop"),
        Operation::MemoryNew => Some("Memory New"),
        Operation::MemoryLoad => Some("Memory Load"),
        Operation::MemoryStore => Some("Memory Store"),
        Operation::MemorySize => Some("Memory Size"),
        Operation::MemoryGrow => Some("Memory Grow"),
        Operation::MemoryFill => Some("Memory Fill"),
        Operation::MemoryCopy => Some("Memory Copy"),
        Operation::MemoryDrop => Some("Memory Drop"),
    }
}

/// The name of a sign extension, such as `S8 to I32`.
pub open spec fn extend_type_text(kind: ExtendType) -> Seq<char> {
    match kind {
        ExtendType::I32S8 => "S8 to I32"@,
        ExtendType::I32S16 => "S16 to I32"@,
        ExtendType::I64S8 => "S8 to I64"@,
        ExtendType::I64S16 => "S16 to I64"@,
        ExtendType::I64S32 => "S32 to I64"@,
    }
}

/// The name of a sign extension.
pub fn extend_type_name(kind: ExtendType) -> (name: &'static str)
    ensures
        name@ == extend_type_text(kind),
{
    match kind {
        ExtendType::I32S8 => "S8 to I32",
        ExtendType::I32S16 => "S16 to I32",
        ExtendType::I64S8 => "S8 to I64",
        ExtendType::I64S16 => "S16 to I64",
        ExtendType::I64S32 => "S32 to I64",
    }
}

/// The name of an integer width.
pub open spec fn integer_type_text(kind: IntegerType) -> Seq<char> {
    match kind {
        IntegerType::I32 => "I32"@,
        IntegerType::I64 => "I64"@,
    }
}

/// The name of an integer width.
pub fn integer_type_name(kind: IntegerType) -> (name: &'static str)
    ensures
        name@ == integer_type_text(kind),
{
    match kind {
        IntegerType::I32 => "I32",
        IntegerType::I64 => "I64",
    }
}

/// The name of a one-operand integer operation.
pub open spec fn integer_unary_text(operator: IntegerUnaryOperator) -> Seq<char> {
    match operator {
        IntegerUnaryOperator::CountOnes => "Count Ones"@,
        IntegerUnaryOperator::LeadingZeroes => "Leading Zeroes"@,
        IntegerUnaryOperator::TrailingZeroes => "Trailing Zeroes"@,
    }
}

/// The name of a one-operand integer operation.
pub fn integer_unary_operator_name(operator: IntegerUnaryOperator) -> (name: &'static str)
    ensures
        name@ == integer_unary_text(operator),
{
    match operator {
        IntegerUnaryOperator::CountOnes => "Count Ones",
        IntegerUnaryOperator::LeadingZeroes => "Leading Zeroes",
        IntegerUnaryOperator::TrailingZeroes => "Trailing Zeroes",
    }
}

/// The symbol of a two-operand integer operation; `u` and `s` mark the
/// unsigned and signed forms.
pub open spec fn integer_binary_text(operator: IntegerBinaryOperator) -> Seq<char> {
    match operator {
        IntegerBinaryOperator::Add => "+"@,
        IntegerBinaryOperator::Subtract => "-"@,
        IntegerBinaryOperator::Multiply => "*"@,
        IntegerBinaryOperator::Divide { signed } => if signed { "s/"@ } else { "u/"@ },
        IntegerBinaryOperator::Remainder { signed } => if signed { "s%"@ } else { "u%"@ },
        IntegerBinaryOperator::And => "&"@,
        IntegerBinaryOperator::Or => "|"@,
        IntegerBinaryOperator::ExclusiveOr => "^"@,
        IntegerBinaryOperator::ShiftLeft => "<<"@,
        IntegerBinaryOperator::ShiftRight { signed } => if signed { "s>>"@ } else { "u>>"@ },
        IntegerBinaryOperator::RotateLeft => "^<<"@,
        IntegerBinaryOperator::RotateRight => ">>^"@,
    }
}

/// The symbol of a two-operand integer operation.
pub fn integer_binary_operator_name(operator: IntegerBinaryOperator) -> (name: &'static str)
    ensures
        name@ == integer_binary_text(operator),
{
    match operator {
        IntegerBinaryOperator::Add => "+",
        IntegerBinaryOperator::Subtract => "-",
        IntegerBinaryOperator::Multiply => "*",
        IntegerBinaryOperator::Divide { signed: false } => "u/",
        IntegerBinaryOperator::Divide { signed: true } => "s/",
        IntegerBinaryOperator::Remainder { signed: false } => "u%",
        IntegerBinaryOperator::Remainder { signed: true } => "s%",
        IntegerBinaryOperator::And => "&",
        IntegerBinaryOperator::Or => "|",
        IntegerBinaryOperator::ExclusiveOr => "^",
        IntegerBinaryOperator::ShiftLeft => "<<",
        IntegerBinaryOperator::ShiftRight { signed: false } => "u>>",
        IntegerBinaryOperator::ShiftRight { signed: true } => "s>>",
        IntegerBinaryOperator::RotateLeft => "^<<",
        IntegerBinaryOperator::RotateRight => ">>^",
    }
}

/// The symbol of an integer comparison.
pub open spec fn integer_compare_text(operator: IntegerCompareOperator) -> Seq<char> {
    match operator {
        IntegerCompareOperator::Equal => "=="@,
        IntegerCompareOperator::NotEqual => "!="@,
        IntegerCompareOperator::LessThan { signed } => if signed { "s<"@ } else { "u<"@ },
        IntegerCompareOperator::GreaterThan { signed } => if signed { "s>"@ } else { "u>"@ },
        IntegerCompareOperator::LessThanEqual { signed } => if signed { "s<="@ } else { "u<="@ },
        IntegerCompareOperator::GreaterThanEqual { signed } => if signed {
            "s>="@
        } else {
            "u>="@
        },
    }
}

/// The symbol of an integer comparison.
pub fn integer_compare_operator_name(operator: IntegerCompareOperator) -> (name: &'static str)
    ensures
        name@ == integer_compare_text(operator),
{
    match operator {
        IntegerCompareOperator::Equal => "==",
        IntegerCompareOperator::NotEqual => "!=",
        IntegerCompareOperator::LessThan { signed: false } => "u<",
        IntegerCompareOperator::LessThan { signed: true } => "s<",
        IntegerCompareOperator::GreaterThan { signed: false } => "u>",
        IntegerCompareOperator::GreaterThan { signed: true } => "s>",
        IntegerCompareOperator::LessThanEqual { signed: false } => "u<=",
        IntegerCompareOperator::LessThanEqual { signed: true } => "s<=",
        IntegerCompareOperator::GreaterThanEqual { signed: false } => "u>=",
        IntegerCompareOperator::GreaterThanEqual { signed: true } => "s>=",
    }
}

/// The name of a floating-point width.
pub open spec fn number_type_text(kind: NumberType) -> Seq<char> {
    match kind {
        NumberType::F32 => "F32"@,
        NumberType::F64 => "F64"@,
    }
}

/// The name of a floating-point width.
pub fn number_type_name(kind: NumberType) -> (name: &'static str)
    ensures
        name@ == number_type_text(kind),
{
    match kind {
        NumberType::F32 => "F32",
        NumberType::F64 => "F64",
    }
}

/// The name of a one-operand floating-point operation.
pub open spec fn number_unary_text(operator: NumberUnaryOperator) -> Seq<char> {
    match operator {
        NumberUnaryOperator::Absolute => "Absolute"@,
        NumberUnaryOperator::Negate => "-"@,
        NumberUnaryOperator::SquareRoot => "Square Root"@,
        NumberUnaryOperator::RoundUp => "Round Up"@,
        NumberUnaryOperator::RoundDown => "Round Down"@,
        NumberUnaryOperator::Truncate => "Truncate"@,
        NumberUnaryOperator::Nearest => "Nearest"@,
    }
}

/// The name of a one-operand floating-point operation.
pub fn number_unary_operator_name(operator: NumberUnaryOperator) -> (name: &'static str)
    ensures
        name@ == number_unary_text(operator),
{
    match operator {
        NumberUnaryOperator::Absolute => "Absolute",
        NumberUnaryOperator::Negate => "-",
        NumberUnaryOperator::SquareRoot => "Square Root",
        NumberUnaryOperator::RoundUp => "Round Up",
        NumberUnaryOperator::RoundDown => "Round Down",
        NumberUnaryOperator::Truncate => "Truncate",
        NumberUnaryOperator::Nearest => "Nearest",
    }
}

/// The name of a two-operand floating-point operation.
pub open spec fn number_binary_text(operator: NumberBinaryOperator) -> Seq<char> {
    match operator {
        NumberBinaryOperator::Add => "+"@,
        NumberBinaryOperator::Subtract => "-"@,
        NumberBinaryOperator::Multiply => "*"@,
        NumberBinaryOperator::Divide => "/"@,
        NumberBinaryOperator::Minimum => "Minimum"@,
        NumberBinaryOperator::Maximum => "Maximum"@,
        NumberBinaryOperator::CopySign => "Copy Sign"@,
    }
}

/// The name of a two-operand floating-point operation.
pub fn number_binary_operator_name(operator: NumberBinaryOperator) -> (name: &'static str)
    ensures
        name@ == number_binary_text(operator),
{
    match operator {
        NumberBinaryOperator::Add => "+",
        NumberBinaryOperator::Subtract => "-",
        NumberBinaryOperator::Multiply => "*",
        NumberBinaryOperator::Divide => "/",
        NumberBinaryOperator::Minimum => "Minimum",
        NumberBinaryOperator::Maximum => "Maximum",
        NumberBinaryOperator::CopySign => "Copy Sign",
    }
}

/// The symbol of a floating-point comparison.
pub open spec fn number_compare_text(operator: NumberCompareOperator) -> Seq<char> {
    match operator {
        NumberCompareOperator::Equal => "=="@,
        NumberCompareOperator::NotEqual => "!="@,
        NumberCompareOperator::LessThan => "<"@,
        NumberCompareOperator::GreaterThan => ">"@,
        NumberCompareOperator::LessThanEqual => "<="@,
        NumberCompareOperator::GreaterThanEqual => ">="@,
    }
}

/// The symbol of a floating-point comparison.
pub fn number_compare_operator_name(operator: NumberCompareOperator) -> (name: &'static str)
    ensures
        name@ == number_compare_text(operator),
{
    match operator {
        NumberCompareOperator::Equal => "==",
        NumberCompareOperator::NotEqual => "!=",
        NumberCompareOperator::LessThan => "<",
        NumberCompareOperator::GreaterThan => ">",
        NumberCompareOperator::LessThanEqual => "<=",
        NumberCompareOperator::GreaterThanEqual => ">=",
    }
}

/// Appends `first`, a space, and `second` to `text`.
fn write_pair(text: &mut String, first: &str, second: &str)
    ensures
        final(text)@ == old(text)@ + first@ + " "@ + second@,
{
    push_str(text, first);
    push_str(text, " ");
    push_str(text, second);
}

/// Appends the label of a sign extension, such as `Sign Extend S8 to I32`.
pub fn write_integer_sign_extend(kind: ExtendType, text: &mut String)
    ensures
        final(text)@ == old(text)@ + "Sign Extend "@ + extend_type_text(kind),
{
    push_str(text, "Sign Extend ");
    push_str(text, extend_type_name(kind));
}

/// Appends the label of a one-operand integer operation, such as `I32 Count Ones`.
pub fn write_integer_unary_operation(
    kind: IntegerType,
    operator: IntegerUnaryOperator,
    text: &mut String,
)
    ensures
        final(text)@ == old(text)@ + integer_type_text(kind) + " "@ + integer_unary_text(operator),
{
    write_pair(text, integer_type_name(kind), integer_unary_operator_name(operator));
}

/// Appends the label of a two-operand integer operation, such as `I64 s/`.
pub fn write_integer_binary_operation(
    kind: IntegerType,
    operator: IntegerBinaryOperator,
    text: &mut String,
)
    ensures
        final(text)@ == old(text)@ + integer_type_text(kind) + " "@ + integer_binary_text(operator),
{
    write_pair(text, integer_type_name(kind), integer_binary_operator_name(operator));
}

/// Appends the label of an integer comparison, such as `I32 u<=`.
pub fn write_integer_compare_operation(
    kind: IntegerType,
    operator: IntegerCompareOperator,
    text: &mut String,
)
    ensures
        final(text)@ == old(text)@ + integer_type_text(kind) + " "@ + integer_compare_text(operator),
{
    write_pair(text, integer_type_name(kind), integer_compare_operator_name(operator));
}

/// Appends the label of a one-operand floating-point operation, such as `F64 Nearest`.
pub fn write_number_unary_operation(
    kind: NumberType,
    operator: NumberUnaryOperator,
    text: &mut String,
)
    ensures
        final(text)@ == old(text)@ + number_type_text(kind) + " "@ + number_unary_text(operator),
{
    write_pair(text, number_type_name(kind), number_unary_operator_name(operator));
}

/// Appends the label of a two-operand floating-point operation, such as `F32 Copy Sign`.
pub fn write_number_binary_operation(
    kind: NumberType,
    operator: NumberBinaryOperator,
    text: &mut String,
)
    ensures
        final(text)@ == old(text)@ + number_type_text(kind) + " "@ + number_binary_text(operator),
{
    write_pair(text, number_type_name(kind), number_binary_operator_name(operator));
}

/// Appends the label of a floating-point comparison, such as `F32 >=`.
pub fn write_number_compare_operation(
    kind: NumberType,
    operator: NumberCompareOperator,
    text: &mut String,
)
    ensures
        final(text)@ == old(text)@ + number_type_text(kind) + " "@ + number_compare_text(operator),
{
    write_pair(text, number_type_name(kind), number_compare_operator_name(operator));
}

/// The node has a fixed label, not one built from its value or operator.
#[derive(Clone, Copy, Debug, PartialEq, Eq, Structural)]
pub struct NoDynamicName;

/// The label of a node built from its value or operator, if it has one.
pub open spec fn dynamic_label(operation: Operation) -> Option<Seq<char>> {
    match operation {
        Operation::I32 { value } => Some(signed_decimal(value as int) + "_i32"@),
        Operation::I64 { value } => Some(signed_decimal(value as int) + "_i64"@),
        Operation::F32 { text } => Some(text@ + "_f32"@),
        Operation::F64 { text } => Some(text@ + "_f64"@),
        Operation::IntegerUnaryOperation { kind, operator } => Some(
            integer_type_text(kind) + " "@ + integer_unary_text(operator),
        ),
        Operation::IntegerBinaryOperation { kind, operator } => Some(
            integer_type_text(kind) + " "@ + integer_binary_text(operator),
        ),
        Operation::IntegerCompareOperation { kind, operator } => Some(
            integer_type_text(kind) + " "@ + integer_compare_text(operator),
        ),
        Operation::IntegerSignExtend { kind } => Some("Sign Extend "@ + extend_type_text(kind)),
        Operation::NumberUnaryOperation { kind, operator } => Some(
            number_type_text(kind) + " "@ + number_unary_text(operator),
        ),
        Operation::NumberBinaryOperation { kind, operator } => Some(
            number_type_text(kind) + " "@ + number_binary_text(operator),
        ),
        Operation::NumberCompareOperation { kind, operator } => Some(
            number_type_text(kind) + " "@ + number_compare_text(operator),
        ),
        _ => None,
    }
}

/// The label of a node built from its value or operator: constants as
/// their value followed by `_i32`, `_i64`, `_f32` or `_f64`, operations as
/// their width and operator. Nodes with a fixed label have no dynamic one.
pub fn write(node: &Node) -> (label: Result<String, NoDynamicName>)
    ensures
        match dynamic_label(node.operation) {
            Some(expected) => label matches Ok(text) && text@ == expected,
            None => label == Err::<String, NoDynamicName>(NoDynamicName),
        },
{
    let mut text = String::new();
    match &node.operation {
        Operation::I32 { value } => {
            push_signed_decimal(&mut text, *value as i64);
            push_str(&mut text, "_i32");
        },
        Operation::I64 { value } => {
            push_signed_decimal(&mut text, *value);
            push_str(&mut text, "_i64");
        },
        Operation::F32 { text: value } => {
            push_str(&mut text, value.as_str());
            push_str(&mut text, "_f32");
        },
        Operation::F64 { text: value } => {
            push_str(&mut text, value.as_str());
            push_str(&mut text, "_f64");
        },
        Operation::IntegerUnaryOperation { kind, operator } => {
            write_integer_unary_operation(*kind, *operator, &mut text);
        },
        Operation::IntegerBinaryOperation { kind, operator } => {
            write_integer_binary_operation(*kind, *operator, &mut text);
        },
        Operation::IntegerCompareOperation { kind, operator } => {
            write_integer_compare_operation(*kind, *operator, &mut text);
        },
        Operation::IntegerSignExtend { kind } => {
            write_integer_sign_extend(*kind, &mut text);
        },
        Operation::NumberUnaryOperation { kind, operator } => {
            write_number_unary_operation(*kind, *operator, &mut text);
        },
        Operation::NumberBinaryOperation { kind, operator } => {
            write_number_binary_operation(*kind, *operator, &mut text);
        },
        Operation::NumberCompareOperation { kind, operator } => {
            write_number_compare_operation(*kind, *operator, &mut text);
        },
        _ => {
            return Err(NoDynamicName);
        },
    }
    Ok(text)
}

/// The label of a node: its fixed label, or else the one built from its
/// value or operator.
pub open spec fn node_label(operation: Operation) -> Seq<char> {
    match static_label(operation) {
        Some(label) => label,
        None => dynamic_label(operation).unwrap(),
    }
}

/// Every node has a fixed or a dynamic label.
pub proof fn lemma_every_node_has_a_label(operation: Operation)
    ensures
        static_label(operation).is_some() || dynamic_label(operation).is_some(),
{
}


/// No two integer operators share a symbol: the symbol tells the operation
/// and, for division, remainder and right shift, its signedness.
pub proof fn lemma_integer_binary_symbols_are_distinct(
    first: IntegerBinaryOperator,
    second: IntegerBinaryOperator,
)
    requires
        integer_binary_text(first) == integer_binary_text(second),
    ensures
        first == second,
{
    reveal_strlit("+");
    reveal_strlit("-");
    reveal_strlit("*");
    reveal_strlit("s/");
    reveal_strlit("u/");
    reveal_strlit("s%");
    reveal_strlit("u%");
    reveal_strlit("&");
    reveal_strlit("|");
    reveal_strlit("^");
    reveal_strlit("<<");
    reveal_strlit("s>>");
    reveal_strlit("u>>");
    reveal_strlit("^<<");
    reveal_strlit(">>^");
    let text = integer_binary_text(first);
    assert(text.len() == integer_binary_text(second).len());
    assert(text[0] == integer_binary_text(second)[0]);
    assert(text.len() >= 2 ==> text[1] == integer_binary_text(second)[1]);
}

/// An integer operation that reads its operands as signed or unsigned marks
/// that with `s` or `u` before its symbol, and the two forms otherwise
/// share the symbol; the operations that read their operands either way
/// have no mark.
pub proof fn lemma_integer_binary_symbol_marks_signedness(operator: IntegerBinaryOperator)
    ensures
        integer_binary_text(operator).len() >= 1,
        binary_signedness(operator) matches Some(signed) ==> {
            &&& integer_binary_text(operator)[0] == if signed { 's' } else { 'u' }
        },
        binary_signedness(operator) is None ==> integer_binary_text(operator)[0] != 's'
            && integer_binary_text(operator)[0] != 'u',
        operator matches IntegerBinaryOperator::Divide { .. } ==> integer_binary_text(
            operator,
        ).drop_first() == integer_binary_text(IntegerBinaryOperator::Divide { signed: true }).drop_first(),
        operator matches IntegerBinaryOperator::Remainder { .. } ==> integer_binary_text(
            operator,
        ).drop_first() == integer_binary_text(IntegerBinaryOperator::Remainder { signed: true }).drop_first(),
        operator matches IntegerBinaryOperator::ShiftRight { .. } ==> integer_binary_text(
            operator,
        ).drop_first() == integer_binary_text(IntegerBinaryOperator::ShiftRight { signed: true }).drop_first(),
{
    reveal_strlit("+");
    reveal_strlit("-");
    reveal_strlit("*");
    reveal_strlit("s/");
    reveal_strlit("u/");
    reveal_strlit("s%");
    reveal_strlit("u%");
    reveal_strlit("&");
    reveal_strlit("|");
    reveal_strlit("^");
    reveal_strlit("<<");
    reveal_strlit("s>>");
    reveal_strlit("u>>");
    reveal_strlit("^<<");
    reveal_strlit(">>^");
    assert("s/"@.drop_first() =~= "u/"@.drop_first());
    assert("s%"@.drop_first() =~= "u%"@.drop_first());
    assert("s>>"@.drop_first() =~= "u>>"@.drop_first());
}

/// Whether an integer and a floating-point operator are the same
/// arithmetic operation: both additions, subtractions or multiplications.
pub open spec fn same_arithmetic(integer: IntegerBinaryOperator, number: NumberBinaryOperator) -> bool {
    ||| integer is Add && number is Add
    ||| integer is Subtract && number is Subtract
    ||| integer is Multiply && number is Multiply
}

/// An integer operator and a floating-point operator are labelled with the
/// same symbol exactly when they are the same arithmetic operation.
pub proof fn lemma_arithmetic_symbols_agree(integer: IntegerBinaryOperator, number: NumberBinaryOperator)
    ensures
        integer_binary_text(integer) == number_binary_text(number) <==> same_arithmetic(integer, number),
{
    reveal_strlit("+");
    reveal_strlit("-");
    reveal_strlit("*");
    reveal_strlit("s/");
    reveal_strlit("u/");
    reveal_strlit("s%");
    reveal_strlit("u%");
    reveal_strlit("&");
    reveal_strlit("|");
    reveal_strlit("^");
    reveal_strlit("<<");
    reveal_strlit("s>>");
    reveal_strlit("u>>");
    reveal_strlit("^<<");
    reveal_strlit(">>^");
    reveal_strlit("/");
    reveal_strlit("Minimum");
    reveal_strlit("Maximum");
    reveal_strlit("Copy Sign");
    let left = integer_binary_text(integer);
    let right = number_binary_text(number);
    if left == right {
        assert(left.len() == right.len());
        assert(left[0] == right[0]);
    }
}

/// No two integer comparisons share a symbol, and an ordering comparison
/// marks how it reads its operands with `s` or `u` before the symbol of the
/// floating-point comparison of the same order.
pub proof fn lemma_integer_compare_symbols(first: IntegerCompareOperator, second: IntegerCompareOperator)
    ensures
        integer_compare_text(first) == integer_compare_text(second) ==> first == second,
        compare_signedness(first) matches Some(signed) ==> {
            &&& integer_compare_text(first).len() >= 1
            &&& integer_compare_text(first)[0] == if signed { 's' } else { 'u' }
            &&& integer_compare_text(first).drop_first() == match first {
                IntegerCompareOperator::LessThan { .. } => number_compare_text(NumberCompareOperator::LessThan),
                IntegerCompareOperator::GreaterThan { .. } => number_compare_text(
                    NumberCompareOperator::GreaterThan,
                ),
                IntegerCompareOperator::LessThanEqual { .. } => number_compare_text(
                    NumberCompareOperator::LessThanEqual,
                ),
                _ => number_compare_text(NumberCompareOperator::GreaterThanEqual),
            }
        },
{
    reveal_strlit("==");
    reveal_strlit("!=");
    reveal_strlit("s<");
    reveal_strlit("u<");
    reveal_strlit("s>");
    reveal_strlit("u>");
    reveal_strlit("s<=");
    reveal_strlit("u<=");
    reveal_strlit("s>=");
    reveal_strlit("u>=");
    reveal_strlit("<");
    reveal_strlit(">");
    reveal_strlit("<=");
    reveal_strlit(">=");
    let text = integer_compare_text(first);
    if text == integer_compare_text(second) {
        assert(text.len() == integer_compare_text(second).len());
        assert(text[0] == integer_compare_text(second)[0]);
        assert(text[1] == integer_compare_text(second)[1]);
    }
    assert(text.drop_first() =~= match first {
        IntegerCompareOperator::LessThan { .. } => number_compare_text(NumberCompareOperator::LessThan),
        IntegerCompareOperator::GreaterThan { .. } => number_compare_text(NumberCompareOperator::GreaterThan),
        IntegerCompareOperator::LessThanEqual { .. } => number_compare_text(
            NumberCompareOperator::LessThanEqual,
        ),
        IntegerCompareOperator::GreaterThanEqual { .. } => number_compare_text(
            NumberCompareOperator::GreaterThanEqual,
        ),
        _ => text.drop_first(),
    });
}


/// No two floating-point operations or comparisons share a name or a
/// symbol.
pub proof fn lemma_number_symbols_are_distinct(
    first: NumberBinaryOperator,
    second: NumberBinaryOperator,
    first_compare: NumberCompareOperator,
    second_compare: NumberCompareOperator,
    first_unary: NumberUnaryOperator,
    second_unary: NumberUnaryOperator,
)
    ensures
        number_binary_text(first) == number_binary_text(second) ==> first == second,
        number_compare_text(first_compare) == number_compare_text(second_compare) ==> first_compare
            == second_compare,
        number_unary_text(first_unary) == number_unary_text(second_unary) ==> first_unary
            == second_unary,
{
    reveal_strlit("+");
    reveal_strlit("-");
    reveal_strlit("*");
    reveal_strlit("/");
    reveal_strlit("Minimum");
    reveal_strlit("Maximum");
    reveal_strlit("Copy Sign");
    reveal_strlit("==");
    reveal_strlit("!=");
    reveal_strlit("<");
    reveal_strlit(">");
    reveal_strlit("<=");
    reveal_strlit(">=");
    reveal_strlit("Absolute");
    reveal_strlit("Square Root");
    reveal_strlit("Round Up");
    reveal_strlit("Round Down");
    reveal_strlit("Truncate");
    reveal_strlit("Nearest");
    let binary = number_binary_text(first);
    if binary == number_binary_text(second) {
        assert(binary.len() == number_binary_text(second).len());
        assert(binary[0] == number_binary_text(second)[0]);
        assert(binary.len() > 1 ==> binary[1] == number_binary_text(second)[1]);
    }
    let compare = number_compare_text(first_compare);
    if compare == number_compare_text(second_compare) {
        assert(compare.len() == number_compare_text(second_compare).len());
        assert(compare[0] == number_compare_text(second_compare)[0]);
    }
    let unary = number_unary_text(first_unary);
    if unary == number_unary_text(second_unary) {
        assert(unary.len() == number_unary_text(second_unary).len());
        assert(unary[0] == number_unary_text(second_unary)[0]);
        assert(unary.len() > 6 ==> unary[6] == number_unary_text(second_unary)[6]);
    }
}


/// No two one-operand integer operations, and no two sign extensions, share
/// a name.
pub proof fn lemma_integer_names_are_distinct(
    first: IntegerUnaryOperator,
    second: IntegerUnaryOperator,
    first_extend: ExtendType,
    second_extend: ExtendType,
)
    ensures
        integer_unary_text(first) == integer_unary_text(second) ==> first == second,
        extend_type_text(first_extend) == extend_type_text(second_extend) ==> first_extend
            == second_extend,
{
    reveal_strlit("Count Ones");
    reveal_strlit("Leading Zeroes");
    reveal_strlit("Trailing Zeroes");
    reveal_strlit("S8 to I32");
    reveal_strlit("S16 to I32");
    reveal_strlit("S8 to I64");
    reveal_strlit("S16 to I64");
    reveal_strlit("S32 to I64");
    let unary = integer_unary_text(first);
    if unary == integer_unary_text(second) {
        assert(unary[0] == integer_unary_text(second)[0]);
    }
    let extend = extend_type_text(first_extend);
    let other = extend_type_text(second_extend);
    if extend == other {
        assert(extend.len() == other.len());
        assert(extend[1] == other[1]);
        assert(extend[extend.len() - 2] == other[other.len() - 2]);
    }
}

} // verus!
