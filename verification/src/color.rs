//! Colors of the nodes in the JSON rendering of a graph.

use vstd::prelude::*;

use crate::ir::{Node, Operation};

verus! {

/// The color family of a node.
#[derive(Clone, Copy, PartialEq, Eq, Structural)]
pub enum Color {
    Blue,
    Green,
    Red,
    Brown,
    Yellow,
}

/// Function boundaries are blue, matches and their branch boundaries green,
/// loops and their boundaries red, module boundaries brown, and every
/// simple operation yellow.
pub open spec fn color_of(operation: Operation) -> Color {
    match operation {
        Operation::Function { .. } => Color::Blue,
        Operation::FunctionCaptures => Color::Blue,
        Operation::FunctionArguments => Color::Blue,
        Operation::FunctionResults => Color::Blue,
        Operation::Match { .. } => Color::Green,
        Operation::BranchArguments => Color::Green,
        Operation::BranchResults => Color::Green,
        Operation::Repeat { .. } => Color::Red,
        Operation::RepeatArguments => Color::Red,
        Operation::RepeatResults => Color::Red,
        Operation::ModuleArguments => Color::Brown,
        Operation::ModuleResults => Color::Brown,
        _ => Color::Yellow,
    }
}

/// The hexadecimal RGB code of a color.
pub open spec fn color_code(color: Color) -> Seq<char> {
    match color {
        Color::Blue => "#8BB1F9"@,
        Color::Green => "#A1FC8F"@,
        Color::Red => "#E07E7C"@,
        Color::Brown => "#A99D94"@,
        Color::Yellow => "#FFFF93"@,
    }
}

impl Color {
    /// The color of a node, by what it computes.
    pub fn from_reference(node: &Node) -> (color: Color)
        ensures
            color == color_of(node.operation),
    {
        match &node.operation {
            Operation::Function { .. }
            | Operation::FunctionCaptures
            | Operation::FunctionArguments
            | Operation::FunctionResults => Color::Blue,
            Operation::Match { .. } | Operation::BranchArguments | Operation::BranchResults => {
                Color::Green
            },
            Operation::Repeat { .. } | Operation::RepeatArguments | Operation::RepeatResults => {
                Color::Red
            },
            Operation::ModuleArguments | Operation::ModuleResults => Color::Brown,
            _ => Color::Yellow,
        }
    }

    /// The hexadecimal RGB code of the color, such as `#8BB1F9` for blue.
    pub fn as_string(self) -> (code: &'static str)
        ensures
            code@ == color_code(self),
    {
        match self {
            Color::Blue => "#8BB1F9",
            Color::Green => "#A1FC8F",
            Color::Red => "#E07E7C",
            Color::Brown => "#A99D94",
            Color::Yellow => "#FFFF93",
        }
    }
}

} // verus!
