use vstd::prelude::*;
use crate::ast::variable::{RConcatenation, RHexAlias, RVariable, RVariableWithField};
use crate::parser::parser::Located;

verus! {

/// The argument of a function call.
#[derive(Debug, Clone)]
pub enum RFunctionArg {
    VariableWithField(RVariableWithField),
    VariablesConcat(RConcatenation),
    HexAlias(RHexAlias),
}

/// `name(arg)`
#[derive(Debug, Clone)]
pub struct RFunction {
    pub name: Located<RVariable>,
    pub arg: Located<RFunctionArg>,
}

} // verus!
