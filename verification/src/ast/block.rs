use vstd::prelude::*;
use crate::ast::attribute::WithAttributes;
use crate::ast::function::RFunction;
use crate::ast::variable::{RHexAlias, RVariable, RVariableWithField};
use crate::parser::parser::Located;

verus! {

/// What follows `*`.
#[derive(Debug, Clone)]
pub enum RBlockRefStar {
    Variable(RVariable),
}

/// What follows `&`.
#[derive(Debug, Clone)]
pub enum RBlockRefEsp {
    Variable(RVariable),
    VariableWithField(RVariableWithField),
}

/// A reference to a block, or to the code of a contract.
#[derive(Debug, Clone)]
pub enum RBlockRef {
    Star(RBlockRefStar),
    Esp(RBlockRefEsp),
}

/// One item of a block's body.
#[derive(Debug, Clone)]
pub enum RBlockItem {
    Function(RFunction),
    HexAlias(RHexAlias),
    BlockRef(RBlockRef),
}

/// A block as it was declared.
#[derive(Debug, Clone)]
pub struct RBlock {
    pub name: Located<RVariable>,
    pub abstr: bool,
    pub items: Vec<Located<WithAttributes<Located<RBlockItem>>>>,
}

impl RBlock {
    pub fn name_str(&self) -> (res: &str)
        ensures
            res@ == self.name.inner.0@,
    {
        self.name.inner.as_str()
    }
}

} // verus!
