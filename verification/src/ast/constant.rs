use vstd::prelude::*;
use crate::ast::literal::RHexLiteral;
use crate::ast::variable::{RCompileVariable, RVariable};
use crate::parser::parser::Located;

verus! {

/// The value given to a constant.
#[derive(Debug, Clone)]
pub enum RConstantArg {
    HexLiteral(RHexLiteral),
    CompileVariable(RCompileVariable),
}

/// `const name = value;`
#[derive(Debug, Clone)]
pub struct RConstant {
    pub name: Located<RVariable>,
    pub value: Located<RConstantArg>,
}

impl RConstant {
    pub fn name_str(&self) -> (res: &str)
        ensures
            res@ == self.name.inner.0@,
    {
        self.name.inner.as_str()
    }
}

} // verus!
