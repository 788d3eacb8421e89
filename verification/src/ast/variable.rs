use vstd::prelude::*;
use crate::ast::literal::RHexLiteral;
use crate::parser::parser::Located;

verus! {

/// A name: of an opcode, a constant, a block, a contract, a field, a function or an
/// attribute.
#[derive(Debug, Clone, PartialEq, Eq, Hash)]
pub struct RVariable(pub String);

impl RVariable {
    pub fn as_str(&self) -> (res: &str)
        ensures
            res@ == self.0@,
    {
        self.0.as_str()
    }
}

/// `variable.field`
#[derive(Debug, Clone)]
pub struct RVariableWithField {
    pub variable: Located<RVariable>,
    pub field: Located<RVariable>,
}

/// `$NAME$`: a variable whose value the compiler's settings give.
#[derive(Debug, Clone)]
pub struct RCompileVariable(pub Located<RVariable>);

impl RCompileVariable {
    pub fn as_str(&self) -> (res: &str)
        ensures
            res@ == self.0.inner.0@,
    {
        self.0.inner.as_str()
    }
}

/// What stands for bytes in a block: a literal, a name, or a compile variable.
#[derive(Debug, Clone)]
pub enum RHexAlias {
    HexLiteral(RHexLiteral),
    Variable(RVariable),
    CompileVariable(RCompileVariable),
}

/// `a @ b @ c`: at least one item.
#[derive(Debug, Clone)]
pub struct RConcatenation(pub Vec<Located<RHexAlias>>);

} // verus!
