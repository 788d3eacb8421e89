use vstd::prelude::*;
use crate::ast::attribute::WithAttributes;
use crate::ast::block::RBlock;
use crate::ast::constant::RConstant;
use crate::ast::variable::RVariable;
use crate::parser::parser::Located;

verus! {

/// A contract as it was declared: its blocks and its constants, each in source order.
#[derive(Debug, Clone)]
pub struct RContract {
    pub name: Located<RVariable>,
    pub blocks: Vec<Located<WithAttributes<Located<RBlock>>>>,
    pub constants: Vec<Located<RConstant>>,
}

impl RContract {
    pub fn name_str(&self) -> (res: &str)
        ensures
            res@ == self.name.inner.0@,
    {
        self.name.inner.as_str()
    }
}

} // verus!
