use vstd::prelude::*;
use crate::ast::attribute::WithAttributes;
use crate::ast::contract::RContract;
use crate::parser::parser::Located;

verus! {

/// A source file: its contracts in source order.
#[derive(Debug, Clone)]
pub struct RFile(pub Vec<Located<WithAttributes<Located<RContract>>>>);

} // verus!
