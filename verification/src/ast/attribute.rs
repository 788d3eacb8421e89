use vstd::prelude::*;
use crate::ast::literal::{RHexLiteral, RStringLiteral};
use crate::ast::variable::{RCompileVariable, RVariable};
use crate::parser::parser::Located;

verus! {

/// The right side of `name = value` in an attribute.
#[derive(Debug, Clone)]
pub enum RAttributeEqualityRight {
    HexLiteral(RHexLiteral),
    CompileVariable(RCompileVariable),
    StringLiteral(RStringLiteral),
}

/// `name = value`
#[derive(Debug, Clone)]
pub struct RAttributeEquality {
    pub name: Located<RVariable>,
    pub value: Located<RAttributeEqualityRight>,
}

impl RAttributeEquality {
    pub fn name_str(&self) -> (res: &str)
        ensures
            res@ == self.name.inner.0@,
    {
        self.name.inner.as_str()
    }
}

/// The argument of an attribute.
#[derive(Debug, Clone)]
pub enum RAttributeArg {
    AttributeEquality(RAttributeEquality),
    Variable(RVariable),
    StringLiteral(RStringLiteral),
}

/// `#[name]` or `#[name(arg)]`
#[derive(Debug, Clone)]
pub struct RAttribute {
    pub name: Located<RVariable>,
    pub arg: Option<Located<RAttributeArg>>,
}

impl RAttribute {
    pub fn name_str(&self) -> (res: &str)
        ensures
            res@ == self.name.inner.0@,
    {
        self.name.inner.as_str()
    }
}

/// A node with the attributes written before it, in source order.
#[derive(Debug, Clone)]
pub struct WithAttributes<T> {
    pub attributes: Vec<Located<RAttribute>>,
    pub inner: T,
}

impl<T> WithAttributes<T> {
    pub fn inner(&self) -> (res: &T)
        ensures
            *res == self.inner,
    {
        &self.inner
    }
}

} // verus!
