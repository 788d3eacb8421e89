use vstd::prelude::*;
use crate::ast::attribute::{RAttribute, RAttributeArg, RAttributeEqualityRight};
use crate::outside::text::lowercase_of;
use crate::parser::error::{new_error_from_located, CompileError, ErrorKind};
use crate::parser::parser::{Located, Location};
use crate::pre_processing::names::{
    get_compile_variable_value,
    spec_compile_variable_value,
    table_view,
    NamedBytes,
    NamedBytesView,
};
use crate::pre_processing::opcode::{
    is_assumable_opcode,
    mnemonic_op,
    spec_is_assumable_opcode,
    str_to_op,
    OpCode,
};
use crate::types::bytes32::{padded, word_of, Bytes32};

verus! {

/// An attribute, as it is written before a contract, a block or an item of a block.
#[derive(Clone, Copy, Debug, PartialEq, Eq)]
pub enum Attribute {
    /// The opcode `op` gives the value `v` when it runs.
    Assume { op: OpCode, v: Bytes32 },
    /// Nothing is known of what `op` gives any more.
    ClearAssume { op: OpCode },
    /// The block is laid out even if nothing refers to it.
    Keep,
    /// The block is the first of its contract.
    Main,
    /// The block is the last of its contract.
    Last,
    /// Whether a push may be replaced by an opcode that gives the same value.
    Optimization(bool),
}

/// The opcode that `name` stands for, if its value can be assumed; else the error, at
/// `location`.
pub open spec fn spec_assumable_op(name: Seq<char>, location: Location) -> Result<
    OpCode,
    CompileError,
> {
    match mnemonic_op(lowercase_of(name)) {
        None => Err(CompileError { kind: ErrorKind::UnknownName, location: Some(location) }),
        Some(op) => if spec_is_assumable_opcode(op) {
            Ok(op)
        } else {
            Err(CompileError { kind: ErrorKind::AssumableOpcodeRequired, location: Some(location) })
        },
    }
}

/// The bytes on the right side of an `assume`.
pub open spec fn spec_assume_value(
    value: Located<RAttributeEqualityRight>,
    compile_variables: Seq<NamedBytesView>,
) -> Result<Seq<u8>, CompileError> {
    match value.inner {
        RAttributeEqualityRight::HexLiteral(hex_literal) => Ok(hex_literal.0@),
        RAttributeEqualityRight::CompileVariable(compile_variable) => spec_compile_variable_value(
            compile_variable,
            compile_variables,
        ),
        RAttributeEqualityRight::StringLiteral(_) => Err(
            CompileError { kind: ErrorKind::InvalidAttributeArg, location: Some(value.location) },
        ),
    }
}

/// The attribute `assume`: it needs an argument of the form `opcode = value`, a value
/// of at most 32 bytes and an opcode whose value can be assumed. The value is held as a
/// number: it ends the word.
pub open spec fn spec_assume_attribute(
    r_attribute: Located<RAttribute>,
    compile_variables: Seq<NamedBytesView>,
) -> Result<Attribute, CompileError> {
    let invalid = Err(
        CompileError { kind: ErrorKind::InvalidAttributeArg, location: Some(r_attribute.location) },
    );
    match r_attribute.inner.arg {
        None => invalid,
        Some(arg) => match arg.inner {
            RAttributeArg::AttributeEquality(eq) => match spec_assume_value(
                eq.value,
                compile_variables,
            ) {
                Err(e) => Err(e),
                Ok(bytes) => if bytes.len() > 32 {
                    Err(
                        CompileError {
                            kind: ErrorKind::ConstantTooLarge,
                            location: Some(eq.value.location),
                        },
                    )
                } else {
                    match spec_assumable_op(eq.name.inner.0@, eq.name.location) {
                        Err(e) => Err(e),
                        Ok(op) => Ok(Attribute::Assume { op, v: word_of(padded(bytes, true)) }),
                    }
                },
            },
            _ => invalid,
        },
    }
}

/// The attribute `clear_assume`: it needs the name of an opcode whose value can be
/// assumed.
pub open spec fn spec_clear_assume_attribute(r_attribute: Located<RAttribute>) -> Result<
    Attribute,
    CompileError,
> {
    let invalid = Err(
        CompileError { kind: ErrorKind::InvalidAttributeArg, location: Some(r_attribute.location) },
    );
    match r_attribute.inner.arg {
        None => invalid,
        Some(arg) => match arg.inner {
            RAttributeArg::Variable(var) => match spec_assumable_op(var.0@, arg.location) {
                Err(e) => Err(e),
                Ok(op) => Ok(Attribute::ClearAssume { op }),
            },
            _ => invalid,
        },
    }
}

/// The attribute that a node of the parse tree stands for, by its name.
pub open spec fn spec_from_r_attribute(
    r_attribute: Located<RAttribute>,
    compile_variables: Seq<NamedBytesView>,
) -> Result<Attribute, CompileError> {
    let name = r_attribute.inner.name.inner.0@;
    if name == "assume"@ {
        spec_assume_attribute(r_attribute, compile_variables)
    } else if name == "clear_assume"@ {
        spec_clear_assume_attribute(r_attribute)
    } else if name == "enable_optimization"@ {
        Ok(Attribute::Optimization(true))
    } else if name == "disable_optimization"@ {
        Ok(Attribute::Optimization(false))
    } else if name == "keep"@ {
        Ok(Attribute::Keep)
    } else if name == "main"@ {
        Ok(Attribute::Main)
    } else if name == "last"@ {
        Ok(Attribute::Last)
    } else {
        Err(
            CompileError {
                kind: ErrorKind::UnknownAttribute,
                location: Some(r_attribute.inner.name.location),
            },
        )
    }
}

/// Looks up an opcode whose value is to be assumed or forgotten.
fn assumable_op(name: &str, location: &Location) -> (res: Result<OpCode, CompileError>)
    ensures
        res == spec_assumable_op(name@, *location),
{
    match str_to_op(name) {
        None => Err(CompileError { kind: ErrorKind::UnknownName, location: Some(*location) }),
        Some(op) => if is_assumable_opcode(op) {
            Ok(op)
        } else {
            Err(
                CompileError {
                    kind: ErrorKind::AssumableOpcodeRequired,
                    location: Some(*location),
                },
            )
        },
    }
}

impl Attribute {
    /// Whether the attribute places no block: it is neither `main`, `last` nor `keep`.
    pub open spec fn spec_is_contract_attribute(&self) -> bool {
        !(self is Main) && !(self is Last) && !(self is Keep)
    }

    /// Whether the attribute is `assume` or `clear_assume`.
    pub open spec fn spec_is_block_item_attribute(&self) -> bool {
        self is Assume || self is ClearAssume
    }

    pub fn is_assume(&self) -> (res: bool)
        ensures
            res == (self is Assume),
    {
        match self {
            Attribute::Assume { .. } => true,
            _ => false,
        }
    }

    pub fn is_clear_assume(&self) -> (res: bool)
        ensures
            res == (self is ClearAssume),
    {
        match self {
            Attribute::ClearAssume { .. } => true,
            _ => false,
        }
    }

    pub fn is_keep(&self) -> (res: bool)
        ensures
            res == (self is Keep),
    {
        match self {
            Attribute::Keep => true,
            _ => false,
        }
    }

    pub fn is_main(&self) -> (res: bool)
        ensures
            res == (self is Main),
    {
        match self {
            Attribute::Main => true,
            _ => false,
        }
    }

    pub fn is_last(&self) -> (res: bool)
        ensures
            res == (self is Last),
    {
        match self {
            Attribute::Last => true,
            _ => false,
        }
    }

    pub fn is_optimization(&self) -> (res: bool)
        ensures
            res == (self is Optimization),
    {
        match self {
            Attribute::Optimization(_) => true,
            _ => false,
        }
    }

    /// Whether the attribute may stand before a contract: all but those that place a
    /// block.
    pub fn is_contract_attribute(&self) -> (res: bool)
        ensures
            res == self.spec_is_contract_attribute(),
    {
        !self.is_main() && !self.is_last() && !self.is_keep()
    }

    /// Whether the attribute may stand before a block that is not abstract: each may.
    pub fn is_block_attribute(&self) -> (res: bool)
        ensures
            res,
    {
        true
    }

    /// Whether the attribute may stand before an abstract block: all but those that
    /// place a block.
    pub fn is_abstract_block_attribute(&self) -> (res: bool)
        ensures
            res == self.spec_is_contract_attribute(),
    {
        !self.is_main() && !self.is_last() && !self.is_keep()
    }

    /// Whether the attribute may stand before an item of a block: only `assume` and
    /// `clear_assume` may.
    pub fn is_block_item_attribute(&self) -> (res: bool)
        ensures
            res == self.spec_is_block_item_attribute(),
    {
        self.is_assume() || self.is_clear_assume()
    }

    /// Reads an attribute from its node of the parse tree.
    pub fn from_r_attribute(
        r_attribute: &Located<RAttribute>,
        compile_variables: &Vec<NamedBytes>,
    ) -> (res: Result<Self, CompileError>)
        ensures
            res == spec_from_r_attribute(*r_attribute, table_view(compile_variables@)),
    {
        let name = r_attribute.inner.name_str();
        if *name == *"assume" {
            let Some(arg) = &r_attribute.inner.arg else {
                return Err(new_error_from_located(r_attribute, ErrorKind::InvalidAttributeArg));
            };
            let RAttributeArg::AttributeEquality(eq) = &arg.inner else {
                return Err(new_error_from_located(r_attribute, ErrorKind::InvalidAttributeArg));
            };
            let bytes: &Vec<u8> = match &eq.value.inner {
                RAttributeEqualityRight::HexLiteral(hex_literal) => &hex_literal.0,
                RAttributeEqualityRight::CompileVariable(compile_variable) => {
                    match get_compile_variable_value(compile_variable, compile_variables) {
                        Ok(value) => value,
                        Err(e) => {
                            return Err(e);
                        },
                    }
                },
                RAttributeEqualityRight::StringLiteral(_) => {
                    return Err(new_error_from_located(&eq.value, ErrorKind::InvalidAttributeArg));
                },
            };
            let Some(formatted) = Bytes32::from_bytes(bytes.as_slice(), true) else {
                return Err(new_error_from_located(&eq.value, ErrorKind::ConstantTooLarge));
            };
            match assumable_op(eq.name_str(), &eq.name.location) {
                Ok(op) => Ok(Attribute::Assume { op, v: formatted }),
                Err(e) => Err(e),
            }
        } else if *name == *"clear_assume" {
            let Some(arg) = &r_attribute.inner.arg else {
                return Err(new_error_from_located(r_attribute, ErrorKind::InvalidAttributeArg));
            };
            let RAttributeArg::Variable(var) = &arg.inner else {
                return Err(new_error_from_located(r_attribute, ErrorKind::InvalidAttributeArg));
            };
            match assumable_op(var.as_str(), &arg.location) {
                Ok(op) => Ok(Attribute::ClearAssume { op }),
                Err(e) => Err(e),
            }
        } else if *name == *"enable_optimization" {
            Ok(Attribute::Optimization(true))
        } else if *name == *"disable_optimization" {
            Ok(Attribute::Optimization(false))
        } else if *name == *"keep" {
            Ok(Attribute::Keep)
        } else if *name == *"main" {
            Ok(Attribute::Main)
        } else if *name == *"last" {
            Ok(Attribute::Last)
        } else {
            Err(new_error_from_located(&r_attribute.inner.name, ErrorKind::UnknownAttribute))
        }
    }
}

/// One assumption: `op` gives `v`.
#[derive(Debug, Clone, Copy, PartialEq, Eq)]
pub struct Assumption {
    pub op: OpCode,
    pub v: Bytes32,
}

/// The attributes in force at a point of the program: the assumptions, in the order in
/// which their opcodes were first assumed, and whether pushes may be replaced.
#[derive(Debug, Clone)]
pub struct Attributes {
    pub assumes: Vec<Assumption>,
    pub optimization: bool,
}

/// The attributes in force, as a value of the mathematics.
pub struct AttributesView {
    pub assumes: Seq<Assumption>,
    pub optimization: bool,
}

impl View for Attributes {
    type V = AttributesView;

    open spec fn view(&self) -> AttributesView {
        AttributesView { assumes: self.assumes@, optimization: self.optimization }
    }
}

/// The index of the first assumption on `op` at or after `from`, or the length of
/// `assumes` where there is none.
pub open spec fn first_assumed_from(assumes: Seq<Assumption>, op: OpCode, from: int) -> int
    decreases assumes.len() - from,
{
    if from >= assumes.len() || assumes[from].op == op {
        from
    } else {
        first_assumed_from(assumes, op, from + 1)
    }
}

/// No opcode is assumed twice.
pub open spec fn distinct_ops(assumes: Seq<Assumption>) -> bool {
    forall|i: int, j: int| 0 <= i < j < assumes.len() ==> assumes[i].op != assumes[j].op
}

/// The attributes in force after `attribute`. An assumption on an opcode takes the
/// place of the one there was on it, or goes to the end; the attributes that place a
/// block change nothing.
pub open spec fn apply_one(attributes: AttributesView, attribute: Attribute) -> AttributesView {
    match attribute {
        Attribute::Assume { op, v } => {
            let i = first_assumed_from(attributes.assumes, op, 0);
            AttributesView {
                assumes: if i < attributes.assumes.len() {
                    attributes.assumes.update(i, Assumption { op, v })
                } else {
                    attributes.assumes.push(Assumption { op, v })
                },
                optimization: attributes.optimization,
            }
        },
        Attribute::ClearAssume { op } => {
            let i = first_assumed_from(attributes.assumes, op, 0);
            AttributesView {
                assumes: if i < attributes.assumes.len() {
                    attributes.assumes.remove(i)
                } else {
                    attributes.assumes
                },
                optimization: attributes.optimization,
            }
        },
        Attribute::Optimization(enabled) => AttributesView {
            assumes: attributes.assumes,
            optimization: enabled,
        },
        _ => attributes,
    }
}

/// The attributes in force after each of `list`, first to last.
pub open spec fn apply_all(attributes: AttributesView, list: Seq<Attribute>) -> AttributesView
    decreases list.len(),
{
    if list.len() == 0 {
        attributes
    } else {
        apply_one(apply_all(attributes, list.drop_last()), list.last())
    }
}

proof fn lemma_first_assumed_from(assumes: Seq<Assumption>, op: OpCode, from: int)
    requires
        0 <= from <= assumes.len(),
    ensures
        from <= first_assumed_from(assumes, op, from) <= assumes.len(),
        first_assumed_from(assumes, op, from) < assumes.len() ==> assumes[first_assumed_from(
            assumes,
            op,
            from,
        )].op == op,
        forall|k: int| from <= k < first_assumed_from(assumes, op, from) ==> assumes[k].op != op,
    decreases assumes.len() - from,
{
    if from < assumes.len() && assumes[from].op != op {
        lemma_first_assumed_from(assumes, op, from + 1);
    }
}

/// Applying an attribute never makes an opcode assumed twice.
pub proof fn lemma_apply_keeps_distinct(attributes: AttributesView, attribute: Attribute)
    requires
        distinct_ops(attributes.assumes),
    ensures
        distinct_ops(apply_one(attributes, attribute).assumes),
{
    match attribute {
        Attribute::Assume { op, v } => {
            lemma_first_assumed_from(attributes.assumes, op, 0);
        },
        Attribute::ClearAssume { op } => {
            lemma_first_assumed_from(attributes.assumes, op, 0);
        },
        _ => {},
    }
}

/// After `assume`, the opcode is assumed to give the value; after `clear_assume`, it
/// is assumed to give none. What is assumed of the other opcodes stays.
pub proof fn lemma_apply_assume(attributes: AttributesView, attribute: Attribute)
    requires
        distinct_ops(attributes.assumes),
    ensures
        attribute matches Attribute::Assume { op, v } ==> apply_one(
            attributes,
            attribute,
        ).assumes.contains(Assumption { op, v }),
        attribute matches Attribute::ClearAssume { op } ==> forall|i: int|
            0 <= i < apply_one(attributes, attribute).assumes.len() ==> (#[trigger] apply_one(
                attributes,
                attribute,
            ).assumes[i]).op != op,
        forall|other: Assumption|
            (attribute matches Attribute::Assume { op, v } ==> op != other.op) && (
            attribute matches Attribute::ClearAssume { op } ==> op != other.op) ==> (apply_one(
                attributes,
                attribute,
            ).assumes.contains(other) <==> attributes.assumes.contains(other)),
{
    let before = attributes.assumes;
    let after = apply_one(attributes, attribute).assumes;
    match attribute {
        Attribute::Assume { op, v } => {
            lemma_first_assumed_from(before, op, 0);
            let i = first_assumed_from(before, op, 0);
            if i < before.len() {
                assert(after[i] == Assumption { op, v });
                assert forall|other: Assumption| op != other.op implies (after.contains(other)
                    <==> before.contains(other)) by {
                    if before.contains(other) {
                        let k = choose|k: int| 0 <= k < before.len() && before[k] == other;
                        assert(after[k] == other);
                    }
                    if after.contains(other) {
                        let k = choose|k: int| 0 <= k < after.len() && after[k] == other;
                        assert(before[k] == other);
                    }
                }
            } else {
                assert(after[before.len() as int] == Assumption { op, v });
                assert forall|other: Assumption| op != other.op implies (after.contains(other)
                    <==> before.contains(other)) by {
                    if before.contains(other) {
                        let k = choose|k: int| 0 <= k < before.len() && before[k] == other;
                        assert(after[k] == other);
                    }
                    if after.contains(other) {
                        let k = choose|k: int| 0 <= k < after.len() && after[k] == other;
                        assert(before[k] == other);
                    }
                }
            }
        },
        Attribute::ClearAssume { op } => {
            lemma_first_assumed_from(before, op, 0);
            let i = first_assumed_from(before, op, 0);
            if i < before.len() {
                assert forall|k: int| 0 <= k < after.len() implies (#[trigger] after[k]).op
                    != op by {
                    if k < i {
                        assert(after[k] == before[k]);
                    } else {
                        assert(after[k] == before[k + 1]);
                    }
                }
                assert forall|other: Assumption| op != other.op implies (after.contains(other)
                    <==> before.contains(other)) by {
                    if before.contains(other) {
                        let k = choose|k: int| 0 <= k < before.len() && before[k] == other;
                        if k < i {
                            assert(after[k] == other);
                        } else {
                            assert(after[k - 1] == other);
                        }
                    }
                    if after.contains(other) {
                        let k = choose|k: int| 0 <= k < after.len() && after[k] == other;
                        if k < i {
                            assert(before[k] == other);
                        } else {
                            assert(before[k + 1] == other);
                        }
                    }
                }
            }
        },
        _ => {},
    }
}

impl Default for Attributes {
    /// No assumption, and pushes may be replaced.
    fn default() -> (res: Self)
        ensures
            res@ == (AttributesView { assumes: Seq::empty(), optimization: true }),
    {
        Attributes { assumes: Vec::new(), optimization: true }
    }
}

impl Attributes {
    /// A copy of the attributes as they are now.
    pub fn snapshot(&self) -> (res: Self)
        ensures
            res@ == self@,
    {
        let mut assumes: Vec<Assumption> = Vec::new();
        let mut i: usize = 0;
        while i < self.assumes.len()
            invariant
                i <= self.assumes@.len(),
                assumes@ == self.assumes@.take(i as int),
            decreases self.assumes@.len() - i,
        {
            assumes.push(self.assumes[i]);
            assert(self.assumes@.take(i + 1) =~= self.assumes@.take(i as int).push(
                self.assumes@[i as int],
            ));
            i += 1;
        }
        assert(self.assumes@.take(i as int) =~= self.assumes@);
        Attributes { assumes, optimization: self.optimization }
    }

    fn find_assumed(&self, op: OpCode) -> (res: usize)
        ensures
            res == first_assumed_from(self.assumes@, op, 0),
            res <= self.assumes@.len(),
    {
        let mut i: usize = 0;
        while i < self.assumes.len() && self.assumes[i].op != op
            invariant
                i <= self.assumes@.len(),
                first_assumed_from(self.assumes@, op, 0) == first_assumed_from(
                    self.assumes@,
                    op,
                    i as int,
                ),
            decreases self.assumes@.len() - i,
        {
            i += 1;
        }
        i
    }

    /// Brings one attribute into force.
    pub fn apply(&mut self, attribute: Attribute)
        ensures
            final(self)@ == apply_one(old(self)@, attribute),
    {
        match attribute {
            Attribute::Assume { op, v } => {
                let i = self.find_assumed(op);
                if i < self.assumes.len() {
                    self.assumes[i] = Assumption { op, v };
                } else {
                    self.assumes.push(Assumption { op, v });
                }
            },
            Attribute::ClearAssume { op } => {
                let i = self.find_assumed(op);
                if i < self.assumes.len() {
                    self.assumes.remove(i);
                }
            },
            Attribute::Optimization(enabled) => {
                self.optimization = enabled;
            },
            _ => (),
        }
    }

    /// Brings attributes into force, first to last.
    pub fn apply_many(&mut self, attributes: &Vec<Attribute>)
        ensures
            final(self)@ == apply_all(old(self)@, attributes@),
    {
        let mut i: usize = 0;
        while i < attributes.len()
            invariant
                i <= attributes@.len(),
                self@ == apply_all(old(self)@, attributes@.take(i as int)),
            decreases attributes@.len() - i,
        {
            self.apply(attributes[i]);
            assert(attributes@.take(i + 1).drop_last() =~= attributes@.take(i as int));
            i += 1;
        }
        assert(attributes@.take(i as int) =~= attributes@);
    }
}

} // verus!
