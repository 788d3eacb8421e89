use vstd::prelude::*;
use bytes::BytesMut;
use crate::ast::attribute::{RAttribute, WithAttributes};
use crate::ast::block::{RBlock, RBlockItem, RBlockRef, RBlockRefEsp, RBlockRefStar};
use crate::ast::function::{RFunction, RFunctionArg};
use crate::ast::variable::{RHexAlias, RVariableWithField};
use crate::outside::buffer::{
    buffer_bytes,
    buffer_extend,
    buffer_new,
    buffer_put_u8,
    buffer_to_vec,
};
use crate::outside::text::{lowercase_of, to_lowercase};
use crate::parser::error::{
    new_error_from_located,
    new_error_from_location,
    CompileError,
    ErrorKind,
};
use crate::parser::parser::{Located, Location};
use crate::pre_processing::attribute::{spec_from_r_attribute, Attribute};
use crate::pre_processing::names::{
    find_name,
    find_named,
    get_compile_variable_value,
    index_of_name,
    spec_compile_variable_value,
    string_names,
    table_value,
    table_view,
    NamedBytes,
    NamedBytesView,
};
use crate::pre_processing::opcode::{mnemonic_op, str_to_op};
use crate::pre_processing::queue::{all_below, with_item, IndexedVec};
use crate::types::bytes32::{padded, word_of, Bytes32};

verus! {

/// What a push puts on the stack.
#[derive(Clone, Copy, Debug, PartialEq, Eq)]
pub enum BlockFlowPushInner {
    /// A word that is known.
    Constant(Bytes32),
    /// The place in the code where the block of this index starts.
    BlockPc(usize),
    /// The number of bytes that the block of this index takes.
    BlockSize(usize),
}

/// A push, with the attributes written before it.
#[derive(Clone, Debug)]
pub struct BlockFlowPush {
    pub inner: BlockFlowPushInner,
    pub attributes: Vec<Attribute>,
}

/// A reference to the block of index `index`, with the attributes written before it.
#[derive(Clone, Debug)]
pub struct BlockFlowBlockRef {
    pub index: usize,
    pub location: Location,
    pub attributes: Vec<Attribute>,
}

/// One item of the flow of a block.
#[derive(Clone, Debug)]
pub enum BlockFlowItem {
    /// Bytes that go to the code as they are.
    Bytes(Vec<u8>),
    /// The code of the contract of this index.
    Contract(usize),
    /// `&block`
    BlockEsp(BlockFlowBlockRef),
    /// `*block`
    BlockStar(BlockFlowBlockRef),
    Push(BlockFlowPush),
}

/// The flow of a block: its items in order, the attributes that follow its last push
/// or reference, and the blocks it refers to.
#[derive(Debug)]
pub struct BlockFlow {
    pub items: Vec<BlockFlowItem>,
    pub end_attributes: Vec<Attribute>,
    /// The blocks referred to by `*` or `&`, in the order of their first reference.
    pub strong_deps: IndexedVec,
    /// The blocks whose place or size is pushed, in the order of their first push.
    pub weak_deps: IndexedVec,
}

/// A reference to a block, as values of the mathematics.
#[verifier::ext_equal]
pub struct FlowRefView {
    pub index: usize,
    pub location: Location,
    pub attributes: Seq<Attribute>,
}

/// A push of a flow, as values of the mathematics.
#[verifier::ext_equal]
pub struct FlowPushView {
    pub inner: BlockFlowPushInner,
    pub attributes: Seq<Attribute>,
}

/// One item of a flow, as values of the mathematics.
#[verifier::ext_equal]
pub enum FlowItemView {
    Bytes(Seq<u8>),
    Contract(usize),
    BlockEsp(FlowRefView),
    BlockStar(FlowRefView),
    Push(FlowPushView),
}

/// The flow of a block, as values of the mathematics.
#[verifier::ext_equal]
pub struct BlockFlowView {
    pub items: Seq<FlowItemView>,
    pub end_attributes: Seq<Attribute>,
    pub strong_deps: Seq<usize>,
    pub weak_deps: Seq<usize>,
}

impl View for BlockFlowBlockRef {
    type V = FlowRefView;

    open spec fn view(&self) -> FlowRefView {
        FlowRefView { index: self.index, location: self.location, attributes: self.attributes@ }
    }
}

impl View for BlockFlowPush {
    type V = FlowPushView;

    open spec fn view(&self) -> FlowPushView {
        FlowPushView { inner: self.inner, attributes: self.attributes@ }
    }
}

impl View for BlockFlowItem {
    type V = FlowItemView;

    open spec fn view(&self) -> FlowItemView {
        match self {
            BlockFlowItem::Bytes(bytes) => FlowItemView::Bytes(bytes@),
            BlockFlowItem::Contract(index) => FlowItemView::Contract(*index),
            BlockFlowItem::BlockEsp(block_ref) => FlowItemView::BlockEsp(block_ref@),
            BlockFlowItem::BlockStar(block_ref) => FlowItemView::BlockStar(block_ref@),
            BlockFlowItem::Push(push) => FlowItemView::Push(push@),
        }
    }
}

/// The views of the items of a flow.
pub open spec fn flow_items_view(items: Seq<BlockFlowItem>) -> Seq<FlowItemView> {
    items.map_values(|item: BlockFlowItem| item@)
}

impl View for BlockFlow {
    type V = BlockFlowView;

    open spec fn view(&self) -> BlockFlowView {
        BlockFlowView {
            items: flow_items_view(self.items@),
            end_attributes: self.end_attributes@,
            strong_deps: self.strong_deps@,
            weak_deps: self.weak_deps@,
        }
    }
}

/// The names that the items of a block may refer to.
pub struct FlowEnv {
    pub constants: Seq<NamedBytesView>,
    pub contract_names: Seq<Seq<char>>,
    pub block_names: Seq<Seq<char>>,
    pub compile_variables: Seq<NamedBytesView>,
}

/// What has been read of a block: the items so far, the bytes that are not yet an item,
/// the attributes that wait for the next push or reference, and the dependencies.
#[verifier::ext_equal]
pub struct FlowState {
    pub items: Seq<FlowItemView>,
    pub current_bytes: Option<Seq<u8>>,
    pub current_attributes: Seq<Attribute>,
    pub strong_deps: Seq<usize>,
    pub weak_deps: Seq<usize>,
    pub contract_dependencies: Seq<usize>,
}

/// The error of kind `kind` at `location`.
pub open spec fn located_error(kind: ErrorKind, location: Location) -> CompileError {
    CompileError { kind, location: Some(location) }
}

/// `current` and, after it, the attributes from index `from` on. Before an item of a
/// block only `assume` and `clear_assume` may stand.
pub open spec fn spec_item_attributes(
    current: Seq<Attribute>,
    r_attributes: Seq<Located<RAttribute>>,
    compile_variables: Seq<NamedBytesView>,
    from: int,
) -> Result<Seq<Attribute>, CompileError>
    decreases r_attributes.len() - from,
{
    if from >= r_attributes.len() || from < 0 {
        Ok(current)
    } else {
        match spec_from_r_attribute(r_attributes[from], compile_variables) {
            Err(e) => Err(e),
            Ok(attribute) => if attribute.spec_is_block_item_attribute() {
                spec_item_attributes(
                    current.push(attribute),
                    r_attributes,
                    compile_variables,
                    from + 1,
                )
            } else {
                Err(
                    located_error(
                        ErrorKind::InvalidAttributePlacement,
                        r_attributes[from].location,
                    ),
                )
            },
        }
    }
}

/// The bytes that an item of a block stands for: those of a literal, the opcode of a
/// mnemonic, the value of a constant or of a compile variable. A name is taken for a
/// mnemonic first.
pub open spec fn spec_hex_alias_bytes(alias: RHexAlias, location: Location, env: FlowEnv)
    -> Result<Seq<u8>, CompileError> {
    match alias {
        RHexAlias::HexLiteral(hex_literal) => Ok(hex_literal.0@),
        RHexAlias::Variable(variable) => match mnemonic_op(lowercase_of(variable.0@)) {
            Some(op) => Ok(seq![op]),
            None => match table_value(env.constants, variable.0@) {
                Some(bytes) => Ok(bytes),
                None => Err(located_error(ErrorKind::UnknownName, location)),
            },
        },
        RHexAlias::CompileVariable(compile_variable) => spec_compile_variable_value(
            compile_variable,
            env.compile_variables,
        ),
    }
}

/// The bytes that an argument of a push stands for: those of a literal, the value of a
/// constant or of a compile variable.
pub open spec fn spec_constant_bytes(alias: RHexAlias, location: Location, env: FlowEnv)
    -> Result<Seq<u8>, CompileError> {
    match alias {
        RHexAlias::HexLiteral(hex_literal) => Ok(hex_literal.0@),
        RHexAlias::Variable(variable) => match table_value(env.constants, variable.0@) {
            Some(bytes) => Ok(bytes),
            None => Err(located_error(ErrorKind::UnknownName, location)),
        },
        RHexAlias::CompileVariable(compile_variable) => spec_compile_variable_value(
            compile_variable,
            env.compile_variables,
        ),
    }
}

/// `bytes` and, after them, the bytes of the parts of a concatenation from index `from`
/// on.
pub open spec fn spec_concat_bytes(
    bytes: Seq<u8>,
    parts: Seq<Located<RHexAlias>>,
    location: Location,
    env: FlowEnv,
    from: int,
) -> Result<Seq<u8>, CompileError>
    decreases parts.len() - from,
{
    if from >= parts.len() || from < 0 {
        Ok(bytes)
    } else {
        match spec_constant_bytes(parts[from].inner, location, env) {
            Err(e) => Err(e),
            Ok(more) => spec_concat_bytes(bytes + more, parts, location, env, from + 1),
        }
    }
}

/// Whether a function name is a push that holds its bytes as a number, at the end of
/// the word (`push`, `rpush`), or one that holds them at the start (`lpush`). Case does
/// not count.
pub open spec fn spec_push_right(name: Seq<char>) -> Option<bool> {
    spec_push_kind(lowercase_of(name))
}

/// The same for a name in lowercase.
pub open spec fn spec_push_kind(lower: Seq<char>) -> Option<bool> {
    if lower == "push"@ || lower == "rpush"@ {
        Some(true)
    } else if lower == "lpush"@ {
        Some(false)
    } else {
        None
    }
}

/// The word that a push of `bytes` puts on the stack; more than 32 bytes are too many.
pub open spec fn spec_push_word(bytes: Seq<u8>, push_right: bool, location: Location) -> Result<
    BlockFlowPushInner,
    CompileError,
> {
    if bytes.len() > 32 {
        Err(located_error(ErrorKind::ConstantTooLarge, location))
    } else {
        Ok(BlockFlowPushInner::Constant(word_of(padded(bytes, push_right))))
    }
}

/// What `block.pc` or `block.size` pushes.
pub open spec fn spec_block_field(argument: RVariableWithField, env: FlowEnv) -> Result<
    BlockFlowPushInner,
    CompileError,
> {
    let field = argument.field.inner.0@;
    let block = index_of_name(env.block_names, argument.variable.inner.0@);
    if field == "pc"@ {
        match block {
            Some(index) => Ok(BlockFlowPushInner::BlockPc(index)),
            None => Err(located_error(ErrorKind::UnknownName, argument.variable.location)),
        }
    } else if field == "size"@ {
        match block {
            Some(index) => Ok(BlockFlowPushInner::BlockSize(index)),
            None => Err(located_error(ErrorKind::UnknownName, argument.variable.location)),
        }
    } else {
        Err(located_error(ErrorKind::UnknownName, argument.field.location))
    }
}

/// What a push puts on the stack, by its argument. The place or the size of a block,
/// and a concatenation, can only be pushed as a number.
pub open spec fn spec_push_argument(function: RFunction, push_right: bool, env: FlowEnv)
    -> Result<BlockFlowPushInner, CompileError> {
    let location = function.arg.location;
    match function.arg.inner {
        RFunctionArg::HexAlias(alias) => match spec_constant_bytes(alias, location, env) {
            Err(e) => Err(e),
            Ok(bytes) => spec_push_word(bytes, push_right, location),
        },
        RFunctionArg::VariableWithField(argument) => if !push_right {
            Err(located_error(ErrorKind::InvalidPushArg, argument.variable.location))
        } else {
            spec_block_field(argument, env)
        },
        RFunctionArg::VariablesConcat(concat) => if !push_right {
            Err(located_error(ErrorKind::InvalidPushArg, location))
        } else {
            match spec_concat_bytes(Seq::empty(), concat.0@, location, env, 0) {
                Err(e) => Err(e),
                Ok(bytes) => spec_push_word(bytes, true, location),
            }
        },
    }
}

/// `current` with `bytes` after it.
pub open spec fn appended(current: Option<Seq<u8>>, bytes: Seq<u8>) -> Option<Seq<u8>> {
    match current {
        Some(c) => Some(c + bytes),
        None => Some(bytes),
    }
}

/// The state after the bytes that wait have become an item.
pub open spec fn flushed(st: FlowState) -> FlowState {
    match st.current_bytes {
        Some(bytes) => FlowState {
            items: st.items.push(FlowItemView::Bytes(bytes)),
            current_bytes: None,
            ..st
        },
        None => st,
    }
}

/// The state after a reference: `*block` and `&block` refer to a block of the
/// contract and take the attributes that wait; `&contract.code` refers to a contract.
pub open spec fn spec_flow_block_ref(
    env: FlowEnv,
    st: FlowState,
    block_ref: RBlockRef,
    location: Location,
) -> Result<FlowState, CompileError> {
    match block_ref {
        RBlockRef::Star(RBlockRefStar::Variable(variable)) => match index_of_name(
            env.block_names,
            variable.0@,
        ) {
            None => Err(located_error(ErrorKind::UnknownName, location)),
            Some(index) => Ok(
                FlowState {
                    items: st.items.push(
                        FlowItemView::BlockStar(
                            FlowRefView { index, location, attributes: st.current_attributes },
                        ),
                    ),
                    current_attributes: Seq::empty(),
                    strong_deps: with_item(st.strong_deps, index),
                    ..st
                },
            ),
        },
        RBlockRef::Esp(RBlockRefEsp::Variable(variable)) => match index_of_name(
            env.block_names,
            variable.0@,
        ) {
            None => Err(located_error(ErrorKind::UnknownName, location)),
            Some(index) => Ok(
                FlowState {
                    items: st.items.push(
                        FlowItemView::BlockEsp(
                            FlowRefView { index, location, attributes: st.current_attributes },
                        ),
                    ),
                    current_attributes: Seq::empty(),
                    strong_deps: with_item(st.strong_deps, index),
                    ..st
                },
            ),
        },
        RBlockRef::Esp(RBlockRefEsp::VariableWithField(reference)) => if reference.field.inner.0@
            != "code"@ {
            Err(located_error(ErrorKind::UnknownName, reference.field.location))
        } else {
            match index_of_name(env.contract_names, reference.variable.inner.0@) {
                None => Err(located_error(ErrorKind::UnknownName, reference.variable.location)),
                Some(index) => Ok(
                    FlowState {
                        items: st.items.push(FlowItemView::Contract(index)),
                        contract_dependencies: with_item(st.contract_dependencies, index),
                        ..st
                    },
                ),
            }
        },
    }
}

/// Whether the block whose place or size is pushed has an index below `bound`.
pub open spec fn pushed_block_below(inner: BlockFlowPushInner, bound: nat) -> bool {
    match inner {
        BlockFlowPushInner::Constant(_) => true,
        BlockFlowPushInner::BlockPc(index) => index < bound,
        BlockFlowPushInner::BlockSize(index) => index < bound,
    }
}

/// The weak dependencies after a push.
pub open spec fn with_pushed_block(weak_deps: Seq<usize>, inner: BlockFlowPushInner) -> Seq<
    usize,
> {
    match inner {
        BlockFlowPushInner::Constant(_) => weak_deps,
        BlockFlowPushInner::BlockPc(index) => with_item(weak_deps, index),
        BlockFlowPushInner::BlockSize(index) => with_item(weak_deps, index),
    }
}

/// The state after a function call: only the pushes are functions. A push takes the
/// attributes that wait.
pub open spec fn spec_flow_function(env: FlowEnv, st: FlowState, function: RFunction) -> Result<
    FlowState,
    CompileError,
> {
    match spec_push_right(function.name.inner.0@) {
        None => Err(located_error(ErrorKind::UnknownName, function.name.location)),
        Some(push_right) => match spec_push_argument(function, push_right, env) {
            Err(e) => Err(e),
            Ok(inner) => Ok(
                FlowState {
                    items: st.items.push(
                        FlowItemView::Push(
                            FlowPushView { inner, attributes: st.current_attributes },
                        ),
                    ),
                    current_attributes: Seq::empty(),
                    weak_deps: with_pushed_block(st.weak_deps, inner),
                    ..st
                },
            ),
        },
    }
}

/// The state after one item of the block. Bytes gather until an item of another kind
/// comes, which makes one item of them.
pub open spec fn flow_step(
    env: FlowEnv,
    st: FlowState,
    r_item: Located<WithAttributes<Located<RBlockItem>>>,
) -> Result<FlowState, CompileError> {
    match spec_item_attributes(
        st.current_attributes,
        r_item.inner.attributes@,
        env.compile_variables,
        0,
    ) {
        Err(e) => Err(e),
        Ok(attributes) => {
            let st1 = FlowState { current_attributes: attributes, ..st };
            let item = r_item.inner.inner;
            match item.inner {
                RBlockItem::HexAlias(alias) => match spec_hex_alias_bytes(
                    alias,
                    item.location,
                    env,
                ) {
                    Err(e) => Err(e),
                    Ok(bytes) => Ok(
                        FlowState { current_bytes: appended(st1.current_bytes, bytes), ..st1 },
                    ),
                },
                RBlockItem::BlockRef(block_ref) => spec_flow_block_ref(
                    env,
                    flushed(st1),
                    block_ref,
                    item.location,
                ),
                RBlockItem::Function(function) => spec_flow_function(env, flushed(st1), function),
            }
        },
    }
}

/// The state after the items of the block from index `from` on.
pub open spec fn flow_from(
    env: FlowEnv,
    st: FlowState,
    r_items: Seq<Located<WithAttributes<Located<RBlockItem>>>>,
    from: int,
) -> Result<FlowState, CompileError>
    decreases r_items.len() - from,
{
    if from >= r_items.len() || from < 0 {
        Ok(st)
    } else {
        match flow_step(env, st, r_items[from]) {
            Err(e) => Err(e),
            Ok(next) => flow_from(env, next, r_items, from + 1),
        }
    }
}

/// The state before the first item of a block.
pub open spec fn flow_start(contract_dependencies: Seq<usize>) -> FlowState {
    FlowState {
        items: Seq::empty(),
        current_bytes: None,
        current_attributes: Seq::empty(),
        strong_deps: Seq::empty(),
        weak_deps: Seq::empty(),
        contract_dependencies,
    }
}

/// The flow of a block, and the contracts referred to so far, `contract_dependencies`
/// being those referred to before.
pub open spec fn spec_analyze_block_flow(
    env: FlowEnv,
    r_block: RBlock,
    contract_dependencies: Seq<usize>,
) -> Result<(BlockFlowView, Seq<usize>), CompileError> {
    match flow_from(env, flow_start(contract_dependencies), r_block.items@, 0) {
        Err(e) => Err(e),
        Ok(st) => {
            let end = flushed(st);
            Ok(
                (
                    BlockFlowView {
                        items: end.items,
                        end_attributes: end.current_attributes,
                        strong_deps: end.strong_deps,
                        weak_deps: end.weak_deps,
                    },
                    end.contract_dependencies,
                ),
            )
        },
    }
}

proof fn lemma_flow_step_below(
    env: FlowEnv,
    st: FlowState,
    r_item: Located<WithAttributes<Located<RBlockItem>>>,
)
    requires
        env.block_names.len() <= usize::MAX,
        flow_step(env, st, r_item).is_ok(),
        all_below(st.strong_deps, env.block_names.len()),
        all_below(st.weak_deps, env.block_names.len()),
    ensures
        all_below(flow_step(env, st, r_item).unwrap().strong_deps, env.block_names.len()),
        all_below(flow_step(env, st, r_item).unwrap().weak_deps, env.block_names.len()),
{
    let attributes = spec_item_attributes(
        st.current_attributes,
        r_item.inner.attributes@,
        env.compile_variables,
        0,
    ).unwrap();
    let st1 = FlowState { current_attributes: attributes, ..st };
    let item = r_item.inner.inner;
    match item.inner {
        RBlockItem::HexAlias(_) => {},
        RBlockItem::BlockRef(block_ref) => {
            match block_ref {
                RBlockRef::Star(RBlockRefStar::Variable(variable)) => {
                    crate::pre_processing::names::lemma_index_of_name(
                        env.block_names,
                        variable.0@,
                    );
                },
                RBlockRef::Esp(RBlockRefEsp::Variable(variable)) => {
                    crate::pre_processing::names::lemma_index_of_name(
                        env.block_names,
                        variable.0@,
                    );
                },
                RBlockRef::Esp(RBlockRefEsp::VariableWithField(_)) => {},
            }
        },
        RBlockItem::Function(function) => {
            match function.arg.inner {
                RFunctionArg::VariableWithField(argument) => {
                    crate::pre_processing::names::lemma_index_of_name(
                        env.block_names,
                        argument.variable.inner.0@,
                    );
                },
                _ => {},
            }
        },
    }
}

proof fn lemma_flow_from_below(
    env: FlowEnv,
    st: FlowState,
    r_items: Seq<Located<WithAttributes<Located<RBlockItem>>>>,
    from: int,
)
    requires
        env.block_names.len() <= usize::MAX,
        flow_from(env, st, r_items, from).is_ok(),
        all_below(st.strong_deps, env.block_names.len()),
        all_below(st.weak_deps, env.block_names.len()),
    ensures
        all_below(flow_from(env, st, r_items, from).unwrap().strong_deps, env.block_names.len()),
        all_below(flow_from(env, st, r_items, from).unwrap().weak_deps, env.block_names.len()),
    decreases r_items.len() - from,
{
    if 0 <= from < r_items.len() {
        lemma_flow_step_below(env, st, r_items[from]);
        lemma_flow_from_below(env, flow_step(env, st, r_items[from]).unwrap(), r_items, from + 1);
    }
}

/// The blocks that a flow refers to are blocks of the contract.
pub proof fn lemma_flow_dependencies_below(
    env: FlowEnv,
    r_block: RBlock,
    contract_dependencies: Seq<usize>,
)
    requires
        env.block_names.len() <= usize::MAX,
        spec_analyze_block_flow(env, r_block, contract_dependencies).is_ok(),
    ensures
        all_below(
            spec_analyze_block_flow(env, r_block, contract_dependencies).unwrap().0.strong_deps,
            env.block_names.len(),
        ),
        all_below(
            spec_analyze_block_flow(env, r_block, contract_dependencies).unwrap().0.weak_deps,
            env.block_names.len(),
        ),
{
    lemma_flow_from_below(env, flow_start(contract_dependencies), r_block.items@, 0);
}

/// The bytes that wait in a buffer, if there is one.
pub open spec fn waiting_bytes(current_bytes: Option<BytesMut>) -> Option<Seq<u8>> {
    match current_bytes {
        Some(buffer) => Some(buffer_bytes(buffer)),
        None => None,
    }
}

/// Puts `new_bytes` at the end of the buffer, or makes a buffer of them.
pub fn append_or_create_bytes(current_bytes: &mut Option<BytesMut>, new_bytes: &[u8])
    ensures
        waiting_bytes(*final(current_bytes)) == appended(
            waiting_bytes(*old(current_bytes)),
            new_bytes@,
        ),
{
    let mut buffer = match current_bytes.take() {
        Some(buffer) => buffer,
        None => buffer_new(),
    };
    buffer_extend(&mut buffer, new_bytes);
    assert(Seq::<u8>::empty() + new_bytes@ =~= new_bytes@);
    *current_bytes = Some(buffer);
}

/// Puts `new_byte` at the end of the buffer, or makes a buffer of it.
pub fn push_or_create_bytes(current_bytes: &mut Option<BytesMut>, new_byte: u8)
    ensures
        waiting_bytes(*final(current_bytes)) == appended(
            waiting_bytes(*old(current_bytes)),
            seq![new_byte],
        ),
{
    let mut buffer = match current_bytes.take() {
        Some(buffer) => buffer,
        None => buffer_new(),
    };
    proof {
        assert(buffer_bytes(buffer).push(new_byte) =~= buffer_bytes(buffer) + seq![new_byte]);
        assert(Seq::<u8>::empty().push(new_byte) =~= seq![new_byte]);
    }
    buffer_put_u8(&mut buffer, new_byte);
    *current_bytes = Some(buffer);
}

/// Tells whether `name` is the name of a function: of one of the pushes.
pub fn is_function_name(name: &str) -> (res: bool)
    ensures
        res == spec_push_right(name@).is_some(),
{
    push_right_of(name).is_some()
}

/// Tells of a function name in lowercase whether it is a push that holds its bytes at
/// the end of the word (`push`, `rpush`) or one that holds them at the start (`lpush`);
/// `None` for any other name.
pub fn push_kind(lower: &str) -> (res: Option<bool>)
    ensures
        res == spec_push_kind(lower@),
{
    if *lower == *"push" || *lower == *"rpush" {
        Some(true)
    } else if *lower == *"lpush" {
        Some(false)
    } else {
        None
    }
}

fn push_right_of(name: &str) -> (res: Option<bool>)
    ensures
        res == spec_push_right(name@),
{
    let lower = to_lowercase(name);
    push_kind(lower.as_str())
}

/// The names that the items of a block may refer to, as the tables give them.
pub open spec fn flow_env(
    constants: Seq<NamedBytes>,
    contract_names: Seq<String>,
    block_names: Seq<String>,
    compile_variables: Seq<NamedBytes>,
) -> FlowEnv {
    FlowEnv {
        constants: table_view(constants),
        contract_names: string_names(contract_names),
        block_names: string_names(block_names),
        compile_variables: table_view(compile_variables),
    }
}

proof fn lemma_flow_items_push(items: Seq<BlockFlowItem>, item: BlockFlowItem)
    ensures
        flow_items_view(items.push(item)) == flow_items_view(items).push(item@),
{
    assert(flow_items_view(items.push(item)) =~= flow_items_view(items).push(item@));
}

/// What has been read of a block.
struct Analysis {
    items: Vec<BlockFlowItem>,
    current_bytes: Option<BytesMut>,
    current_attributes: Vec<Attribute>,
    strong_deps: IndexedVec,
    weak_deps: IndexedVec,
}

impl Analysis {
    spec fn state(&self, contract_dependencies: Seq<usize>) -> FlowState {
        FlowState {
            items: flow_items_view(self.items@),
            current_bytes: waiting_bytes(self.current_bytes),
            current_attributes: self.current_attributes@,
            strong_deps: self.strong_deps@,
            weak_deps: self.weak_deps@,
            contract_dependencies,
        }
    }

    fn flush(&mut self, Ghost(contract_dependencies): Ghost<Seq<usize>>)
        ensures
            final(self).state(contract_dependencies) == flushed(
                old(self).state(contract_dependencies),
            ),
            final(self).strong_deps@ == old(self).strong_deps@,
            final(self).weak_deps@ == old(self).weak_deps@,
    {
        if let Some(buffer) = self.current_bytes.take() {
            let bytes = buffer_to_vec(&buffer);
            proof {
                lemma_flow_items_push(self.items@, BlockFlowItem::Bytes(bytes));
            }
            self.items.push(BlockFlowItem::Bytes(bytes));
        }
    }

    fn take_attributes(&mut self) -> (res: Vec<Attribute>)
        ensures
            res@ == old(self).current_attributes@,
            final(self).current_attributes@ == Seq::<Attribute>::empty(),
            final(self).items == old(self).items,
            final(self).current_bytes == old(self).current_bytes,
            final(self).strong_deps == old(self).strong_deps,
            final(self).weak_deps == old(self).weak_deps,
    {
        let mut taken: Vec<Attribute> = Vec::new();
        core::mem::swap(&mut taken, &mut self.current_attributes);
        taken
    }
}

fn item_attributes(
    r_attributes: &Vec<Located<RAttribute>>,
    current: &mut Vec<Attribute>,
    compile_variables: &Vec<NamedBytes>,
) -> (res: Result<(), CompileError>)
    ensures
        match spec_item_attributes(
            old(current)@,
            r_attributes@,
            table_view(compile_variables@),
            0,
        ) {
            Ok(attributes) => res.is_ok() && final(current)@ == attributes,
            Err(e) => res matches Err(err) && err == e,
        },
{
    let mut i: usize = 0;
    while i < r_attributes.len()
        invariant
            i <= r_attributes@.len(),
            spec_item_attributes(old(current)@, r_attributes@, table_view(compile_variables@), 0)
                == spec_item_attributes(
                current@,
                r_attributes@,
                table_view(compile_variables@),
                i as int,
            ),
        decreases r_attributes@.len() - i,
    {
        let attribute = match Attribute::from_r_attribute(&r_attributes[i], compile_variables) {
            Ok(attribute) => attribute,
            Err(e) => {
                return Err(e);
            },
        };
        if attribute.is_block_item_attribute() {
            current.push(attribute);
        } else {
            return Err(
                new_error_from_located(&r_attributes[i], ErrorKind::InvalidAttributePlacement),
            );
        }
        i += 1;
    }
    Ok(())
}

fn append_hex_alias(
    current_bytes: &mut Option<BytesMut>,
    alias: &RHexAlias,
    location: &Location,
    constants: &Vec<NamedBytes>,
    compile_variables: &Vec<NamedBytes>,
    Ghost(env): Ghost<FlowEnv>,
) -> (res: Result<(), CompileError>)
    requires
        env.constants == table_view(constants@),
        env.compile_variables == table_view(compile_variables@),
    ensures
        match spec_hex_alias_bytes(*alias, *location, env) {
            Ok(bytes) => res.is_ok() && waiting_bytes(*final(current_bytes)) == appended(
                waiting_bytes(*old(current_bytes)),
                bytes,
            ),
            Err(e) => res matches Err(err) && err == e,
        },
{
    match alias {
        RHexAlias::HexLiteral(hex_literal) => {
            append_or_create_bytes(current_bytes, hex_literal.0.as_slice());
        },
        RHexAlias::Variable(variable) => {
            let variable_name = variable.as_str();
            if let Some(op) = str_to_op(variable_name) {
                push_or_create_bytes(current_bytes, op);
            } else if let Some(index) = find_named(constants, variable_name) {
                append_or_create_bytes(current_bytes, constants[index].value.as_slice());
            } else {
                return Err(new_error_from_location(location, ErrorKind::UnknownName));
            }
        },
        RHexAlias::CompileVariable(compile_variable) => {
            match get_compile_variable_value(compile_variable, compile_variables) {
                Ok(value) => {
                    append_or_create_bytes(current_bytes, value.as_slice());
                },
                Err(e) => {
                    return Err(e);
                },
            }
        },
    }
    Ok(())
}

fn constant_bytes<'a>(
    alias: &'a RHexAlias,
    location: &Location,
    constants: &'a Vec<NamedBytes>,
    compile_variables: &'a Vec<NamedBytes>,
    Ghost(env): Ghost<FlowEnv>,
) -> (res: Result<&'a Vec<u8>, CompileError>)
    requires
        env.constants == table_view(constants@),
        env.compile_variables == table_view(compile_variables@),
    ensures
        match spec_constant_bytes(*alias, *location, env) {
            Ok(bytes) => res matches Ok(value) && value@ == bytes,
            Err(e) => res matches Err(err) && err == e,
        },
{
    match alias {
        RHexAlias::HexLiteral(hex_literal) => Ok(&hex_literal.0),
        RHexAlias::Variable(variable) => match find_named(constants, variable.as_str()) {
            Some(index) => Ok(&constants[index].value),
            None => Err(new_error_from_location(location, ErrorKind::UnknownName)),
        },
        RHexAlias::CompileVariable(compile_variable) => get_compile_variable_value(
            compile_variable,
            compile_variables,
        ),
    }
}

fn concat_bytes(
    parts: &Vec<Located<RHexAlias>>,
    location: &Location,
    constants: &Vec<NamedBytes>,
    compile_variables: &Vec<NamedBytes>,
    Ghost(env): Ghost<FlowEnv>,
) -> (res: Result<BytesMut, CompileError>)
    requires
        env.constants == table_view(constants@),
        env.compile_variables == table_view(compile_variables@),
    ensures
        match spec_concat_bytes(Seq::empty(), parts@, *location, env, 0) {
            Ok(bytes) => res matches Ok(buffer) && buffer_bytes(buffer) == bytes,
            Err(e) => res matches Err(err) && err == e,
        },
{
    let mut bytes = buffer_new();
    let mut i: usize = 0;
    while i < parts.len()
        invariant
            i <= parts@.len(),
            env.constants == table_view(constants@),
            env.compile_variables == table_view(compile_variables@),
            spec_concat_bytes(Seq::empty(), parts@, *location, env, 0) == spec_concat_bytes(
                buffer_bytes(bytes),
                parts@,
                *location,
                env,
                i as int,
            ),
        decreases parts@.len() - i,
    {
        let value = match constant_bytes(
            &parts[i].inner,
            location,
            constants,
            compile_variables,
            Ghost(env),
        ) {
            Ok(value) => value,
            Err(e) => {
                return Err(e);
            },
        };
        buffer_extend(&mut bytes, value.as_slice());
        i += 1;
    }
    Ok(bytes)
}

fn push_word(bytes: &[u8], push_right: bool, location: &Location) -> (res: Result<
    BlockFlowPushInner,
    CompileError,
>)
    ensures
        res == spec_push_word(bytes@, push_right, *location),
{
    match Bytes32::from_bytes(bytes, push_right) {
        Some(formatted) => Ok(BlockFlowPushInner::Constant(formatted)),
        None => Err(new_error_from_location(location, ErrorKind::ConstantTooLarge)),
    }
}

fn block_field(argument: &RVariableWithField, block_names: &Vec<String>, Ghost(env): Ghost<FlowEnv>)
    -> (res: Result<BlockFlowPushInner, CompileError>)
    requires
        env.block_names == string_names(block_names@),
    ensures
        res == spec_block_field(*argument, env),
        res matches Ok(inner) ==> pushed_block_below(inner, block_names@.len()),
{
    let field_name = argument.field.inner.as_str();
    let variable_name = argument.variable.inner.as_str();
    if *field_name == *"pc" {
        match find_name(block_names, variable_name) {
            Some(block_index) => Ok(BlockFlowPushInner::BlockPc(block_index)),
            None => Err(new_error_from_located(&argument.variable, ErrorKind::UnknownName)),
        }
    } else if *field_name == *"size" {
        match find_name(block_names, variable_name) {
            Some(block_index) => Ok(BlockFlowPushInner::BlockSize(block_index)),
            None => Err(new_error_from_located(&argument.variable, ErrorKind::UnknownName)),
        }
    } else {
        Err(new_error_from_located(&argument.field, ErrorKind::UnknownName))
    }
}

fn push_argument(
    function: &RFunction,
    push_right: bool,
    constants: &Vec<NamedBytes>,
    block_names: &Vec<String>,
    compile_variables: &Vec<NamedBytes>,
    Ghost(env): Ghost<FlowEnv>,
) -> (res: Result<BlockFlowPushInner, CompileError>)
    requires
        env.constants == table_view(constants@),
        env.compile_variables == table_view(compile_variables@),
        env.block_names == string_names(block_names@),
    ensures
        res == spec_push_argument(*function, push_right, env),
        res matches Ok(inner) ==> pushed_block_below(inner, block_names@.len()),
{
    let location = &function.arg.location;
    match &function.arg.inner {
        RFunctionArg::HexAlias(alias) => {
            match constant_bytes(alias, location, constants, compile_variables, Ghost(env)) {
                Ok(bytes) => push_word(bytes.as_slice(), push_right, location),
                Err(e) => Err(e),
            }
        },
        RFunctionArg::VariableWithField(argument) => {
            if !push_right {
                return Err(new_error_from_located(&argument.variable, ErrorKind::InvalidPushArg));
            }
            block_field(argument, block_names, Ghost(env))
        },
        RFunctionArg::VariablesConcat(concat) => {
            if !push_right {
                return Err(new_error_from_location(location, ErrorKind::InvalidPushArg));
            }
            match concat_bytes(&concat.0, location, constants, compile_variables, Ghost(env)) {
                Ok(buffer) => {
                    let bytes = buffer_to_vec(&buffer);
                    push_word(bytes.as_slice(), true, location)
                },
                Err(e) => Err(e),
            }
        },
    }
}

fn flow_block_ref(
    analysis: &mut Analysis,
    contract_dependencies: &mut IndexedVec,
    block_ref: &RBlockRef,
    location: &Location,
    contract_names: &Vec<String>,
    block_names: &Vec<String>,
    Ghost(env): Ghost<FlowEnv>,
) -> (res: Result<(), CompileError>)
    requires
        env.contract_names == string_names(contract_names@),
        env.block_names == string_names(block_names@),
    ensures
        match spec_flow_block_ref(
            env,
            old(analysis).state(old(contract_dependencies)@),
            *block_ref,
            *location,
        ) {
            Ok(st) => res.is_ok() && final(analysis).state(final(contract_dependencies)@) == st,
            Err(e) => res matches Err(err) && err == e,
        },
        all_below(old(analysis).strong_deps@, block_names@.len()) ==> all_below(
            final(analysis).strong_deps@,
            block_names@.len(),
        ),
        all_below(old(contract_dependencies)@, contract_names@.len()) ==> all_below(
            final(contract_dependencies)@,
            contract_names@.len(),
        ),
        final(analysis).weak_deps@ == old(analysis).weak_deps@,
{
    match block_ref {
        RBlockRef::Star(RBlockRefStar::Variable(variable)) => {
            let Some(block_index) = find_name(block_names, variable.as_str()) else {
                return Err(new_error_from_location(location, ErrorKind::UnknownName));
            };
            analysis.strong_deps.insert(block_index);
            let attributes = analysis.take_attributes();
            let item = BlockFlowItem::BlockStar(
                BlockFlowBlockRef { index: block_index, location: *location, attributes },
            );
            proof {
                lemma_flow_items_push(analysis.items@, item);
            }
            analysis.items.push(item);
        },
        RBlockRef::Esp(RBlockRefEsp::Variable(variable)) => {
            let Some(block_index) = find_name(block_names, variable.as_str()) else {
                return Err(new_error_from_location(location, ErrorKind::UnknownName));
            };
            analysis.strong_deps.insert(block_index);
            let attributes = analysis.take_attributes();
            let item = BlockFlowItem::BlockEsp(
                BlockFlowBlockRef { index: block_index, location: *location, attributes },
            );
            proof {
                lemma_flow_items_push(analysis.items@, item);
            }
            analysis.items.push(item);
        },
        RBlockRef::Esp(RBlockRefEsp::VariableWithField(reference)) => {
            let field_name = reference.field.inner.as_str();
            if *field_name != *"code" {
                return Err(new_error_from_located(&reference.field, ErrorKind::UnknownName));
            }
            let Some(contract_index) = find_name(
                contract_names,
                reference.variable.inner.as_str(),
            ) else {
                return Err(new_error_from_located(&reference.variable, ErrorKind::UnknownName));
            };
            let item = BlockFlowItem::Contract(contract_index);
            proof {
                lemma_flow_items_push(analysis.items@, item);
            }
            analysis.items.push(item);
            contract_dependencies.insert(contract_index);
        },
    }
    Ok(())
}

fn flow_function(
    analysis: &mut Analysis,
    function: &RFunction,
    constants: &Vec<NamedBytes>,
    block_names: &Vec<String>,
    compile_variables: &Vec<NamedBytes>,
    Ghost(env): Ghost<FlowEnv>,
    Ghost(contract_dependencies): Ghost<Seq<usize>>,
) -> (res: Result<(), CompileError>)
    requires
        env.constants == table_view(constants@),
        env.compile_variables == table_view(compile_variables@),
        env.block_names == string_names(block_names@),
    ensures
        match spec_flow_function(env, old(analysis).state(contract_dependencies), *function) {
            Ok(st) => res.is_ok() && final(analysis).state(contract_dependencies) == st,
            Err(e) => res matches Err(err) && err == e,
        },
        all_below(old(analysis).weak_deps@, block_names@.len()) ==> all_below(
            final(analysis).weak_deps@,
            block_names@.len(),
        ),
        final(analysis).strong_deps@ == old(analysis).strong_deps@,
{
    let Some(push_right) = push_right_of(function.name.inner.as_str()) else {
        return Err(new_error_from_located(&function.name, ErrorKind::UnknownName));
    };
    let inner = match push_argument(
        function,
        push_right,
        constants,
        block_names,
        compile_variables,
        Ghost(env),
    ) {
        Ok(inner) => inner,
        Err(e) => {
            return Err(e);
        },
    };
    match inner {
        BlockFlowPushInner::Constant(_) => {},
        BlockFlowPushInner::BlockPc(block_index) => {
            analysis.weak_deps.insert(block_index);
        },
        BlockFlowPushInner::BlockSize(block_index) => {
            analysis.weak_deps.insert(block_index);
        },
    }
    let attributes = analysis.take_attributes();
    let item = BlockFlowItem::Push(BlockFlowPush { inner, attributes });
    proof {
        lemma_flow_items_push(analysis.items@, item);
    }
    analysis.items.push(item);
    Ok(())
}

/// Reads the items of a block, first to last, into its flow. The contracts that the
/// block refers to join `contract_dependencies`.
pub fn analyze_block_flow(
    r_block_with_attr: &Located<WithAttributes<Located<RBlock>>>,
    constants: &Vec<NamedBytes>,
    contract_names: &Vec<String>,
    block_names: &Vec<String>,
    contract_dependencies: &mut IndexedVec,
    compile_variables: &Vec<NamedBytes>,
) -> (res: Result<BlockFlow, CompileError>)
    ensures
        match spec_analyze_block_flow(
            flow_env(constants@, contract_names@, block_names@, compile_variables@),
            r_block_with_attr.inner.inner.inner,
            old(contract_dependencies)@,
        ) {
            Ok((flow, dependencies)) => res matches Ok(block_flow) && block_flow@ == flow
                && final(contract_dependencies)@ == dependencies,
            Err(e) => res matches Err(err) && err == e,
        },
        res matches Ok(block_flow) ==> all_below(block_flow.strong_deps@, block_names@.len())
            && all_below(block_flow.weak_deps@, block_names@.len()),
        all_below(old(contract_dependencies)@, contract_names@.len()) ==> all_below(
            final(contract_dependencies)@,
            contract_names@.len(),
        ),
{
    let r_block = &r_block_with_attr.inner.inner.inner;
    let ghost env = flow_env(constants@, contract_names@, block_names@, compile_variables@);
    let mut analysis = Analysis {
        items: Vec::new(),
        current_bytes: None,
        current_attributes: Vec::new(),
        strong_deps: IndexedVec::new(),
        weak_deps: IndexedVec::new(),
    };
    let ghost start = flow_start(contract_dependencies@);
    assert(analysis.state(contract_dependencies@) =~= start);
    let mut i: usize = 0;
    while i < r_block.items.len()
        invariant
            i <= r_block.items@.len(),
            env == flow_env(constants@, contract_names@, block_names@, compile_variables@),
            start == flow_start(old(contract_dependencies)@),
            r_block == &r_block_with_attr.inner.inner.inner,
            all_below(analysis.strong_deps@, block_names@.len()),
            all_below(analysis.weak_deps@, block_names@.len()),
            all_below(old(contract_dependencies)@, contract_names@.len()) ==> all_below(
                contract_dependencies@,
                contract_names@.len(),
            ),
            flow_from(env, start, r_block.items@, 0) == flow_from(
                env,
                analysis.state(contract_dependencies@),
                r_block.items@,
                i as int,
            ),
        decreases r_block.items@.len() - i,
    {
        let r_item_with_attr = &r_block.items[i];
        let ghost before = analysis.state(contract_dependencies@);
        match item_attributes(
            &r_item_with_attr.inner.attributes,
            &mut analysis.current_attributes,
            compile_variables,
        ) {
            Ok(()) => {},
            Err(e) => {
                return Err(e);
            },
        }
        let r_item = &r_item_with_attr.inner.inner;
        let ghost st1 = FlowState { current_attributes: analysis.current_attributes@, ..before };
        assert(analysis.state(contract_dependencies@) == st1);
        match &r_item.inner {
            RBlockItem::HexAlias(alias) => {
                match append_hex_alias(
                    &mut analysis.current_bytes,
                    alias,
                    &r_item.location,
                    constants,
                    compile_variables,
                    Ghost(env),
                ) {
                    Ok(()) => {},
                    Err(e) => {
                        return Err(e);
                    },
                }
            },
            RBlockItem::BlockRef(block_ref) => {
                analysis.flush(Ghost(contract_dependencies@));
                match flow_block_ref(
                    &mut analysis,
                    contract_dependencies,
                    block_ref,
                    &r_item.location,
                    contract_names,
                    block_names,
                    Ghost(env),
                ) {
                    Ok(()) => {},
                    Err(e) => {
                        return Err(e);
                    },
                }
            },
            RBlockItem::Function(function) => {
                analysis.flush(Ghost(contract_dependencies@));
                match flow_function(
                    &mut analysis,
                    function,
                    constants,
                    block_names,
                    compile_variables,
                    Ghost(env),
                    Ghost(contract_dependencies@),
                ) {
                    Ok(()) => {},
                    Err(e) => {
                        return Err(e);
                    },
                }
            },
        }
        assert(flow_step(env, before, r_block.items@[i as int]) == Ok::<FlowState, CompileError>(
            analysis.state(contract_dependencies@),
        ));
        i += 1;
    }
    analysis.flush(Ghost(contract_dependencies@));
    Ok(
        BlockFlow {
            items: analysis.items,
            end_attributes: analysis.current_attributes,
            strong_deps: analysis.strong_deps,
            weak_deps: analysis.weak_deps,
        },
    )
}

} // verus!
