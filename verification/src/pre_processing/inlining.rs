use vstd::prelude::*;
use crate::ast::attribute::WithAttributes;
use crate::ast::block::RBlock;
use crate::parser::error::{new_error_from_location, CompileError, ErrorKind};
use crate::parser::parser::{Located, Location};
use crate::pre_processing::attribute::{apply_all, Attribute, Attributes, AttributesView};
use crate::pre_processing::block_flow::{
    flow_items_view,
    located_error,
    BlockFlow,
    BlockFlowBlockRef,
    BlockFlowItem,
    BlockFlowPushInner,
    BlockFlowView,
    FlowItemView,
    FlowRefView,
};
use crate::pre_processing::declarations::attribute_lists;
use crate::pre_processing::pre_processing::{
    block_items_view,
    BlockItem,
    BlockItemView,
    BlockPosition,
    BlockPreProcessingContext,
    Push,
    PushInner,
    PushView,
};

verus! {

/// What the blocks of a contract are, for laying them out: which are abstract, the flow
/// of each that was read, and the attributes written before each.
pub struct InlineEnv {
    pub abstr: Seq<bool>,
    pub flows: Seq<Option<BlockFlowView>>,
    pub block_attributes: Seq<Seq<Attribute>>,
}

/// What laying out has come to: the items of the block that is being filled, the
/// attributes in force, which blocks were referred to by `*`, and where each block was
/// laid out last.
#[verifier::ext_equal]
pub struct InlineState {
    pub items: Seq<BlockItemView>,
    pub attributes: AttributesView,
    pub dereferenced: Seq<bool>,
    pub positions: Seq<Option<BlockPosition>>,
}

/// What a push becomes when the flow is laid out: the places of the blocks are filled
/// in later.
pub open spec fn unplaced_push(inner: BlockFlowPushInner) -> PushInner {
    match inner {
        BlockFlowPushInner::Constant(word) => PushInner::Constant(word),
        BlockFlowPushInner::BlockPc(index) => PushInner::BlockPc { index, line: 0 },
        BlockFlowPushInner::BlockSize(index) => PushInner::BlockSize { index, start: 0, end: 0 },
    }
}

/// Whether the block `index` can be laid out: it is one of the blocks, and it was read.
pub open spec fn can_inline(env: InlineEnv, st: InlineState, index: usize) -> bool {
    &&& index < env.flows.len()
    &&& index < env.abstr.len()
    &&& index < env.block_attributes.len()
    &&& index < st.dereferenced.len()
    &&& index < st.positions.len()
    &&& env.flows[index as int].is_some()
}

/// Lays the block `index` out at the end of the items, with the blocks that it refers
/// to, and notes where it went. `parents` are the blocks that are being laid out around
/// it; `depth` is how deep the blocks may still nest.
pub open spec fn inline_block(
    env: InlineEnv,
    index: usize,
    context: BlockPreProcessingContext,
    parents: Seq<usize>,
    st: InlineState,
    location: Option<Location>,
    depth: nat,
) -> Result<InlineState, CompileError>
    decreases depth, 1nat, 0nat,
{
    if !can_inline(env, st, index) {
        Err(CompileError { kind: ErrorKind::UnknownName, location })
    } else {
        let flow = env.flows[index as int].unwrap();
        let start = InlineState {
            attributes: apply_all(st.attributes, env.block_attributes[index as int]),
            ..st
        };
        match inline_items(env, context, parents, start, flow.items, 0, depth) {
            Err(e) => Err(e),
            Ok(end) => Ok(
                InlineState {
                    positions: end.positions.update(
                        index as int,
                        Some(
                            BlockPosition {
                                root_index: context.root_index,
                                start: context.line_index,
                                end: end.items.len() as usize,
                            },
                        ),
                    ),
                    ..end
                },
            ),
        }
    }
}

/// Lays out what a reference refers to. `&` takes an abstract block, `*` one that is
/// not, once in the contract and not from inside an abstract block. A block cannot be
/// laid out inside itself. The attributes that come into force inside the block end with
/// it; after an abstract block, the attributes that end it come into force.
pub open spec fn inline_reference(
    env: InlineEnv,
    context: BlockPreProcessingContext,
    parents: Seq<usize>,
    st: InlineState,
    reference: FlowRefView,
    star: bool,
    depth: nat,
) -> Result<InlineState, CompileError>
    decreases depth, 0nat, 0nat,
{
    let index = reference.index;
    let location = reference.location;
    let applied = InlineState { attributes: apply_all(st.attributes, reference.attributes), ..st };
    if !can_inline(env, st, index) {
        Err(located_error(ErrorKind::UnknownName, location))
    } else if star && context.inside_abstract {
        Err(located_error(ErrorKind::StarInsideAbstract, location))
    } else if star && env.abstr[index as int] {
        Err(located_error(ErrorKind::StarOnAbstract, location))
    } else if !star && !env.abstr[index as int] {
        Err(located_error(ErrorKind::EspOnConcrete, location))
    } else if star && st.dereferenced[index as int] {
        Err(located_error(ErrorKind::StarTwice, location))
    } else if parents.contains(index) || depth == 0 {
        Err(located_error(ErrorKind::RecursiveBlocks, location))
    } else {
        let marked = InlineState {
            dereferenced: if star {
                applied.dereferenced.update(index as int, true)
            } else {
                applied.dereferenced
            },
            ..applied
        };
        match inline_block(
            env,
            index,
            BlockPreProcessingContext {
                root_index: context.root_index,
                inside_abstract: !star,
                line_index: st.items.len() as usize,
            },
            parents.push(index),
            marked,
            Some(location),
            (depth - 1) as nat,
        ) {
            Err(e) => Err(e),
            Ok(end) => Ok(
                InlineState {
                    attributes: if star {
                        applied.attributes
                    } else {
                        apply_all(
                            applied.attributes,
                            env.flows[index as int].unwrap().end_attributes,
                        )
                    },
                    ..end
                },
            ),
        }
    }
}

/// Lays out the items of a flow from index `from` on. A push takes the attributes in
/// force where it stands.
pub open spec fn inline_items(
    env: InlineEnv,
    context: BlockPreProcessingContext,
    parents: Seq<usize>,
    st: InlineState,
    flow_items: Seq<FlowItemView>,
    from: int,
    depth: nat,
) -> Result<InlineState, CompileError>
    decreases depth, 0nat, 1 + flow_items.len() - from,
{
    if from >= flow_items.len() || from < 0 {
        Ok(st)
    } else {
        let next = match flow_items[from] {
            FlowItemView::Bytes(bytes) => Ok(
                InlineState { items: st.items.push(BlockItemView::Bytes(bytes)), ..st },
            ),
            FlowItemView::Contract(index) => Ok(
                InlineState { items: st.items.push(BlockItemView::Contract(index)), ..st },
            ),
            FlowItemView::Push(push) => {
                let attributes = apply_all(st.attributes, push.attributes);
                Ok(
                    InlineState {
                        items: st.items.push(
                            BlockItemView::Push(
                                PushView { attributes, inner: unplaced_push(push.inner) },
                            ),
                        ),
                        attributes,
                        ..st
                    },
                )
            },
            FlowItemView::BlockEsp(reference) => inline_reference(
                env,
                context,
                parents,
                st,
                reference,
                false,
                depth,
            ),
            FlowItemView::BlockStar(reference) => inline_reference(
                env,
                context,
                parents,
                st,
                reference,
                true,
                depth,
            ),
        };
        match next {
            Err(e) => Err(e),
            Ok(next) => inline_items(env, context, parents, next, flow_items, from + 1, depth),
        }
    }
}

/// The flows of the blocks as values of the mathematics.
pub open spec fn flows_view(blocks_flow: Seq<Option<BlockFlow>>) -> Seq<Option<BlockFlowView>> {
    blocks_flow.map_values(
        |flow: Option<BlockFlow>|
            match flow {
                Some(flow) => Some(flow@),
                None => None,
            },
    )
}

/// For each block, whether it is abstract.
pub open spec fn abstract_flags(r_blocks: Seq<Located<WithAttributes<Located<RBlock>>>>) -> Seq<
    bool,
> {
    r_blocks.map_values(
        |r_block: Located<WithAttributes<Located<RBlock>>>| r_block.inner.inner.inner.abstr,
    )
}

/// What the blocks of a contract are, for laying them out.
pub open spec fn inline_env(
    r_blocks: Seq<Located<WithAttributes<Located<RBlock>>>>,
    blocks_flow: Seq<Option<BlockFlow>>,
    block_attributes: Seq<Vec<Attribute>>,
) -> InlineEnv {
    InlineEnv {
        abstr: abstract_flags(r_blocks),
        flows: flows_view(blocks_flow),
        block_attributes: attribute_lists(block_attributes),
    }
}

proof fn lemma_block_items_push(items: Seq<BlockItem>, item: BlockItem)
    ensures
        block_items_view(items.push(item)) == block_items_view(items).push(item@),
{
    assert(block_items_view(items.push(item)) =~= block_items_view(items).push(item@));
}

/// What laying out has come to.
pub(crate) struct Inlining {
    pub(crate) items: Vec<BlockItem>,
    pub(crate) attributes: Attributes,
    pub(crate) dereferenced: Vec<bool>,
    pub(crate) positions: Vec<Option<BlockPosition>>,
}

impl Inlining {
    pub(crate) open spec fn state(&self) -> InlineState {
        InlineState {
            items: block_items_view(self.items@),
            attributes: self.attributes@,
            dereferenced: self.dereferenced@,
            positions: self.positions@,
        }
    }

    fn push_item(&mut self, item: BlockItem)
        ensures
            final(self).state() == (InlineState {
                items: old(self).state().items.push(item@),
                ..old(self).state()
            }),
            final(self).attributes == old(self).attributes,
            final(self).dereferenced == old(self).dereferenced,
            final(self).positions == old(self).positions,
    {
        proof {
            lemma_block_items_push(self.items@, item);
        }
        self.items.push(item);
    }
}

fn can_inline_block(
    index: usize,
    r_blocks: &Vec<Located<WithAttributes<Located<RBlock>>>>,
    blocks_flow: &Vec<Option<BlockFlow>>,
    block_attributes: &Vec<Vec<Attribute>>,
    inlining: &Inlining,
) -> (res: bool)
    ensures
        res == can_inline(
            inline_env(r_blocks@, blocks_flow@, block_attributes@),
            inlining.state(),
            index,
        ),
{
    index < blocks_flow.len() && index < r_blocks.len() && index < block_attributes.len() && index
        < inlining.dereferenced.len() && index < inlining.positions.len()
        && blocks_flow[index].is_some()
}

pub(crate) fn contains_index(list: &Vec<usize>, index: usize) -> (res: bool)
    ensures
        res == list@.contains(index),
{
    let mut i: usize = 0;
    while i < list.len()
        invariant
            i <= list@.len(),
            forall|k: int| 0 <= k < i ==> list@[k] != index,
        decreases list@.len() - i,
    {
        if list[i] == index {
            return true;
        }
        i += 1;
    }
    false
}

fn pre_process_reference(
    reference: &BlockFlowBlockRef,
    star: bool,
    r_blocks: &Vec<Located<WithAttributes<Located<RBlock>>>>,
    blocks_flow: &Vec<Option<BlockFlow>>,
    context: BlockPreProcessingContext,
    parents: &mut Vec<usize>,
    inlining: &mut Inlining,
    block_attributes: &Vec<Vec<Attribute>>,
    depth: usize,
) -> (res: Result<(), CompileError>)
    ensures
        match inline_reference(
            inline_env(r_blocks@, blocks_flow@, block_attributes@),
            context,
            old(parents)@,
            old(inlining).state(),
            reference@,
            star,
            depth as nat,
        ) {
            Ok(st) => res.is_ok() && final(inlining).state() == st,
            Err(e) => res matches Err(err) && err == e,
        },
        res.is_ok() ==> final(parents)@ == old(parents)@,
        final(inlining).dereferenced@.len() == old(inlining).dereferenced@.len(),
        final(inlining).positions@.len() == old(inlining).positions@.len(),
    decreases depth, 0nat,
{
    let index = reference.index;
    let location = &reference.location;
    if !can_inline_block(index, r_blocks, blocks_flow, block_attributes, inlining) {
        return Err(new_error_from_location(location, ErrorKind::UnknownName));
    }
    let abstr = r_blocks[index].inner.inner.inner.abstr;
    if star && context.inside_abstract {
        return Err(new_error_from_location(location, ErrorKind::StarInsideAbstract));
    }
    if star && abstr {
        return Err(new_error_from_location(location, ErrorKind::StarOnAbstract));
    }
    if !star && !abstr {
        return Err(new_error_from_location(location, ErrorKind::EspOnConcrete));
    }
    if star && inlining.dereferenced[index] {
        return Err(new_error_from_location(location, ErrorKind::StarTwice));
    }
    if contains_index(parents, index) || depth == 0 {
        return Err(new_error_from_location(location, ErrorKind::RecursiveBlocks));
    }
    inlining.attributes.apply_many(&reference.attributes);
    let mut outside = inlining.attributes.snapshot();
    if star {
        inlining.dereferenced[index] = true;
    }
    parents.push(index);
    let next_context = context.next_context(!star, inlining.items.len());
    match pre_process_block(
        index,
        r_blocks,
        blocks_flow,
        next_context,
        parents,
        inlining,
        block_attributes,
        Some(*location),
        depth - 1,
    ) {
        Ok(()) => {},
        Err(e) => {
            return Err(e);
        },
    }
    parents.pop();
    assert(parents@ =~= old(parents)@);
    if !star {
        match &blocks_flow[index] {
            Some(block_flow) => {
                outside.apply_many(&block_flow.end_attributes);
            },
            None => {},
        }
    }
    inlining.attributes = outside;
    Ok(())
}

pub(crate) fn pre_process_block(
    index_to_process: usize,
    r_blocks: &Vec<Located<WithAttributes<Located<RBlock>>>>,
    blocks_flow: &Vec<Option<BlockFlow>>,
    context: BlockPreProcessingContext,
    parents: &mut Vec<usize>,
    inlining: &mut Inlining,
    block_attributes: &Vec<Vec<Attribute>>,
    location: Option<Location>,
    depth: usize,
) -> (res: Result<(), CompileError>)
    ensures
        match inline_block(
            inline_env(r_blocks@, blocks_flow@, block_attributes@),
            index_to_process,
            context,
            old(parents)@,
            old(inlining).state(),
            location,
            depth as nat,
        ) {
            Ok(st) => res.is_ok() && final(inlining).state() == st,
            Err(e) => res matches Err(err) && err == e,
        },
        res.is_ok() ==> final(parents)@ == old(parents)@,
        final(inlining).dereferenced@.len() == old(inlining).dereferenced@.len(),
        final(inlining).positions@.len() == old(inlining).positions@.len(),
    decreases depth, 1nat,
{
    let ghost env = inline_env(r_blocks@, blocks_flow@, block_attributes@);
    if !can_inline_block(index_to_process, r_blocks, blocks_flow, block_attributes, inlining) {
        return Err(CompileError { kind: ErrorKind::UnknownName, location });
    }
    inlining.attributes.apply_many(&block_attributes[index_to_process]);
    let Some(block_flow) = &blocks_flow[index_to_process] else {
        return Err(CompileError { kind: ErrorKind::UnknownName, location });
    };
    let ghost start = inlining.state();
    let ghost flow_items = flow_items_view(block_flow.items@);
    let mut i: usize = 0;
    while i < block_flow.items.len()
        invariant
            i <= block_flow.items@.len(),
            env == inline_env(r_blocks@, blocks_flow@, block_attributes@),
            flow_items == flow_items_view(block_flow.items@),
            can_inline(env, old(inlining).state(), index_to_process),
            env.flows[index_to_process as int] == Some(block_flow@),
            start == (InlineState {
                attributes: apply_all(
                    old(inlining).state().attributes,
                    env.block_attributes[index_to_process as int],
                ),
                ..old(inlining).state()
            }),
            parents@ == old(parents)@,
            inlining.dereferenced@.len() == old(inlining).dereferenced@.len(),
            inlining.positions@.len() == old(inlining).positions@.len(),
            inline_items(env, context, old(parents)@, start, flow_items, 0, depth as nat)
                == inline_items(
                env,
                context,
                parents@,
                inlining.state(),
                flow_items,
                i as int,
                depth as nat,
            ),
        decreases block_flow.items@.len() - i,
    {
        match &block_flow.items[i] {
            BlockFlowItem::Bytes(bytes) => {
                inlining.push_item(BlockItem::Bytes(bytes.clone()));
            },
            BlockFlowItem::Contract(contract_index) => {
                inlining.push_item(BlockItem::Contract(*contract_index));
            },
            BlockFlowItem::Push(push) => {
                inlining.attributes.apply_many(&push.attributes);
                let item = BlockItem::Push(
                    Push {
                        attributes: inlining.attributes.snapshot(),
                        inner: match push.inner {
                            BlockFlowPushInner::Constant(word) => PushInner::Constant(word),
                            BlockFlowPushInner::BlockPc(index) => PushInner::BlockPc {
                                index,
                                line: 0,
                            },
                            BlockFlowPushInner::BlockSize(index) => PushInner::BlockSize {
                                index,
                                start: 0,
                                end: 0,
                            },
                        },
                    },
                );
                inlining.push_item(item);
            },
            BlockFlowItem::BlockEsp(reference) => {
                match pre_process_reference(
                    reference,
                    false,
                    r_blocks,
                    blocks_flow,
                    context,
                    parents,
                    inlining,
                    block_attributes,
                    depth,
                ) {
                    Ok(()) => {},
                    Err(e) => {
                        return Err(e);
                    },
                }
            },
            BlockFlowItem::BlockStar(reference) => {
                match pre_process_reference(
                    reference,
                    true,
                    r_blocks,
                    blocks_flow,
                    context,
                    parents,
                    inlining,
                    block_attributes,
                    depth,
                ) {
                    Ok(()) => {},
                    Err(e) => {
                        return Err(e);
                    },
                }
            },
        }
        i += 1;
    }
    inlining.positions[index_to_process] = Some(
        BlockPosition {
            root_index: context.root_index,
            start: context.line_index,
            end: inlining.items.len(),
        },
    );
    Ok(())
}

} // verus!
