use vstd::prelude::*;
use crate::ast::attribute::WithAttributes;
use crate::ast::block::RBlock;
use crate::parser::error::CompileError;
use crate::parser::parser::Located;
use crate::pre_processing::attribute::{Attribute, Attributes, AttributesView};
use crate::pre_processing::block_flow::BlockFlow;
use crate::pre_processing::inlining::{
    can_inline,
    inline_block,
    inline_env,
    pre_process_block,
    InlineEnv,
    InlineState,
    Inlining,
};
use crate::pre_processing::pre_processing::{
    block_items_view,
    BlockItem,
    BlockItemView,
    BlockPosition,
    BlockPreProcessingContext,
};
use crate::pre_processing::remapping::root_items_view;

verus! {

/// `others` and, after them, the first `left` of `roots`, from the last of them to the
/// first, without the main block and the last block.
pub open spec fn others_from_end(
    roots: Seq<usize>,
    main_index: usize,
    last_index: Option<usize>,
    others: Seq<usize>,
    left: int,
) -> Seq<usize>
    decreases left,
{
    if left <= 0 || left > roots.len() {
        others
    } else {
        let root = roots[left - 1];
        others_from_end(
            roots,
            main_index,
            last_index,
            if root != main_index && Some(root) != last_index {
                others.push(root)
            } else {
                others
            },
            left - 1,
        )
    }
}

/// The order of the blocks in the code: the main block, then the other blocks that are
/// laid out by themselves, from the last of `roots` to the first, then the block that is
/// pinned as the last.
pub open spec fn layout_order(roots: Seq<usize>, main_index: usize, last_index: Option<usize>)
    -> Seq<usize> {
    let first = others_from_end(roots, main_index, last_index, seq![main_index], roots.len() as int);
    match last_index {
        Some(last) => first.push(last),
        None => first,
    }
}

/// Computes the order of the blocks in the code.
pub fn layout(roots: &Vec<usize>, main_index: usize, last_index: Option<usize>) -> (res: Vec<
    usize,
>)
    ensures
        res@ == layout_order(roots@, main_index, last_index),
{
    let mut remapping: Vec<usize> = Vec::new();
    remapping.push(main_index);
    assert(remapping@ =~= seq![main_index]);
    let mut left: usize = roots.len();
    while left > 0
        invariant
            left <= roots@.len(),
            others_from_end(roots@, main_index, last_index, seq![main_index], roots@.len() as int)
                == others_from_end(roots@, main_index, last_index, remapping@, left as int),
        decreases left,
    {
        let root = roots[left - 1];
        let is_last = match last_index {
            Some(last) => root == last,
            None => false,
        };
        if root != main_index && !is_last {
            remapping.push(root);
        }
        left -= 1;
    }
    if let Some(last) = last_index {
        remapping.push(last);
    }
    remapping
}

/// What laying out the blocks has come to: the items of each block that was laid out by
/// itself, which blocks were referred to by `*`, and where each block was laid out last.
#[verifier::ext_equal]
pub struct RootsState {
    pub blocks: Seq<Option<Seq<BlockItemView>>>,
    pub dereferenced: Seq<bool>,
    pub positions: Seq<Option<BlockPosition>>,
}

/// The state after the block `root` was laid out by itself, under the attributes of its
/// contract.
pub open spec fn inline_root(
    env: InlineEnv,
    defaults: AttributesView,
    st: RootsState,
    root: usize,
) -> Result<RootsState, CompileError> {
    match inline_block(
        env,
        root,
        BlockPreProcessingContext { root_index: root, inside_abstract: false, line_index: 0 },
        seq![root],
        InlineState {
            items: Seq::empty(),
            attributes: defaults,
            dereferenced: st.dereferenced,
            positions: st.positions,
        },
        None,
        env.flows.len(),
    ) {
        Err(e) => Err(e),
        Ok(end) => Ok(
            RootsState {
                blocks: st.blocks.update(root as int, Some(end.items)),
                dereferenced: end.dereferenced,
                positions: end.positions,
            },
        ),
    }
}

/// The state after the first `left` of `roots` were laid out, from the last of them to
/// the first.
pub open spec fn inline_roots(
    env: InlineEnv,
    defaults: AttributesView,
    st: RootsState,
    roots: Seq<usize>,
    left: int,
) -> Result<RootsState, CompileError>
    decreases left,
{
    if left <= 0 || left > roots.len() {
        Ok(st)
    } else {
        match inline_root(env, defaults, st, roots[left - 1]) {
            Err(e) => Err(e),
            Ok(next) => inline_roots(env, defaults, next, roots, left - 1),
        }
    }
}

/// The state before any block is laid out.
pub open spec fn roots_start(blocks: nat) -> RootsState {
    RootsState {
        blocks: Seq::new(blocks, |i: int| None),
        dereferenced: Seq::new(blocks, |i: int| false),
        positions: Seq::new(blocks, |i: int| None),
    }
}

/// The blocks that were laid out.
pub struct LaidOut {
    /// For each block that was laid out by itself, its items.
    pub blocks: Vec<Option<Vec<BlockItem>>>,
    /// For each block, where it was laid out last.
    pub positions: Vec<Option<BlockPosition>>,
}

/// Lays out the blocks of `roots`, from the last to the first, each with the blocks that
/// it refers to.
pub(crate) fn lay_out_roots(
    roots: &Vec<usize>,
    r_blocks: &Vec<Located<WithAttributes<Located<RBlock>>>>,
    blocks_flow: &Vec<Option<BlockFlow>>,
    default_attributes: &Attributes,
    block_attributes: &Vec<Vec<Attribute>>,
) -> (res: Result<LaidOut, CompileError>)
    requires
        blocks_flow@.len() == r_blocks@.len(),
    ensures
        match inline_roots(
            inline_env(r_blocks@, blocks_flow@, block_attributes@),
            default_attributes@,
            roots_start(r_blocks@.len()),
            roots@,
            roots@.len() as int,
        ) {
            Ok(st) => res matches Ok(laid_out) && root_items_view(laid_out.blocks@) == st.blocks
                && laid_out.positions@ == st.positions,
            Err(e) => res matches Err(err) && err == e,
        },
{
    let count = r_blocks.len();
    let ghost env = inline_env(r_blocks@, blocks_flow@, block_attributes@);
    let mut blocks: Vec<Option<Vec<BlockItem>>> = Vec::new();
    let mut dereferenced: Vec<bool> = Vec::new();
    let mut positions: Vec<Option<BlockPosition>> = Vec::new();
    let mut i: usize = 0;
    while i < count
        invariant
            i <= count,
            blocks@.len() == i,
            dereferenced@.len() == i,
            positions@.len() == i,
            forall|k: int| 0 <= k < i ==> blocks@[k].is_none(),
            forall|k: int| 0 <= k < i ==> !dereferenced@[k],
            forall|k: int| 0 <= k < i ==> positions@[k].is_none(),
        decreases count - i,
    {
        blocks.push(None);
        dereferenced.push(false);
        positions.push(None);
        i += 1;
    }
    let mut inlining = Inlining {
        items: Vec::new(),
        attributes: default_attributes.snapshot(),
        dereferenced,
        positions,
    };
    let mut parents: Vec<usize> = Vec::new();
    let ghost start = roots_start(count as nat);
    proof {
        assert(root_items_view(blocks@) =~= start.blocks);
        assert(inlining.dereferenced@ =~= start.dereferenced);
        assert(inlining.positions@ =~= start.positions);
    }
    let mut left: usize = roots.len();
    while left > 0
        invariant
            left <= roots@.len(),
            count == r_blocks@.len(),
            blocks_flow@.len() == count,
            blocks@.len() == count,
            inlining.items@.len() == 0,
            env == inline_env(r_blocks@, blocks_flow@, block_attributes@),
            start == roots_start(count as nat),
            inline_roots(env, default_attributes@, start, roots@, roots@.len() as int)
                == inline_roots(
                env,
                default_attributes@,
                RootsState {
                    blocks: root_items_view(blocks@),
                    dereferenced: inlining.dereferenced@,
                    positions: inlining.positions@,
                },
                roots@,
                left as int,
            ),
        decreases left,
    {
        let root = roots[left - 1];
        inlining.attributes = default_attributes.snapshot();
        parents = Vec::new();
        parents.push(root);
        proof {
            assert(parents@ =~= seq![root]);
            assert(block_items_view(inlining.items@) =~= Seq::<BlockItemView>::empty());
        }
        let ghost before = RootsState {
            blocks: root_items_view(blocks@),
            dereferenced: inlining.dereferenced@,
            positions: inlining.positions@,
        };
        match pre_process_block(
            root,
            r_blocks,
            blocks_flow,
            BlockPreProcessingContext::new_root(root),
            &mut parents,
            &mut inlining,
            block_attributes,
            None,
            count,
        ) {
            Ok(()) => {},
            Err(e) => {
                return Err(e);
            },
        }
        let mut laid: Vec<BlockItem> = Vec::new();
        core::mem::swap(&mut laid, &mut inlining.items);
        proof {
            assert(can_inline(
                env,
                InlineState {
                    items: Seq::empty(),
                    attributes: default_attributes@,
                    dereferenced: before.dereferenced,
                    positions: before.positions,
                },
                root,
            ));
            assert(root_items_view(blocks@.update(root as int, Some(laid))) =~= root_items_view(
                blocks@,
            ).update(root as int, Some(block_items_view(laid@))));
        }
        blocks[root] = Some(laid);
        left -= 1;
    }
    Ok(LaidOut { blocks, positions: inlining.positions })
}

} // verus!
