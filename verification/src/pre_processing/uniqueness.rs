use vstd::prelude::*;
use crate::parser::error::{CompileError, ErrorKind};
use crate::parser::parser::Location;
use crate::pre_processing::attribute::apply_all;
use crate::pre_processing::block_flow::{located_error, FlowItemView, FlowRefView};
use crate::pre_processing::inlining::{
    can_inline,
    inline_block,
    inline_items,
    inline_reference,
    InlineEnv,
    InlineState,
};
use crate::pre_processing::pre_processing::{BlockPosition, BlockPreProcessingContext};

verus! {

/// Whether `after` keeps what `before` has: the items laid out, the number of blocks,
/// each mark of a block referred to by `*`, and each place of a block that has no flow.
pub open spec fn keeps(env: InlineEnv, before: InlineState, after: InlineState) -> bool {
    &&& before.items.len() <= after.items.len()
    &&& after.items.take(before.items.len() as int) == before.items
    &&& after.dereferenced.len() == before.dereferenced.len()
    &&& after.positions.len() == before.positions.len()
    &&& forall|i: int|
        0 <= i < before.dereferenced.len() && before.dereferenced[i]
            ==> #[trigger] after.dereferenced[i]
    &&& forall|i: int|
        0 <= i < before.positions.len() && i < env.flows.len() && env.flows[i].is_none()
            ==> #[trigger] after.positions[i] == before.positions[i]
}

/// Whether `after` keeps the place of each block that is marked in `before` and is not
/// abstract, the block `but` left aside: the run of items that such a block takes stays
/// the one that is noted.
pub open spec fn runs_kept(env: InlineEnv, before: InlineState, after: InlineState, but: int)
    -> bool {
    forall|i: int|
        0 <= i < before.positions.len() && i < before.dereferenced.len() && i < env.abstr.len()
            && before.dereferenced[i] && !env.abstr[i] && i != but
            ==> #[trigger] after.positions[i] == before.positions[i]
}

proof fn lemma_runs_chain(
    env: InlineEnv,
    first: InlineState,
    second: InlineState,
    third: InlineState,
    but: int,
)
    requires
        keeps(env, first, second),
        runs_kept(env, first, second, but),
        runs_kept(env, second, third, but),
    ensures
        runs_kept(env, first, third, but),
{
    assert forall|i: int|
        0 <= i < first.positions.len() && i < first.dereferenced.len() && i < env.abstr.len()
            && first.dereferenced[i] && !env.abstr[i] && i != but implies #[trigger] third.positions[i]
        == first.positions[i] by {
        assert(second.dereferenced[i]);
        assert(second.positions[i] == first.positions[i]);
    }
}

proof fn lemma_keeps_self(env: InlineEnv, st: InlineState)
    ensures
        keeps(env, st, st),
{
    assert(st.items.take(st.items.len() as int) =~= st.items);
}

proof fn lemma_keeps_chain(env: InlineEnv, first: InlineState, second: InlineState, third: InlineState)
    requires
        keeps(env, first, second),
        keeps(env, second, third),
    ensures
        keeps(env, first, third),
{
    assert(third.items.take(first.items.len() as int) =~= third.items.take(
        second.items.len() as int,
    ).take(first.items.len() as int));
}

/// Laying out keeps the items that are laid out, the marks of the blocks referred to by
/// `*`, and the places of the blocks that were not read.
pub proof fn lemma_inline_items_keeps(
    env: InlineEnv,
    context: BlockPreProcessingContext,
    parents: Seq<usize>,
    st: InlineState,
    flow_items: Seq<FlowItemView>,
    from: int,
    depth: nat,
)
    requires
        inline_items(env, context, parents, st, flow_items, from, depth).is_ok(),
    ensures
        keeps(env, st, inline_items(env, context, parents, st, flow_items, from, depth).unwrap()),
        runs_kept(
            env,
            st,
            inline_items(env, context, parents, st, flow_items, from, depth).unwrap(),
            -1,
        ),
    decreases depth, 0nat, 1 + flow_items.len() - from,
{
    if 0 <= from < flow_items.len() {
        let next = match flow_items[from] {
            FlowItemView::BlockEsp(reference) => {
                lemma_inline_reference_keeps(env, context, parents, st, reference, false, depth);
                inline_reference(env, context, parents, st, reference, false, depth).unwrap()
            },
            FlowItemView::BlockStar(reference) => {
                lemma_inline_reference_keeps(env, context, parents, st, reference, true, depth);
                inline_reference(env, context, parents, st, reference, true, depth).unwrap()
            },
            FlowItemView::Bytes(bytes) => InlineState {
                items: st.items.push(crate::pre_processing::pre_processing::BlockItemView::Bytes(bytes)),
                ..st
            },
            FlowItemView::Contract(index) => InlineState {
                items: st.items.push(
                    crate::pre_processing::pre_processing::BlockItemView::Contract(index),
                ),
                ..st
            },
            FlowItemView::Push(push) => {
                let attributes = apply_all(st.attributes, push.attributes);
                InlineState {
                    items: st.items.push(
                        crate::pre_processing::pre_processing::BlockItemView::Push(
                            crate::pre_processing::pre_processing::PushView {
                                attributes,
                                inner: crate::pre_processing::inlining::unplaced_push(push.inner),
                            },
                        ),
                    ),
                    attributes,
                    ..st
                }
            },
        };
        assert(next.items.take(st.items.len() as int) =~= st.items);
        assert(keeps(env, st, next));
        assert(runs_kept(env, st, next, -1));
        lemma_inline_items_keeps(env, context, parents, next, flow_items, from + 1, depth);
        lemma_keeps_chain(
            env,
            st,
            next,
            inline_items(env, context, parents, next, flow_items, from + 1, depth).unwrap(),
        );
        lemma_runs_chain(
            env,
            st,
            next,
            inline_items(env, context, parents, next, flow_items, from + 1, depth).unwrap(),
            -1,
        );
    } else {
        lemma_keeps_self(env, st);
    }
}

/// Laying out what a reference refers to keeps what was laid out; and after a `*`, the
/// block is marked.
pub proof fn lemma_inline_reference_keeps(
    env: InlineEnv,
    context: BlockPreProcessingContext,
    parents: Seq<usize>,
    st: InlineState,
    reference: FlowRefView,
    star: bool,
    depth: nat,
)
    requires
        inline_reference(env, context, parents, st, reference, star, depth).is_ok(),
    ensures
        keeps(env, st, inline_reference(env, context, parents, st, reference, star, depth).unwrap()),
        star ==> inline_reference(
            env,
            context,
            parents,
            st,
            reference,
            star,
            depth,
        ).unwrap().dereferenced[reference.index as int],
        runs_kept(
            env,
            st,
            inline_reference(env, context, parents, st, reference, star, depth).unwrap(),
            -1,
        ),
        inline_reference(
            env,
            context,
            parents,
            st,
            reference,
            star,
            depth,
        ).unwrap().positions[reference.index as int] == Some(
            BlockPosition {
                root_index: context.root_index,
                start: st.items.len() as usize,
                end: inline_reference(
                    env,
                    context,
                    parents,
                    st,
                    reference,
                    star,
                    depth,
                ).unwrap().items.len() as usize,
            },
        ),
    decreases depth, 0nat, 0nat,
{
    let index = reference.index;
    let applied = InlineState { attributes: apply_all(st.attributes, reference.attributes), ..st };
    let marked = InlineState {
        dereferenced: if star {
            applied.dereferenced.update(index as int, true)
        } else {
            applied.dereferenced
        },
        ..applied
    };
    let inner = BlockPreProcessingContext {
        root_index: context.root_index,
        inside_abstract: !star,
        line_index: st.items.len() as usize,
    };
    lemma_inline_block_keeps(
        env,
        index,
        inner,
        parents.push(index),
        marked,
        Some(reference.location),
        (depth - 1) as nat,
    );
    let end = inline_block(
        env,
        index,
        inner,
        parents.push(index),
        marked,
        Some(reference.location),
        (depth - 1) as nat,
    ).unwrap();
    assert(keeps(env, st, marked)) by {
        assert(marked.items.take(st.items.len() as int) =~= st.items);
    }
    lemma_keeps_chain(env, st, marked, end);
    if star {
        assert(marked.dereferenced[index as int]);
    }
    assert forall|i: int|
        0 <= i < st.positions.len() && i < st.dereferenced.len() && i < env.abstr.len()
            && st.dereferenced[i] && !env.abstr[i] implies #[trigger] end.positions[i]
        == st.positions[i] by {
        assert(i != index);
        assert(marked.dereferenced[i]);
        assert(end.positions[i] == marked.positions[i]);
    }
}

/// Laying out a block keeps what was laid out, and notes the place of the block, which
/// is one that was read.
pub proof fn lemma_inline_block_keeps(
    env: InlineEnv,
    index: usize,
    context: BlockPreProcessingContext,
    parents: Seq<usize>,
    st: InlineState,
    location: Option<Location>,
    depth: nat,
)
    requires
        inline_block(env, index, context, parents, st, location, depth).is_ok(),
    ensures
        keeps(env, st, inline_block(env, index, context, parents, st, location, depth).unwrap()),
        runs_kept(
            env,
            st,
            inline_block(env, index, context, parents, st, location, depth).unwrap(),
            index as int,
        ),
        can_inline(env, st, index),
        inline_block(env, index, context, parents, st, location, depth).unwrap().positions[index as int]
            == Some(
            BlockPosition {
                root_index: context.root_index,
                start: context.line_index,
                end: inline_block(
                    env,
                    index,
                    context,
                    parents,
                    st,
                    location,
                    depth,
                ).unwrap().items.len() as usize,
            },
        ),
    decreases depth, 1nat, 0nat,
{
    let flow = env.flows[index as int].unwrap();
    let start = InlineState {
        attributes: apply_all(st.attributes, env.block_attributes[index as int]),
        ..st
    };
    lemma_inline_items_keeps(env, context, parents, start, flow.items, 0, depth);
    let end = inline_items(env, context, parents, start, flow.items, 0, depth).unwrap();
    let noted = inline_block(env, index, context, parents, st, location, depth).unwrap();
    assert(keeps(env, st, start)) by {
        assert(start.items.take(st.items.len() as int) =~= st.items);
    }
    lemma_keeps_chain(env, st, start, end);
    assert(keeps(env, end, noted)) by {
        assert(noted.items.take(end.items.len() as int) =~= end.items);
    }
    lemma_keeps_chain(env, st, end, noted);
    assert forall|i: int|
        0 <= i < st.positions.len() && i < st.dereferenced.len() && i < env.abstr.len()
            && st.dereferenced[i] && !env.abstr[i] && i != index implies #[trigger] noted.positions[i]
        == st.positions[i] by {
        assert(start.dereferenced[i]);
        assert(end.positions[i] == start.positions[i]);
    }
}

/// A block that is not abstract is laid out by `*` once at most: a `*` that refers to
/// a block that is marked is an error.
pub proof fn lemma_star_twice(
    env: InlineEnv,
    context: BlockPreProcessingContext,
    parents: Seq<usize>,
    st: InlineState,
    reference: FlowRefView,
    depth: nat,
)
    requires
        can_inline(env, st, reference.index),
        st.dereferenced[reference.index as int],
    ensures
        inline_reference(env, context, parents, st, reference, true, depth).is_err(),
        !context.inside_abstract && !env.abstr[reference.index as int] ==> inline_reference(
            env,
            context,
            parents,
            st,
            reference,
            true,
            depth,
        ) == Err::<InlineState, CompileError>(
            located_error(ErrorKind::StarTwice, reference.location),
        ),
{
}

/// `&` lays out abstract blocks only, and `*` only blocks that are not abstract.
pub proof fn lemma_reference_kind(
    env: InlineEnv,
    context: BlockPreProcessingContext,
    parents: Seq<usize>,
    st: InlineState,
    reference: FlowRefView,
    star: bool,
    depth: nat,
)
    requires
        inline_reference(env, context, parents, st, reference, star, depth).is_ok(),
    ensures
        env.abstr[reference.index as int] == !star,
        star ==> !context.inside_abstract,
        !parents.contains(reference.index),
{
}

/// A block that `*` refers to is laid out as one run of items of the block of the
/// layout that holds it: the items that were there stay, the run goes from the item
/// after them to the last item laid out, it is noted as the place of the block, and the
/// block is marked, so that no other `*` lays it out again.
pub proof fn lemma_star_block_run(
    env: InlineEnv,
    context: BlockPreProcessingContext,
    parents: Seq<usize>,
    st: InlineState,
    reference: FlowRefView,
    depth: nat,
)
    requires
        inline_reference(env, context, parents, st, reference, true, depth).is_ok(),
    ensures
        ({
            let end = inline_reference(env, context, parents, st, reference, true, depth).unwrap();
            &&& !env.abstr[reference.index as int]
            &&& !st.dereferenced[reference.index as int]
            &&& end.dereferenced[reference.index as int]
            &&& st.items.len() <= end.items.len()
            &&& end.items.take(st.items.len() as int) == st.items
            &&& end.positions[reference.index as int] == Some(
                BlockPosition {
                    root_index: context.root_index,
                    start: st.items.len() as usize,
                    end: end.items.len() as usize,
                },
            )
        }),
{
    lemma_inline_reference_keeps(env, context, parents, st, reference, true, depth);
}

/// The run of items that is noted for a block that `*` referred to stays the one that
/// is noted, whatever is laid out after it in the same block of the layout.
pub proof fn lemma_star_block_run_stays(
    env: InlineEnv,
    context: BlockPreProcessingContext,
    parents: Seq<usize>,
    st: InlineState,
    flow_items: Seq<FlowItemView>,
    from: int,
    depth: nat,
    index: int,
)
    requires
        inline_items(env, context, parents, st, flow_items, from, depth).is_ok(),
        0 <= index < st.positions.len(),
        index < st.dereferenced.len(),
        index < env.abstr.len(),
        st.dereferenced[index],
        !env.abstr[index],
    ensures
        inline_items(env, context, parents, st, flow_items, from, depth).unwrap().positions[index]
            == st.positions[index],
        inline_items(env, context, parents, st, flow_items, from, depth).unwrap().dereferenced[index],
{
    lemma_inline_items_keeps(env, context, parents, st, flow_items, from, depth);
}

} // verus!
