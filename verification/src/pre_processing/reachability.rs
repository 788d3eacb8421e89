use vstd::prelude::*;
use crate::ast::attribute::WithAttributes;
use crate::ast::block::RBlock;
use crate::parser::parser::Located;
use crate::pre_processing::analysis::{
    analysis_run,
    analysis_start,
    analysis_step,
    queue_with,
    queue_with_all,
    spec_analyze_blocks,
    AnalysisState,
    QueueView,
};
use crate::pre_processing::attribute::AttributesView;
use crate::pre_processing::block_flow::{spec_analyze_block_flow, BlockFlowView, FlowEnv};
use crate::pre_processing::inlining::{inline_block, InlineEnv, InlineState};
use crate::pre_processing::layout::{inline_root, inline_roots, RootsState};
use crate::pre_processing::pre_processing::BlockPreProcessingContext;
use crate::pre_processing::uniqueness::{keeps, lemma_inline_block_keeps};

verus! {

/// Whether the flow of a block refers to the block `index`: by `*` or `&`, or by a push
/// of its place or its size.
pub open spec fn refers_to(flow: BlockFlowView, index: usize) -> bool {
    flow.strong_deps.contains(index) || flow.weak_deps.contains(index)
}

/// Whether no block of the contract refers to the block `index`.
pub open spec fn unreferenced(
    env: FlowEnv,
    r_blocks: Seq<Located<WithAttributes<Located<RBlock>>>>,
    index: usize,
) -> bool {
    forall|b: int, contract_dependencies: Seq<usize>|
        0 <= b < r_blocks.len() ==> match #[trigger] spec_analyze_block_flow(
            env,
            r_blocks[b].inner.inner.inner,
            contract_dependencies,
        ) {
            Ok((flow, _)) => !refers_to(flow, index),
            Err(_) => true,
        }
}

/// Whether every block that waits has come in.
pub open spec fn waiting_seen(queue: QueueView) -> bool {
    forall|i: int| 0 <= i < queue.waiting.len() ==> queue.seen.contains(#[trigger] queue.waiting[i])
}

proof fn lemma_queue_with_all(queue: QueueView, items: Seq<usize>, from: int, index: usize)
    requires
        0 <= from,
        waiting_seen(queue),
        !queue.seen.contains(index),
        forall|i: int| from <= i < items.len() ==> items[i] != index,
    ensures
        waiting_seen(queue_with_all(queue, items, from)),
        !queue_with_all(queue, items, from).seen.contains(index),
    decreases items.len() - from,
{
    if from < items.len() {
        let next = queue_with(queue, items[from]);
        assert(waiting_seen(next)) by {
            assert forall|i: int| 0 <= i < next.waiting.len() implies next.seen.contains(
                #[trigger] next.waiting[i],
            ) by {
                if i < queue.waiting.len() {
                    assert(queue.seen.contains(queue.waiting[i]));
                }
            }
        }
        lemma_queue_with_all(next, items, from + 1, index);
    }
}

/// A block that no block refers to, and that does not wait to be read, is not read.
pub proof fn lemma_unreferenced_unread(
    env: FlowEnv,
    r_blocks: Seq<Located<WithAttributes<Located<RBlock>>>>,
    st: AnalysisState,
    fuel: nat,
    index: usize,
)
    requires
        analysis_run(env, r_blocks, st, fuel).is_ok(),
        unreferenced(env, r_blocks, index),
        waiting_seen(st.queue),
        !st.queue.seen.contains(index),
        index < st.flows.len(),
        st.flows[index as int].is_none(),
        forall|i: int| 0 <= i < st.queue.waiting.len() ==> st.queue.waiting[i] < r_blocks.len(),
        forall|x: usize| st.queue.seen.contains(x) ==> x < r_blocks.len(),
        st.flows.len() == r_blocks.len(),
        env.block_names.len() == r_blocks.len(),
        r_blocks.len() <= usize::MAX,
    ensures
        !analysis_run(env, r_blocks, st, fuel).unwrap().queue.seen.contains(index),
        analysis_run(env, r_blocks, st, fuel).unwrap().flows.len() == st.flows.len(),
        analysis_run(env, r_blocks, st, fuel).unwrap().flows[index as int].is_none(),
    decreases fuel,
{
    if st.queue.waiting.len() != 0 && fuel != 0 {
        let popped = st.queue.waiting.last();
        assert(st.queue.seen.contains(st.queue.waiting[st.queue.waiting.len() - 1]));
        let queue = QueueView { waiting: st.queue.waiting.drop_last(), seen: st.queue.seen };
        let next = analysis_step(env, r_blocks, st).unwrap();
        let analyzed = spec_analyze_block_flow(
            env,
            r_blocks[popped as int].inner.inner.inner,
            st.contract_dependencies,
        );
        let flow = analyzed.unwrap().0;
        assert(!refers_to(flow, index));
        assert(waiting_seen(queue)) by {
            assert forall|i: int| 0 <= i < queue.waiting.len() implies queue.seen.contains(
                #[trigger] queue.waiting[i],
            ) by {
                assert(queue.waiting[i] == st.queue.waiting[i]);
            }
        }
        assert forall|i: int| 0 <= i < flow.strong_deps.len() implies flow.strong_deps[i]
            != index by {
            if flow.strong_deps[i] == index {
                assert(flow.strong_deps.contains(index));
            }
        }
        assert forall|i: int| 0 <= i < flow.weak_deps.len() implies flow.weak_deps[i] != index by {
            if flow.weak_deps[i] == index {
                assert(flow.weak_deps.contains(index));
            }
        }
        lemma_queue_with_all(queue, flow.strong_deps, 0, index);
        lemma_queue_with_all(queue_with_all(queue, flow.strong_deps, 0), flow.weak_deps, 0, index);
        lemma_bounded(env, r_blocks, st);
        lemma_unreferenced_unread(env, r_blocks, next, (fuel - 1) as nat, index);
    }
}

proof fn lemma_queue_bounded(queue: QueueView, items: Seq<usize>, from: int, bound: nat)
    requires
        0 <= from,
        forall|x: usize| queue.seen.contains(x) ==> x < bound,
        forall|i: int| 0 <= i < queue.waiting.len() ==> queue.waiting[i] < bound,
        forall|i: int| 0 <= i < items.len() ==> items[i] < bound,
    ensures
        forall|x: usize| queue_with_all(queue, items, from).seen.contains(x) ==> x < bound,
        forall|i: int|
            0 <= i < queue_with_all(queue, items, from).waiting.len() ==> queue_with_all(
                queue,
                items,
                from,
            ).waiting[i] < bound,
    decreases items.len() - from,
{
    if from < items.len() {
        let next = queue_with(queue, items[from]);
        assert(items[from] < bound);
        assert forall|x: usize| next.seen.contains(x) implies x < bound by {
            if !queue.seen.contains(x) {
                assert(x == items[from]);
            }
        }
        assert forall|i: int| 0 <= i < next.waiting.len() implies next.waiting[i] < bound by {
            if i < queue.waiting.len() {
                assert(next.waiting[i] == queue.waiting[i]);
            }
        }
        lemma_queue_bounded(next, items, from + 1, bound);
        assert(queue_with_all(queue, items, from) == queue_with_all(next, items, from + 1));
    } else {
        assert(queue_with_all(queue, items, from) == queue);
    }
}

proof fn lemma_bounded(
    env: FlowEnv,
    r_blocks: Seq<Located<WithAttributes<Located<RBlock>>>>,
    st: AnalysisState,
)
    requires
        st.queue.waiting.len() > 0,
        analysis_step(env, r_blocks, st).is_ok(),
        forall|i: int| 0 <= i < st.queue.waiting.len() ==> st.queue.waiting[i] < r_blocks.len(),
        forall|x: usize| st.queue.seen.contains(x) ==> x < r_blocks.len(),
        st.flows.len() == r_blocks.len(),
        env.block_names.len() == r_blocks.len(),
        r_blocks.len() <= usize::MAX,
    ensures
        forall|i: int|
            0 <= i < analysis_step(env, r_blocks, st).unwrap().queue.waiting.len()
                ==> analysis_step(env, r_blocks, st).unwrap().queue.waiting[i] < r_blocks.len(),
        forall|x: usize|
            analysis_step(env, r_blocks, st).unwrap().queue.seen.contains(x) ==> x
                < r_blocks.len(),
        analysis_step(env, r_blocks, st).unwrap().flows.len() == r_blocks.len(),
{
    let popped = st.queue.waiting.last();
    let flow = spec_analyze_block_flow(
        env,
        r_blocks[popped as int].inner.inner.inner,
        st.contract_dependencies,
    ).unwrap().0;
    crate::pre_processing::block_flow::lemma_flow_dependencies_below(
        env,
        r_blocks[popped as int].inner.inner.inner,
        st.contract_dependencies,
    );
    let queue = QueueView { waiting: st.queue.waiting.drop_last(), seen: st.queue.seen };
    assert forall|i: int| 0 <= i < queue.waiting.len() implies queue.waiting[i] < r_blocks.len() by {
        assert(queue.waiting[i] == st.queue.waiting[i]);
    }
    lemma_queue_bounded(queue, flow.strong_deps, 0, r_blocks.len());
    lemma_queue_bounded(
        queue_with_all(queue, flow.strong_deps, 0),
        flow.weak_deps,
        0,
        r_blocks.len(),
    );
}

proof fn lemma_start_queue(keeps: Seq<usize>, from: int, queue: QueueView, index: usize, bound: nat)
    requires
        0 <= from,
        waiting_seen(queue),
        !queue.seen.contains(index),
        !keeps.contains(index),
        forall|x: usize| queue.seen.contains(x) ==> x < bound,
        forall|i: int| 0 <= i < queue.waiting.len() ==> queue.waiting[i] < bound,
        forall|i: int| 0 <= i < keeps.len() ==> keeps[i] < bound,
    ensures
        waiting_seen(queue_with_all(queue, keeps, from)),
        !queue_with_all(queue, keeps, from).seen.contains(index),
        forall|x: usize| queue_with_all(queue, keeps, from).seen.contains(x) ==> x < bound,
        forall|i: int|
            0 <= i < queue_with_all(queue, keeps, from).waiting.len() ==> queue_with_all(
                queue,
                keeps,
                from,
            ).waiting[i] < bound,
{
    assert forall|i: int| from <= i < keeps.len() implies keeps[i] != index by {
        if keeps[i] == index {
            assert(keeps.contains(index));
        }
    }
    lemma_queue_with_all(queue, keeps, from, index);
    lemma_queue_bounded(queue, keeps, from, bound);
}

/// A block of a contract is read only if it is the main block, the last block or a block
/// that is kept, or if a block of the contract refers to it. A block that is none of
/// these is not read.
pub proof fn lemma_unreferenced_block_unread(
    env: FlowEnv,
    r_blocks: Seq<Located<WithAttributes<Located<RBlock>>>>,
    keeps: Seq<usize>,
    main_index: usize,
    last_index: Option<usize>,
    index: usize,
)
    requires
        spec_analyze_blocks(env, r_blocks, keeps, main_index, last_index).is_ok(),
        env.block_names.len() == r_blocks.len(),
        r_blocks.len() <= usize::MAX,
        index < r_blocks.len(),
        main_index < r_blocks.len(),
        last_index matches Some(last) ==> last < r_blocks.len(),
        forall|i: int| 0 <= i < keeps.len() ==> keeps[i] < r_blocks.len(),
        unreferenced(env, r_blocks, index),
        index != main_index,
        last_index != Some(index),
        !keeps.contains(index),
    ensures
        spec_analyze_blocks(env, r_blocks, keeps, main_index, last_index).unwrap().flows.len()
            == r_blocks.len(),
        spec_analyze_blocks(
            env,
            r_blocks,
            keeps,
            main_index,
            last_index,
        ).unwrap().flows[index as int].is_none(),
{
    let empty = QueueView { waiting: Seq::empty(), seen: Set::empty() };
    lemma_start_queue(keeps, 0, empty, index, r_blocks.len());
    let start = analysis_start(keeps, main_index, last_index, r_blocks.len());
    let kept = queue_with_all(empty, keeps, 0);
    let with_main = queue_with(kept, main_index);
    assert(waiting_seen(with_main)) by {
        assert forall|i: int| 0 <= i < with_main.waiting.len() implies with_main.seen.contains(
            #[trigger] with_main.waiting[i],
        ) by {
            if i < kept.waiting.len() {
                assert(kept.seen.contains(kept.waiting[i]));
            }
        }
    }
    assert(waiting_seen(start.queue)) by {
        assert forall|i: int| 0 <= i < start.queue.waiting.len() implies start.queue.seen.contains(
            #[trigger] start.queue.waiting[i],
        ) by {
            if i < with_main.waiting.len() {
                assert(with_main.seen.contains(with_main.waiting[i]));
            }
        }
    }
    lemma_unreferenced_unread(env, r_blocks, start, r_blocks.len(), index);
}

/// A block that was not read is not laid out: it gets no place, and no block that is
/// laid out by itself is that block.
pub proof fn lemma_unread_absent(
    env: InlineEnv,
    defaults: AttributesView,
    st: RootsState,
    roots: Seq<usize>,
    left: int,
    index: usize,
)
    requires
        inline_roots(env, defaults, st, roots, left).is_ok(),
        index < env.flows.len(),
        env.flows[index as int].is_none(),
        st.positions.len() == env.flows.len(),
        st.blocks.len() == env.flows.len(),
        st.positions[index as int].is_none(),
        st.blocks[index as int].is_none(),
    ensures
        index < inline_roots(env, defaults, st, roots, left).unwrap().positions.len(),
        index < inline_roots(env, defaults, st, roots, left).unwrap().blocks.len(),
        inline_roots(env, defaults, st, roots, left).unwrap().positions[index as int].is_none(),
        inline_roots(env, defaults, st, roots, left).unwrap().blocks[index as int].is_none(),
    decreases left,
{
    if 0 < left <= roots.len() {
        let root = roots[left - 1];
        let context = BlockPreProcessingContext {
            root_index: root,
            inside_abstract: false,
            line_index: 0,
        };
        let start = InlineState {
            items: Seq::empty(),
            attributes: defaults,
            dereferenced: st.dereferenced,
            positions: st.positions,
        };
        lemma_inline_block_keeps(env, root, context, seq![root], start, None, env.flows.len());
        let end = inline_block(env, root, context, seq![root], start, None, env.flows.len()).unwrap();
        assert(keeps(env, start, end));
        assert(end.positions[index as int] == start.positions[index as int]);
        let next = inline_root(env, defaults, st, root).unwrap();
        lemma_unread_absent(env, defaults, next, roots, left - 1, index);
    }
}

} // verus!
