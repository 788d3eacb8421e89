use vstd::prelude::*;
use crate::ast::attribute::WithAttributes;
use crate::ast::block::RBlock;
use crate::parser::error::CompileError;
use crate::parser::parser::Located;
use crate::pre_processing::block_flow::{
    analyze_block_flow,
    flow_env,
    spec_analyze_block_flow,
    BlockFlow,
    BlockFlowView,
    FlowEnv,
};
use crate::pre_processing::declarations::BlockScan;
use crate::pre_processing::dependencies::{
    graph_with_edge,
    graph_with_node,
    DepsGraph,
    DepsGraphView,
};
use crate::pre_processing::inlining::flows_view;
use crate::pre_processing::names::NamedBytes;
use crate::pre_processing::queue::{
    all_below,
    lemma_bounded_set_len,
    IndexedVec,
    PersistentDedupQueue,
};

verus! {

/// A queue that takes each item once: the items that wait, and those that ever came in.
#[verifier::ext_equal]
pub struct QueueView {
    pub waiting: Seq<usize>,
    pub seen: Set<usize>,
}

/// The queue after `item` was offered to it.
pub open spec fn queue_with(queue: QueueView, item: usize) -> QueueView {
    if queue.seen.contains(item) {
        queue
    } else {
        QueueView { waiting: queue.waiting.push(item), seen: queue.seen.insert(item) }
    }
}

/// The queue after the items from index `from` on were offered to it, in order.
pub open spec fn queue_with_all(queue: QueueView, items: Seq<usize>, from: int) -> QueueView
    decreases items.len() - from,
{
    if from >= items.len() || from < 0 {
        queue
    } else {
        queue_with_all(queue_with(queue, items[from]), items, from + 1)
    }
}

/// The graph after each of `items` from index `from` on was said to depend on `block`.
pub open spec fn graph_with_referrer(
    graph: DepsGraphView,
    items: Seq<usize>,
    block: usize,
    from: int,
) -> DepsGraphView
    decreases items.len() - from,
{
    if from >= items.len() || from < 0 {
        graph
    } else {
        graph_with_referrer(graph_with_edge(graph, items[from], block), items, block, from + 1)
    }
}

/// Where the reading of the blocks of a contract has come to: the blocks that wait to be
/// read, the references between the blocks read, the flow of each block read, and the
/// contracts referred to.
#[verifier::ext_equal]
pub struct AnalysisState {
    pub queue: QueueView,
    pub graph: DepsGraphView,
    pub flows: Seq<Option<BlockFlowView>>,
    pub contract_dependencies: Seq<usize>,
}

/// The state after the block that came in last was read. The blocks that it refers to
/// are to be read too. A block that is referred to by `*` or `&` depends on the block
/// that refers to it: it is laid out inside that block.
pub open spec fn analysis_step(
    env: FlowEnv,
    r_blocks: Seq<Located<WithAttributes<Located<RBlock>>>>,
    st: AnalysisState,
) -> Result<AnalysisState, CompileError> {
    let index = st.queue.waiting.last();
    let queue = QueueView { waiting: st.queue.waiting.drop_last(), seen: st.queue.seen };
    let graph = graph_with_node(st.graph, index);
    match spec_analyze_block_flow(
        env,
        r_blocks[index as int].inner.inner.inner,
        st.contract_dependencies,
    ) {
        Err(e) => Err(e),
        Ok((flow, contract_dependencies)) => Ok(
            AnalysisState {
                queue: queue_with_all(queue_with_all(queue, flow.strong_deps, 0), flow.weak_deps, 0),
                graph: graph_with_referrer(graph, flow.strong_deps, index, 0),
                flows: st.flows.update(index as int, Some(flow)),
                contract_dependencies,
            },
        ),
    }
}

/// The state when no block waits any more; `fuel` is the number of blocks that may
/// still be read.
pub open spec fn analysis_run(
    env: FlowEnv,
    r_blocks: Seq<Located<WithAttributes<Located<RBlock>>>>,
    st: AnalysisState,
    fuel: nat,
) -> Result<AnalysisState, CompileError>
    decreases fuel,
{
    if st.queue.waiting.len() == 0 || fuel == 0 {
        Ok(st)
    } else {
        match analysis_step(env, r_blocks, st) {
            Err(e) => Err(e),
            Ok(next) => analysis_run(env, r_blocks, next, (fuel - 1) as nat),
        }
    }
}

/// The state before any block is read: the blocks that are kept, the main block and
/// the last block wait, in this order.
pub open spec fn analysis_start(
    keeps: Seq<usize>,
    main_index: usize,
    last_index: Option<usize>,
    blocks: nat,
) -> AnalysisState {
    let kept = queue_with_all(QueueView { waiting: Seq::empty(), seen: Set::empty() }, keeps, 0);
    let with_main = queue_with(kept, main_index);
    AnalysisState {
        queue: match last_index {
            Some(last) => queue_with(with_main, last),
            None => with_main,
        },
        graph: DepsGraphView { edges: Seq::empty(), leaves: Seq::empty() },
        flows: Seq::new(blocks, |i: int| None),
        contract_dependencies: Seq::empty(),
    }
}

/// The flows of the blocks of a contract that can be reached from its main block, its
/// last block and the blocks that are kept, with the references between them and the
/// contracts they refer to.
pub open spec fn spec_analyze_blocks(
    env: FlowEnv,
    r_blocks: Seq<Located<WithAttributes<Located<RBlock>>>>,
    keeps: Seq<usize>,
    main_index: usize,
    last_index: Option<usize>,
) -> Result<AnalysisState, CompileError> {
    analysis_run(
        env,
        r_blocks,
        analysis_start(keeps, main_index, last_index, r_blocks.len()),
        r_blocks.len(),
    )
}

/// The blocks of a contract that were read.
pub struct BlockAnalysis {
    /// For each block, its flow if it was read.
    pub flows: Vec<Option<BlockFlow>>,
    /// The references between the blocks.
    pub graph: DepsGraph,
    /// The contracts referred to, in the order of their first reference.
    pub contract_dependencies: IndexedVec,
}

/// The queue as a value of the mathematics.
pub open spec fn queue_view(queue: PersistentDedupQueue) -> QueueView {
    QueueView { waiting: queue.waiting(), seen: queue.seen_items() }
}

/// Every item that ever came in is below `bound`.
pub open spec fn seen_below(queue: PersistentDedupQueue, bound: nat) -> bool {
    forall|x: usize| queue.seen_items().contains(x) ==> x < bound
}

/// The number of blocks that may still be read: those that never came in, and those
/// that wait.
pub open spec fn queue_measure(queue: PersistentDedupQueue, blocks: nat) -> int {
    blocks - queue.seen_items().len() + queue.waiting().len()
}

pub(crate) fn offer(queue: &mut PersistentDedupQueue, item: usize, Ghost(blocks): Ghost<nat>)
    requires
        old(queue).wf(),
        seen_below(*old(queue), blocks),
        item < blocks,
    ensures
        final(queue).wf(),
        seen_below(*final(queue), blocks),
        queue_view(*final(queue)) == queue_with(queue_view(*old(queue)), item),
        queue_measure(*final(queue), blocks) == queue_measure(*old(queue), blocks),
{
    queue.insert_if_needed(item);
}

pub(crate) fn offer_all(queue: &mut PersistentDedupQueue, items: &Vec<usize>, Ghost(blocks): Ghost<nat>)
    requires
        old(queue).wf(),
        seen_below(*old(queue), blocks),
        all_below(items@, blocks),
    ensures
        final(queue).wf(),
        seen_below(*final(queue), blocks),
        queue_view(*final(queue)) == queue_with_all(queue_view(*old(queue)), items@, 0),
        queue_measure(*final(queue), blocks) == queue_measure(*old(queue), blocks),
{
    let mut i: usize = 0;
    while i < items.len()
        invariant
            i <= items@.len(),
            queue.wf(),
            seen_below(*queue, blocks),
            all_below(items@, blocks),
            queue_measure(*queue, blocks) == queue_measure(*old(queue), blocks),
            queue_with_all(queue_view(*old(queue)), items@, 0) == queue_with_all(
                queue_view(*queue),
                items@,
                i as int,
            ),
        decreases items@.len() - i,
    {
        offer(queue, items[i], Ghost(blocks));
        i += 1;
    }
}

fn refer_all(graph: &mut DepsGraph, items: &Vec<usize>, block: usize)
    ensures
        final(graph)@ == graph_with_referrer(old(graph)@, items@, block, 0),
{
    let mut i: usize = 0;
    while i < items.len()
        invariant
            i <= items@.len(),
            graph_with_referrer(old(graph)@, items@, block, 0) == graph_with_referrer(
                graph@,
                items@,
                block,
                i as int,
            ),
        decreases items@.len() - i,
    {
        graph.insert_if_needed(items[i], block);
        i += 1;
    }
}

fn no_flows(blocks: usize) -> (res: Vec<Option<BlockFlow>>)
    ensures
        res@.len() == blocks,
        flows_view(res@) == Seq::new(blocks as nat, |i: int| None::<BlockFlowView>),
{
    let mut flows: Vec<Option<BlockFlow>> = Vec::new();
    let mut i: usize = 0;
    while i < blocks
        invariant
            i <= blocks,
            flows@.len() == i,
            forall|k: int| 0 <= k < i ==> flows@[k].is_none(),
        decreases blocks - i,
    {
        flows.push(None);
        i += 1;
    }
    assert(flows_view(flows@) =~= Seq::new(blocks as nat, |i: int| None::<BlockFlowView>));
    flows
}

/// Reads the blocks of a contract that can be reached from its main block, its last
/// block and the blocks that are kept.
pub(crate) fn analyze_blocks(
    r_blocks: &Vec<Located<WithAttributes<Located<RBlock>>>>,
    constants: &Vec<NamedBytes>,
    contract_names: &Vec<String>,
    scan: &BlockScan,
    main_index: usize,
    compile_variables: &Vec<NamedBytes>,
) -> (res: Result<BlockAnalysis, CompileError>)
    requires
        scan.block_names@.len() == r_blocks@.len(),
        scan.pinned_below(r_blocks@.len()),
        main_index < r_blocks@.len(),
    ensures
        match spec_analyze_blocks(
            flow_env(constants@, contract_names@, scan.block_names@, compile_variables@),
            r_blocks@,
            scan.keeps@,
            main_index,
            scan.last_index,
        ) {
            Ok(st) => res matches Ok(analysis) && analysis.graph@ == st.graph && flows_view(
                analysis.flows@,
            ) == st.flows && analysis.contract_dependencies@ == st.contract_dependencies,
            Err(e) => res matches Err(err) && err == e,
        },
        res matches Ok(analysis) ==> analysis.flows@.len() == r_blocks@.len() && all_below(
            analysis.contract_dependencies@,
            contract_names@.len(),
        ),
{
    let blocks = r_blocks.len();
    let ghost env = flow_env(constants@, contract_names@, scan.block_names@, compile_variables@);
    let mut queue = PersistentDedupQueue::new();
    offer_all(&mut queue, &scan.keeps, Ghost(blocks as nat));
    offer(&mut queue, main_index, Ghost(blocks as nat));
    if let Some(last_index) = scan.last_index {
        offer(&mut queue, last_index, Ghost(blocks as nat));
    }
    let mut flows = no_flows(blocks);
    let mut graph = DepsGraph::new();
    let mut contract_dependencies = IndexedVec::new();
    let ghost start = analysis_start(scan.keeps@, main_index, scan.last_index, blocks as nat);
    let ghost mut fuel: nat = blocks as nat;
    proof {
        lemma_bounded_set_len(queue.seen_items(), blocks as nat);
        assert(queue_view(queue) =~= start.queue);
    }
    loop
        invariant
            blocks == r_blocks@.len(),
            scan.block_names@.len() == blocks,
            env == flow_env(constants@, contract_names@, scan.block_names@, compile_variables@),
            queue.wf(),
            seen_below(queue, blocks as nat),
            flows@.len() == blocks,
            all_below(contract_dependencies@, contract_names@.len()),
            queue_measure(queue, blocks as nat) <= fuel,
            spec_analyze_blocks(env, r_blocks@, scan.keeps@, main_index, scan.last_index)
                == analysis_run(
                env,
                r_blocks@,
                AnalysisState {
                    queue: queue_view(queue),
                    graph: graph@,
                    flows: flows_view(flows@),
                    contract_dependencies: contract_dependencies@,
                },
                fuel,
            ),
        ensures
            queue.waiting().len() == 0,
        decreases fuel,
    {
        proof {
            lemma_bounded_set_len(queue.seen_items(), blocks as nat);
        }
        let ghost before = AnalysisState {
            queue: queue_view(queue),
            graph: graph@,
            flows: flows_view(flows@),
            contract_dependencies: contract_dependencies@,
        };
        let Some(index) = queue.pop() else {
            break ;
        };
        assert(queue.seen_items().contains(before.queue.waiting[before.queue.waiting.len() - 1]));
        graph.add_node_if_needed(index);
        let flow = match analyze_block_flow(
            &r_blocks[index],
            constants,
            contract_names,
            &scan.block_names,
            &mut contract_dependencies,
            compile_variables,
        ) {
            Ok(flow) => flow,
            Err(e) => {
                return Err(e);
            },
        };
        let strong_deps = flow.strong_deps.as_vec();
        offer_all(&mut queue, &strong_deps, Ghost(blocks as nat));
        refer_all(&mut graph, &strong_deps, index);
        let weak_deps = flow.weak_deps.as_vec();
        offer_all(&mut queue, &weak_deps, Ghost(blocks as nat));
        proof {
            assert(flows_view(flows@.update(index as int, Some(flow))) =~= flows_view(
                flows@,
            ).update(index as int, Some(flow@)));
            fuel = (fuel - 1) as nat;
        }
        flows[index] = Some(flow);
        assert(analysis_step(env, r_blocks@, before) == Ok::<AnalysisState, CompileError>(
            AnalysisState {
                queue: queue_view(queue),
                graph: graph@,
                flows: flows_view(flows@),
                contract_dependencies: contract_dependencies@,
            },
        ));
    }
    Ok(BlockAnalysis { flows, graph, contract_dependencies })
}

} // verus!
