use vstd::prelude::*;
use crate::ast::attribute::{RAttribute, WithAttributes};
use crate::ast::contract::RContract;
use crate::ast::file::RFile;
use crate::parser::error::{
    new_error_from_located,
    new_generic_error,
    CompileError,
    ErrorKind,
};
use crate::parser::parser::Located;
use crate::pre_processing::analysis::{
    analyze_blocks,
    AnalysisState,
    BlockAnalysis,
    offer,
    offer_all,
    queue_measure,
    queue_view,
    queue_with,
    queue_with_all,
    seen_below,
    spec_analyze_blocks,
    QueueView,
};
use crate::pre_processing::attribute::{
    apply_one,
    spec_from_r_attribute,
    Attribute,
    Attributes,
    AttributesView,
};
use crate::pre_processing::block_flow::{located_error, BlockFlow, BlockFlowView, FlowEnv};
use crate::pre_processing::declarations::{
    extract_constants,
    BlockScan,
    ScanState,
    scan_blocks,
    spec_extract_constants,
    spec_scan_blocks,
    ScanEnv,
};
use crate::pre_processing::dependencies::{
    drain_order,
    graph_drained,
    graph_with_edge,
    graph_with_node,
    DepsGraph,
    DepsGraphView,
};
use crate::pre_processing::inlining::{abstract_flags, contains_index, flows_view, InlineEnv};
use crate::pre_processing::layout::{
    inline_roots,
    lay_out_roots,
    layout,
    layout_order,
    roots_start,
};
use crate::pre_processing::names::{
    find_name,
    index_of_name,
    string_names,
    table_view,
    NamedBytes,
    NamedBytesView,
};
use crate::pre_processing::queue::{
    all_below,
    lemma_bounded_set_len,
    IndexedVec,
    PersistentDedupQueue,
};
use crate::pre_processing::remapping::{
    blocks_view,
    contracts_view,
    read_contracts_view,
    remap_blocks,
    remap_contracts,
    remapped_blocks,
    remapped_contracts,
};
use crate::types::bytes32::Bytes32;

verus! {

/// What a push puts on the stack, once the blocks have their places.
#[derive(Clone, Copy, Debug, PartialEq, Eq)]
pub enum PushInner {
    /// A word that is known.
    Constant(Bytes32),
    /// The number of bytes from item `start` to item `end` of the block `index`.
    BlockSize { index: usize, start: usize, end: usize },
    /// The place in the code of item `line` of the block `index`.
    BlockPc { index: usize, line: usize },
}

/// A push, with the attributes in force where it stands.
#[derive(Clone, Debug)]
pub struct Push {
    pub attributes: Attributes,
    pub inner: PushInner,
}

/// One item of a block that is ready to be laid out.
#[derive(Clone, Debug)]
pub enum BlockItem {
    /// Bytes that go to the code as they are.
    Bytes(Vec<u8>),
    /// The code of the contract of this index.
    Contract(usize),
    Push(Push),
}

/// A block that was laid out inside another: it takes the items from `start` up to `end`
/// of the block that holds it.
#[derive(Clone, Debug)]
pub struct Anchor {
    pub name: String,
    pub start: usize,
    pub end: usize,
}

/// A block that is ready to be laid out: the blocks it referred to are part of it.
#[derive(Clone, Debug)]
pub struct Block {
    pub name: String,
    pub items: Vec<BlockItem>,
    pub anchors: Vec<Anchor>,
}

/// A contract that is ready to be laid out: its blocks in the order of the code.
#[derive(Clone, Debug)]
pub struct Contract {
    pub name: String,
    pub blocks: Vec<Block>,
    /// Whether a block was pinned as the last.
    pub last: bool,
}

/// A push with the attributes in force, as values of the mathematics.
#[verifier::ext_equal]
pub struct PushView {
    pub attributes: AttributesView,
    pub inner: PushInner,
}

/// One item of a block that is ready to be laid out, as values of the mathematics.
#[verifier::ext_equal]
pub enum BlockItemView {
    Bytes(Seq<u8>),
    Contract(usize),
    Push(PushView),
}

/// A block that lies inside another, as values of the mathematics.
#[verifier::ext_equal]
pub struct AnchorView {
    pub name: Seq<char>,
    pub start: usize,
    pub end: usize,
}

/// A block that is ready to be laid out, as values of the mathematics.
#[verifier::ext_equal]
pub struct BlockView {
    pub name: Seq<char>,
    pub items: Seq<BlockItemView>,
    pub anchors: Seq<AnchorView>,
}

/// A contract that is ready to be laid out, as values of the mathematics.
#[verifier::ext_equal]
pub struct ContractView {
    pub name: Seq<char>,
    pub blocks: Seq<BlockView>,
    pub last: bool,
}

impl View for Push {
    type V = PushView;

    open spec fn view(&self) -> PushView {
        PushView { attributes: self.attributes@, inner: self.inner }
    }
}

impl View for BlockItem {
    type V = BlockItemView;

    open spec fn view(&self) -> BlockItemView {
        match self {
            BlockItem::Bytes(bytes) => BlockItemView::Bytes(bytes@),
            BlockItem::Contract(index) => BlockItemView::Contract(*index),
            BlockItem::Push(push) => BlockItemView::Push(push@),
        }
    }
}

impl View for Anchor {
    type V = AnchorView;

    open spec fn view(&self) -> AnchorView {
        AnchorView { name: self.name@, start: self.start, end: self.end }
    }
}

/// The views of the items of a block.
pub open spec fn block_items_view(items: Seq<BlockItem>) -> Seq<BlockItemView> {
    items.map_values(|item: BlockItem| item@)
}

impl View for Block {
    type V = BlockView;

    open spec fn view(&self) -> BlockView {
        BlockView {
            name: self.name@,
            items: block_items_view(self.items@),
            anchors: crate::pre_processing::remapping::anchors_view(self.anchors@),
        }
    }
}

impl View for Contract {
    type V = ContractView;

    open spec fn view(&self) -> ContractView {
        ContractView { name: self.name@, blocks: blocks_view(self.blocks@), last: self.last }
    }
}

/// Where the items of a block go: into the block `root_index` of the layout, from its
/// item `line_index` on, inside an abstract block or not.
#[derive(Clone, Copy, Debug, PartialEq, Eq, Structural)]
pub struct BlockPreProcessingContext {
    pub root_index: usize,
    pub inside_abstract: bool,
    pub line_index: usize,
}

/// Where a block was laid out: inside the block `root_index`, from its item `start` up
/// to its item `end`.
#[derive(Clone, Copy, Debug, PartialEq, Eq, Structural)]
pub struct BlockPosition {
    pub root_index: usize,
    pub start: usize,
    pub end: usize,
}

impl BlockPreProcessingContext {
    /// The context of a block that is laid out by itself.
    pub fn new_root(index: usize) -> (res: Self)
        ensures
            res == (BlockPreProcessingContext {
                root_index: index,
                inside_abstract: false,
                line_index: 0,
            }),
    {
        Self { root_index: index, inside_abstract: false, line_index: 0 }
    }

    /// The context of a block that is laid out inside the block of this context, from
    /// the item `line_index` on.
    pub fn next_context(&self, inside_abstract: bool, line_index: usize) -> (res: Self)
        ensures
            res == (BlockPreProcessingContext {
                root_index: self.root_index,
                inside_abstract,
                line_index,
            }),
    {
        Self { root_index: self.root_index, inside_abstract, line_index }
    }
}

/// `found` and, after them, the indices from `from` on that are not marked in `read`.
pub open spec fn unread_from(read: Seq<bool>, found: Seq<usize>, from: int) -> Seq<usize>
    decreases read.len() - from,
{
    if from >= read.len() || from < 0 {
        found
    } else {
        unread_from(
            read,
            if read[from] {
                found
            } else {
                found.push(from as usize)
            },
            from + 1,
        )
    }
}

/// What was read of the blocks of a contract: their declarations, the main block, and
/// the flows of the blocks that can be reached.
#[verifier::ext_equal]
pub struct BlocksRead {
    pub scan: ScanState,
    pub main_index: usize,
    pub analysis: AnalysisState,
}

/// Reads the blocks of a contract: its constants, the declarations of its blocks, and
/// the blocks that can be reached from its main block, its last block and the blocks
/// that are kept. A contract needs a main block, which cannot be its last block too.
pub open spec fn spec_read_blocks(
    r_contract_with_attr: Located<WithAttributes<Located<RContract>>>,
    contract_names: Seq<Seq<char>>,
    compile_variables: Seq<NamedBytesView>,
) -> Result<BlocksRead, CompileError> {
    let located = r_contract_with_attr.inner.inner;
    let r_contract = located.inner;
    let r_blocks = r_contract.blocks@;
    match spec_extract_constants(
        Seq::empty(),
        r_contract.constants@,
        contract_names,
        compile_variables,
        0,
    ) {
        Err(e) => Err(e),
        Ok(constants) => match spec_scan_blocks(
            ScanEnv { contract_names, constants, compile_variables },
            r_blocks,
        ) {
            Err(e) => Err(e),
            Ok(scan) => match scan.main_index {
                None => Err(located_error(ErrorKind::MissingMain, located.location)),
                Some(main_index) => if scan.last_index == Some(main_index) {
                    Err(
                        located_error(
                            ErrorKind::MultiplePins,
                            r_blocks[main_index as int].inner.inner.inner.name.location,
                        ),
                    )
                } else {
                    match spec_analyze_blocks(
                        FlowEnv {
                            constants,
                            contract_names,
                            block_names: scan.block_names,
                            compile_variables,
                        },
                        r_blocks,
                        scan.keeps,
                        main_index,
                        scan.last_index,
                    ) {
                        Err(e) => Err(e),
                        Ok(analysis) => Ok(BlocksRead { scan, main_index, analysis }),
                    }
                },
            },
        },
    }
}

/// The blocks of a contract that are not read, in source order: nothing that is laid
/// out needs them.
pub open spec fn spec_unused_blocks(
    r_contract_with_attr: Located<WithAttributes<Located<RContract>>>,
    contract_names: Seq<Seq<char>>,
    compile_variables: Seq<NamedBytesView>,
) -> Result<Seq<usize>, CompileError> {
    match spec_read_blocks(r_contract_with_attr, contract_names, compile_variables) {
        Err(e) => Err(e),
        Ok(read) => Ok(
            unread_from(
                read.analysis.flows.map_values(|flow: Option<BlockFlowView>| flow.is_some()),
                Seq::empty(),
                0,
            ),
        ),
    }
}

/// A contract ready to be laid out, and the contracts that it refers to, in the order
/// of their first reference. A contract needs a main block, which cannot be its last
/// block too; its blocks must not refer to each other in a cycle; and the blocks that
/// are pinned must be laid out by themselves.
pub open spec fn spec_pre_process_contract(
    r_contract_with_attr: Located<WithAttributes<Located<RContract>>>,
    default_attributes: AttributesView,
    contract_names: Seq<Seq<char>>,
    compile_variables: Seq<NamedBytesView>,
) -> Result<(ContractView, Seq<usize>), CompileError> {
    let located = r_contract_with_attr.inner.inner;
    let r_contract = located.inner;
    let r_blocks = r_contract.blocks@;
    match spec_extract_constants(
        Seq::empty(),
        r_contract.constants@,
        contract_names,
        compile_variables,
        0,
    ) {
        Err(e) => Err(e),
        Ok(constants) => match spec_scan_blocks(
            ScanEnv { contract_names, constants, compile_variables },
            r_blocks,
        ) {
            Err(e) => Err(e),
            Ok(scan) => match scan.main_index {
                None => Err(located_error(ErrorKind::MissingMain, located.location)),
                Some(main_index) => {
                    let main_location = r_blocks[main_index as int].inner.inner.inner.name.location;
                    if scan.last_index == Some(main_index) {
                        Err(located_error(ErrorKind::MultiplePins, main_location))
                    } else {
                        match spec_analyze_blocks(
                            FlowEnv {
                                constants,
                                contract_names,
                                block_names: scan.block_names,
                                compile_variables,
                            },
                            r_blocks,
                            scan.keeps,
                            main_index,
                            scan.last_index,
                        ) {
                            Err(e) => Err(e),
                            Ok(analysis) => {
                                let roots = analysis.graph.leaves;
                                if graph_drained(analysis.graph).edges.len() != 0 {
                                    Err(
                                        CompileError {
                                            kind: ErrorKind::RecursiveBlocks,
                                            location: None,
                                        },
                                    )
                                } else if !roots.contains(main_index) {
                                    Err(
                                        located_error(
                                            ErrorKind::PinnedBlockReferenced,
                                            main_location,
                                        ),
                                    )
                                } else if scan.last_index matches Some(last) && !roots.contains(
                                    last,
                                ) {
                                    Err(
                                        located_error(
                                            ErrorKind::PinnedBlockReferenced,
                                            r_blocks[scan.last_index.unwrap() as int].inner.inner.inner.name.location,
                                        ),
                                    )
                                } else {
                                    match inline_roots(
                                        InlineEnv {
                                            abstr: abstract_flags(r_blocks),
                                            flows: analysis.flows,
                                            block_attributes: scan.block_attributes,
                                        },
                                        default_attributes,
                                        roots_start(r_blocks.len()),
                                        roots,
                                        roots.len() as int,
                                    ) {
                                        Err(e) => Err(e),
                                        Ok(laid_out) => match remapped_blocks(
                                            laid_out.blocks,
                                            scan.block_names,
                                            laid_out.positions,
                                            layout_order(roots, main_index, scan.last_index),
                                            Seq::empty(),
                                            0,
                                        ) {
                                            Err(e) => Err(e),
                                            Ok(blocks) => Ok(
                                                (
                                                    ContractView {
                                                        name: r_contract.name.inner.0@,
                                                        blocks,
                                                        last: scan.last_index.is_some(),
                                                    },
                                                    analysis.contract_dependencies,
                                                ),
                                            ),
                                        },
                                    }
                                }
                            },
                        }
                    }
                },
            },
        },
    }
}

fn unread_indices<T>(list: &Vec<Option<T>>) -> (res: Vec<usize>)
    ensures
        res@ == unread_from(
            list@.map_values(|item: Option<T>| item.is_some()),
            Seq::empty(),
            0,
        ),
{
    let ghost read = list@.map_values(|item: Option<T>| item.is_some());
    let mut found: Vec<usize> = Vec::new();
    let mut i: usize = 0;
    while i < list.len()
        invariant
            i <= list@.len(),
            read == list@.map_values(|item: Option<T>| item.is_some()),
            unread_from(read, Seq::empty(), 0) == unread_from(read, found@, i as int),
        decreases list@.len() - i,
    {
        if list[i].is_none() {
            found.push(i);
        }
        i += 1;
    }
    found
}

fn read_blocks(
    r_contract_with_attr: &Located<WithAttributes<Located<RContract>>>,
    contract_names: &Vec<String>,
    compile_variables: &Vec<NamedBytes>,
) -> (res: Result<(BlockScan, usize, BlockAnalysis), CompileError>)
    ensures
        match spec_read_blocks(
            *r_contract_with_attr,
            string_names(contract_names@),
            table_view(compile_variables@),
        ) {
            Ok(read) => res matches Ok((scan, main_index, analysis)) && scan@ == read.scan
                && main_index == read.main_index && analysis.graph@ == read.analysis.graph
                && flows_view(analysis.flows@) == read.analysis.flows
                && analysis.contract_dependencies@ == read.analysis.contract_dependencies,
            Err(e) => res matches Err(err) && err == e,
        },
        res matches Ok((scan, main_index, analysis)) ==> main_index
            < r_contract_with_attr.inner.inner.inner.blocks@.len() && analysis.flows@.len()
            == r_contract_with_attr.inner.inner.inner.blocks@.len() && scan.block_names@.len()
            == analysis.flows@.len() && scan.block_attributes@.len() == analysis.flows@.len()
            && scan.pinned_below(analysis.flows@.len() as nat) && scan.main_index == Some(
            main_index,
        ) && scan.last_index != Some(main_index) && all_below(
            analysis.contract_dependencies@,
            contract_names@.len(),
        ),
{
    let r_contract = &r_contract_with_attr.inner.inner.inner;
    let constants = match extract_constants(
        &r_contract.constants,
        contract_names,
        compile_variables,
    ) {
        Ok(constants) => constants,
        Err(e) => {
            return Err(e);
        },
    };
    let scan = match scan_blocks(&r_contract.blocks, contract_names, &constants, compile_variables) {
        Ok(scan) => scan,
        Err(e) => {
            return Err(e);
        },
    };
    let Some(main_index) = scan.main_index else {
        return Err(new_error_from_located(&r_contract_with_attr.inner.inner, ErrorKind::MissingMain));
    };
    if let Some(last_index) = scan.last_index {
        if last_index == main_index {
            return Err(
                new_error_from_located(
                    &r_contract.blocks[main_index].inner.inner.inner.name,
                    ErrorKind::MultiplePins,
                ),
            );
        }
    }
    let analysis = match analyze_blocks(
        &r_contract.blocks,
        &constants,
        contract_names,
        &scan,
        main_index,
        compile_variables,
    ) {
        Ok(analysis) => analysis,
        Err(e) => {
            return Err(e);
        },
    };
    Ok((scan, main_index, analysis))
}

/// Tells which blocks of a contract are not read, in source order: nothing that is laid
/// out needs them, and they leave no trace in the code.
pub fn unused_blocks(
    r_contract_with_attr: &Located<WithAttributes<Located<RContract>>>,
    contract_names: &Vec<String>,
    compile_variables: &Vec<NamedBytes>,
) -> (res: Result<Vec<usize>, CompileError>)
    ensures
        match spec_unused_blocks(
            *r_contract_with_attr,
            string_names(contract_names@),
            table_view(compile_variables@),
        ) {
            Ok(unused) => res matches Ok(list) && list@ == unused,
            Err(e) => res matches Err(err) && err == e,
        },
{
    match read_blocks(r_contract_with_attr, contract_names, compile_variables) {
        Ok((_, _, analysis)) => {
            let unused = unread_indices(&analysis.flows);
            assert(analysis.flows@.map_values(|item: Option<BlockFlow>| item.is_some())
                =~= flows_view(analysis.flows@).map_values(
                |flow: Option<BlockFlowView>| flow.is_some(),
            ));
            Ok(unused)
        },
        Err(e) => Err(e),
    }
}

/// Makes a contract ready to be laid out: reads its constants and the declarations of
/// its blocks, reads the blocks that can be reached, lays each block out with the blocks
/// it refers to, and brings the blocks into the order of the code.
pub fn pre_process_contract(
    r_contract_with_attr: &Located<WithAttributes<Located<RContract>>>,
    default_attributes: &Attributes,
    contract_names: &Vec<String>,
    compile_variables: &Vec<NamedBytes>,
) -> (res: Result<(Contract, IndexedVec), CompileError>)
    ensures
        match spec_pre_process_contract(
            *r_contract_with_attr,
            default_attributes@,
            string_names(contract_names@),
            table_view(compile_variables@),
        ) {
            Ok((contract, dependencies)) => res matches Ok((c, d)) && c@ == contract && d@
                == dependencies,
            Err(e) => res matches Err(err) && err == e,
        },
        res matches Ok((c, d)) ==> all_below(d@, contract_names@.len()),
{
    let r_contract = &r_contract_with_attr.inner.inner.inner;
    let (scan, main_index, mut analysis) = match read_blocks(
        r_contract_with_attr,
        contract_names,
        compile_variables,
    ) {
        Ok(read) => read,
        Err(e) => {
            return Err(e);
        },
    };
    let roots = analysis.graph.leaves();
    analysis.graph.drain();
    if !analysis.graph.is_empty() {
        return Err(new_generic_error(ErrorKind::RecursiveBlocks));
    }
    if !contains_index(&roots, main_index) {
        return Err(
            new_error_from_located(
                &r_contract.blocks[main_index].inner.inner.inner.name,
                ErrorKind::PinnedBlockReferenced,
            ),
        );
    }
    if let Some(last_index) = scan.last_index {
        if !contains_index(&roots, last_index) {
            return Err(
                new_error_from_located(
                    &r_contract.blocks[last_index].inner.inner.inner.name,
                    ErrorKind::PinnedBlockReferenced,
                ),
            );
        }
    }
    let laid_out = match lay_out_roots(
        &roots,
        &r_contract.blocks,
        &analysis.flows,
        default_attributes,
        &scan.block_attributes,
    ) {
        Ok(laid_out) => laid_out,
        Err(e) => {
            return Err(e);
        },
    };
    let remapping = layout(&roots, main_index, scan.last_index);
    let blocks = match remap_blocks(
        &laid_out.blocks,
        &scan.block_names,
        &remapping,
        &laid_out.positions,
    ) {
        Ok(blocks) => blocks,
        Err(e) => {
            return Err(e);
        },
    };
    let contract = Contract {
        name: r_contract.name_str().to_owned(),
        blocks,
        last: scan.last_index.is_some(),
    };
    Ok((contract, analysis.contract_dependencies))
}

/// `attributes` after the attributes of a contract from index `from` on. Before a
/// contract no attribute may stand that places a block.
pub open spec fn contract_attributes_from(
    attributes: AttributesView,
    r_attributes: Seq<Located<RAttribute>>,
    compile_variables: Seq<NamedBytesView>,
    from: int,
) -> Result<AttributesView, CompileError>
    decreases r_attributes.len() - from,
{
    if from >= r_attributes.len() || from < 0 {
        Ok(attributes)
    } else {
        match spec_from_r_attribute(r_attributes[from], compile_variables) {
            Err(e) => Err(e),
            Ok(attribute) => if attribute.spec_is_contract_attribute() {
                contract_attributes_from(
                    apply_one(attributes, attribute),
                    r_attributes,
                    compile_variables,
                    from + 1,
                )
            } else {
                Err(
                    located_error(
                        ErrorKind::InvalidAttributePlacement,
                        r_attributes[from].location,
                    ),
                )
            },
        }
    }
}

/// What the declarations of the contracts read so far say: the attributes of each, its
/// name, and which is the main contract.
#[verifier::ext_equal]
pub struct HeaderState {
    pub attributes: Seq<AttributesView>,
    pub names: Seq<Seq<char>>,
    pub main_index: Option<usize>,
}

/// The state after the declarations of the contracts from index `from` on. No two
/// contracts have the same name; the main contract is the one named `contract_name`.
pub open spec fn headers_from(
    st: HeaderState,
    r_contracts: Seq<Located<WithAttributes<Located<RContract>>>>,
    contract_name: Seq<char>,
    compile_variables: Seq<NamedBytesView>,
    from: int,
) -> Result<HeaderState, CompileError>
    decreases r_contracts.len() - from,
{
    if from >= r_contracts.len() || from < 0 {
        Ok(st)
    } else {
        let r_contract = r_contracts[from].inner.inner.inner;
        let name = r_contract.name.inner.0@;
        match contract_attributes_from(
            AttributesView { assumes: Seq::empty(), optimization: true },
            r_contracts[from].inner.attributes@,
            compile_variables,
            0,
        ) {
            Err(e) => Err(e),
            Ok(attributes) => if index_of_name(st.names, name).is_some() {
                Err(located_error(ErrorKind::NameAlreadyUsed, r_contract.name.location))
            } else {
                headers_from(
                    HeaderState {
                        attributes: st.attributes.push(attributes),
                        names: st.names.push(name),
                        main_index: if name == contract_name {
                            Some(from as usize)
                        } else {
                            st.main_index
                        },
                    },
                    r_contracts,
                    contract_name,
                    compile_variables,
                    from + 1,
                )
            },
        }
    }
}

/// The graph after `item` was said to depend on each of `dependencies` from index `from`
/// on.
pub open spec fn graph_with_dependencies(
    graph: DepsGraphView,
    item: usize,
    dependencies: Seq<usize>,
    from: int,
) -> DepsGraphView
    decreases dependencies.len() - from,
{
    if from >= dependencies.len() || from < 0 {
        graph
    } else {
        graph_with_dependencies(
            graph_with_edge(graph, item, dependencies[from]),
            item,
            dependencies,
            from + 1,
        )
    }
}

/// Where the reading of the contracts of a file has come to: the contracts that wait to
/// be read, the references between the contracts read, and the contracts read.
#[verifier::ext_equal]
pub struct FileState {
    pub queue: QueueView,
    pub graph: DepsGraphView,
    pub contracts: Seq<Option<ContractView>>,
}

/// The state after the contract that came in last was read. The contracts that it
/// refers to are to be read too; it depends on each of them.
pub open spec fn file_step(
    r_contracts: Seq<Located<WithAttributes<Located<RContract>>>>,
    headers: HeaderState,
    compile_variables: Seq<NamedBytesView>,
    st: FileState,
) -> Result<FileState, CompileError> {
    let index = st.queue.waiting.last();
    let queue = QueueView { waiting: st.queue.waiting.drop_last(), seen: st.queue.seen };
    match spec_pre_process_contract(
        r_contracts[index as int],
        headers.attributes[index as int],
        headers.names,
        compile_variables,
    ) {
        Err(e) => Err(e),
        Ok((contract, dependencies)) => Ok(
            FileState {
                queue: queue_with_all(queue, dependencies, 0),
                graph: graph_with_dependencies(
                    graph_with_node(st.graph, index),
                    index,
                    dependencies,
                    0,
                ),
                contracts: st.contracts.update(index as int, Some(contract)),
            },
        ),
    }
}

/// The state when no contract waits any more; `fuel` is the number of contracts that
/// may still be read.
pub open spec fn file_run(
    r_contracts: Seq<Located<WithAttributes<Located<RContract>>>>,
    headers: HeaderState,
    compile_variables: Seq<NamedBytesView>,
    st: FileState,
    fuel: nat,
) -> Result<FileState, CompileError>
    decreases fuel,
{
    if st.queue.waiting.len() == 0 || fuel == 0 {
        Ok(st)
    } else {
        match file_step(r_contracts, headers, compile_variables, st) {
            Err(e) => Err(e),
            Ok(next) => file_run(r_contracts, headers, compile_variables, next, (fuel - 1) as nat),
        }
    }
}

/// The state before any contract is read: the main contract waits.
pub open spec fn file_start(main_index: usize, contracts: nat) -> FileState {
    FileState {
        queue: queue_with(QueueView { waiting: Seq::empty(), seen: Set::empty() }, main_index),
        graph: DepsGraphView { edges: Seq::empty(), leaves: Seq::empty() },
        contracts: Seq::new(contracts, |i: int| None),
    }
}

/// The contracts of a file that were read: the contract named `contract_name` and
/// those that it needs, each made ready, and the references between them.
pub open spec fn spec_read_contracts(
    r_file: RFile,
    contract_name: Seq<char>,
    compile_variables: Seq<NamedBytesView>,
) -> Result<FileState, CompileError> {
    let r_contracts = r_file.0@;
    match headers_from(
        HeaderState { attributes: Seq::empty(), names: Seq::empty(), main_index: None },
        r_contracts,
        contract_name,
        compile_variables,
        0,
    ) {
        Err(e) => Err(e),
        Ok(headers) => match headers.main_index {
            None => Err(CompileError { kind: ErrorKind::MissingMain, location: None }),
            Some(main_index) => file_run(
                r_contracts,
                headers,
                compile_variables,
                file_start(main_index, r_contracts.len()),
                r_contracts.len(),
            ),
        },
    }
}

/// The contracts of a file that the contract named `contract_name` does not need, in
/// source order.
pub open spec fn spec_unused_contracts(
    r_file: RFile,
    contract_name: Seq<char>,
    compile_variables: Seq<NamedBytesView>,
) -> Result<Seq<usize>, CompileError> {
    match spec_read_contracts(r_file, contract_name, compile_variables) {
        Err(e) => Err(e),
        Ok(st) => Ok(
            unread_from(
                st.contracts.map_values(|contract: Option<ContractView>| contract.is_some()),
                Seq::empty(),
                0,
            ),
        ),
    }
}

/// The contracts of a file that the contract named `contract_name` needs, ready to be
/// laid out, that contract first and each contract before those that it refers to. The
/// contracts must not refer to each other in a cycle.
pub open spec fn spec_pre_process(
    r_file: RFile,
    contract_name: Seq<char>,
    compile_variables: Seq<NamedBytesView>,
) -> Result<Seq<ContractView>, CompileError> {
    let r_contracts = r_file.0@;
    match headers_from(
        HeaderState { attributes: Seq::empty(), names: Seq::empty(), main_index: None },
        r_contracts,
        contract_name,
        compile_variables,
        0,
    ) {
        Err(e) => Err(e),
        Ok(headers) => match headers.main_index {
            None => Err(CompileError { kind: ErrorKind::MissingMain, location: None }),
            Some(main_index) => match file_run(
                r_contracts,
                headers,
                compile_variables,
                file_start(main_index, r_contracts.len()),
                r_contracts.len(),
            ) {
                Err(e) => Err(e),
                Ok(st) => if graph_drained(st.graph).edges.len() != 0 {
                    Err(CompileError { kind: ErrorKind::RecursiveContracts, location: None })
                } else {
                    remapped_contracts(
                        st.contracts,
                        drain_order(st.graph).reverse(),
                        Seq::empty(),
                        0,
                    )
                },
            },
        },
    }
}

/// The attributes of each contract as values of the mathematics.
pub open spec fn attributes_views(attributes: Seq<Attributes>) -> Seq<AttributesView> {
    attributes.map_values(|a: Attributes| a@)
}

fn contract_attributes(
    r_attributes: &Vec<Located<RAttribute>>,
    compile_variables: &Vec<NamedBytes>,
) -> (res: Result<Attributes, CompileError>)
    ensures
        match contract_attributes_from(
            AttributesView { assumes: Seq::empty(), optimization: true },
            r_attributes@,
            table_view(compile_variables@),
            0,
        ) {
            Ok(attributes) => res matches Ok(a) && a@ == attributes,
            Err(e) => res matches Err(err) && err == e,
        },
{
    let mut attributes = Attributes::default();
    let mut i: usize = 0;
    while i < r_attributes.len()
        invariant
            i <= r_attributes@.len(),
            contract_attributes_from(
                AttributesView { assumes: Seq::empty(), optimization: true },
                r_attributes@,
                table_view(compile_variables@),
                0,
            ) == contract_attributes_from(
                attributes@,
                r_attributes@,
                table_view(compile_variables@),
                i as int,
            ),
        decreases r_attributes@.len() - i,
    {
        let attribute = match Attribute::from_r_attribute(&r_attributes[i], compile_variables) {
            Ok(attribute) => attribute,
            Err(e) => {
                return Err(e);
            },
        };
        if attribute.is_contract_attribute() {
            attributes.apply(attribute);
        } else {
            return Err(
                new_error_from_located(&r_attributes[i], ErrorKind::InvalidAttributePlacement),
            );
        }
        i += 1;
    }
    Ok(attributes)
}

fn refer_to_all(graph: &mut DepsGraph, item: usize, dependencies: &Vec<usize>)
    ensures
        final(graph)@ == graph_with_dependencies(old(graph)@, item, dependencies@, 0),
{
    let mut i: usize = 0;
    while i < dependencies.len()
        invariant
            i <= dependencies@.len(),
            graph_with_dependencies(old(graph)@, item, dependencies@, 0)
                == graph_with_dependencies(graph@, item, dependencies@, i as int),
        decreases dependencies@.len() - i,
    {
        graph.insert_if_needed(item, dependencies[i]);
        i += 1;
    }
}

fn reversed(list: &Vec<usize>) -> (res: Vec<usize>)
    ensures
        res@ == list@.reverse(),
{
    let mut res: Vec<usize> = Vec::new();
    let mut left: usize = list.len();
    while left > 0
        invariant
            left <= list@.len(),
            res@.len() == list@.len() - left,
            forall|k: int| 0 <= k < res@.len() ==> res@[k] == list@[list@.len() - 1 - k],
        decreases left,
    {
        res.push(list[left - 1]);
        left -= 1;
    }
    assert(res@ =~= list@.reverse());
    res
}

fn read_contracts(r_file: &RFile, contract_name: &str, compile_variables: &Vec<NamedBytes>) -> (res:
    Result<(Vec<Option<Contract>>, DepsGraph), CompileError>)
    ensures
        match spec_read_contracts(*r_file, contract_name@, table_view(compile_variables@)) {
            Ok(st) => res matches Ok((contracts, graph)) && read_contracts_view(contracts@)
                == st.contracts && graph@ == st.graph,
            Err(e) => res matches Err(err) && err == e,
        },
{
    let count = r_file.0.len();
    let ghost variables = table_view(compile_variables@);
    let mut main_index: Option<usize> = None;
    let mut contract_names: Vec<String> = Vec::new();
    let mut contract_attributes_list: Vec<Attributes> = Vec::new();
    let ghost no_headers = HeaderState {
        attributes: Seq::empty(),
        names: Seq::empty(),
        main_index: None,
    };
    proof {
        assert(attributes_views(contract_attributes_list@) =~= Seq::<AttributesView>::empty());
        assert(string_names(contract_names@) =~= Seq::<Seq<char>>::empty());
    }
    let mut contract_index: usize = 0;
    while contract_index < count
        invariant
            contract_index <= count,
            count == r_file.0@.len(),
            variables == table_view(compile_variables@),
            contract_names@.len() == contract_index,
            contract_attributes_list@.len() == contract_index,
            main_index matches Some(index) ==> index < contract_index,
            no_headers == (HeaderState {
                attributes: Seq::empty(),
                names: Seq::empty(),
                main_index: None,
            }),
            headers_from(no_headers, r_file.0@, contract_name@, variables, 0) == headers_from(
                HeaderState {
                    attributes: attributes_views(contract_attributes_list@),
                    names: string_names(contract_names@),
                    main_index,
                },
                r_file.0@,
                contract_name@,
                variables,
                contract_index as int,
            ),
        decreases count - contract_index,
    {
        let r_contract_with_attr = &r_file.0[contract_index];
        let attributes = match contract_attributes(
            &r_contract_with_attr.inner.attributes,
            compile_variables,
        ) {
            Ok(attributes) => attributes,
            Err(e) => {
                return Err(e);
            },
        };
        let r_contract = &r_contract_with_attr.inner.inner.inner;
        let name = r_contract.name_str();
        if find_name(&contract_names, name).is_some() {
            return Err(new_error_from_located(&r_contract.name, ErrorKind::NameAlreadyUsed));
        }
        if *name == *contract_name {
            main_index = Some(contract_index);
        }
        let owned = name.to_owned();
        proof {
            assert(attributes_views(contract_attributes_list@.push(attributes))
                =~= attributes_views(contract_attributes_list@).push(attributes@));
            assert(string_names(contract_names@.push(owned)) =~= string_names(
                contract_names@,
            ).push(owned@));
        }
        contract_attributes_list.push(attributes);
        contract_names.push(owned);
        contract_index += 1;
    }
    let ghost headers = HeaderState {
        attributes: attributes_views(contract_attributes_list@),
        names: string_names(contract_names@),
        main_index,
    };
    let Some(main_index) = main_index else {
        return Err(new_generic_error(ErrorKind::MissingMain));
    };
    let mut contracts: Vec<Option<Contract>> = Vec::new();
    let mut i: usize = 0;
    while i < count
        invariant
            i <= count,
            contracts@.len() == i,
            forall|k: int| 0 <= k < i ==> contracts@[k].is_none(),
        decreases count - i,
    {
        contracts.push(None);
        i += 1;
    }
    let mut contracts_queue = PersistentDedupQueue::new();
    offer(&mut contracts_queue, main_index, Ghost(count as nat));
    let mut contracts_dependency_tree = DepsGraph::new();
    let ghost mut fuel: nat = count as nat;
    proof {
        lemma_bounded_set_len(contracts_queue.seen_items(), count as nat);
        assert(queue_view(contracts_queue) =~= file_start(main_index, count as nat).queue);
        assert(read_contracts_view(contracts@) =~= file_start(main_index, count as nat).contracts);
    }
    loop
        invariant
            count == r_file.0@.len(),
            variables == table_view(compile_variables@),
            contract_names@.len() == count,
            contract_attributes_list@.len() == count,
            contracts@.len() == count,
            headers == (HeaderState {
                attributes: attributes_views(contract_attributes_list@),
                names: string_names(contract_names@),
                main_index: Some(main_index),
            }),
            headers_from(
                HeaderState { attributes: Seq::empty(), names: Seq::empty(), main_index: None },
                r_file.0@,
                contract_name@,
                variables,
                0,
            ) == Ok::<HeaderState, CompileError>(headers),
            contracts_queue.wf(),
            seen_below(contracts_queue, count as nat),
            queue_measure(contracts_queue, count as nat) <= fuel,
            file_run(
                r_file.0@,
                headers,
                variables,
                file_start(main_index, count as nat),
                count as nat,
            ) == file_run(
                r_file.0@,
                headers,
                variables,
                FileState {
                    queue: queue_view(contracts_queue),
                    graph: contracts_dependency_tree@,
                    contracts: read_contracts_view(contracts@),
                },
                fuel,
            ),
        ensures
            contracts_queue.waiting().len() == 0,
        decreases fuel,
    {
        proof {
            lemma_bounded_set_len(contracts_queue.seen_items(), count as nat);
        }
        let ghost before = FileState {
            queue: queue_view(contracts_queue),
            graph: contracts_dependency_tree@,
            contracts: read_contracts_view(contracts@),
        };
        let Some(index_to_process) = contracts_queue.pop() else {
            break ;
        };
        assert(contracts_queue.seen_items().contains(
            before.queue.waiting[before.queue.waiting.len() - 1],
        ));
        contracts_dependency_tree.add_node_if_needed(index_to_process);
        let (contract, dependencies) = match pre_process_contract(
            &r_file.0[index_to_process],
            &contract_attributes_list[index_to_process],
            &contract_names,
            compile_variables,
        ) {
            Ok(processed) => processed,
            Err(e) => {
                return Err(e);
            },
        };
        let dependencies = dependencies.as_vec();
        offer_all(&mut contracts_queue, &dependencies, Ghost(count as nat));
        refer_to_all(&mut contracts_dependency_tree, index_to_process, &dependencies);
        proof {
            assert(read_contracts_view(contracts@.update(index_to_process as int, Some(contract)))
                =~= read_contracts_view(contracts@).update(
                index_to_process as int,
                Some(contract@),
            ));
            fuel = (fuel - 1) as nat;
        }
        contracts[index_to_process] = Some(contract);
        assert(file_step(r_file.0@, headers, variables, before) == Ok::<FileState, CompileError>(
            FileState {
                queue: queue_view(contracts_queue),
                graph: contracts_dependency_tree@,
                contracts: read_contracts_view(contracts@),
            },
        ));
    }
    Ok((contracts, contracts_dependency_tree))
}

/// Tells which contracts of a file the contract named `contract_name` does not need, in
/// source order: they are not read and not laid out.
pub fn unused_contracts(
    r_file: &RFile,
    contract_name: &str,
    compile_variables: &Vec<NamedBytes>,
) -> (res: Result<Vec<usize>, CompileError>)
    ensures
        match spec_unused_contracts(*r_file, contract_name@, table_view(compile_variables@)) {
            Ok(unused) => res matches Ok(list) && list@ == unused,
            Err(e) => res matches Err(err) && err == e,
        },
{
    match read_contracts(r_file, contract_name, compile_variables) {
        Ok((contracts, _)) => {
            let unused = unread_indices(&contracts);
            assert(contracts@.map_values(|item: Option<Contract>| item.is_some())
                =~= read_contracts_view(contracts@).map_values(
                |contract: Option<ContractView>| contract.is_some(),
            ));
            Ok(unused)
        },
        Err(e) => Err(e),
    }
}

/// Makes the contracts of a file ready to be laid out: the contract named
/// `contract_name` and those that it needs.
pub fn pre_process(r_file: &RFile, contract_name: &str, compile_variables: &Vec<NamedBytes>) -> (res:
    Result<Vec<Contract>, CompileError>)
    ensures
        match spec_pre_process(*r_file, contract_name@, table_view(compile_variables@)) {
            Ok(contracts) => res matches Ok(list) && contracts_view(list@) == contracts,
            Err(e) => res matches Err(err) && err == e,
        },
{
    let (contracts, mut contracts_dependency_tree) = match read_contracts(
        r_file,
        contract_name,
        compile_variables,
    ) {
        Ok(read) => read,
        Err(e) => {
            return Err(e);
        },
    };
    let order = contracts_dependency_tree.drain();
    if !contracts_dependency_tree.is_empty() {
        return Err(new_generic_error(ErrorKind::RecursiveContracts));
    }
    let remapping_indexes = reversed(&order);
    remap_contracts(&contracts, &remapping_indexes)
}

} // verus!
