use vstd::prelude::*;
use crate::outside::ordered_set::position_from;
use crate::parser::error::{new_generic_error, CompileError, ErrorKind};
use crate::pre_processing::pre_processing::{
    block_items_view,
    Anchor,
    AnchorView,
    Block,
    BlockItem,
    BlockItemView,
    BlockPosition,
    BlockView,
    Contract,
    ContractView,
    Push,
    PushInner,
    PushView,
};
use crate::pre_processing::names::string_names;

verus! {

/// The place in the layout of the block or contract `index`: where `remapping` holds it
/// first.
pub open spec fn layout_index(remapping: Seq<usize>, index: usize) -> Option<usize> {
    let i = position_from(remapping, index, 0);
    if i < remapping.len() {
        Some(i as usize)
    } else {
        None
    }
}

/// The error for a block or a contract that has no place in the layout.
pub open spec fn unplaced() -> CompileError {
    CompileError { kind: ErrorKind::UnknownName, location: None }
}

/// Where the block `index` was laid out, and the place in the layout of the block that
/// holds it.
pub open spec fn block_place(
    positions: Seq<Option<BlockPosition>>,
    remapping: Seq<usize>,
    index: usize,
) -> Option<(usize, BlockPosition)> {
    if index < positions.len() {
        match positions[index as int] {
            Some(position) => match layout_index(remapping, position.root_index) {
                Some(root) => Some((root, position)),
                None => None,
            },
            None => None,
        }
    } else {
        None
    }
}

/// A push once the blocks have their places: the place of a block is that of its first
/// item in the block that holds it, its size goes from its first item to its last.
pub open spec fn placed_push(
    inner: PushInner,
    positions: Seq<Option<BlockPosition>>,
    remapping: Seq<usize>,
) -> Result<PushInner, CompileError> {
    match inner {
        PushInner::Constant(_) => Ok(inner),
        PushInner::BlockPc { index, line } => match block_place(positions, remapping, index) {
            Some((root, position)) => Ok(PushInner::BlockPc { index: root, line: position.start }),
            None => Err(unplaced()),
        },
        PushInner::BlockSize { index, start, end } => match block_place(
            positions,
            remapping,
            index,
        ) {
            Some((root, position)) => Ok(
                PushInner::BlockSize { index: root, start: position.start, end: position.end },
            ),
            None => Err(unplaced()),
        },
    }
}

/// An item once the blocks have their places.
pub open spec fn placed_item(
    item: BlockItemView,
    positions: Seq<Option<BlockPosition>>,
    remapping: Seq<usize>,
) -> Result<BlockItemView, CompileError> {
    match item {
        BlockItemView::Push(push) => match placed_push(push.inner, positions, remapping) {
            Ok(inner) => Ok(BlockItemView::Push(PushView { attributes: push.attributes, inner })),
            Err(e) => Err(e),
        },
        _ => Ok(item),
    }
}

/// `placed` and, after them, the items from index `from` on, once the blocks have their
/// places.
pub open spec fn placed_items(
    items: Seq<BlockItemView>,
    positions: Seq<Option<BlockPosition>>,
    remapping: Seq<usize>,
    placed: Seq<BlockItemView>,
    from: int,
) -> Result<Seq<BlockItemView>, CompileError>
    decreases items.len() - from,
{
    if from >= items.len() || from < 0 {
        Ok(placed)
    } else {
        match placed_item(items[from], positions, remapping) {
            Err(e) => Err(e),
            Ok(item) => placed_items(items, positions, remapping, placed.push(item), from + 1),
        }
    }
}

/// `anchors` and, after them, the blocks from index `from` on that were laid out inside
/// the block `root`, each where it was laid out last.
pub open spec fn anchors_from(
    names: Seq<Seq<char>>,
    positions: Seq<Option<BlockPosition>>,
    root: usize,
    anchors: Seq<AnchorView>,
    from: int,
) -> Seq<AnchorView>
    decreases positions.len() - from,
{
    if from >= positions.len() || from >= names.len() || from < 0 {
        anchors
    } else {
        anchors_from(
            names,
            positions,
            root,
            match positions[from] {
                Some(position) => if position.root_index == root && from != root {
                    anchors.push(
                        AnchorView { name: names[from], start: position.start, end: position.end },
                    )
                } else {
                    anchors
                },
                None => anchors,
            },
            from + 1,
        )
    }
}

proof fn lemma_anchors_from(
    names: Seq<Seq<char>>,
    positions: Seq<Option<BlockPosition>>,
    root: usize,
    anchors: Seq<AnchorView>,
    from: int,
    block: int,
)
    requires
        0 <= from,
        0 <= block < positions.len(),
        block < names.len(),
        block != root,
        positions[block] matches Some(position) && position.root_index == root,
        from <= block || anchors.contains(
            AnchorView {
                name: names[block],
                start: positions[block].unwrap().start,
                end: positions[block].unwrap().end,
            },
        ),
    ensures
        anchors_from(names, positions, root, anchors, from).contains(
            AnchorView {
                name: names[block],
                start: positions[block].unwrap().start,
                end: positions[block].unwrap().end,
            },
        ),
    decreases positions.len() - from,
{
    let wanted = AnchorView {
        name: names[block],
        start: positions[block].unwrap().start,
        end: positions[block].unwrap().end,
    };
    if from < positions.len() && from < names.len() {
        let next = match positions[from] {
            Some(position) => if position.root_index == root && from != root {
                anchors.push(
                    AnchorView { name: names[from], start: position.start, end: position.end },
                )
            } else {
                anchors
            },
            None => anchors,
        };
        if from == block {
            assert(next[anchors.len() as int] == wanted);
        } else if anchors.contains(wanted) {
            let i = choose|i: int| 0 <= i < anchors.len() && anchors[i] == wanted;
            assert(next[i] == wanted);
        }
        lemma_anchors_from(names, positions, root, next, from + 1, block);
    }
}

/// A block that was laid out inside another is listed among the blocks inside the
/// block of the layout that holds it, with the items that it takes; and a push of its
/// place or of its size is given those same items of that block of the layout.
pub proof fn lemma_anchor_listed(
    names: Seq<Seq<char>>,
    positions: Seq<Option<BlockPosition>>,
    remapping: Seq<usize>,
    block: usize,
)
    requires
        block < positions.len(),
        block < names.len(),
        positions[block as int] matches Some(position) && position.root_index != block
            && layout_index(remapping, position.root_index).is_some(),
    ensures
        ({
            let position = positions[block as int].unwrap();
            let place = layout_index(remapping, position.root_index).unwrap();
            &&& anchors_from(names, positions, position.root_index, Seq::empty(), 0).contains(
                AnchorView { name: names[block as int], start: position.start, end: position.end },
            )
            &&& placed_push(PushInner::BlockPc { index: block, line: 0 }, positions, remapping)
                == Ok::<PushInner, CompileError>(
                PushInner::BlockPc { index: place, line: position.start },
            )
            &&& placed_push(
                PushInner::BlockSize { index: block, start: 0, end: 0 },
                positions,
                remapping,
            ) == Ok::<PushInner, CompileError>(
                PushInner::BlockSize { index: place, start: position.start, end: position.end },
            )
        }),
{
    lemma_anchors_from(
        names,
        positions,
        positions[block as int].unwrap().root_index,
        Seq::empty(),
        0,
        block as int,
    );
}

/// The block `root` of the layout: its name, its items with the places filled in, and
/// the blocks inside it.
pub open spec fn remapped_block(
    blocks: Seq<Option<Seq<BlockItemView>>>,
    names: Seq<Seq<char>>,
    positions: Seq<Option<BlockPosition>>,
    remapping: Seq<usize>,
    root: usize,
) -> Result<BlockView, CompileError> {
    if root < blocks.len() && root < names.len() && blocks[root as int].is_some() {
        match placed_items(blocks[root as int].unwrap(), positions, remapping, Seq::empty(), 0) {
            Err(e) => Err(e),
            Ok(items) => Ok(
                BlockView {
                    name: names[root as int],
                    items,
                    anchors: anchors_from(names, positions, root, Seq::empty(), 0),
                },
            ),
        }
    } else {
        Err(unplaced())
    }
}

/// `done` and, after them, the blocks of the layout from index `from` on.
pub open spec fn remapped_blocks(
    blocks: Seq<Option<Seq<BlockItemView>>>,
    names: Seq<Seq<char>>,
    positions: Seq<Option<BlockPosition>>,
    remapping: Seq<usize>,
    done: Seq<BlockView>,
    from: int,
) -> Result<Seq<BlockView>, CompileError>
    decreases remapping.len() - from,
{
    if from >= remapping.len() || from < 0 {
        Ok(done)
    } else {
        match remapped_block(blocks, names, positions, remapping, remapping[from]) {
            Err(e) => Err(e),
            Ok(block) => remapped_blocks(
                blocks,
                names,
                positions,
                remapping,
                done.push(block),
                from + 1,
            ),
        }
    }
}

/// The items of the blocks as values of the mathematics.
pub open spec fn root_items_view(blocks: Seq<Option<Vec<BlockItem>>>) -> Seq<
    Option<Seq<BlockItemView>>,
> {
    blocks.map_values(
        |items: Option<Vec<BlockItem>>|
            match items {
                Some(items) => Some(block_items_view(items@)),
                None => None,
            },
    )
}

/// The blocks as values of the mathematics.
pub open spec fn blocks_view(blocks: Seq<Block>) -> Seq<BlockView> {
    blocks.map_values(|block: Block| block@)
}

/// The anchors as values of the mathematics.
pub open spec fn anchors_view(anchors: Seq<Anchor>) -> Seq<AnchorView> {
    anchors.map_values(|anchor: Anchor| anchor@)
}

fn position_in(list: &Vec<usize>, item: usize) -> (res: Option<usize>)
    ensures
        res == layout_index(list@, item),
{
    let mut i: usize = 0;
    while i < list.len()
        invariant
            i <= list@.len(),
            position_from(list@, item, 0) == position_from(list@, item, i as int),
        decreases list@.len() - i,
    {
        if list[i] == item {
            return Some(i);
        }
        i += 1;
    }
    None
}

fn place_push(inner: &PushInner, positions: &Vec<Option<BlockPosition>>, remapping: &Vec<usize>)
    -> (res: Result<PushInner, CompileError>)
    ensures
        res == placed_push(*inner, positions@, remapping@),
{
    match inner {
        PushInner::Constant(_) => Ok(*inner),
        PushInner::BlockPc { index, line: _ } => {
            if *index >= positions.len() {
                return Err(new_generic_error(ErrorKind::UnknownName));
            }
            let Some(position) = positions[*index] else {
                return Err(new_generic_error(ErrorKind::UnknownName));
            };
            let Some(root) = position_in(remapping, position.root_index) else {
                return Err(new_generic_error(ErrorKind::UnknownName));
            };
            Ok(PushInner::BlockPc { index: root, line: position.start })
        },
        PushInner::BlockSize { index, start: _, end: _ } => {
            if *index >= positions.len() {
                return Err(new_generic_error(ErrorKind::UnknownName));
            }
            let Some(position) = positions[*index] else {
                return Err(new_generic_error(ErrorKind::UnknownName));
            };
            let Some(root) = position_in(remapping, position.root_index) else {
                return Err(new_generic_error(ErrorKind::UnknownName));
            };
            Ok(PushInner::BlockSize { index: root, start: position.start, end: position.end })
        },
    }
}

fn place_items(
    items: &Vec<BlockItem>,
    positions: &Vec<Option<BlockPosition>>,
    remapping: &Vec<usize>,
) -> (res: Result<Vec<BlockItem>, CompileError>)
    ensures
        match placed_items(block_items_view(items@), positions@, remapping@, Seq::empty(), 0) {
            Ok(placed) => res matches Ok(list) && block_items_view(list@) == placed,
            Err(e) => res matches Err(err) && err == e,
        },
{
    let mut placed: Vec<BlockItem> = Vec::new();
    assert(block_items_view(placed@) =~= Seq::<BlockItemView>::empty());
    let mut i: usize = 0;
    while i < items.len()
        invariant
            i <= items@.len(),
            placed_items(block_items_view(items@), positions@, remapping@, Seq::empty(), 0)
                == placed_items(
                block_items_view(items@),
                positions@,
                remapping@,
                block_items_view(placed@),
                i as int,
            ),
        decreases items@.len() - i,
    {
        let item = match &items[i] {
            BlockItem::Bytes(bytes) => BlockItem::Bytes(bytes.clone()),
            BlockItem::Contract(index) => BlockItem::Contract(*index),
            BlockItem::Push(push) => match place_push(&push.inner, positions, remapping) {
                Ok(inner) => BlockItem::Push(Push { attributes: push.attributes.snapshot(), inner }),
                Err(e) => {
                    return Err(e);
                },
            },
        };
        assert(block_items_view(placed@.push(item)) =~= block_items_view(placed@).push(item@));
        placed.push(item);
        i += 1;
    }
    Ok(placed)
}

fn anchors_of(names: &Vec<String>, positions: &Vec<Option<BlockPosition>>, root: usize) -> (res:
    Vec<Anchor>)
    ensures
        anchors_view(res@) == anchors_from(
            string_names(names@),
            positions@,
            root,
            Seq::empty(),
            0,
        ),
{
    let mut anchors: Vec<Anchor> = Vec::new();
    assert(anchors_view(anchors@) =~= Seq::<AnchorView>::empty());
    let mut i: usize = 0;
    while i < positions.len() && i < names.len()
        invariant
            anchors_from(string_names(names@), positions@, root, Seq::empty(), 0) == anchors_from(
                string_names(names@),
                positions@,
                root,
                anchors_view(anchors@),
                i as int,
            ),
        decreases positions@.len() - i,
    {
        if let Some(position) = positions[i] {
            if position.root_index == root && i != root {
                let anchor = Anchor {
                    name: names[i].clone(),
                    start: position.start,
                    end: position.end,
                };
                assert(anchors_view(anchors@.push(anchor)) =~= anchors_view(anchors@).push(
                    anchor@,
                ));
                anchors.push(anchor);
            }
        }
        i += 1;
    }
    anchors
}

/// Brings the blocks into the order of the layout and fills the places of the blocks into
/// the pushes. `remapping` holds, for each place of the layout, the index of the block
/// that takes it.
pub fn remap_blocks(
    blocks: &Vec<Option<Vec<BlockItem>>>,
    names: &Vec<String>,
    remapping: &Vec<usize>,
    new_positions: &Vec<Option<BlockPosition>>,
) -> (res: Result<Vec<Block>, CompileError>)
    ensures
        match remapped_blocks(
            root_items_view(blocks@),
            string_names(names@),
            new_positions@,
            remapping@,
            Seq::empty(),
            0,
        ) {
            Ok(remapped) => res matches Ok(list) && blocks_view(list@) == remapped,
            Err(e) => res matches Err(err) && err == e,
        },
{
    let mut done: Vec<Block> = Vec::new();
    assert(blocks_view(done@) =~= Seq::<BlockView>::empty());
    let mut i: usize = 0;
    while i < remapping.len()
        invariant
            i <= remapping@.len(),
            remapped_blocks(
                root_items_view(blocks@),
                string_names(names@),
                new_positions@,
                remapping@,
                Seq::empty(),
                0,
            ) == remapped_blocks(
                root_items_view(blocks@),
                string_names(names@),
                new_positions@,
                remapping@,
                blocks_view(done@),
                i as int,
            ),
        decreases remapping@.len() - i,
    {
        let root = remapping[i];
        if root >= blocks.len() || root >= names.len() {
            return Err(new_generic_error(ErrorKind::UnknownName));
        }
        let Some(items) = &blocks[root] else {
            return Err(new_generic_error(ErrorKind::UnknownName));
        };
        let placed = match place_items(items, new_positions, remapping) {
            Ok(placed) => placed,
            Err(e) => {
                return Err(e);
            },
        };
        let block = Block {
            name: names[root].clone(),
            items: placed,
            anchors: anchors_of(names, new_positions, root),
        };
        assert(blocks_view(done@.push(block)) =~= blocks_view(done@).push(block@));
        done.push(block);
        i += 1;
    }
    Ok(done)
}

/// An item once the contracts have their places.
pub open spec fn recoded_item(item: BlockItemView, remapping: Seq<usize>) -> Result<
    BlockItemView,
    CompileError,
> {
    match item {
        BlockItemView::Contract(index) => match layout_index(remapping, index) {
            Some(place) => Ok(BlockItemView::Contract(place)),
            None => Err(unplaced()),
        },
        _ => Ok(item),
    }
}

/// `done` and, after them, the items from index `from` on, once the contracts have their
/// places.
pub open spec fn recoded_items(
    items: Seq<BlockItemView>,
    remapping: Seq<usize>,
    done: Seq<BlockItemView>,
    from: int,
) -> Result<Seq<BlockItemView>, CompileError>
    decreases items.len() - from,
{
    if from >= items.len() || from < 0 {
        Ok(done)
    } else {
        match recoded_item(items[from], remapping) {
            Err(e) => Err(e),
            Ok(item) => recoded_items(items, remapping, done.push(item), from + 1),
        }
    }
}

/// `done` and, after them, the blocks from index `from` on, once the contracts have their
/// places.
pub open spec fn recoded_blocks(
    blocks: Seq<BlockView>,
    remapping: Seq<usize>,
    done: Seq<BlockView>,
    from: int,
) -> Result<Seq<BlockView>, CompileError>
    decreases blocks.len() - from,
{
    if from >= blocks.len() || from < 0 {
        Ok(done)
    } else {
        match recoded_items(blocks[from].items, remapping, Seq::empty(), 0) {
            Err(e) => Err(e),
            Ok(items) => recoded_blocks(
                blocks,
                remapping,
                done.push(
                    BlockView { name: blocks[from].name, items, anchors: blocks[from].anchors },
                ),
                from + 1,
            ),
        }
    }
}

/// `done` and, after them, the contracts of the layout from index `from` on.
pub open spec fn remapped_contracts(
    contracts: Seq<Option<ContractView>>,
    remapping: Seq<usize>,
    done: Seq<ContractView>,
    from: int,
) -> Result<Seq<ContractView>, CompileError>
    decreases remapping.len() - from,
{
    if from >= remapping.len() || from < 0 {
        Ok(done)
    } else {
        let index = remapping[from];
        if index < contracts.len() && contracts[index as int].is_some() {
            let contract = contracts[index as int].unwrap();
            match recoded_blocks(contract.blocks, remapping, Seq::empty(), 0) {
                Err(e) => Err(e),
                Ok(blocks) => remapped_contracts(
                    contracts,
                    remapping,
                    done.push(ContractView { name: contract.name, blocks, last: contract.last }),
                    from + 1,
                ),
            }
        } else {
            Err(unplaced())
        }
    }
}

/// The contracts as values of the mathematics.
pub open spec fn contracts_view(contracts: Seq<Contract>) -> Seq<ContractView> {
    contracts.map_values(|contract: Contract| contract@)
}

/// The contracts that were read as values of the mathematics.
pub open spec fn read_contracts_view(contracts: Seq<Option<Contract>>) -> Seq<
    Option<ContractView>,
> {
    contracts.map_values(
        |contract: Option<Contract>|
            match contract {
                Some(contract) => Some(contract@),
                None => None,
            },
    )
}

fn recode_items(items: &Vec<BlockItem>, remapping: &Vec<usize>) -> (res: Result<
    Vec<BlockItem>,
    CompileError,
>)
    ensures
        match recoded_items(block_items_view(items@), remapping@, Seq::empty(), 0) {
            Ok(recoded) => res matches Ok(list) && block_items_view(list@) == recoded,
            Err(e) => res matches Err(err) && err == e,
        },
{
    let mut done: Vec<BlockItem> = Vec::new();
    assert(block_items_view(done@) =~= Seq::<BlockItemView>::empty());
    let mut i: usize = 0;
    while i < items.len()
        invariant
            i <= items@.len(),
            recoded_items(block_items_view(items@), remapping@, Seq::empty(), 0) == recoded_items(
                block_items_view(items@),
                remapping@,
                block_items_view(done@),
                i as int,
            ),
        decreases items@.len() - i,
    {
        let item = match &items[i] {
            BlockItem::Bytes(bytes) => BlockItem::Bytes(bytes.clone()),
            BlockItem::Contract(index) => match position_in(remapping, *index) {
                Some(place) => BlockItem::Contract(place),
                None => {
                    return Err(new_generic_error(ErrorKind::UnknownName));
                },
            },
            BlockItem::Push(push) => BlockItem::Push(
                Push { attributes: push.attributes.snapshot(), inner: push.inner },
            ),
        };
        assert(block_items_view(done@.push(item)) =~= block_items_view(done@).push(item@));
        done.push(item);
        i += 1;
    }
    Ok(done)
}

fn copy_anchors(anchors: &Vec<Anchor>) -> (res: Vec<Anchor>)
    ensures
        anchors_view(res@) == anchors_view(anchors@),
{
    let mut copy: Vec<Anchor> = Vec::new();
    let mut i: usize = 0;
    while i < anchors.len()
        invariant
            i <= anchors@.len(),
            copy@.len() == i,
            forall|k: int| 0 <= k < i ==> copy@[k]@ == anchors@[k]@,
        decreases anchors@.len() - i,
    {
        copy.push(
            Anchor { name: anchors[i].name.clone(), start: anchors[i].start, end: anchors[i].end },
        );
        i += 1;
    }
    assert(anchors_view(copy@) =~= anchors_view(anchors@));
    copy
}

fn recode_blocks(blocks: &Vec<Block>, remapping: &Vec<usize>) -> (res: Result<
    Vec<Block>,
    CompileError,
>)
    ensures
        match recoded_blocks(blocks_view(blocks@), remapping@, Seq::empty(), 0) {
            Ok(recoded) => res matches Ok(list) && blocks_view(list@) == recoded,
            Err(e) => res matches Err(err) && err == e,
        },
{
    let mut done: Vec<Block> = Vec::new();
    assert(blocks_view(done@) =~= Seq::<BlockView>::empty());
    let mut i: usize = 0;
    while i < blocks.len()
        invariant
            i <= blocks@.len(),
            recoded_blocks(blocks_view(blocks@), remapping@, Seq::empty(), 0) == recoded_blocks(
                blocks_view(blocks@),
                remapping@,
                blocks_view(done@),
                i as int,
            ),
        decreases blocks@.len() - i,
    {
        let items = match recode_items(&blocks[i].items, remapping) {
            Ok(items) => items,
            Err(e) => {
                return Err(e);
            },
        };
        let block = Block {
            name: blocks[i].name.clone(),
            items,
            anchors: copy_anchors(&blocks[i].anchors),
        };
        assert(blocks_view(done@.push(block)) =~= blocks_view(done@).push(block@));
        done.push(block);
        i += 1;
    }
    Ok(done)
}

/// Brings the contracts into the order of the layout and fills the places of the
/// contracts into the items that refer to them. `remapping` holds, for each place of the
/// layout, the index of the contract that takes it.
pub fn remap_contracts(contracts: &Vec<Option<Contract>>, remapping: &Vec<usize>) -> (res: Result<
    Vec<Contract>,
    CompileError,
>)
    ensures
        match remapped_contracts(read_contracts_view(contracts@), remapping@, Seq::empty(), 0) {
            Ok(remapped) => res matches Ok(list) && contracts_view(list@) == remapped,
            Err(e) => res matches Err(err) && err == e,
        },
{
    let mut done: Vec<Contract> = Vec::new();
    assert(contracts_view(done@) =~= Seq::<ContractView>::empty());
    let mut i: usize = 0;
    while i < remapping.len()
        invariant
            i <= remapping@.len(),
            remapped_contracts(read_contracts_view(contracts@), remapping@, Seq::empty(), 0)
                == remapped_contracts(
                read_contracts_view(contracts@),
                remapping@,
                contracts_view(done@),
                i as int,
            ),
        decreases remapping@.len() - i,
    {
        let index = remapping[i];
        if index >= contracts.len() {
            return Err(new_generic_error(ErrorKind::UnknownName));
        }
        let Some(contract) = &contracts[index] else {
            return Err(new_generic_error(ErrorKind::UnknownName));
        };
        let blocks = match recode_blocks(&contract.blocks, remapping) {
            Ok(blocks) => blocks,
            Err(e) => {
                return Err(e);
            },
        };
        let remapped = Contract { name: contract.name.clone(), blocks, last: contract.last };
        assert(contracts_view(done@.push(remapped)) =~= contracts_view(done@).push(remapped@));
        done.push(remapped);
        i += 1;
    }
    Ok(done)
}

} // verus!
