use vstd::prelude::*;
use crate::compile::artifacts::{
    block_entry_names,
    entry_index,
    with_block,
    NamedBlockView,
};
use crate::compile::compile::{
    anchored,
    walk,
    emit_block,
    emit_blocks,
    emit_item,
    emit_items,
    filled,
    hole_value,
    patched,
    places_sorted,
    spec_compile_contract,
    EmitState,
    Hole,
    ItemsState,
};
use crate::compile::settings::FillingView;
use crate::pre_processing::opcode::PUSH2;
use crate::pre_processing::pre_processing::{AnchorView, BlockItemView, BlockView};

verus! {

/// Whether each hole lies within the code, after the opcode `PUSH2`, and the holes
/// follow each other without touching.
pub open spec fn holes_sound(code: Seq<u8>, holes: Seq<Hole>) -> bool {
    &&& forall|k: int|
        0 <= k < holes.len() ==> 1 <= (#[trigger] holes[k]).position() && holes[k].position() + 2
            <= code.len() && code[holes[k].position() - 1] == PUSH2
    &&& forall|j: int, k: int|
        0 <= j < k < holes.len() ==> (#[trigger] holes[j]).position() + 3 <= (
        #[trigger] holes[k]).position()
}

/// Whether each block lies within the first `len` bytes of the code.
pub open spec fn entries_within(entries: Seq<NamedBlockView>, len: nat) -> bool {
    forall|i: int|
        0 <= i < entries.len() ==> (#[trigger] entries[i]).artifacts.pc
            + entries[i].artifacts.size <= len
}

/// Whether the places of the items of each block do not go down, and none lies beyond
/// `len`.
pub open spec fn positions_within(positions: Seq<Seq<usize>>, len: nat) -> bool {
    forall|b: int| 0 <= b < positions.len() ==> places_sorted(#[trigger] positions[b], len)
}

/// What holds of the laying out of a contract at each step.
pub open spec fn emission_sound(st: EmitState) -> bool {
    &&& holes_sound(st.code, st.holes)
    &&& entries_within(st.entries, st.code.len())
    &&& positions_within(st.positions, st.code.len())
}

/// Laying out items keeps the code that is there and puts code after it.
pub proof fn lemma_items_grow(
    st: ItemsState,
    items: Seq<BlockItemView>,
    codes: Seq<Option<Seq<u8>>>,
    push0: bool,
    from: int,
)
    requires
        emit_items(st, items, codes, push0, from).is_ok(),
    ensures
        st.code.len() <= emit_items(st, items, codes, push0, from).unwrap().code.len(),
        emit_items(st, items, codes, push0, from).unwrap().code.subrange(0, st.code.len() as int)
            == st.code,
    decreases items.len() - from,
{
    if 0 <= from < items.len() {
        let next = emit_item(st, items[from], codes, push0).unwrap();
        lemma_items_grow(next, items, codes, push0, from + 1);
        let end = emit_items(next, items, codes, push0, from + 1).unwrap();
        assert(end.code.subrange(0, st.code.len() as int) =~= end.code.subrange(
            0,
            next.code.len() as int,
        ).subrange(0, st.code.len() as int));
        assert(next.code.subrange(0, st.code.len() as int) =~= st.code);
    } else {
        assert(st.code.subrange(0, st.code.len() as int) =~= st.code);
    }
}

/// Laying out items keeps the holes sound and the places in order.
pub proof fn lemma_items_sound(
    st: ItemsState,
    items: Seq<BlockItemView>,
    codes: Seq<Option<Seq<u8>>>,
    push0: bool,
    from: int,
)
    requires
        emit_items(st, items, codes, push0, from).is_ok(),
        emit_items(st, items, codes, push0, from).unwrap().code.len() <= usize::MAX,
        holes_sound(st.code, st.holes),
        places_sorted(st.pcs, st.code.len()),
    ensures
        holes_sound(
            emit_items(st, items, codes, push0, from).unwrap().code,
            emit_items(st, items, codes, push0, from).unwrap().holes,
        ),
        places_sorted(
            emit_items(st, items, codes, push0, from).unwrap().pcs,
            emit_items(st, items, codes, push0, from).unwrap().code.len(),
        ),
    decreases items.len() - from,
{
    if 0 <= from < items.len() {
        let next = emit_item(st, items[from], codes, push0).unwrap();
        lemma_items_grow(next, items, codes, push0, from + 1);
        assert(holes_sound(next.code, next.holes));
        assert(places_sorted(next.pcs, next.code.len()));
        lemma_items_sound(next, items, codes, push0, from + 1);
    }
}

proof fn lemma_with_block_within(
    entries: Seq<NamedBlockView>,
    name: Seq<char>,
    pc: usize,
    end: usize,
    len: nat,
)
    requires
        entries_within(entries, len),
        pc <= end <= len,
    ensures
        entries_within(with_block(entries, name, pc, end), len),
{
    let after = with_block(entries, name, pc, end);
    let index = entry_index(block_entry_names(entries), name);
    assert forall|i: int| 0 <= i < after.len() implies (#[trigger] after[i]).artifacts.pc
        + after[i].artifacts.size <= len by {
        if 0 <= index < entries.len() {
            if i != index {
                assert(after[i] == entries[i]);
            }
        } else {
            if i < entries.len() {
                assert(after[i] == entries[i]);
            }
        }
    }
}

proof fn lemma_anchored_within(
    entries: Seq<NamedBlockView>,
    anchors: Seq<AnchorView>,
    pcs: Seq<usize>,
    from: int,
    len: nat,
)
    requires
        anchored(entries, anchors, pcs, from).is_ok(),
        entries_within(entries, len),
        places_sorted(pcs, len),
    ensures
        entries_within(anchored(entries, anchors, pcs, from).unwrap(), len),
    decreases anchors.len() - from,
{
    if 0 <= from < anchors.len() {
        let anchor = anchors[from];
        lemma_with_block_within(
            entries,
            anchor.name,
            pcs[anchor.start as int],
            pcs[anchor.end as int],
            len,
        );
        lemma_anchored_within(
            with_block(entries, anchor.name, pcs[anchor.start as int], pcs[anchor.end as int]),
            anchors,
            pcs,
            from + 1,
            len,
        );
    }
}

proof fn lemma_block_grow(
    st: EmitState,
    block: BlockView,
    codes: Seq<Option<Seq<u8>>>,
    push0: bool,
    pattern: FillingView,
    random: Seq<u8>,
)
    requires
        emit_block(st, block, codes, push0, pattern, random).is_ok(),
    ensures
        st.code.len() <= emit_block(
            st,
            block,
            codes,
            push0,
            pattern,
            random,
        ).unwrap().code.len(),
{
    lemma_items_grow(
        ItemsState { code: st.code, holes: st.holes, pcs: Seq::empty() },
        block.items,
        codes,
        push0,
        0,
    );
}

proof fn lemma_block_sound(
    st: EmitState,
    block: BlockView,
    codes: Seq<Option<Seq<u8>>>,
    push0: bool,
    pattern: FillingView,
    random: Seq<u8>,
)
    requires
        emit_block(st, block, codes, push0, pattern, random).is_ok(),
        emit_block(st, block, codes, push0, pattern, random).unwrap().code.len()
            <= usize::MAX,
        emission_sound(st),
    ensures
        emission_sound(emit_block(st, block, codes, push0, pattern, random).unwrap()),
{
    let start = ItemsState { code: st.code, holes: st.holes, pcs: Seq::empty() };
    let items = emit_items(start, block.items, codes, push0, 0).unwrap();
    let end = emit_block(st, block, codes, push0, pattern, random).unwrap();
    lemma_items_grow(start, block.items, codes, push0, 0);
    lemma_items_sound(start, block.items, codes, push0, 0);
    let pcs = items.pcs.push(end.code.len() as usize);
    assert(places_sorted(pcs, end.code.len()));
    assert(holes_sound(end.code, end.holes));
    lemma_with_block_within(
        st.entries,
        block.name,
        st.code.len() as usize,
        end.code.len() as usize,
        end.code.len(),
    );
    lemma_anchored_within(
        with_block(st.entries, block.name, st.code.len() as usize, end.code.len() as usize),
        block.anchors,
        pcs,
        0,
        end.code.len(),
    );
    assert forall|b: int| 0 <= b < end.positions.len() implies places_sorted(
        #[trigger] end.positions[b],
        end.code.len(),
    ) by {
        if b < st.positions.len() {
            assert(end.positions[b] == st.positions[b]);
        }
    }
}

/// The code grows as blocks are laid out.
pub proof fn lemma_blocks_grow(
    blocks: Seq<BlockView>,
    codes: Seq<Option<Seq<u8>>>,
    push0: bool,
    pattern: FillingView,
    random: Seq<Seq<u8>>,
    upto: int,
    total: int,
)
    requires
        0 <= upto <= total <= blocks.len(),
        emit_blocks(blocks, codes, push0, pattern, random, total).is_ok(),
    ensures
        emit_blocks(blocks, codes, push0, pattern, random, upto).is_ok(),
        emit_blocks(blocks, codes, push0, pattern, random, upto).unwrap().code.len()
            <= emit_blocks(blocks, codes, push0, pattern, random, total).unwrap().code.len(),
    decreases total - upto,
{
    if upto < total {
        let before = emit_blocks(blocks, codes, push0, pattern, random, total - 1).unwrap();
        lemma_block_grow(
            before,
            blocks[total - 1],
            codes,
            push0,
            pattern,
            if total - 1 < random.len() {
                random[total - 1]
            } else {
                Seq::empty()
            },
        );
        lemma_blocks_grow(blocks, codes, push0, pattern, random, upto, total - 1);
    }
}

/// While the blocks of a contract are laid out, each hole lies after a `PUSH2`, the
/// holes do not touch, and each block that was noted lies within the code.
pub proof fn lemma_blocks_sound(
    blocks: Seq<BlockView>,
    codes: Seq<Option<Seq<u8>>>,
    push0: bool,
    pattern: FillingView,
    random: Seq<Seq<u8>>,
    upto: int,
)
    requires
        0 <= upto <= blocks.len(),
        emit_blocks(blocks, codes, push0, pattern, random, upto).is_ok(),
        emit_blocks(blocks, codes, push0, pattern, random, upto).unwrap().code.len()
            <= usize::MAX,
    ensures
        emission_sound(emit_blocks(blocks, codes, push0, pattern, random, upto).unwrap()),
    decreases upto,
{
    if upto > 0 {
        let before = emit_blocks(blocks, codes, push0, pattern, random, upto - 1).unwrap();
        lemma_blocks_grow(blocks, codes, push0, pattern, random, upto - 1, upto);
        lemma_blocks_sound(blocks, codes, push0, pattern, random, upto - 1);
        lemma_block_sound(
            before,
            blocks[upto - 1],
            codes,
            push0,
            pattern,
            if upto - 1 < random.len() {
                random[upto - 1]
            } else {
                Seq::empty()
            },
        );
    }
}

/// Whether the two bytes of the hole hold the value that the hole waits for, the upper
/// byte first.
pub open spec fn hole_filled(code: Seq<u8>, hole: Hole, positions: Seq<Seq<usize>>) -> bool {
    match hole_value(hole, positions) {
        Ok(value) => 0 <= value <= 0xffff && code[hole.position() as int] == value / 256
            && code[hole.position() + 1] == value % 256,
        Err(_) => false,
    }
}

/// Filling the holes keeps the length of the code and every byte outside the holes,
/// and leaves in each hole the value that it waits for.
pub proof fn lemma_patched(code: Seq<u8>, holes: Seq<Hole>, positions: Seq<Seq<usize>>, from: int)
    requires
        0 <= from <= holes.len(),
        patched(code, holes, positions, from).is_ok(),
        holes_sound(code, holes),
        positions_within(positions, code.len()),
        forall|k: int| 0 <= k < from ==> hole_filled(code, #[trigger] holes[k], positions),
    ensures
        patched(code, holes, positions, from).unwrap().len() == code.len(),
        holes_sound(patched(code, holes, positions, from).unwrap(), holes),
        forall|k: int|
            0 <= k < holes.len() ==> hole_filled(
                patched(code, holes, positions, from).unwrap(),
                #[trigger] holes[k],
                positions,
            ),
        forall|i: int|
            0 <= i < code.len() && (forall|k: int|
                from <= k < holes.len() ==> i != (#[trigger] holes[k]).position() && i
                    != holes[k].position() + 1) ==> patched(code, holes, positions, from).unwrap()[i]
                == code[i],
    decreases holes.len() - from,
{
    if from < holes.len() {
        let value = hole_value(holes[from], positions).unwrap();
        let position = holes[from].position() as int;
        let next = filled(code, position, value);
        assert(0 <= value <= 0xffff) by {
            match holes[from] {
                Hole::Pc { .. } => {},
                Hole::Size { block_index, line_start, line_end, .. } => {
                    assert(places_sorted(positions[block_index as int], code.len()));
                },
            }
        }
        assert(holes_sound(next, holes)) by {
            assert forall|k: int| 0 <= k < holes.len() implies next[(
            #[trigger] holes[k]).position() - 1] == PUSH2 by {
                if k < from {
                    assert(holes[k].position() + 3 <= holes[from].position());
                } else if k > from {
                    assert(holes[from].position() + 3 <= holes[k].position());
                }
            }
        }
        assert forall|k: int| 0 <= k < from + 1 implies hole_filled(
            next,
            #[trigger] holes[k],
            positions,
        ) by {
            if k < from {
                assert(holes[k].position() + 3 <= holes[from].position());
                assert(hole_filled(code, holes[k], positions));
            }
        }
        lemma_patched(next, holes, positions, from + 1);
        let out = patched(next, holes, positions, from + 1).unwrap();
        assert forall|i: int|
            0 <= i < code.len() && (forall|k: int|
                from <= k < holes.len() ==> i != (#[trigger] holes[k]).position() && i
                    != holes[k].position() + 1) implies out[i] == code[i] by {
            assert(i != holes[from].position() && i != holes[from].position() + 1);
            assert(next[i] == code[i]);
        }
    }
}

/// In the code of a contract, each block that was noted lies within the code: its
/// place and its size together do not pass the end.
pub proof fn lemma_blocks_within_code(
    blocks: Seq<BlockView>,
    codes: Seq<Option<Seq<u8>>>,
    push0: bool,
    pattern: FillingView,
    random: Seq<Seq<u8>>,
)
    requires
        spec_compile_contract(blocks, codes, push0, pattern, random).is_ok(),
        spec_compile_contract(blocks, codes, push0, pattern, random).unwrap().bytecode.len()
            <= usize::MAX,
    ensures
        entries_within(
            spec_compile_contract(blocks, codes, push0, pattern, random).unwrap().blocks,
            spec_compile_contract(blocks, codes, push0, pattern, random).unwrap().bytecode.len(),
        ),
{
    let st = emit_blocks(blocks, codes, push0, pattern, random, blocks.len() as int).unwrap();
    lemma_patched_len(st.code, st.holes, st.positions, 0);
    lemma_blocks_sound(blocks, codes, push0, pattern, random, blocks.len() as int);
}

/// Filling the holes keeps the length of the code.
pub proof fn lemma_patched_len(code: Seq<u8>, holes: Seq<Hole>, positions: Seq<Seq<usize>>, from: int)
    requires
        patched(code, holes, positions, from).is_ok(),
    ensures
        patched(code, holes, positions, from).unwrap().len() == code.len(),
    decreases holes.len() - from,
{
    if 0 <= from < holes.len() {
        let value = hole_value(holes[from], positions).unwrap();
        lemma_patched_len(
            filled(code, holes[from].position() as int, value),
            holes,
            positions,
            from + 1,
        );
    }
}

/// In the code of a contract, each push of the place or the size of a block is the
/// opcode `PUSH2` and, in the two bytes after it, the place or the size, the upper byte
/// first. `k` is the index of the push among such pushes, in the order of the code.
pub proof fn lemma_address_integrity(
    blocks: Seq<BlockView>,
    codes: Seq<Option<Seq<u8>>>,
    push0: bool,
    pattern: FillingView,
    random: Seq<Seq<u8>>,
    k: int,
)
    requires
        spec_compile_contract(blocks, codes, push0, pattern, random).is_ok(),
        spec_compile_contract(blocks, codes, push0, pattern, random).unwrap().bytecode.len()
            <= usize::MAX,
        0 <= k < emit_blocks(
            blocks,
            codes,
            push0,
            pattern,
            random,
            blocks.len() as int,
        ).unwrap().holes.len(),
    ensures
        ({
            let st = emit_blocks(blocks, codes, push0, pattern, random, blocks.len() as int).unwrap();
            let code = spec_compile_contract(blocks, codes, push0, pattern, random).unwrap().bytecode;
            let hole = st.holes[k];
            &&& 1 <= hole.position()
            &&& hole.position() + 2 <= code.len()
            &&& code[hole.position() - 1] == PUSH2
            &&& hole_value(hole, st.positions) matches Ok(value)
            &&& 0 <= value <= 0xffff
            &&& code[hole.position() as int] * 256 + code[hole.position() + 1] == value
        }),
{
    let st = emit_blocks(blocks, codes, push0, pattern, random, blocks.len() as int).unwrap();
    lemma_patched_len(st.code, st.holes, st.positions, 0);
    lemma_blocks_sound(blocks, codes, push0, pattern, random, blocks.len() as int);
    lemma_patched(st.code, st.holes, st.positions, 0);
    let code = patched(st.code, st.holes, st.positions, 0).unwrap();
    assert(hole_filled(code, st.holes[k], st.positions));
}

/// The entry of a block that lies inside another: it goes from the place of its first
/// item to the place after its last.
pub open spec fn anchor_entry(anchor: AnchorView, pcs: Seq<usize>) -> NamedBlockView {
    NamedBlockView {
        name: anchor.name,
        artifacts: crate::compile::artifacts::BlockArtifacts {
            pc: pcs[anchor.start as int],
            size: (pcs[anchor.end as int] - pcs[anchor.start as int]) as usize,
        },
    }
}

/// The entries of a block of the layout: its own, from its first item to the end of
/// its filler, and those of the blocks inside it.
pub open spec fn block_entries(block: BlockView, pcs: Seq<usize>, end: nat) -> Seq<
    NamedBlockView,
> {
    seq![
        NamedBlockView {
            name: block.name,
            artifacts: crate::compile::artifacts::BlockArtifacts {
                pc: pcs[0],
                size: (end - pcs[0]) as usize,
            },
        },
    ] + block.anchors.map_values(|anchor: AnchorView| anchor_entry(anchor, pcs))
}

/// The names under which a block of the layout is noted: its own, and those of the
/// blocks inside it.
pub open spec fn block_names(block: BlockView) -> Seq<Seq<char>> {
    seq![block.name] + block.anchors.map_values(|anchor: AnchorView| anchor.name)
}

/// The names under which the first `upto` blocks of a layout are noted.
pub open spec fn noted_names(blocks: Seq<BlockView>, upto: int) -> Seq<Seq<char>>
    decreases upto,
{
    if upto <= 0 || upto > blocks.len() {
        Seq::empty()
    } else {
        noted_names(blocks, upto - 1) + block_names(blocks[upto - 1])
    }
}

/// The entries of the first `upto` blocks of a layout, as the blocks are laid out.
pub open spec fn noted_entries(
    blocks: Seq<BlockView>,
    codes: Seq<Option<Seq<u8>>>,
    push0: bool,
    pattern: FillingView,
    random: Seq<Seq<u8>>,
    upto: int,
) -> Seq<NamedBlockView>
    decreases upto,
{
    if upto <= 0 || upto > blocks.len() {
        Seq::empty()
    } else {
        let st = emit_blocks(blocks, codes, push0, pattern, random, upto).unwrap();
        noted_entries(blocks, codes, push0, pattern, random, upto - 1) + block_entries(
            blocks[upto - 1],
            st.positions[upto - 1],
            st.code.len(),
        )
    }
}

proof fn lemma_fresh_name(entries: Seq<NamedBlockView>, name: Seq<char>, from: int)
    requires
        0 <= from <= entries.len(),
        forall|i: int| 0 <= i < entries.len() ==> (#[trigger] entries[i]).name != name,
    ensures
        crate::pre_processing::names::first_index_from(block_entry_names(entries), name, from)
            == entries.len(),
    decreases entries.len() - from,
{
    if from < entries.len() {
        assert(block_entry_names(entries)[from] == entries[from].name);
        lemma_fresh_name(entries, name, from + 1);
    }
}

proof fn lemma_anchored_listed(
    entries: Seq<NamedBlockView>,
    anchors: Seq<AnchorView>,
    pcs: Seq<usize>,
    from: int,
    names: Seq<Seq<char>>,
)
    requires
        0 <= from <= anchors.len(),
        anchored(entries, anchors, pcs, from).is_ok(),
        names.len() == entries.len(),
        forall|i: int| 0 <= i < entries.len() ==> (#[trigger] entries[i]).name == names[i],
        (names + anchors.map_values(|anchor: AnchorView| anchor.name).subrange(
            from,
            anchors.len() as int,
        )).no_duplicates(),
    ensures
        anchored(entries, anchors, pcs, from).unwrap() == entries + anchors.map_values(
            |anchor: AnchorView| anchor_entry(anchor, pcs),
        ).subrange(from, anchors.len() as int),
    decreases anchors.len() - from,
{
    let anchor_names = anchors.map_values(|anchor: AnchorView| anchor.name);
    let anchor_list = anchors.map_values(|anchor: AnchorView| anchor_entry(anchor, pcs));
    let rest = anchor_names.subrange(from, anchors.len() as int);
    if from < anchors.len() {
        let anchor = anchors[from];
        let all = names + rest;
        assert(all[names.len() as int] == anchor.name);
        assert forall|i: int| 0 <= i < entries.len() implies (#[trigger] entries[i]).name
            != anchor.name by {
            assert(all[i] == names[i]);
            assert(all[i] != all[names.len() as int]);
        }
        lemma_fresh_name(entries, anchor.name, 0);
        let next = with_block(entries, anchor.name, pcs[anchor.start as int], pcs[anchor.end as int]);
        assert(next == entries.push(anchor_entry(anchor, pcs)));
        let next_names = names.push(anchor.name);
        assert(next_names + anchor_names.subrange(from + 1, anchors.len() as int) =~= all);
        lemma_anchored_listed(next, anchors, pcs, from + 1, next_names);
        assert(next + anchor_list.subrange(from + 1, anchors.len() as int) =~= entries
            + anchor_list.subrange(from, anchors.len() as int));
    } else {
        assert(entries + anchor_list.subrange(from, anchors.len() as int) =~= entries);
    }
}

/// Where no name is noted twice, the entries of a contract are those of its blocks, one
/// after the other: each block from its first item to the end of its filler, and each
/// block inside it from the place of its first item to the place after its last.
pub proof fn lemma_entries_listed(
    blocks: Seq<BlockView>,
    codes: Seq<Option<Seq<u8>>>,
    push0: bool,
    pattern: FillingView,
    random: Seq<Seq<u8>>,
    upto: int,
)
    requires
        0 <= upto <= blocks.len(),
        emit_blocks(blocks, codes, push0, pattern, random, upto).is_ok(),
        emit_blocks(blocks, codes, push0, pattern, random, upto).unwrap().code.len()
            <= usize::MAX,
        noted_names(blocks, upto).no_duplicates(),
    ensures
        emit_blocks(blocks, codes, push0, pattern, random, upto).unwrap().entries
            == noted_entries(blocks, codes, push0, pattern, random, upto),
        emit_blocks(blocks, codes, push0, pattern, random, upto).unwrap().positions.len() == upto,
        block_entry_names(emit_blocks(blocks, codes, push0, pattern, random, upto).unwrap().entries)
            == noted_names(blocks, upto),
    decreases upto,
{
    if upto > 0 {
        let before = emit_blocks(blocks, codes, push0, pattern, random, upto - 1).unwrap();
        let after = emit_blocks(blocks, codes, push0, pattern, random, upto).unwrap();
        let block = blocks[upto - 1];
        lemma_blocks_grow(blocks, codes, push0, pattern, random, upto - 1, upto);
        let earlier = noted_names(blocks, upto - 1);
        let all = noted_names(blocks, upto);
        assert(earlier.no_duplicates()) by {
            assert forall|i: int, j: int|
                0 <= i < earlier.len() && 0 <= j < earlier.len() && i != j implies earlier[i]
                != earlier[j] by {
                assert(all[i] == earlier[i]);
                assert(all[j] == earlier[j]);
            }
        }
        lemma_blocks_sound(blocks, codes, push0, pattern, random, upto);
        lemma_entries_listed(blocks, codes, push0, pattern, random, upto - 1);
        let start = ItemsState { code: before.code, holes: before.holes, pcs: Seq::empty() };
        let items = emit_items(start, block.items, codes, push0, 0).unwrap();
        lemma_items_grow(start, block.items, codes, push0, 0);
        lemma_items_first_place(start, block.items, codes, push0, 0);
        let pcs = items.pcs.push(after.code.len() as usize);
        assert(pcs[0] == before.code.len()) by {
            if block.items.len() == 0 {
                assert(walk(items.code, before.code.len() as int, 0) == 0);
                assert(after.code =~= before.code);
            }
        }
        assert(block_entry_names(before.entries) =~= earlier);
        assert(all[earlier.len() as int] == block.name);
        assert forall|i: int| 0 <= i < before.entries.len() implies (
        #[trigger] before.entries[i]).name != block.name by {
            assert(block_entry_names(before.entries)[i] == before.entries[i].name);
            assert(all[i] == earlier[i]);
            assert(all[i] != all[earlier.len() as int]);
        }
        lemma_fresh_name(before.entries, block.name, 0);
        let own = NamedBlockView {
            name: block.name,
            artifacts: crate::compile::artifacts::BlockArtifacts {
                pc: pcs[0],
                size: (after.code.len() - pcs[0]) as usize,
            },
        };
        let with_own = with_block(
            before.entries,
            block.name,
            before.code.len() as usize,
            after.code.len() as usize,
        );
        assert(with_own == before.entries.push(own));
        let anchor_names = block.anchors.map_values(|anchor: AnchorView| anchor.name);
        let own_names = earlier.push(block.name);
        assert(own_names + anchor_names.subrange(0, block.anchors.len() as int) =~= all);
        assert forall|i: int| 0 <= i < with_own.len() implies (#[trigger] with_own[i]).name
            == own_names[i] by {
            if i < before.entries.len() {
                assert(block_entry_names(before.entries)[i] == before.entries[i].name);
            }
        }
        lemma_anchored_listed(with_own, block.anchors, pcs, 0, own_names);
        let anchor_list = block.anchors.map_values(|anchor: AnchorView| anchor_entry(anchor, pcs));
        assert(anchor_list.subrange(0, block.anchors.len() as int) =~= anchor_list);
        assert(after.positions[upto - 1] == pcs);
        assert(after.entries =~= noted_entries(blocks, codes, push0, pattern, random, upto - 1)
            + block_entries(block, pcs, after.code.len()));
        assert(block_entry_names(after.entries) =~= all);
    } else {
        assert(block_entry_names(Seq::<NamedBlockView>::empty()) =~= Seq::<Seq<char>>::empty());
    }
}

proof fn lemma_items_first_place(
    st: ItemsState,
    items: Seq<BlockItemView>,
    codes: Seq<Option<Seq<u8>>>,
    push0: bool,
    from: int,
)
    requires
        emit_items(st, items, codes, push0, from).is_ok(),
        emit_items(st, items, codes, push0, from).unwrap().code.len() <= usize::MAX,
    ensures
        st.pcs.len() <= emit_items(st, items, codes, push0, from).unwrap().pcs.len(),
        forall|i: int|
            0 <= i < st.pcs.len() ==> emit_items(st, items, codes, push0, from).unwrap().pcs[i]
                == st.pcs[i],
        st.pcs.len() == 0 ==> if 0 <= from < items.len() {
            emit_items(st, items, codes, push0, from).unwrap().pcs.len() > 0 && emit_items(
                st,
                items,
                codes,
                push0,
                from,
            ).unwrap().pcs[0] == st.code.len()
        } else {
            emit_items(st, items, codes, push0, from).unwrap() == st
        },
    decreases items.len() - from,
{
    if 0 <= from < items.len() {
        let next = emit_item(st, items[from], codes, push0).unwrap();
        let end = emit_items(next, items, codes, push0, from + 1).unwrap();
        assert(emit_items(st, items, codes, push0, from).unwrap() == end);
        lemma_items_grow(next, items, codes, push0, from + 1);
        lemma_items_grow(st, items, codes, push0, from);
        lemma_items_first_place(next, items, codes, push0, from + 1);
        assert(next.pcs == st.pcs.push(st.code.len() as usize));
        assert forall|i: int| 0 <= i < st.pcs.len() implies end.pcs[i] == st.pcs[i] by {
            assert(next.pcs[i] == st.pcs[i]);
            assert(end.pcs[i] == next.pcs[i]);
        }
        if st.pcs.len() == 0 {
            assert(end.pcs[0] == next.pcs[0]);
            assert(next.pcs[0] == st.code.len() as usize);
        }
    } else {
        assert(emit_items(st, items, codes, push0, from).unwrap() == st);
    }
}

/// The places of the items of a block stay as they are when further blocks are laid out.
pub proof fn lemma_positions_stable(
    blocks: Seq<BlockView>,
    codes: Seq<Option<Seq<u8>>>,
    push0: bool,
    pattern: FillingView,
    random: Seq<Seq<u8>>,
    upto: int,
    total: int,
)
    requires
        0 <= upto <= total <= blocks.len(),
        emit_blocks(blocks, codes, push0, pattern, random, total).is_ok(),
    ensures
        emit_blocks(blocks, codes, push0, pattern, random, upto).is_ok(),
        emit_blocks(blocks, codes, push0, pattern, random, upto).unwrap().positions.len() == upto,
        emit_blocks(blocks, codes, push0, pattern, random, total).unwrap().positions.len()
            == total,
        forall|b: int|
            0 <= b < upto ==> emit_blocks(
                blocks,
                codes,
                push0,
                pattern,
                random,
                total,
            ).unwrap().positions[b] == emit_blocks(
                blocks,
                codes,
                push0,
                pattern,
                random,
                upto,
            ).unwrap().positions[b],
    decreases total - upto, upto,
{
    if upto < total {
        lemma_positions_stable(blocks, codes, push0, pattern, random, upto, total - 1);
        let before = emit_blocks(blocks, codes, push0, pattern, random, total - 1).unwrap();
        let after = emit_blocks(blocks, codes, push0, pattern, random, total).unwrap();
        assert forall|b: int| 0 <= b < upto implies after.positions[b] == emit_blocks(
            blocks,
            codes,
            push0,
            pattern,
            random,
            upto,
        ).unwrap().positions[b] by {
            assert(after.positions[b] == before.positions[b]);
        }
    } else if upto > 0 {
        lemma_positions_stable(blocks, codes, push0, pattern, random, upto - 1, upto - 1);
    }
}

proof fn lemma_noted_contains(
    blocks: Seq<BlockView>,
    codes: Seq<Option<Seq<u8>>>,
    push0: bool,
    pattern: FillingView,
    random: Seq<Seq<u8>>,
    block: int,
    total: int,
    entry: NamedBlockView,
)
    requires
        0 <= block < total <= blocks.len(),
        block_entries(
            blocks[block],
            emit_blocks(blocks, codes, push0, pattern, random, block + 1).unwrap().positions[block],
            emit_blocks(blocks, codes, push0, pattern, random, block + 1).unwrap().code.len(),
        ).contains(entry),
    ensures
        noted_entries(blocks, codes, push0, pattern, random, total).contains(entry),
    decreases total - block,
{
    let own = block_entries(
        blocks[block],
        emit_blocks(blocks, codes, push0, pattern, random, block + 1).unwrap().positions[block],
        emit_blocks(blocks, codes, push0, pattern, random, block + 1).unwrap().code.len(),
    );
    let all = noted_entries(blocks, codes, push0, pattern, random, total);
    if block + 1 == total {
        let earlier = noted_entries(blocks, codes, push0, pattern, random, total - 1);
        let i = choose|i: int| 0 <= i < own.len() && own[i] == entry;
        assert(all[earlier.len() + i] == entry);
    } else {
        lemma_noted_contains(blocks, codes, push0, pattern, random, block, total - 1, entry);
        let earlier = noted_entries(blocks, codes, push0, pattern, random, total - 1);
        let i = choose|i: int| 0 <= i < earlier.len() && earlier[i] == entry;
        assert(all[i] == entry);
    }
}

/// Where no name is noted twice: a push of the place of a block that lies inside a
/// block of the layout holds, in its two bytes, the place that is noted for that block;
/// and a push of its size holds the size that is noted for it. `k` is the index of the
/// push among the pushes of places and sizes, `j` the index of the block among those
/// that lie inside the same block of the layout.
pub proof fn lemma_pushed_place_noted(
    blocks: Seq<BlockView>,
    codes: Seq<Option<Seq<u8>>>,
    push0: bool,
    pattern: FillingView,
    random: Seq<Seq<u8>>,
    k: int,
    j: int,
)
    requires
        spec_compile_contract(blocks, codes, push0, pattern, random).is_ok(),
        emit_blocks(blocks, codes, push0, pattern, random, blocks.len() as int).unwrap().code.len()
            <= usize::MAX,
        noted_names(blocks, blocks.len() as int).no_duplicates(),
        0 <= k < emit_blocks(
            blocks,
            codes,
            push0,
            pattern,
            random,
            blocks.len() as int,
        ).unwrap().holes.len(),
        ({
            let hole = emit_blocks(
                blocks,
                codes,
                push0,
                pattern,
                random,
                blocks.len() as int,
            ).unwrap().holes[k];
            match hole {
                Hole::Pc { block_index, line, .. } => block_index < blocks.len() && 0 <= j
                    < blocks[block_index as int].anchors.len()
                    && blocks[block_index as int].anchors[j].start == line,
                Hole::Size { block_index, line_start, line_end, .. } => block_index
                    < blocks.len() && 0 <= j < blocks[block_index as int].anchors.len()
                    && blocks[block_index as int].anchors[j].start == line_start
                    && blocks[block_index as int].anchors[j].end == line_end,
            }
        }),
    ensures
        ({
            let st = emit_blocks(blocks, codes, push0, pattern, random, blocks.len() as int).unwrap();
            let made = spec_compile_contract(blocks, codes, push0, pattern, random).unwrap();
            let hole = st.holes[k];
            let pushed = made.bytecode[hole.position() as int] * 256 + made.bytecode[hole.position()
                + 1];
            exists|i: int|
                0 <= i < made.blocks.len() && (#[trigger] made.blocks[i]).name == (match hole {
                    Hole::Pc { block_index, .. } => blocks[block_index as int].anchors[j].name,
                    Hole::Size { block_index, .. } => blocks[block_index as int].anchors[j].name,
                }) && (match hole {
                    Hole::Pc { .. } => made.blocks[i].artifacts.pc == pushed,
                    Hole::Size { .. } => made.blocks[i].artifacts.size == pushed,
                })
        }),
{
    let total = blocks.len() as int;
    let st = emit_blocks(blocks, codes, push0, pattern, random, total).unwrap();
    let made = spec_compile_contract(blocks, codes, push0, pattern, random).unwrap();
    let hole = st.holes[k];
    let block = match hole {
        Hole::Pc { block_index, .. } => block_index as int,
        Hole::Size { block_index, .. } => block_index as int,
    };
    lemma_patched_len(st.code, st.holes, st.positions, 0);
    lemma_address_integrity(blocks, codes, push0, pattern, random, k);
    lemma_entries_listed(blocks, codes, push0, pattern, random, total);
    lemma_positions_stable(blocks, codes, push0, pattern, random, block + 1, total);
    lemma_blocks_sound(blocks, codes, push0, pattern, random, total);
    let part = emit_blocks(blocks, codes, push0, pattern, random, block + 1).unwrap();
    let pcs = st.positions[block];
    assert(part.positions[block] == pcs);
    let anchor = blocks[block].anchors[j];
    let entry = anchor_entry(anchor, pcs);
    let own = block_entries(blocks[block], pcs, part.code.len());
    assert(own[1 + j] == entry);
    lemma_noted_contains(blocks, codes, push0, pattern, random, block, total, entry);
    let i = choose|i: int| 0 <= i < st.entries.len() && st.entries[i] == entry;
    assert(made.blocks[i] == entry);
    lemma_anchor_valid(blocks, codes, push0, pattern, random, block, j);
    assert(crate::compile::compile::places_sorted(pcs, st.code.len()));
}

proof fn lemma_closing_place(
    blocks: Seq<BlockView>,
    codes: Seq<Option<Seq<u8>>>,
    push0: bool,
    pattern: FillingView,
    random: Seq<Seq<u8>>,
    upto: int,
)
    requires
        0 < upto <= blocks.len(),
        emit_blocks(blocks, codes, push0, pattern, random, upto).is_ok(),
        emit_blocks(blocks, codes, push0, pattern, random, upto).unwrap().code.len()
            <= usize::MAX,
    ensures
        emit_blocks(blocks, codes, push0, pattern, random, upto).unwrap().positions.len() == upto,
        emit_blocks(blocks, codes, push0, pattern, random, upto).unwrap().positions[upto - 1].len()
            > 0,
        emit_blocks(blocks, codes, push0, pattern, random, upto).unwrap().positions[upto
            - 1].last() == emit_blocks(
            blocks,
            codes,
            push0,
            pattern,
            random,
            upto,
        ).unwrap().code.len(),
{
    lemma_positions_stable(blocks, codes, push0, pattern, random, upto - 1, upto);
}

/// Where no name is noted twice: a push of the place of a block of the layout holds, in
/// its two bytes, the place that is noted for that block; and a push of its size holds
/// the size that is noted for it, the filler at its end included. `k` is the index of
/// the push among the pushes of places and sizes.
pub proof fn lemma_pushed_block_place_noted(
    blocks: Seq<BlockView>,
    codes: Seq<Option<Seq<u8>>>,
    push0: bool,
    pattern: FillingView,
    random: Seq<Seq<u8>>,
    k: int,
)
    requires
        spec_compile_contract(blocks, codes, push0, pattern, random).is_ok(),
        emit_blocks(blocks, codes, push0, pattern, random, blocks.len() as int).unwrap().code.len()
            <= usize::MAX,
        noted_names(blocks, blocks.len() as int).no_duplicates(),
        0 <= k < emit_blocks(
            blocks,
            codes,
            push0,
            pattern,
            random,
            blocks.len() as int,
        ).unwrap().holes.len(),
        ({
            let st = emit_blocks(blocks, codes, push0, pattern, random, blocks.len() as int).unwrap();
            match st.holes[k] {
                Hole::Pc { block_index, line, .. } => block_index < blocks.len() && line == 0,
                Hole::Size { block_index, line_start, line_end, .. } => block_index
                    < blocks.len() && line_start == 0 && line_end + 1
                    == st.positions[block_index as int].len(),
            }
        }),
    ensures
        ({
            let st = emit_blocks(blocks, codes, push0, pattern, random, blocks.len() as int).unwrap();
            let made = spec_compile_contract(blocks, codes, push0, pattern, random).unwrap();
            let hole = st.holes[k];
            let pushed = made.bytecode[hole.position() as int] * 256 + made.bytecode[hole.position()
                + 1];
            exists|i: int|
                0 <= i < made.blocks.len() && (#[trigger] made.blocks[i]).name == (match hole {
                    Hole::Pc { block_index, .. } => blocks[block_index as int].name,
                    Hole::Size { block_index, .. } => blocks[block_index as int].name,
                }) && (match hole {
                    Hole::Pc { .. } => made.blocks[i].artifacts.pc == pushed,
                    Hole::Size { .. } => made.blocks[i].artifacts.size == pushed,
                })
        }),
{
    let total = blocks.len() as int;
    let st = emit_blocks(blocks, codes, push0, pattern, random, total).unwrap();
    let made = spec_compile_contract(blocks, codes, push0, pattern, random).unwrap();
    let hole = st.holes[k];
    let block = match hole {
        Hole::Pc { block_index, .. } => block_index as int,
        Hole::Size { block_index, .. } => block_index as int,
    };
    lemma_patched_len(st.code, st.holes, st.positions, 0);
    lemma_address_integrity(blocks, codes, push0, pattern, random, k);
    lemma_entries_listed(blocks, codes, push0, pattern, random, total);
    lemma_positions_stable(blocks, codes, push0, pattern, random, block + 1, total);
    lemma_blocks_grow(blocks, codes, push0, pattern, random, block + 1, total);
    lemma_closing_place(blocks, codes, push0, pattern, random, block + 1);
    lemma_blocks_sound(blocks, codes, push0, pattern, random, total);
    let part = emit_blocks(blocks, codes, push0, pattern, random, block + 1).unwrap();
    let pcs = st.positions[block];
    assert(part.positions[block] == pcs);
    assert(crate::compile::compile::places_sorted(pcs, st.code.len()));
    let own = block_entries(blocks[block], pcs, part.code.len());
    let entry = own[0];
    lemma_noted_contains(blocks, codes, push0, pattern, random, block, total, entry);
    let i = choose|i: int| 0 <= i < st.entries.len() && st.entries[i] == entry;
    assert(made.blocks[i] == entry);
}

proof fn lemma_anchored_valid(
    entries: Seq<NamedBlockView>,
    anchors: Seq<AnchorView>,
    pcs: Seq<usize>,
    from: int,
    j: int,
)
    requires
        0 <= from <= j < anchors.len(),
        anchored(entries, anchors, pcs, from).is_ok(),
    ensures
        anchors[j].start <= anchors[j].end < pcs.len(),
    decreases anchors.len() - from,
{
    if from < j {
        let anchor = anchors[from];
        lemma_anchored_valid(
            with_block(entries, anchor.name, pcs[anchor.start as int], pcs[anchor.end as int]),
            anchors,
            pcs,
            from + 1,
            j,
        );
    }
}

proof fn lemma_anchor_valid(
    blocks: Seq<BlockView>,
    codes: Seq<Option<Seq<u8>>>,
    push0: bool,
    pattern: FillingView,
    random: Seq<Seq<u8>>,
    block: int,
    j: int,
)
    requires
        0 <= block < blocks.len(),
        0 <= j < blocks[block].anchors.len(),
        emit_blocks(blocks, codes, push0, pattern, random, blocks.len() as int).is_ok(),
    ensures
        emit_blocks(blocks, codes, push0, pattern, random, block + 1).is_ok(),
        blocks[block].anchors[j].start <= blocks[block].anchors[j].end < emit_blocks(
            blocks,
            codes,
            push0,
            pattern,
            random,
            block + 1,
        ).unwrap().positions[block].len(),
{
    lemma_positions_stable(blocks, codes, push0, pattern, random, block + 1, blocks.len() as int);
    lemma_positions_stable(blocks, codes, push0, pattern, random, block, block + 1);
    let before = emit_blocks(blocks, codes, push0, pattern, random, block).unwrap();
    let start = ItemsState { code: before.code, holes: before.holes, pcs: Seq::empty() };
    let items = emit_items(start, blocks[block].items, codes, push0, 0).unwrap();
    let after = emit_blocks(blocks, codes, push0, pattern, random, block + 1).unwrap();
    let pcs = items.pcs.push(after.code.len() as usize);
    lemma_anchored_valid(
        with_block(
            before.entries,
            blocks[block].name,
            before.code.len() as usize,
            after.code.len() as usize,
        ),
        blocks[block].anchors,
        pcs,
        0,
        j,
    );
    assert(after.positions[block] == pcs);
}

} // verus!
