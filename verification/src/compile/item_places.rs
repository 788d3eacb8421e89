use vstd::prelude::*;
use crate::compile::alignment::lemma_blocks_closed;
use crate::compile::compile::{
    constant_push_bytes,
    emit_blocks,
    emit_item,
    emit_items,
    spec_compile_contract,
    EmitState,
    Hole,
    ItemsState,
};
use crate::compile::placement::{
    holes_sound,
    lemma_blocks_grow,
    lemma_blocks_sound,
    lemma_items_grow,
    lemma_patched,
    lemma_positions_stable,
};
use crate::compile::settings::FillingView;
use crate::pre_processing::opcode::PUSH2;
use crate::pre_processing::pre_processing::{BlockItemView, BlockView, PushInner};

verus! {

/// Whether the item is a push of the place or the size of a block.
pub open spec fn is_address_push(item: BlockItemView) -> bool {
    match item {
        BlockItemView::Push(push) => !(push.inner is Constant),
        _ => false,
    }
}

/// The bytes that an item puts into the code. A push of a place or a size puts `PUSH2`
/// and two bytes that are filled in later.
pub open spec fn item_bytes(item: BlockItemView, codes: Seq<Option<Seq<u8>>>, push0: bool) -> Seq<
    u8,
> {
    match item {
        BlockItemView::Bytes(bytes) => bytes,
        BlockItemView::Contract(index) => if index < codes.len() && codes[index as int].is_some() {
            codes[index as int].unwrap()
        } else {
            Seq::empty()
        },
        BlockItemView::Push(push) => match push.inner {
            PushInner::Constant(word) => constant_push_bytes(push.attributes, word, push0),
            _ => seq![PUSH2, 0u8, 0u8],
        },
    }
}

/// Whether item `k` lies at its place in the code, and no hole lies in it unless it is a
/// push of a place or a size.
pub open spec fn item_at(
    code: Seq<u8>,
    holes: Seq<Hole>,
    pcs: Seq<usize>,
    items: Seq<BlockItemView>,
    codes: Seq<Option<Seq<u8>>>,
    push0: bool,
    k: int,
) -> bool {
    let bytes = item_bytes(items[k], codes, push0);
    &&& 0 <= k < pcs.len()
    &&& k < items.len()
    &&& pcs[k] + bytes.len() <= code.len()
    &&& code.subrange(pcs[k] as int, pcs[k] + bytes.len()) == bytes
    &&& !is_address_push(items[k]) ==> forall|j: int|
        0 <= j < holes.len() ==> (#[trigger] holes[j]).position() + 2 <= pcs[k]
            || holes[j].position() >= pcs[k] + bytes.len()
}

/// Whether the first `upto` items lie at their places.
pub open spec fn items_placed(
    code: Seq<u8>,
    holes: Seq<Hole>,
    pcs: Seq<usize>,
    items: Seq<BlockItemView>,
    codes: Seq<Option<Seq<u8>>>,
    push0: bool,
    upto: int,
) -> bool {
    forall|k: int| 0 <= k < upto ==> #[trigger] item_at(code, holes, pcs, items, codes, push0, k)
}

/// Whether the holes of `after` are those of `before` and, after them, holes that lie
/// beyond the first `len` bytes.
pub open spec fn holes_extend(before: Seq<Hole>, after: Seq<Hole>, len: nat) -> bool {
    &&& before.len() <= after.len()
    &&& forall|j: int| 0 <= j < before.len() ==> after[j] == before[j]
    &&& forall|j: int| before.len() <= j < after.len() ==> (#[trigger] after[j]).position() > len
}

proof fn lemma_item_kept(
    code: Seq<u8>,
    holes: Seq<Hole>,
    longer: Seq<u8>,
    more: Seq<Hole>,
    pcs: Seq<usize>,
    places: Seq<usize>,
    items: Seq<BlockItemView>,
    codes: Seq<Option<Seq<u8>>>,
    push0: bool,
    k: int,
)
    requires
        item_at(code, holes, pcs, items, codes, push0, k),
        code.len() <= longer.len(),
        longer.subrange(0, code.len() as int) == code,
        holes_extend(holes, more, code.len()),
        pcs.len() <= places.len(),
        places[k] == pcs[k],
    ensures
        item_at(longer, more, places, items, codes, push0, k),
{
    let bytes = item_bytes(items[k], codes, push0);
    assert(longer.subrange(pcs[k] as int, pcs[k] + bytes.len()) =~= longer.subrange(
        0,
        code.len() as int,
    ).subrange(pcs[k] as int, pcs[k] + bytes.len()));
    if !is_address_push(items[k]) {
        assert forall|j: int| 0 <= j < more.len() implies (#[trigger] more[j]).position() + 2
            <= places[k] || more[j].position() >= places[k] + bytes.len() by {
            if j < holes.len() {
                assert(more[j] == holes[j]);
            }
        }
    }
}

proof fn lemma_items_placed(
    st: ItemsState,
    items: Seq<BlockItemView>,
    codes: Seq<Option<Seq<u8>>>,
    push0: bool,
    from: int,
)
    requires
        0 <= from <= items.len(),
        emit_items(st, items, codes, push0, from).is_ok(),
        emit_items(st, items, codes, push0, from).unwrap().code.len() <= usize::MAX,
        st.pcs.len() == from,
        holes_sound(st.code, st.holes),
        items_placed(st.code, st.holes, st.pcs, items, codes, push0, from),
    ensures
        emit_items(st, items, codes, push0, from).unwrap().pcs.len() == items.len(),
        items_placed(
            emit_items(st, items, codes, push0, from).unwrap().code,
            emit_items(st, items, codes, push0, from).unwrap().holes,
            emit_items(st, items, codes, push0, from).unwrap().pcs,
            items,
            codes,
            push0,
            items.len() as int,
        ),
        holes_extend(
            st.holes,
            emit_items(st, items, codes, push0, from).unwrap().holes,
            st.code.len(),
        ),
    decreases items.len() - from,
{
    if from < items.len() {
        let next = emit_item(st, items[from], codes, push0).unwrap();
        let end = emit_items(next, items, codes, push0, from + 1).unwrap();
        assert(emit_items(st, items, codes, push0, from).unwrap() == end);
        lemma_items_grow(next, items, codes, push0, from + 1);
        let bytes = item_bytes(items[from], codes, push0);
        assert(next.code == st.code + bytes);
        assert(next.pcs == st.pcs.push(st.code.len() as usize));
        assert(holes_extend(st.holes, next.holes, st.code.len()));
        assert(holes_sound(next.code, next.holes));
        assert(next.code.subrange(0, st.code.len() as int) =~= st.code);
        assert forall|k: int| 0 <= k < from + 1 implies #[trigger] item_at(
            next.code,
            next.holes,
            next.pcs,
            items,
            codes,
            push0,
            k,
        ) by {
            if k < from {
                assert(item_at(st.code, st.holes, st.pcs, items, codes, push0, k));
                lemma_item_kept(
                    st.code,
                    st.holes,
                    next.code,
                    next.holes,
                    st.pcs,
                    next.pcs,
                    items,
                    codes,
                    push0,
                    k,
                );
            } else {
                assert(next.code.subrange(st.code.len() as int, (st.code.len() + bytes.len()) as int)
                    =~= bytes);
            }
        }
        lemma_items_placed(next, items, codes, push0, from + 1);
        assert forall|j: int| st.holes.len() <= j < end.holes.len() implies (
        #[trigger] end.holes[j]).position() > st.code.len() by {
            if j < next.holes.len() {
                assert(end.holes[j] == next.holes[j]);
            }
        }
        assert forall|j: int| 0 <= j < st.holes.len() implies end.holes[j] == st.holes[j] by {
            assert(next.holes[j] == st.holes[j]);
        }
    }
}

/// Whether the items of the block `b` lie at their places.
pub open spec fn block_placed(
    st: EmitState,
    blocks: Seq<BlockView>,
    codes: Seq<Option<Seq<u8>>>,
    push0: bool,
    b: int,
) -> bool {
    &&& 0 <= b < st.positions.len()
    &&& b < blocks.len()
    &&& items_placed(
        st.code,
        st.holes,
        st.positions[b],
        blocks[b].items,
        codes,
        push0,
        blocks[b].items.len() as int,
    )
}

proof fn lemma_blocks_placed(
    blocks: Seq<BlockView>,
    codes: Seq<Option<Seq<u8>>>,
    push0: bool,
    pattern: FillingView,
    random: Seq<Seq<u8>>,
    upto: int,
)
    requires
        0 <= upto <= blocks.len(),
        emit_blocks(blocks, codes, push0, pattern, random, upto).is_ok(),
        emit_blocks(blocks, codes, push0, pattern, random, upto).unwrap().code.len()
            <= usize::MAX,
    ensures
        forall|b: int|
            0 <= b < upto ==> #[trigger] block_placed(
                emit_blocks(blocks, codes, push0, pattern, random, upto).unwrap(),
                blocks,
                codes,
                push0,
                b,
            ),
    decreases upto,
{
    if upto > 0 {
        let before = emit_blocks(blocks, codes, push0, pattern, random, upto - 1).unwrap();
        let after = emit_blocks(blocks, codes, push0, pattern, random, upto).unwrap();
        let block = blocks[upto - 1];
        lemma_blocks_grow(blocks, codes, push0, pattern, random, upto - 1, upto);
        lemma_blocks_closed(blocks, codes, push0, pattern, random, upto - 1, upto);
        lemma_positions_stable(blocks, codes, push0, pattern, random, upto - 1, upto);
        lemma_blocks_sound(blocks, codes, push0, pattern, random, upto - 1);
        lemma_blocks_placed(blocks, codes, push0, pattern, random, upto - 1);
        let start = ItemsState { code: before.code, holes: before.holes, pcs: Seq::empty() };
        let items = emit_items(start, block.items, codes, push0, 0).unwrap();
        lemma_items_grow(start, block.items, codes, push0, 0);
        lemma_items_placed(start, block.items, codes, push0, 0);
        assert(after.holes == items.holes);
        assert(after.code.subrange(0, items.code.len() as int) =~= items.code);
        assert(after.code.subrange(0, before.code.len() as int) =~= before.code);
        let pcs = after.positions[upto - 1];
        assert forall|b: int| 0 <= b < upto implies #[trigger] block_placed(
            after,
            blocks,
            codes,
            push0,
            b,
        ) by {
            if b < upto - 1 {
                assert(block_placed(before, blocks, codes, push0, b));
                assert(after.positions[b] == before.positions[b]);
                assert forall|k: int| 0 <= k < blocks[b].items.len() implies #[trigger] item_at(
                    after.code,
                    after.holes,
                    after.positions[b],
                    blocks[b].items,
                    codes,
                    push0,
                    k,
                ) by {
                    assert(item_at(
                        before.code,
                        before.holes,
                        before.positions[b],
                        blocks[b].items,
                        codes,
                        push0,
                        k,
                    ));
                    lemma_item_kept(
                        before.code,
                        before.holes,
                        after.code,
                        after.holes,
                        before.positions[b],
                        after.positions[b],
                        blocks[b].items,
                        codes,
                        push0,
                        k,
                    );
                }
            } else {
                assert forall|k: int| 0 <= k < block.items.len() implies #[trigger] item_at(
                    after.code,
                    after.holes,
                    pcs,
                    block.items,
                    codes,
                    push0,
                    k,
                ) by {
                    assert(item_at(
                        items.code,
                        items.holes,
                        items.pcs,
                        block.items,
                        codes,
                        push0,
                        k,
                    ));
                    lemma_item_kept(
                        items.code,
                        items.holes,
                        after.code,
                        after.holes,
                        items.pcs,
                        pcs,
                        block.items,
                        codes,
                        push0,
                        k,
                    );
                }
            }
        }
    }
}

/// In the code of a contract, each item that is no push of a place or a size lies at
/// its place as it was laid out: bytes as they are, the code of a contract as it was
/// made, and a push of a known word in the form that the attributes in force and the
/// machine ask for. `b` is the block of the layout, `k` the item of it.
pub proof fn lemma_item_lies_at_its_place(
    blocks: Seq<BlockView>,
    codes: Seq<Option<Seq<u8>>>,
    push0: bool,
    pattern: FillingView,
    random: Seq<Seq<u8>>,
    b: int,
    k: int,
)
    requires
        spec_compile_contract(blocks, codes, push0, pattern, random).is_ok(),
        emit_blocks(blocks, codes, push0, pattern, random, blocks.len() as int).unwrap().code.len()
            <= usize::MAX,
        0 <= b < blocks.len(),
        0 <= k < blocks[b].items.len(),
        !is_address_push(blocks[b].items[k]),
    ensures
        ({
            let st = emit_blocks(blocks, codes, push0, pattern, random, blocks.len() as int).unwrap();
            let made = spec_compile_contract(blocks, codes, push0, pattern, random).unwrap();
            let bytes = item_bytes(blocks[b].items[k], codes, push0);
            let place = st.positions[b][k];
            &&& b < st.positions.len()
            &&& k < st.positions[b].len()
            &&& place + bytes.len() <= made.bytecode.len()
            &&& made.bytecode.subrange(place as int, place + bytes.len()) == bytes
        }),
{
    let total = blocks.len() as int;
    let st = emit_blocks(blocks, codes, push0, pattern, random, total).unwrap();
    let made = spec_compile_contract(blocks, codes, push0, pattern, random).unwrap();
    lemma_blocks_placed(blocks, codes, push0, pattern, random, total);
    lemma_blocks_sound(blocks, codes, push0, pattern, random, total);
    lemma_patched(st.code, st.holes, st.positions, 0);
    assert(block_placed(st, blocks, codes, push0, b));
    assert(item_at(st.code, st.holes, st.positions[b], blocks[b].items, codes, push0, k));
    let bytes = item_bytes(blocks[b].items[k], codes, push0);
    let place = st.positions[b][k] as int;
    assert forall|i: int| place <= i < place + bytes.len() implies made.bytecode[i]
        == st.code[i] by {
        assert forall|j: int| 0 <= j < st.holes.len() implies i != (
        #[trigger] st.holes[j]).position() && i != st.holes[j].position() + 1 by {}
    }
    assert(made.bytecode.subrange(place, place + bytes.len()) =~= st.code.subrange(
        place,
        place + bytes.len(),
    ));
}

proof fn lemma_places_follow(
    st: ItemsState,
    items: Seq<BlockItemView>,
    codes: Seq<Option<Seq<u8>>>,
    push0: bool,
    from: int,
)
    requires
        0 <= from <= items.len(),
        emit_items(st, items, codes, push0, from).is_ok(),
        emit_items(st, items, codes, push0, from).unwrap().code.len() <= usize::MAX,
        st.pcs.len() == from,
    ensures
        emit_items(st, items, codes, push0, from).unwrap().pcs.len() == items.len(),
        forall|k: int|
            0 <= k < from ==> emit_items(st, items, codes, push0, from).unwrap().pcs[k]
                == st.pcs[k],
        forall|k: int|
            from <= k < items.len() ==> (#[trigger] emit_items(
                st,
                items,
                codes,
                push0,
                from,
            ).unwrap().pcs[k]) + item_bytes(items[k], codes, push0).len() == if k + 1
                < items.len() {
                emit_items(st, items, codes, push0, from).unwrap().pcs[k + 1] as int
            } else {
                emit_items(st, items, codes, push0, from).unwrap().code.len() as int
            },
        from < items.len() ==> emit_items(st, items, codes, push0, from).unwrap().pcs[from]
            == st.code.len(),
        from == items.len() ==> emit_items(st, items, codes, push0, from).unwrap() == st,
    decreases items.len() - from,
{
    if from < items.len() {
        let next = emit_item(st, items[from], codes, push0).unwrap();
        let end = emit_items(next, items, codes, push0, from + 1).unwrap();
        assert(emit_items(st, items, codes, push0, from).unwrap() == end);
        lemma_items_grow(next, items, codes, push0, from + 1);
        assert(next.code == st.code + item_bytes(items[from], codes, push0));
        assert(next.pcs == st.pcs.push(st.code.len() as usize));
        lemma_places_follow(next, items, codes, push0, from + 1);
        assert(end.pcs[from] == next.pcs[from]);
        assert forall|k: int| 0 <= k < from implies end.pcs[k] == st.pcs[k] by {
            assert(end.pcs[k] == next.pcs[k]);
            assert(next.pcs[k] == st.pcs[k]);
        }
    }
}

/// In a block of the layout the items follow each other without a gap: each item starts
/// where the item before it ends. The place that closes the block lies after the last
/// item and the filler. `b` is the block of the layout, `k` the item of it.
pub proof fn lemma_items_follow(
    blocks: Seq<BlockView>,
    codes: Seq<Option<Seq<u8>>>,
    push0: bool,
    pattern: FillingView,
    random: Seq<Seq<u8>>,
    b: int,
    k: int,
)
    requires
        emit_blocks(blocks, codes, push0, pattern, random, blocks.len() as int).is_ok(),
        emit_blocks(blocks, codes, push0, pattern, random, blocks.len() as int).unwrap().code.len()
            <= usize::MAX,
        0 <= b < blocks.len(),
        0 <= k < blocks[b].items.len(),
    ensures
        ({
            let st = emit_blocks(blocks, codes, push0, pattern, random, blocks.len() as int).unwrap();
            let bytes = item_bytes(blocks[b].items[k], codes, push0);
            &&& b < st.positions.len()
            &&& st.positions[b].len() == blocks[b].items.len() + 1
            &&& st.positions[b][k] + bytes.len() <= st.positions[b][k + 1]
            &&& k + 1 < blocks[b].items.len() ==> st.positions[b][k] + bytes.len()
                == st.positions[b][k + 1]
        }),
{
    let total = blocks.len() as int;
    lemma_positions_stable(blocks, codes, push0, pattern, random, b + 1, total);
    lemma_positions_stable(blocks, codes, push0, pattern, random, b, b + 1);
    lemma_blocks_grow(blocks, codes, push0, pattern, random, b + 1, total);
    let before = emit_blocks(blocks, codes, push0, pattern, random, b).unwrap();
    let after = emit_blocks(blocks, codes, push0, pattern, random, b + 1).unwrap();
    let start = ItemsState { code: before.code, holes: before.holes, pcs: Seq::empty() };
    let items = emit_items(start, blocks[b].items, codes, push0, 0).unwrap();
    lemma_items_grow(start, blocks[b].items, codes, push0, 0);
    lemma_places_follow(start, blocks[b].items, codes, push0, 0);
    let pcs = items.pcs.push(after.code.len() as usize);
    assert(after.positions[b] == pcs);
    assert(items.pcs[k] + item_bytes(blocks[b].items[k], codes, push0).len() == if k + 1
        < blocks[b].items.len() {
        items.pcs[k + 1] as int
    } else {
        items.code.len() as int
    });
}

} // verus!
