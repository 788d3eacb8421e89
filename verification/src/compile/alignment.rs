use vstd::prelude::*;
use crate::compile::compile::{
    block_filler,
    emit_block,
    emit_blocks,
    emit_item,
    emit_items,
    filled,
    hole_value,
    patched,
    spec_compile_contract,
    walk,
    EmitState,
    Hole,
    ItemsState,
};
use crate::compile::placement::{holes_sound, lemma_blocks_sound, lemma_items_grow};
use crate::compile::settings::FillingView;
use crate::pre_processing::opcode::PUSH2;
use crate::pre_processing::pre_processing::{BlockItemView, BlockView};

verus! {

/// Reading the code up to `mid` and then the rest is reading all of it.
pub proof fn lemma_walk_split(code: Seq<u8>, from: int, mid: int, pending: nat)
    requires
        0 <= from <= mid <= code.len(),
    ensures
        walk(code, from, pending) == walk(code, mid, walk(code.take(mid), from, pending)),
    decreases mid - from,
{
    if from < mid {
        assert(code.take(mid)[from] == code[from]);
        if pending > 0 {
            lemma_walk_split(code, from + 1, mid, (pending - 1) as nat);
        } else {
            lemma_walk_split(
                code,
                from + 1,
                mid,
                match crate::pre_processing::opcode::spec_push_length(code[from]) {
                    Some(length) => length as nat,
                    None => 0,
                },
            );
        }
    }
}

/// Where a push waits for at least as many bytes as are left, all of them are its data.
pub proof fn lemma_walk_data(code: Seq<u8>, from: int, pending: nat)
    requires
        0 <= from <= code.len(),
        pending >= code.len() - from,
    ensures
        walk(code, from, pending) == pending - (code.len() - from),
    decreases code.len() - from,
{
    if from < code.len() {
        lemma_walk_data(code, from + 1, (pending - 1) as nat);
    }
}

/// Reading depends only on the bytes that are read.
pub proof fn lemma_walk_agree(first: Seq<u8>, second: Seq<u8>, from: int, pending: nat)
    requires
        0 <= from,
        first.len() == second.len(),
        forall|i: int| from <= i < first.len() ==> first[i] == second[i],
    ensures
        walk(first, from, pending) == walk(second, from, pending),
    decreases first.len() - from,
{
    if from < first.len() {
        if pending > 0 {
            lemma_walk_agree(first, second, from + 1, (pending - 1) as nat);
        } else {
            lemma_walk_agree(
                first,
                second,
                from + 1,
                match crate::pre_processing::opcode::spec_push_length(first[from]) {
                    Some(length) => length as nat,
                    None => 0,
                },
            );
        }
    }
}

/// Filling the two bytes after a `PUSH2` that is read as an opcode changes nothing of
/// how the code is read.
pub proof fn lemma_fill_walk(code: Seq<u8>, position: int, value: int, upto: int)
    requires
        1 <= position,
        position + 2 <= code.len(),
        code[position - 1] == PUSH2,
        walk(code.take(position - 1), 0, 0) == 0,
        0 <= upto <= code.len(),
    ensures
        walk(filled(code, position, value).take(upto), 0, 0) == walk(code.take(upto), 0, 0),
{
    let after = filled(code, position, value);
    if upto <= position {
        assert(after.take(upto) =~= code.take(upto));
    } else {
        let a = code.take(upto);
        let b = after.take(upto);
        assert(a.take(position - 1) =~= code.take(position - 1));
        assert(b.take(position - 1) =~= code.take(position - 1));
        lemma_walk_split(a, 0, position - 1, 0);
        lemma_walk_split(b, 0, position - 1, 0);
        assert(a[position - 1] == PUSH2);
        assert(b[position - 1] == PUSH2);
        assert(walk(a, position - 1, 0) == walk(a, position, 2));
        assert(walk(b, position - 1, 0) == walk(b, position, 2));
        assert(walk(a, position, 2) == walk(a, position + 1, 1));
        assert(walk(b, position, 2) == walk(b, position + 1, 1));
        if position + 1 < upto {
            assert(walk(a, position + 1, 1) == walk(a, position + 2, 0));
            assert(walk(b, position + 1, 1) == walk(b, position + 2, 0));
            lemma_walk_agree(a, b, position + 2, 0);
        }
    }
}

/// Whether each hole follows a `PUSH2` that stands where an opcode is read, when the
/// code is read from its start.
pub open spec fn holes_aligned(code: Seq<u8>, holes: Seq<Hole>, from: int) -> bool {
    forall|k: int|
        from <= k < holes.len() ==> walk(code.take((#[trigger] holes[k]).position() - 1), 0, 0) == 0
}

/// Filling the holes changes nothing of how the code is read, where each hole follows a
/// `PUSH2` that is read as an opcode.
pub proof fn lemma_patched_walk(
    code: Seq<u8>,
    holes: Seq<Hole>,
    positions: Seq<Seq<usize>>,
    from: int,
    upto: int,
)
    requires
        0 <= from <= holes.len(),
        patched(code, holes, positions, from).is_ok(),
        holes_sound(code, holes),
        holes_aligned(code, holes, from),
        0 <= upto <= code.len(),
    ensures
        patched(code, holes, positions, from).unwrap().len() == code.len(),
        walk(patched(code, holes, positions, from).unwrap().take(upto), 0, 0) == walk(
            code.take(upto),
            0,
            0,
        ),
    decreases holes.len() - from,
{
    if from < holes.len() {
        let value = hole_value(holes[from], positions).unwrap();
        let position = holes[from].position() as int;
        let next = filled(code, position, value);
        lemma_fill_walk(code, position, value, upto);
        assert(holes_sound(next, holes)) by {
            assert forall|k: int| 0 <= k < holes.len() implies next[(
            #[trigger] holes[k]).position() - 1] == PUSH2 by {
                if k < from {
                    assert(holes[k].position() + 3 <= holes[from].position());
                } else if k > from {
                    assert(holes[from].position() + 3 <= holes[k].position());
                }
            }
        }
        assert forall|k: int| from + 1 <= k < holes.len() implies walk(
            next.take((#[trigger] holes[k]).position() - 1),
            0,
            0,
        ) == 0 by {
            lemma_fill_walk(code, position, value, holes[k].position() - 1);
        }
        lemma_patched_walk(next, holes, positions, from + 1, upto);
    }
}

/// A block ends where an opcode is read, when the code is read from the start of the
/// block: the gap that a push at its end leaves is filled. And the code before the
/// block stays as it was.
pub proof fn lemma_block_closed(
    st: EmitState,
    block: BlockView,
    codes: Seq<Option<Seq<u8>>>,
    push0: bool,
    pattern: FillingView,
    random: Seq<u8>,
)
    requires
        emit_block(st, block, codes, push0, pattern, random).is_ok(),
    ensures
        st.code.len() <= emit_block(st, block, codes, push0, pattern, random).unwrap().code.len(),
        emit_block(st, block, codes, push0, pattern, random).unwrap().code.take(
            st.code.len() as int,
        ) == st.code,
        walk(
            emit_block(st, block, codes, push0, pattern, random).unwrap().code,
            st.code.len() as int,
            0,
        ) == 0,
{
    let start = ItemsState { code: st.code, holes: st.holes, pcs: Seq::empty() };
    let items = emit_items(start, block.items, codes, push0, 0).unwrap();
    let end = emit_block(st, block, codes, push0, pattern, random).unwrap();
    lemma_items_grow(start, block.items, codes, push0, 0);
    assert(end.code.take(st.code.len() as int) =~= items.code.take(st.code.len() as int));
    let pad = walk(items.code, st.code.len() as int, 0);
    let filler = block_filler(pattern, random, pad);
    assert(filler.len() == pad);
    assert(end.code.take(items.code.len() as int) =~= items.code);
    lemma_walk_split(end.code, st.code.len() as int, items.code.len() as int, 0);
    lemma_walk_data(end.code, items.code.len() as int, pad);
}

/// While the blocks are laid out, the code ends where an opcode is read, when it is read
/// from its start; and the code of the blocks laid out stays as it is when further
/// blocks are laid out.
pub proof fn lemma_blocks_closed(
    blocks: Seq<BlockView>,
    codes: Seq<Option<Seq<u8>>>,
    push0: bool,
    pattern: FillingView,
    random: Seq<Seq<u8>>,
    upto: int,
    total: int,
)
    requires
        0 <= upto <= total <= blocks.len(),
        emit_blocks(blocks, codes, push0, pattern, random, total).is_ok(),
    ensures
        emit_blocks(blocks, codes, push0, pattern, random, upto).is_ok(),
        emit_blocks(blocks, codes, push0, pattern, random, upto).unwrap().code.len()
            <= emit_blocks(blocks, codes, push0, pattern, random, total).unwrap().code.len(),
        emit_blocks(blocks, codes, push0, pattern, random, total).unwrap().code.take(
            emit_blocks(blocks, codes, push0, pattern, random, upto).unwrap().code.len() as int,
        ) == emit_blocks(blocks, codes, push0, pattern, random, upto).unwrap().code,
        walk(emit_blocks(blocks, codes, push0, pattern, random, upto).unwrap().code, 0, 0) == 0,
    decreases total - upto, upto,
{
    let drawn = |index: int|
        if index < random.len() {
            random[index]
        } else {
            Seq::<u8>::empty()
        };
    if upto < total {
        lemma_blocks_closed(blocks, codes, push0, pattern, random, upto, total - 1);
        let before = emit_blocks(blocks, codes, push0, pattern, random, total - 1).unwrap();
        let after = emit_blocks(blocks, codes, push0, pattern, random, total).unwrap();
        let short = emit_blocks(blocks, codes, push0, pattern, random, upto).unwrap();
        lemma_block_closed(before, blocks[total - 1], codes, push0, pattern, drawn(total - 1));
        assert(after.code.take(short.code.len() as int) =~= after.code.take(
            before.code.len() as int,
        ).take(short.code.len() as int));
    } else {
        let st = emit_blocks(blocks, codes, push0, pattern, random, upto).unwrap();
        assert(st.code.take(st.code.len() as int) =~= st.code);
        if 0 < upto {
            lemma_blocks_closed(blocks, codes, push0, pattern, random, upto - 1, upto - 1);
            let before = emit_blocks(blocks, codes, push0, pattern, random, upto - 1).unwrap();
            lemma_block_closed(before, blocks[upto - 1], codes, push0, pattern, drawn(upto - 1));
            lemma_walk_split(st.code, 0, before.code.len() as int, 0);
        }
    }
}

/// In the code of a contract, each block ends where an opcode is read, when the code is
/// read from its start: no block starts inside the data of a push, and reading the code
/// ends exactly at its end, with no byte of data owed. This holds where each push of a
/// place or a size stands where an opcode is read. `end` is the number of blocks up to
/// the end in question.
pub proof fn lemma_push_integrity(
    blocks: Seq<BlockView>,
    codes: Seq<Option<Seq<u8>>>,
    push0: bool,
    pattern: FillingView,
    random: Seq<Seq<u8>>,
    end: int,
)
    requires
        spec_compile_contract(blocks, codes, push0, pattern, random).is_ok(),
        emit_blocks(blocks, codes, push0, pattern, random, blocks.len() as int).unwrap().code.len()
            <= usize::MAX,
        holes_aligned(
            emit_blocks(blocks, codes, push0, pattern, random, blocks.len() as int).unwrap().code,
            emit_blocks(blocks, codes, push0, pattern, random, blocks.len() as int).unwrap().holes,
            0,
        ),
        0 <= end <= blocks.len(),
    ensures
        emit_blocks(blocks, codes, push0, pattern, random, end).is_ok(),
        emit_blocks(blocks, codes, push0, pattern, random, end).unwrap().code.len()
            <= spec_compile_contract(blocks, codes, push0, pattern, random).unwrap().bytecode.len(),
        walk(
            spec_compile_contract(blocks, codes, push0, pattern, random).unwrap().bytecode.take(
                emit_blocks(blocks, codes, push0, pattern, random, end).unwrap().code.len() as int,
            ),
            0,
            0,
        ) == 0,
        walk(spec_compile_contract(blocks, codes, push0, pattern, random).unwrap().bytecode, 0, 0)
            == 0,
{
    let total = blocks.len() as int;
    let st = emit_blocks(blocks, codes, push0, pattern, random, total).unwrap();
    let part = emit_blocks(blocks, codes, push0, pattern, random, end).unwrap();
    let code = spec_compile_contract(blocks, codes, push0, pattern, random).unwrap().bytecode;
    lemma_blocks_closed(blocks, codes, push0, pattern, random, end, total);
    lemma_blocks_closed(blocks, codes, push0, pattern, random, total, total);
    lemma_blocks_sound(blocks, codes, push0, pattern, random, total);
    lemma_patched_walk(st.code, st.holes, st.positions, 0, part.code.len() as int);
    lemma_patched_walk(st.code, st.holes, st.positions, 0, st.code.len() as int);
    assert(code.take(st.code.len() as int) =~= code);
    assert(st.code.take(st.code.len() as int) =~= st.code);
}

} // verus!
