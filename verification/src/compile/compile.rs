use vstd::prelude::*;
use bytes::BytesMut;
use crate::compile::artifacts::{
    lemma_pc_then_size,
    with_block,
    with_contract,
    Artifacts,
    ArtifactsView,
    ContractArtifacts,
    ContractArtifactsView,
    NamedBlockView,
    NamedContractView,
};
use crate::compile::placement::{entries_within, lemma_blocks_within_code};
use crate::compile::fillers::{
    fill_with_pattern,
    fill_with_random,
    filler_safe,
    pattern_filler,
};
use crate::compile::settings::{CompilerSettings, FillingPatern, FillingView};
use crate::outside::buffer::{
    buffer_bytes,
    buffer_extend,
    buffer_get,
    buffer_len,
    buffer_new,
    buffer_put_u8,
    buffer_set,
    buffer_to_vec,
};
use crate::parser::error::{new_generic_error, CompileError, ErrorKind};
use crate::pre_processing::attribute::{Assumption, Attributes, AttributesView};
use crate::pre_processing::opcode::{
    push_length,
    spec_push_length,
    OpCode,
    PUSH0,
    PUSH1,
    PUSH2,
};
use crate::pre_processing::pre_processing::{
    block_items_view,
    Anchor,
    AnchorView,
    Block,
    BlockItem,
    BlockItemView,
    BlockView,
    Contract,
    ContractView,
    PushInner,
};
use crate::pre_processing::remapping::{anchors_view, blocks_view, contracts_view, unplaced};
use crate::types::bytes32::{lemma_leading_zeros, Bytes32};

verus! {

/// Two bytes of the code that wait for a value.
#[derive(Clone, Copy, Debug, PartialEq, Eq, Structural)]
pub enum Hole {
    /// They wait for the place of item `line` of the block `block_index`.
    Pc { block_index: usize, line: usize, hole_pos: usize },
    /// They wait for the number of bytes from item `line_start` to item `line_end` of
    /// the block `block_index`.
    Size { block_index: usize, line_start: usize, line_end: usize, hole_pos: usize },
}

impl Hole {
    /// The place of the first of the two bytes.
    pub open spec fn position(&self) -> usize {
        match self {
            Hole::Pc { hole_pos, .. } => *hole_pos,
            Hole::Size { hole_pos, .. } => *hole_pos,
        }
    }
}

/// The opcode that is assumed to give `word`, among the first `upto` assumptions: that
/// of the last of them that gives it.
pub open spec fn last_assumed(assumes: Seq<Assumption>, word: Bytes32, upto: int) -> Option<
    OpCode,
>
    decreases upto,
{
    if upto <= 0 || upto > assumes.len() {
        None
    } else if assumes[upto - 1].v@ == word@ {
        Some(assumes[upto - 1].op)
    } else {
        last_assumed(assumes, word, upto - 1)
    }
}

/// The opcode that may stand for a push of `word`, if there is one.
pub open spec fn substitute(attributes: AttributesView, word: Bytes32) -> Option<OpCode> {
    if attributes.optimization {
        last_assumed(attributes.assumes, word, attributes.assumes.len() as int)
    } else {
        None
    }
}

/// The bytes of a push of a known word. Zero is pushed by `PUSH0` where the machine
/// has it. Else an opcode that is assumed to give the word stands for the push. Else the
/// word is pushed in its shortest form, zero as one byte.
pub open spec fn constant_push_bytes(attributes: AttributesView, word: Bytes32, push0: bool) -> Seq<
    u8,
> {
    if push0 && word.spec_is_zero() {
        seq![PUSH0]
    } else {
        match substitute(attributes, word) {
            Some(op) => seq![op],
            None => if word.spec_is_zero() {
                seq![PUSH1, 0u8]
            } else {
                let tail = word@.subrange(word.spec_leading_zeros(), 32);
                seq![(PUSH0 + tail.len()) as u8] + tail
            },
        }
    }
}

/// The code of the contracts that are laid out already, as values of the mathematics.
pub open spec fn codes_view(bytecodes: Seq<Option<Vec<u8>>>) -> Seq<Option<Seq<u8>>> {
    bytecodes.map_values(
        |code: Option<Vec<u8>>|
            match code {
                Some(code) => Some(code@),
                None => None,
            },
    )
}

/// Where the laying out of the items of a block has come to: the code so far, the holes
/// in it, and the place of each item laid out.
#[verifier::ext_equal]
pub struct ItemsState {
    pub code: Seq<u8>,
    pub holes: Seq<Hole>,
    pub pcs: Seq<usize>,
}

/// The state after one item. A push of the place or the size of a block leaves a hole
/// after the opcode `PUSH2`.
pub open spec fn emit_item(
    st: ItemsState,
    item: BlockItemView,
    codes: Seq<Option<Seq<u8>>>,
    push0: bool,
) -> Result<ItemsState, CompileError> {
    let pcs = st.pcs.push(st.code.len() as usize);
    let hole_pos = (st.code.len() + 1) as usize;
    let with_hole = st.code + seq![PUSH2, 0u8, 0u8];
    match item {
        BlockItemView::Bytes(bytes) => Ok(ItemsState { code: st.code + bytes, holes: st.holes, pcs }),
        BlockItemView::Contract(index) => if index < codes.len() && codes[index as int].is_some() {
            Ok(ItemsState { code: st.code + codes[index as int].unwrap(), holes: st.holes, pcs })
        } else {
            Err(unplaced())
        },
        BlockItemView::Push(push) => match push.inner {
            PushInner::Constant(word) => Ok(
                ItemsState {
                    code: st.code + constant_push_bytes(push.attributes, word, push0),
                    holes: st.holes,
                    pcs,
                },
            ),
            PushInner::BlockSize { index, start, end } => Ok(
                ItemsState {
                    code: with_hole,
                    holes: st.holes.push(
                        Hole::Size { block_index: index, line_start: start, line_end: end, hole_pos },
                    ),
                    pcs,
                },
            ),
            PushInner::BlockPc { index, line } => Ok(
                ItemsState {
                    code: with_hole,
                    holes: st.holes.push(Hole::Pc { block_index: index, line, hole_pos }),
                    pcs,
                },
            ),
        },
    }
}

/// The state after the items from index `from` on.
pub open spec fn emit_items(
    st: ItemsState,
    items: Seq<BlockItemView>,
    codes: Seq<Option<Seq<u8>>>,
    push0: bool,
    from: int,
) -> Result<ItemsState, CompileError>
    decreases items.len() - from,
{
    if from >= items.len() || from < 0 {
        Ok(st)
    } else {
        match emit_item(st, items[from], codes, push0) {
            Err(e) => Err(e),
            Ok(next) => emit_items(next, items, codes, push0, from + 1),
        }
    }
}

/// The number of bytes of data that a push still waits for after the code from `from`
/// on was read, `pending` being the number it waits for before.
pub open spec fn walk(code: Seq<u8>, from: int, pending: nat) -> nat
    decreases code.len() - from,
{
    if from >= code.len() || from < 0 {
        pending
    } else if pending > 0 {
        walk(code, from + 1, (pending - 1) as nat)
    } else {
        walk(
            code,
            from + 1,
            match spec_push_length(code[from]) {
                Some(length) => length as nat,
                None => 0,
            },
        )
    }
}

/// The bytes that fill a gap of `pad` bytes: by the pattern, or the random bytes drawn
/// for this gap.
pub open spec fn block_filler(pattern: FillingView, random: Seq<u8>, pad: nat) -> Seq<u8> {
    match pattern {
        FillingView::Repeat(pattern) => pattern_filler(pattern, pad),
        FillingView::Random => Seq::new(
            pad,
            |i: int|
                if i < random.len() {
                    random[i]
                } else {
                    0u8
                },
        ),
    }
}

/// The entries after the blocks inside a block were noted, from index `from` on: each
/// goes from the place of its first item to the place after its last.
pub open spec fn anchored(
    entries: Seq<NamedBlockView>,
    anchors: Seq<AnchorView>,
    pcs: Seq<usize>,
    from: int,
) -> Result<Seq<NamedBlockView>, CompileError>
    decreases anchors.len() - from,
{
    if from >= anchors.len() || from < 0 {
        Ok(entries)
    } else {
        let anchor = anchors[from];
        if anchor.start <= anchor.end && anchor.end < pcs.len() {
            anchored(
                with_block(entries, anchor.name, pcs[anchor.start as int], pcs[anchor.end as int]),
                anchors,
                pcs,
                from + 1,
            )
        } else {
            Err(unplaced())
        }
    }
}

/// Where the laying out of a contract has come to: the code so far, the holes in it,
/// the places of the items of each block laid out, and where the blocks lie.
#[verifier::ext_equal]
pub struct EmitState {
    pub code: Seq<u8>,
    pub holes: Seq<Hole>,
    pub positions: Seq<Seq<usize>>,
    pub entries: Seq<NamedBlockView>,
}

/// The state after one block. After the items of the block, the bytes of data that a
/// push at its end still waits for are filled in, so that the block ends where an opcode
/// is read; they count as part of the block, and the place that closes the block lies
/// after them.
pub open spec fn emit_block(
    st: EmitState,
    block: BlockView,
    codes: Seq<Option<Seq<u8>>>,
    push0: bool,
    pattern: FillingView,
    random: Seq<u8>,
) -> Result<EmitState, CompileError> {
    let start = st.code.len();
    match emit_items(
        ItemsState { code: st.code, holes: st.holes, pcs: Seq::empty() },
        block.items,
        codes,
        push0,
        0,
    ) {
        Err(e) => Err(e),
        Ok(items) => {
            let pad = walk(items.code, start as int, 0);
            let code = items.code + block_filler(pattern, random, pad);
            let pcs = items.pcs.push(code.len() as usize);
            match anchored(
                with_block(st.entries, block.name, start as usize, code.len() as usize),
                block.anchors,
                pcs,
                0,
            ) {
                Err(e) => Err(e),
                Ok(entries) => Ok(
                    EmitState {
                        code,
                        holes: items.holes,
                        positions: st.positions.push(pcs),
                        entries,
                    },
                ),
            }
        },
    }
}

/// The state after the first `upto` blocks; `random` holds, for each block, the random
/// bytes drawn for the gap after it.
pub open spec fn emit_blocks(
    blocks: Seq<BlockView>,
    codes: Seq<Option<Seq<u8>>>,
    push0: bool,
    pattern: FillingView,
    random: Seq<Seq<u8>>,
    upto: int,
) -> Result<EmitState, CompileError>
    decreases upto,
{
    if upto <= 0 || upto > blocks.len() {
        Ok(
            EmitState {
                code: Seq::empty(),
                holes: Seq::empty(),
                positions: Seq::empty(),
                entries: Seq::empty(),
            },
        )
    } else {
        match emit_blocks(blocks, codes, push0, pattern, random, upto - 1) {
            Err(e) => Err(e),
            Ok(st) => emit_block(
                st,
                blocks[upto - 1],
                codes,
                push0,
                pattern,
                if upto - 1 < random.len() {
                    random[upto - 1]
                } else {
                    Seq::empty()
                },
            ),
        }
    }
}

/// The value that a hole waits for.
pub open spec fn hole_value(hole: Hole, positions: Seq<Seq<usize>>) -> Result<int, CompileError> {
    match hole {
        Hole::Pc { block_index, line, hole_pos } => if block_index < positions.len() && line
            < positions[block_index as int].len() {
            Ok(positions[block_index as int][line as int] as int)
        } else {
            Err(unplaced())
        },
        Hole::Size { block_index, line_start, line_end, hole_pos } => if block_index
            < positions.len() && line_start <= line_end && line_end
            < positions[block_index as int].len() {
            Ok(
                positions[block_index as int][line_end as int]
                    - positions[block_index as int][line_start as int],
            )
        } else {
            Err(unplaced())
        },
    }
}

/// The code with `value` in the two bytes at `position`, the upper byte first. (Code that
/// is too short for them stays as it is.)
pub open spec fn filled(code: Seq<u8>, position: int, value: int) -> Seq<u8> {
    if 0 <= position && position + 1 < code.len() {
        code.update(position, (value / 256) as u8).update(position + 1, (value % 256) as u8)
    } else {
        code
    }
}

/// The code after the holes from index `from` on were filled, each with its value in
/// two bytes, the upper byte first. A value that does not fit two bytes is an error.
pub open spec fn patched(code: Seq<u8>, holes: Seq<Hole>, positions: Seq<Seq<usize>>, from: int)
    -> Result<Seq<u8>, CompileError>
    decreases holes.len() - from,
{
    if from >= holes.len() || from < 0 {
        Ok(code)
    } else {
        match hole_value(holes[from], positions) {
            Err(e) => Err(e),
            Ok(value) => if value > 0xffff {
                Err(CompileError { kind: ErrorKind::HoleOverflow, location: None })
            } else {
                patched(filled(code, holes[from].position() as int, value), holes, positions, from + 1)
            },
        }
    }
}

/// What is made of a contract: its blocks are laid out one after the other, then the
/// holes are filled.
pub open spec fn spec_compile_contract(
    blocks: Seq<BlockView>,
    codes: Seq<Option<Seq<u8>>>,
    push0: bool,
    pattern: FillingView,
    random: Seq<Seq<u8>>,
) -> Result<ContractArtifactsView, CompileError> {
    match emit_blocks(blocks, codes, push0, pattern, random, blocks.len() as int) {
        Err(e) => Err(e),
        Ok(st) => match patched(st.code, st.holes, st.positions, 0) {
            Err(e) => Err(e),
            Ok(bytecode) => Ok(ContractArtifactsView { blocks: st.entries, bytecode }),
        },
    }
}

/// Whether the two bytes of each hole lie within the first `len` bytes of the code.
pub open spec fn holes_within(holes: Seq<Hole>, len: nat) -> bool {
    forall|i: int| 0 <= i < holes.len() ==> (#[trigger] holes[i]).position() + 2 <= len
}

/// Whether the places do not go down, and none lies beyond `len`.
pub open spec fn places_sorted(pcs: Seq<usize>, len: nat) -> bool {
    &&& forall|i: int, j: int| 0 <= i <= j < pcs.len() ==> pcs[i] <= pcs[j]
    &&& forall|i: int| 0 <= i < pcs.len() ==> pcs[i] <= len
}

/// The places of the items of each block as values of the mathematics.
pub open spec fn positions_view(positions: Seq<Vec<usize>>) -> Seq<Seq<usize>> {
    positions.map_values(|pcs: Vec<usize>| pcs@)
}

/// Whether the places of the items of each block do not go down.
pub open spec fn all_places_sorted(positions: Seq<Seq<usize>>) -> bool {
    forall|b: int, i: int, j: int|
        0 <= b < positions.len() && 0 <= i <= j < positions[b].len() ==> positions[b][i]
            <= positions[b][j]
}

fn find_substitute(attributes: &Attributes, word: &Bytes32) -> (res: Option<OpCode>)
    ensures
        res == substitute(attributes@, *word),
{
    if !attributes.optimization {
        return None;
    }
    let mut left: usize = attributes.assumes.len();
    while left > 0
        invariant
            left <= attributes.assumes@.len(),
            attributes.optimization,
            last_assumed(attributes.assumes@, *word, attributes.assumes@.len() as int)
                == last_assumed(attributes.assumes@, *word, left as int),
        decreases left,
    {
        if attributes.assumes[left - 1].v.same(word) {
            return Some(attributes.assumes[left - 1].op);
        }
        left -= 1;
    }
    None
}

/// The bytes of a push of a known word under the attributes in force where it stands.
/// Zero is pushed by `PUSH0` where the machine has it; else an opcode that is assumed to
/// give the word stands for the push, where replacing is allowed; else the word is
/// pushed in its shortest form, zero as `PUSH1` and a zero byte.
pub fn encode_push(attributes: &Attributes, word: &Bytes32, push0: bool) -> (res: Vec<u8>)
    ensures
        res@ == constant_push_bytes(attributes@, *word, push0),
        push0 && word.spec_is_zero() ==> res@ == seq![PUSH0],
        !(push0 && word.spec_is_zero()) ==> match substitute(attributes@, *word) {
            Some(op) => res@ == seq![op],
            None => if word.spec_is_zero() {
                res@ == seq![PUSH1, 0u8]
            } else {
                res@ == seq![(PUSH0 + 32 - word.spec_leading_zeros()) as u8] + word@.subrange(
                    word.spec_leading_zeros(),
                    32,
                )
            },
        },
{
    let mut bytes: Vec<u8> = Vec::new();
    if push0 && word.is_zero() {
        bytes.push(PUSH0);
        assert(bytes@ =~= seq![PUSH0]);
    } else if let Some(op) = find_substitute(attributes, word) {
        bytes.push(op);
        assert(bytes@ =~= seq![op]);
    } else if word.is_zero() {
        bytes.push(PUSH1);
        bytes.push(0x00);
        assert(bytes@ =~= seq![PUSH1, 0u8]);
    } else {
        proof {
            lemma_leading_zeros(*word);
        }
        let content = word.right_content();
        let push: u8 = PUSH0 + (content.len() as u8);
        bytes.push(push);
        let mut i: usize = 0;
        while i < content.len()
            invariant
                i <= content@.len(),
                bytes@ == seq![push] + content@.take(i as int),
            decreases content@.len() - i,
        {
            bytes.push(content[i]);
            assert(bytes@ =~= seq![push] + content@.take(i + 1));
            i += 1;
        }
        assert(bytes@ =~= seq![push] + content@);
    }
    bytes
}

fn emit_constant(res: &mut BytesMut, attributes: &Attributes, word: &Bytes32, push0: bool)
    ensures
        buffer_bytes(*final(res)) == buffer_bytes(*old(res)) + constant_push_bytes(
            attributes@,
            *word,
            push0,
        ),
{
    let bytes = encode_push(attributes, word, push0);
    buffer_extend(res, bytes.as_slice());
}

fn emit_one(
    res: &mut BytesMut,
    holes: &mut Vec<Hole>,
    pcs: &mut Vec<usize>,
    item: &BlockItem,
    bytecodes: &Vec<Option<Vec<u8>>>,
    push0: bool,
) -> (out: Result<(), CompileError>)
    requires
        holes_within(old(holes)@, buffer_bytes(*old(res)).len()),
        places_sorted(old(pcs)@, buffer_bytes(*old(res)).len()),
    ensures
        match emit_item(
            ItemsState { code: buffer_bytes(*old(res)), holes: old(holes)@, pcs: old(pcs)@ },
            item@,
            codes_view(bytecodes@),
            push0,
        ) {
            Ok(st) => out.is_ok() && buffer_bytes(*final(res)) == st.code && final(holes)@
                == st.holes && final(pcs)@ == st.pcs,
            Err(e) => out matches Err(err) && err == e,
        },
        out.is_ok() ==> holes_within(final(holes)@, buffer_bytes(*final(res)).len())
            && places_sorted(final(pcs)@, buffer_bytes(*final(res)).len()) && buffer_bytes(
            *old(res),
        ).len() <= buffer_bytes(*final(res)).len(),
{
    let ghost before = buffer_bytes(*res);
    let start = buffer_len(res);
    match item {
        BlockItem::Bytes(bytes) => {
            pcs.push(start);
            buffer_extend(res, bytes.as_slice());
        },
        BlockItem::Contract(contract_index) => {
            if *contract_index >= bytecodes.len() {
                return Err(new_generic_error(ErrorKind::UnknownName));
            }
            let Some(code) = &bytecodes[*contract_index] else {
                return Err(new_generic_error(ErrorKind::UnknownName));
            };
            pcs.push(start);
            buffer_extend(res, code.as_slice());
        },
        BlockItem::Push(push) => {
            pcs.push(start);
            match &push.inner {
                PushInner::Constant(cst) => {
                    emit_constant(res, &push.attributes, cst, push0);
                },
                PushInner::BlockSize { index, start, end } => {
                    buffer_put_u8(res, PUSH2);
                    let hole_pos = buffer_len(res);
                    buffer_put_u8(res, 0x00);
                    buffer_put_u8(res, 0x00);
                    holes.push(
                        Hole::Size {
                            block_index: *index,
                            line_start: *start,
                            line_end: *end,
                            hole_pos,
                        },
                    );
                    assert(buffer_bytes(*res) =~= before + seq![PUSH2, 0u8, 0u8]);
                },
                PushInner::BlockPc { index, line } => {
                    buffer_put_u8(res, PUSH2);
                    let hole_pos = buffer_len(res);
                    buffer_put_u8(res, 0x00);
                    buffer_put_u8(res, 0x00);
                    holes.push(Hole::Pc { block_index: *index, line: *line, hole_pos });
                    assert(buffer_bytes(*res) =~= before + seq![PUSH2, 0u8, 0u8]);
                },
            }
        },
    }
    Ok(())
}

fn emit_all(
    res: &mut BytesMut,
    holes: &mut Vec<Hole>,
    pcs: &mut Vec<usize>,
    items: &Vec<BlockItem>,
    bytecodes: &Vec<Option<Vec<u8>>>,
    push0: bool,
) -> (out: Result<(), CompileError>)
    requires
        holes_within(old(holes)@, buffer_bytes(*old(res)).len()),
        places_sorted(old(pcs)@, buffer_bytes(*old(res)).len()),
    ensures
        match emit_items(
            ItemsState { code: buffer_bytes(*old(res)), holes: old(holes)@, pcs: old(pcs)@ },
            block_items_view(items@),
            codes_view(bytecodes@),
            push0,
            0,
        ) {
            Ok(st) => out.is_ok() && buffer_bytes(*final(res)) == st.code && final(holes)@
                == st.holes && final(pcs)@ == st.pcs,
            Err(e) => out matches Err(err) && err == e,
        },
        out.is_ok() ==> holes_within(final(holes)@, buffer_bytes(*final(res)).len())
            && places_sorted(final(pcs)@, buffer_bytes(*final(res)).len()) && buffer_bytes(
            *old(res),
        ).len() <= buffer_bytes(*final(res)).len(),
{
    let mut i: usize = 0;
    while i < items.len()
        invariant
            i <= items@.len(),
            holes_within(holes@, buffer_bytes(*res).len()),
            places_sorted(pcs@, buffer_bytes(*res).len()),
            buffer_bytes(*old(res)).len() <= buffer_bytes(*res).len(),
            emit_items(
                ItemsState { code: buffer_bytes(*old(res)), holes: old(holes)@, pcs: old(pcs)@ },
                block_items_view(items@),
                codes_view(bytecodes@),
                push0,
                0,
            ) == emit_items(
                ItemsState { code: buffer_bytes(*res), holes: holes@, pcs: pcs@ },
                block_items_view(items@),
                codes_view(bytecodes@),
                push0,
                i as int,
            ),
        decreases items@.len() - i,
    {
        match emit_one(res, holes, pcs, &items[i], bytecodes, push0) {
            Ok(()) => {},
            Err(e) => {
                return Err(e);
            },
        }
        i += 1;
    }
    Ok(())
}

/// Counts the bytes of data that a push still waits for at the end of the code, read
/// from `start` on.
fn owed(res: &BytesMut, start: usize) -> (pending: usize)
    requires
        start <= buffer_bytes(*res).len(),
    ensures
        pending == walk(buffer_bytes(*res), start as int, 0),
        pending <= 32,
{
    let end = buffer_len(res);
    let mut pending: usize = 0;
    let mut i: usize = start;
    while i < end
        invariant
            start <= i <= end,
            end == buffer_bytes(*res).len(),
            pending <= 32,
            walk(buffer_bytes(*res), start as int, 0) == walk(
                buffer_bytes(*res),
                i as int,
                pending as nat,
            ),
        decreases end - i,
    {
        if pending > 0 {
            pending -= 1;
        } else {
            pending = match push_length(buffer_get(res, i)) {
                Some(length) => length,
                None => 0,
            };
        }
        i += 1;
    }
    pending
}

/// The laying out of a contract.
struct Emission {
    res: BytesMut,
    holes: Vec<Hole>,
    positions: Vec<Vec<usize>>,
    artifacts: ContractArtifacts,
}

impl Emission {
    spec fn state(&self) -> EmitState {
        EmitState {
            code: buffer_bytes(self.res),
            holes: self.holes@,
            positions: positions_view(self.positions@),
            entries: self.artifacts@.blocks,
        }
    }

    spec fn valid(&self) -> bool {
        &&& holes_within(self.holes@, buffer_bytes(self.res).len())
        &&& all_places_sorted(positions_view(self.positions@))
    }
}

fn note_block(artifacts: &mut ContractArtifacts, name: &str, pc: usize, end: usize)
    requires
        pc <= end,
    ensures
        final(artifacts)@.bytecode == old(artifacts)@.bytecode,
        final(artifacts)@.blocks == with_block(old(artifacts)@.blocks, name@, pc, end),
{
    proof {
        lemma_pc_then_size(artifacts@.blocks, name@, pc, end);
    }
    artifacts.set_pc(name, pc);
    artifacts.set_size(name, end);
}

fn note_anchors(artifacts: &mut ContractArtifacts, anchors: &Vec<Anchor>, pcs: &Vec<usize>) -> (out:
    Result<(), CompileError>)
    requires
        forall|i: int, j: int| 0 <= i <= j < pcs@.len() ==> pcs@[i] <= pcs@[j],
    ensures
        final(artifacts)@.bytecode == old(artifacts)@.bytecode,
        match anchored(old(artifacts)@.blocks, anchors_view(anchors@), pcs@, 0) {
            Ok(entries) => out.is_ok() && final(artifacts)@.blocks == entries,
            Err(e) => out matches Err(err) && err == e,
        },
{
    let mut i: usize = 0;
    while i < anchors.len()
        invariant
            i <= anchors@.len(),
            forall|i: int, j: int| 0 <= i <= j < pcs@.len() ==> pcs@[i] <= pcs@[j],
            artifacts@.bytecode == old(artifacts)@.bytecode,
            anchored(old(artifacts)@.blocks, anchors_view(anchors@), pcs@, 0) == anchored(
                artifacts@.blocks,
                anchors_view(anchors@),
                pcs@,
                i as int,
            ),
        decreases anchors@.len() - i,
    {
        let anchor = &anchors[i];
        if anchor.start <= anchor.end && anchor.end < pcs.len() {
            note_block(artifacts, anchor.name.as_str(), pcs[anchor.start], pcs[anchor.end]);
        } else {
            return Err(new_generic_error(ErrorKind::UnknownName));
        }
        i += 1;
    }
    Ok(())
}

fn emit_block_bytes(
    em: &mut Emission,
    block: &Block,
    bytecodes: &Vec<Option<Vec<u8>>>,
    push0: bool,
    filling_pattern: &FillingPatern,
) -> (out: (Result<(), CompileError>, Ghost<Seq<u8>>))
    requires
        old(em).valid(),
    ensures
        match emit_block(
            old(em).state(),
            block@,
            codes_view(bytecodes@),
            push0,
            filling_pattern@,
            out.1@,
        ) {
            Ok(st) => out.0.is_ok() && final(em).state() == st && final(em).valid(),
            Err(e) => out.0 matches Err(err) && err == e,
        },
        filler_safe(out.1@),
{
    let start = buffer_len(&em.res);
    let mut pcs: Vec<usize> = Vec::new();
    match emit_all(&mut em.res, &mut em.holes, &mut pcs, &block.items, bytecodes, push0) {
        Ok(()) => {},
        Err(e) => {
            return (Err(e), Ghost(Seq::empty()));
        },
    }
    let ghost items_code = buffer_bytes(em.res);
    let ghost mut random: Seq<u8> = Seq::empty();
    let bytes_to_add = owed(&em.res, start);
    match filling_pattern {
        FillingPatern::Random => {
            fill_with_random(&mut em.res, bytes_to_add);
            proof {
                random = buffer_bytes(em.res).subrange(
                    items_code.len() as int,
                    buffer_bytes(em.res).len() as int,
                );
                assert(buffer_bytes(em.res) =~= items_code + block_filler(
                    FillingView::Random,
                    random,
                    bytes_to_add as nat,
                ));
            }
        },
        FillingPatern::Repeat(pattern) => {
            fill_with_pattern(&mut em.res, pattern.as_slice(), bytes_to_add);
        },
    }
    let end = buffer_len(&em.res);
    pcs.push(end);
    note_block(&mut em.artifacts, block.name.as_str(), start, end);
    match note_anchors(&mut em.artifacts, &block.anchors, &pcs) {
        Ok(()) => {},
        Err(e) => {
            return (Err(e), Ghost(random));
        },
    }
    proof {
        assert(positions_view(em.positions@.push(pcs)) =~= positions_view(em.positions@).push(
            pcs@,
        ));
    }
    em.positions.push(pcs);
    (Ok(()), Ghost(random))
}

fn patch(res: &mut BytesMut, holes: &Vec<Hole>, positions: &Vec<Vec<usize>>) -> (out: Result<
    (),
    CompileError,
>)
    requires
        holes_within(holes@, buffer_bytes(*old(res)).len()),
        all_places_sorted(positions_view(positions@)),
    ensures
        match patched(buffer_bytes(*old(res)), holes@, positions_view(positions@), 0) {
            Ok(code) => out.is_ok() && buffer_bytes(*final(res)) == code,
            Err(e) => out matches Err(err) && err == e,
        },
{
    let mut i: usize = 0;
    while i < holes.len()
        invariant
            i <= holes@.len(),
            holes_within(holes@, buffer_bytes(*res).len()),
            all_places_sorted(positions_view(positions@)),
            patched(buffer_bytes(*old(res)), holes@, positions_view(positions@), 0) == patched(
                buffer_bytes(*res),
                holes@,
                positions_view(positions@),
                i as int,
            ),
        decreases holes@.len() - i,
    {
        let hole = holes[i];
        let len = buffer_len(res);
        assert(hole.position() + 2 <= len);
        let (value, hole_pos) = match hole {
            Hole::Pc { block_index, line, hole_pos } => {
                if block_index >= positions.len() {
                    return Err(new_generic_error(ErrorKind::UnknownName));
                }
                let pcs = &positions[block_index];
                if line >= pcs.len() {
                    return Err(new_generic_error(ErrorKind::UnknownName));
                }
                (pcs[line], hole_pos)
            },
            Hole::Size { block_index, line_start, line_end, hole_pos } => {
                if block_index >= positions.len() {
                    return Err(new_generic_error(ErrorKind::UnknownName));
                }
                let pcs = &positions[block_index];
                if line_start > line_end || line_end >= pcs.len() {
                    return Err(new_generic_error(ErrorKind::UnknownName));
                }
                assert(positions_view(positions@)[block_index as int][line_start as int]
                    <= positions_view(positions@)[block_index as int][line_end as int]);
                (pcs[line_end] - pcs[line_start], hole_pos)
            },
        };
        if value > 0xffff {
            return Err(new_generic_error(ErrorKind::HoleOverflow));
        }
        assert(hole_pos == hole.position());
        buffer_set(res, hole_pos, (value / 256) as u8);
        buffer_set(res, hole_pos + 1, (value % 256) as u8);
        i += 1;
    }
    Ok(())
}

proof fn lemma_emit_blocks_same(
    blocks: Seq<BlockView>,
    codes: Seq<Option<Seq<u8>>>,
    push0: bool,
    pattern: FillingView,
    first: Seq<Seq<u8>>,
    second: Seq<Seq<u8>>,
    upto: int,
)
    requires
        upto <= first.len(),
        upto <= second.len(),
        forall|k: int| 0 <= k < upto ==> first[k] == second[k],
    ensures
        emit_blocks(blocks, codes, push0, pattern, first, upto) == emit_blocks(
            blocks,
            codes,
            push0,
            pattern,
            second,
            upto,
        ),
    decreases upto,
{
    if 0 < upto <= blocks.len() {
        lemma_emit_blocks_same(blocks, codes, push0, pattern, first, second, upto - 1);
    }
}

proof fn lemma_emit_blocks_error(
    blocks: Seq<BlockView>,
    codes: Seq<Option<Seq<u8>>>,
    push0: bool,
    pattern: FillingView,
    random: Seq<Seq<u8>>,
    upto: int,
    total: int,
)
    requires
        0 <= upto <= total <= blocks.len(),
        emit_blocks(blocks, codes, push0, pattern, random, upto).is_err(),
    ensures
        emit_blocks(blocks, codes, push0, pattern, random, total) == emit_blocks(
            blocks,
            codes,
            push0,
            pattern,
            random,
            upto,
        ),
    decreases total - upto,
{
    if upto < total {
        lemma_emit_blocks_error(blocks, codes, push0, pattern, random, upto, total - 1);
    }
}

/// Whether each filler of a contract is safe.
pub open spec fn contract_fillers_safe(random: Seq<Seq<u8>>) -> bool {
    forall|b: int| 0 <= b < random.len() ==> filler_safe(#[trigger] random[b])
}

fn compile_blocks(
    blocks: &Vec<Block>,
    bytecodes: &Vec<Option<Vec<u8>>>,
    push0: bool,
    filling_pattern: &FillingPatern,
) -> (out: (Result<ContractArtifacts, CompileError>, Ghost<Seq<Seq<u8>>>))
    ensures
        contract_fillers_safe(out.1@),
        match spec_compile_contract(
            blocks_view(blocks@),
            codes_view(bytecodes@),
            push0,
            filling_pattern@,
            out.1@,
        ) {
            Ok(artifacts) => out.0 matches Ok(contract_artifacts) && contract_artifacts@
                == artifacts,
            Err(e) => out.0 matches Err(err) && err == e,
        },
        out.0 matches Ok(contract_artifacts) ==> entries_within(
            contract_artifacts@.blocks,
            contract_artifacts@.bytecode.len(),
        ),
{
    let mut em = Emission {
        res: buffer_new(),
        holes: Vec::new(),
        positions: Vec::new(),
        artifacts: ContractArtifacts::new(),
    };
    let ghost views = blocks_view(blocks@);
    let ghost codes = codes_view(bytecodes@);
    let ghost mut random: Seq<Seq<u8>> = Seq::empty();
    let blocks_len = blocks.len();
    proof {
        assert(em.state().positions =~= Seq::<Seq<usize>>::empty());
    }
    let mut block_index: usize = 0;
    while block_index < blocks_len
        invariant
            block_index <= blocks_len,
            blocks_len == blocks@.len(),
            views == blocks_view(blocks@),
            codes == codes_view(bytecodes@),
            random.len() == block_index,
            contract_fillers_safe(random),
            em.valid(),
            emit_blocks(views, codes, push0, filling_pattern@, random, block_index as int) == Ok::<
                EmitState,
                CompileError,
            >(em.state()),
        decreases blocks_len - block_index,
    {
        let (done, Ghost(filler)) = emit_block_bytes(
            &mut em,
            &blocks[block_index],
            bytecodes,
            push0,
            filling_pattern,
        );
        proof {
            let longer = random.push(filler);
            lemma_emit_blocks_same(
                views,
                codes,
                push0,
                filling_pattern@,
                random,
                longer,
                block_index as int,
            );
            assert(views[block_index as int] == blocks@[block_index as int]@);
            if done.is_err() {
                lemma_emit_blocks_error(
                    views,
                    codes,
                    push0,
                    filling_pattern@,
                    longer,
                    block_index + 1,
                    blocks_len as int,
                );
            }
            random = longer;
        }
        match done {
            Ok(()) => {},
            Err(e) => {
                return (Err(e), Ghost(random));
            },
        }
        block_index += 1;
    }
    match patch(&mut em.res, &em.holes, &em.positions) {
        Ok(()) => {},
        Err(e) => {
            return (Err(e), Ghost(random));
        },
    }
    let mut contract_artifacts = em.artifacts;
    contract_artifacts.bytecode = buffer_to_vec(&em.res);
    proof {
        vstd::std_specs::vec::axiom_spec_len(&contract_artifacts.bytecode);
        lemma_blocks_within_code(views, codes, push0, filling_pattern@, random);
    }
    (Ok(contract_artifacts), Ghost(random))
}

/// Whether `res` is what `expected` says.
pub open spec fn is_contract_outcome(
    res: Result<ContractArtifacts, CompileError>,
    expected: Result<ContractArtifactsView, CompileError>,
) -> bool {
    match expected {
        Ok(artifacts) => res matches Ok(made) && made@ == artifacts,
        Err(e) => res matches Err(err) && err == e,
    }
}

/// Lays out a contract: its blocks become its code, one after the other, each filled up
/// to where an opcode is read, and the places and sizes that are pushed are filled in.
/// `bytecodes` holds the code of the contracts that are laid out already, by their
/// places in the layout.
pub fn compile_contract(
    blocks: &Vec<Block>,
    bytecodes: &Vec<Option<Vec<u8>>>,
    settings: &CompilerSettings,
) -> (res: Result<ContractArtifacts, CompileError>)
    ensures
        exists|random: Seq<Seq<u8>>|
            contract_fillers_safe(random) && #[trigger] is_contract_outcome(
                res,
                spec_compile_contract(
                    blocks_view(blocks@),
                    codes_view(bytecodes@),
                    settings.push0,
                    settings.filling_pattern@,
                    random,
                ),
            ),
        res matches Ok(artifacts) ==> entries_within(
            artifacts@.blocks,
            artifacts@.bytecode.len(),
        ),
{
    let (res, Ghost(random)) = compile_blocks(
        blocks,
        bytecodes,
        settings.push0,
        &settings.filling_pattern,
    );
    assert(is_contract_outcome(
        res,
        spec_compile_contract(
            blocks_view(blocks@),
            codes_view(bytecodes@),
            settings.push0,
            settings.filling_pattern@,
            random,
        ),
    ));
    res
}

/// Where the laying out of the contracts has come to: the code of each contract laid
/// out, and what was made of each.
#[verifier::ext_equal]
pub struct CompileState {
    pub codes: Seq<Option<Seq<u8>>>,
    pub contracts: Seq<NamedContractView>,
}

/// The random bytes drawn for a contract, if there are any.
pub open spec fn drawn_for(random: Seq<Seq<Seq<u8>>>, index: int) -> Seq<Seq<u8>> {
    if 0 <= index < random.len() {
        random[index]
    } else {
        Seq::empty()
    }
}

/// The state after the last `done` contracts were laid out, from the last to the first:
/// a contract is laid out after those that it refers to, which have higher indices.
/// `random` holds the random bytes drawn for each of them, in the order of the laying
/// out.
pub open spec fn compiled_from_end(
    contracts: Seq<ContractView>,
    push0: bool,
    pattern: FillingView,
    random: Seq<Seq<Seq<u8>>>,
    done: int,
) -> Result<CompileState, CompileError>
    decreases done,
{
    if done <= 0 || done > contracts.len() {
        Ok(
            CompileState {
                codes: Seq::new(contracts.len(), |i: int| None),
                contracts: Seq::empty(),
            },
        )
    } else {
        match compiled_from_end(contracts, push0, pattern, random, done - 1) {
            Err(e) => Err(e),
            Ok(st) => {
                let index = contracts.len() - done;
                match spec_compile_contract(
                    contracts[index].blocks,
                    st.codes,
                    push0,
                    pattern,
                    drawn_for(random, done - 1),
                ) {
                    Err(e) => Err(e),
                    Ok(artifacts) => Ok(
                        CompileState {
                            codes: st.codes.update(index, Some(artifacts.bytecode)),
                            contracts: with_contract(
                                st.contracts,
                                contracts[index].name,
                                artifacts,
                            ),
                        },
                    ),
                }
            },
        }
    }
}

/// What is made of the contracts of a layout, the first of which is the main contract.
pub open spec fn spec_compile_contracts(
    contracts: Seq<ContractView>,
    push0: bool,
    pattern: FillingView,
    random: Seq<Seq<Seq<u8>>>,
) -> Result<ArtifactsView, CompileError> {
    if contracts.len() == 0 {
        Err(CompileError { kind: ErrorKind::MissingMain, location: None })
    } else {
        match compiled_from_end(contracts, push0, pattern, random, contracts.len() as int) {
            Err(e) => Err(e),
            Ok(st) => Ok(ArtifactsView { main: contracts[0].name, contracts: st.contracts }),
        }
    }
}

/// Whether each block of each contract lies within the code of its contract: its place
/// and its size together do not pass the end of the code.
pub open spec fn artifacts_within(contracts: Seq<NamedContractView>) -> bool {
    forall|c: int|
        0 <= c < contracts.len() ==> entries_within(
            (#[trigger] contracts[c]).artifacts.blocks,
            contracts[c].artifacts.bytecode.len(),
        )
}

proof fn lemma_with_contract_within(
    contracts: Seq<NamedContractView>,
    name: Seq<char>,
    artifacts: ContractArtifactsView,
)
    requires
        artifacts_within(contracts),
        entries_within(artifacts.blocks, artifacts.bytecode.len()),
    ensures
        artifacts_within(with_contract(contracts, name, artifacts)),
{
    let after = with_contract(contracts, name, artifacts);
    assert forall|c: int| 0 <= c < after.len() implies entries_within(
        (#[trigger] after[c]).artifacts.blocks,
        after[c].artifacts.bytecode.len(),
    ) by {
        if after[c].artifacts != artifacts {
            assert(after[c] == contracts[c]);
        }
    }
}

/// Whether each filler is safe.
pub open spec fn fillers_safe(random: Seq<Seq<Seq<u8>>>) -> bool {
    forall|c: int| 0 <= c < random.len() ==> contract_fillers_safe(#[trigger] random[c])
}

/// Whether `res` is what `expected` says.
pub open spec fn is_outcome(
    res: Result<Artifacts, CompileError>,
    expected: Result<ArtifactsView, CompileError>,
) -> bool {
    match expected {
        Ok(artifacts) => res matches Ok(made) && made@ == artifacts,
        Err(e) => res matches Err(err) && err == e,
    }
}

proof fn lemma_compiled_same(
    contracts: Seq<ContractView>,
    push0: bool,
    pattern: FillingView,
    first: Seq<Seq<Seq<u8>>>,
    second: Seq<Seq<Seq<u8>>>,
    done: int,
)
    requires
        done <= first.len(),
        done <= second.len(),
        forall|k: int| 0 <= k < done ==> first[k] == second[k],
    ensures
        compiled_from_end(contracts, push0, pattern, first, done) == compiled_from_end(
            contracts,
            push0,
            pattern,
            second,
            done,
        ),
    decreases done,
{
    if 0 < done <= contracts.len() {
        lemma_compiled_same(contracts, push0, pattern, first, second, done - 1);
    }
}

proof fn lemma_compiled_error(
    contracts: Seq<ContractView>,
    push0: bool,
    pattern: FillingView,
    random: Seq<Seq<Seq<u8>>>,
    done: int,
    total: int,
)
    requires
        0 <= done <= total <= contracts.len(),
        compiled_from_end(contracts, push0, pattern, random, done).is_err(),
    ensures
        compiled_from_end(contracts, push0, pattern, random, total) == compiled_from_end(
            contracts,
            push0,
            pattern,
            random,
            done,
        ),
    decreases total - done,
{
    if done < total {
        lemma_compiled_error(contracts, push0, pattern, random, done, total - 1);
    }
}

fn note_contract(artifacts: &mut Artifacts, name: &str, made: ContractArtifacts)
    requires
        artifacts_within(old(artifacts)@.contracts),
        entries_within(made@.blocks, made@.bytecode.len()),
    ensures
        final(artifacts)@.main == old(artifacts)@.main,
        final(artifacts)@.contracts == with_contract(old(artifacts)@.contracts, name@, made@),
        artifacts_within(final(artifacts)@.contracts),
{
    proof {
        lemma_with_contract_within(artifacts@.contracts, name@, made@);
    }
    artifacts.set_contract(name, made);
}

fn compile_all(contracts: &Vec<Contract>, settings: &CompilerSettings) -> (out: (
    Result<Artifacts, CompileError>,
    Ghost<Seq<Seq<Seq<u8>>>>,
))
    ensures
        fillers_safe(out.1@),
        is_outcome(
            out.0,
            spec_compile_contracts(
                contracts_view(contracts@),
                settings.push0,
                settings.filling_pattern@,
                out.1@,
            ),
        ),
        out.0 matches Ok(artifacts) ==> artifacts_within(artifacts@.contracts),
{
    let count = contracts.len();
    if count == 0 {
        return (Err(new_generic_error(ErrorKind::MissingMain)), Ghost(Seq::empty()));
    }
    let ghost views = contracts_view(contracts@);
    let mut artifacts = Artifacts { main: contracts[0].name.clone(), contracts: Vec::new() };
    let mut bytecodes: Vec<Option<Vec<u8>>> = Vec::new();
    let mut i: usize = 0;
    while i < count
        invariant
            i <= count,
            bytecodes@.len() == i,
            forall|k: int| 0 <= k < i ==> bytecodes@[k].is_none(),
        decreases count - i,
    {
        bytecodes.push(None);
        i += 1;
    }
    let ghost mut random: Seq<Seq<Seq<u8>>> = Seq::empty();
    proof {
        assert(codes_view(bytecodes@) =~= Seq::new(count as nat, |i: int| None::<Seq<u8>>));
        assert(artifacts@.contracts =~= Seq::<NamedContractView>::empty());
    }
    let mut done: usize = 0;
    while done < count
        invariant
            done <= count,
            count == contracts@.len(),
            count > 0,
            views == contracts_view(contracts@),
            bytecodes@.len() == count,
            artifacts.main@ == contracts@[0].name@,
            random.len() == done,
            fillers_safe(random),
            artifacts_within(artifacts@.contracts),
            compiled_from_end(views, settings.push0, settings.filling_pattern@, random, done as int)
                == Ok::<CompileState, CompileError>(
                CompileState { codes: codes_view(bytecodes@), contracts: artifacts@.contracts },
            ),
        decreases count - done,
    {
        let contract_index = count - 1 - done;
        let contract = &contracts[contract_index];
        let (made, Ghost(drawn)) = compile_blocks(
            &contract.blocks,
            &bytecodes,
            settings.push0,
            &settings.filling_pattern,
        );
        proof {
            let longer = random.push(drawn);
            lemma_compiled_same(
                views,
                settings.push0,
                settings.filling_pattern@,
                random,
                longer,
                done as int,
            );
            assert(views[contract_index as int] == contract@);
            if made.is_err() {
                lemma_compiled_error(
                    views,
                    settings.push0,
                    settings.filling_pattern@,
                    longer,
                    done + 1,
                    count as int,
                );
            }
            random = longer;
        }
        let contract_artifacts = match made {
            Ok(contract_artifacts) => contract_artifacts,
            Err(e) => {
                return (Err(e), Ghost(random));
            },
        };
        let code = contract_artifacts.bytecode.clone();
        proof {
            assert(codes_view(bytecodes@.update(contract_index as int, Some(code)))
                =~= codes_view(bytecodes@).update(contract_index as int, Some(code@)));
        }
        bytecodes[contract_index] = Some(code);
        note_contract(&mut artifacts, contract.name.as_str(), contract_artifacts);
        done += 1;
    }
    (Ok(artifacts), Ghost(random))
}

/// Lays out the contracts: each becomes its code, with the places of its blocks. The
/// first contract is the main contract; each contract refers only to contracts after
/// it.
pub fn compile_contracts(contracts: &Vec<Contract>, settings: &CompilerSettings) -> (res: Result<
    Artifacts,
    CompileError,
>)
    ensures
        exists|random: Seq<Seq<Seq<u8>>>|
            fillers_safe(random) && #[trigger] is_outcome(
                res,
                spec_compile_contracts(
                    contracts_view(contracts@),
                    settings.push0,
                    settings.filling_pattern@,
                    random,
                ),
            ),
        res matches Ok(artifacts) ==> artifacts_within(artifacts@.contracts),
{
    let (res, Ghost(random)) = compile_all(contracts, settings);
    res
}

} // verus!
