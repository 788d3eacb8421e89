use vstd::prelude::*;
use crate::ast::file::RFile;
use crate::compile::artifacts::Artifacts;
use crate::compile::compile::{
    compiled_from_end,
    emit_blocks,
    is_outcome,
    spec_compile_contracts,
};
use crate::compile::file::spec_compile;
use crate::compile::settings::FillingView;
use crate::parser::error::CompileError;
use crate::pre_processing::names::NamedBytesView;
use crate::pre_processing::pre_processing::{BlockView, ContractView};

verus! {

proof fn lemma_emit_blocks_repeat(
    blocks: Seq<BlockView>,
    codes: Seq<Option<Seq<u8>>>,
    push0: bool,
    pattern: Seq<u8>,
    first: Seq<Seq<u8>>,
    second: Seq<Seq<u8>>,
    upto: int,
)
    ensures
        emit_blocks(blocks, codes, push0, FillingView::Repeat(pattern), first, upto)
            == emit_blocks(blocks, codes, push0, FillingView::Repeat(pattern), second, upto),
    decreases upto,
{
    if 0 < upto <= blocks.len() {
        lemma_emit_blocks_repeat(blocks, codes, push0, pattern, first, second, upto - 1);
    }
}

proof fn lemma_compiled_repeat(
    contracts: Seq<ContractView>,
    push0: bool,
    pattern: Seq<u8>,
    first: Seq<Seq<Seq<u8>>>,
    second: Seq<Seq<Seq<u8>>>,
    done: int,
)
    ensures
        compiled_from_end(contracts, push0, FillingView::Repeat(pattern), first, done)
            == compiled_from_end(contracts, push0, FillingView::Repeat(pattern), second, done),
    decreases done,
{
    if 0 < done <= contracts.len() {
        lemma_compiled_repeat(contracts, push0, pattern, first, second, done - 1);
        match compiled_from_end(contracts, push0, FillingView::Repeat(pattern), first, done - 1) {
            Ok(st) => {
                let blocks = contracts[contracts.len() - done].blocks;
                lemma_emit_blocks_repeat(
                    blocks,
                    st.codes,
                    push0,
                    pattern,
                    crate::compile::compile::drawn_for(first, done - 1),
                    crate::compile::compile::drawn_for(second, done - 1),
                    blocks.len() as int,
                );
            },
            Err(_) => {},
        }
    }
}

/// Where the gaps are filled with a pattern, what is made of the contracts of a layout
/// does not depend on chance.
pub proof fn lemma_layout_deterministic(
    contracts: Seq<ContractView>,
    push0: bool,
    pattern: Seq<u8>,
    first: Seq<Seq<Seq<u8>>>,
    second: Seq<Seq<Seq<u8>>>,
)
    ensures
        spec_compile_contracts(contracts, push0, FillingView::Repeat(pattern), first)
            == spec_compile_contracts(contracts, push0, FillingView::Repeat(pattern), second),
{
    lemma_compiled_repeat(contracts, push0, pattern, first, second, contracts.len() as int);
}

/// Where the gaps are filled with a pattern, two compilations of the same file for the
/// same contract under the same settings end in the same way: with the same error, or
/// with the same code and the same places of the blocks, byte for byte.
pub proof fn lemma_compile_deterministic(
    first: Result<Artifacts, CompileError>,
    second: Result<Artifacts, CompileError>,
    r_file: RFile,
    contract_name: Seq<char>,
    push0: bool,
    pattern: Seq<u8>,
    variables: Seq<NamedBytesView>,
    first_random: Seq<Seq<Seq<u8>>>,
    second_random: Seq<Seq<Seq<u8>>>,
)
    requires
        is_outcome(
            first,
            spec_compile(
                r_file,
                contract_name,
                push0,
                FillingView::Repeat(pattern),
                variables,
                first_random,
            ),
        ),
        is_outcome(
            second,
            spec_compile(
                r_file,
                contract_name,
                push0,
                FillingView::Repeat(pattern),
                variables,
                second_random,
            ),
        ),
    ensures
        match (first, second) {
            (Ok(a), Ok(b)) => a@ == b@,
            (Err(a), Err(b)) => a == b,
            _ => false,
        },
{
    match crate::pre_processing::pre_processing::spec_pre_process(
        r_file,
        contract_name,
        variables,
    ) {
        Ok(contracts) => {
            lemma_layout_deterministic(contracts, push0, pattern, first_random, second_random);
        },
        Err(_) => {},
    }
}

} // verus!
