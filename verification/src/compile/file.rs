use vstd::prelude::*;
use crate::ast::file::RFile;
use crate::compile::artifacts::{Artifacts, ArtifactsView};
use crate::compile::compile::{
    artifacts_within,
    compile_contracts,
    fillers_safe,
    is_outcome,
    spec_compile_contracts,
};
use crate::compile::settings::{CompilerSettings, FillingView};
use crate::parser::error::CompileError;
use crate::pre_processing::names::{table_view, NamedBytesView};
use crate::pre_processing::pre_processing::{pre_process, spec_pre_process};

verus! {

/// What is made of a source file: the contract named `contract_name` and those that it
/// needs are made ready and laid out. `random` holds the random bytes that fill the
/// gaps, where they are filled so.
pub open spec fn spec_compile(
    r_file: RFile,
    contract_name: Seq<char>,
    push0: bool,
    pattern: FillingView,
    variables: Seq<NamedBytesView>,
    random: Seq<Seq<Seq<u8>>>,
) -> Result<ArtifactsView, CompileError> {
    match spec_pre_process(r_file, contract_name, variables) {
        Err(e) => Err(e),
        Ok(contracts) => spec_compile_contracts(contracts, push0, pattern, random),
    }
}

/// Compiles the contract named `contract_name` of a source file that was parsed.
pub fn compile(r_file: &RFile, contract_name: &str, settings: &CompilerSettings) -> (res: Result<
    Artifacts,
    CompileError,
>)
    ensures
        exists|random: Seq<Seq<Seq<u8>>>|
            fillers_safe(random) && #[trigger] is_outcome(
                res,
                spec_compile(
                    *r_file,
                    contract_name@,
                    settings.push0,
                    settings.filling_pattern@,
                    table_view(settings.variables@),
                    random,
                ),
            ),
        res matches Ok(artifacts) ==> artifacts_within(artifacts@.contracts),
{
    let pre_processed = match pre_process(r_file, contract_name, &settings.variables) {
        Ok(pre_processed) => pre_processed,
        Err(e) => {
            assert(is_outcome(
                Err(e),
                spec_compile(
                    *r_file,
                    contract_name@,
                    settings.push0,
                    settings.filling_pattern@,
                    table_view(settings.variables@),
                    Seq::empty(),
                ),
            ));
            assert(fillers_safe(Seq::empty()));
            return Err(e);
        },
    };
    let res = compile_contracts(&pre_processed, settings);
    proof {
        let random = choose|random: Seq<Seq<Seq<u8>>>|
            fillers_safe(random) && #[trigger] is_outcome(
                res,
                spec_compile_contracts(
                    crate::pre_processing::remapping::contracts_view(pre_processed@),
                    settings.push0,
                    settings.filling_pattern@,
                    random,
                ),
            );
        assert(is_outcome(
            res,
            spec_compile(
                *r_file,
                contract_name@,
                settings.push0,
                settings.filling_pattern@,
                table_view(settings.variables@),
                random,
            ),
        ));
    }
    res
}

} // verus!
