use meplang::ast::attribute::{
    RAttribute, RAttributeArg, RAttributeEquality, RAttributeEqualityRight, WithAttributes,
};
use meplang::ast::block::{RBlock, RBlockItem, RBlockRef, RBlockRefEsp, RBlockRefStar};
use meplang::ast::constant::{RConstant, RConstantArg};
use meplang::ast::contract::RContract;
use meplang::ast::file::RFile;
use meplang::ast::function::{RFunction, RFunctionArg};
use meplang::ast::literal::RHexLiteral;
use meplang::ast::variable::{
    RCompileVariable, RConcatenation, RHexAlias, RVariable, RVariableWithField,
};
use meplang::compile::artifacts::{Artifacts, BlockArtifacts};
use meplang::compile::file::compile;
use meplang::compile::settings::{CompilerSettings, FillingPatern};
use meplang::parser::error::{CompileError, ErrorKind};
use meplang::parser::parser::{Located, Location};
use meplang::pre_processing::pre_processing::{unused_blocks, unused_contracts};

fn at<T>(start: usize, inner: T) -> Located<T> {
    Located { location: Location { start, end: start + 1 }, inner }
}

fn located<T>(inner: T) -> Located<T> {
    at(0, inner)
}

fn name(text: &str) -> Located<RVariable> {
    located(RVariable(text.to_owned()))
}

fn plain(inner: RBlockItem) -> Located<WithAttributes<Located<RBlockItem>>> {
    located(WithAttributes { attributes: vec![], inner: located(inner) })
}

fn with_attributes(
    attributes: Vec<Located<RAttribute>>,
    inner: RBlockItem,
) -> Located<WithAttributes<Located<RBlockItem>>> {
    located(WithAttributes { attributes, inner: located(inner) })
}

fn hex(bytes: &[u8]) -> Located<WithAttributes<Located<RBlockItem>>> {
    plain(RBlockItem::HexAlias(RHexAlias::HexLiteral(RHexLiteral(bytes.to_vec()))))
}

fn word(text: &str) -> Located<WithAttributes<Located<RBlockItem>>> {
    plain(RBlockItem::HexAlias(RHexAlias::Variable(RVariable(text.to_owned()))))
}

fn call(function: &str, arg: RFunctionArg) -> RBlockItem {
    RBlockItem::Function(RFunction { name: name(function), arg: located(arg) })
}

fn push_hex(bytes: &[u8]) -> RBlockItem {
    call("push", RFunctionArg::HexAlias(RHexAlias::HexLiteral(RHexLiteral(bytes.to_vec()))))
}

fn push_field(block: &str, field: &str) -> RBlockItem {
    call(
        "push",
        RFunctionArg::VariableWithField(RVariableWithField {
            variable: name(block),
            field: name(field),
        }),
    )
}

fn star(block: &str) -> Located<WithAttributes<Located<RBlockItem>>> {
    plain(RBlockItem::BlockRef(RBlockRef::Star(RBlockRefStar::Variable(RVariable(
        block.to_owned(),
    )))))
}

fn esp(block: &str) -> Located<WithAttributes<Located<RBlockItem>>> {
    plain(RBlockItem::BlockRef(RBlockRef::Esp(RBlockRefEsp::Variable(RVariable(
        block.to_owned(),
    )))))
}

fn code_of(contract: &str) -> Located<WithAttributes<Located<RBlockItem>>> {
    plain(RBlockItem::BlockRef(RBlockRef::Esp(RBlockRefEsp::VariableWithField(
        RVariableWithField { variable: name(contract), field: name("code") },
    ))))
}

fn flag(text: &str) -> Located<RAttribute> {
    located(RAttribute { name: name(text), arg: None })
}

fn assumption(op: &str, value: &[u8]) -> Located<RAttribute> {
    located(RAttribute {
        name: name("assume"),
        arg: Some(located(RAttributeArg::AttributeEquality(RAttributeEquality {
            name: name(op),
            value: located(RAttributeEqualityRight::HexLiteral(RHexLiteral(value.to_vec()))),
        }))),
    })
}

fn clear_assume(op: &str) -> Located<RAttribute> {
    located(RAttribute {
        name: name("clear_assume"),
        arg: Some(located(RAttributeArg::Variable(RVariable(op.to_owned())))),
    })
}

fn block_with(
    attributes: Vec<Located<RAttribute>>,
    abstr: bool,
    block_name: &str,
    items: Vec<Located<WithAttributes<Located<RBlockItem>>>>,
) -> Located<WithAttributes<Located<RBlock>>> {
    located(WithAttributes {
        attributes,
        inner: located(RBlock { name: name(block_name), abstr, items }),
    })
}

fn block(
    block_name: &str,
    items: Vec<Located<WithAttributes<Located<RBlockItem>>>>,
) -> Located<WithAttributes<Located<RBlock>>> {
    block_with(vec![], false, block_name, items)
}

fn abstract_block(
    block_name: &str,
    items: Vec<Located<WithAttributes<Located<RBlockItem>>>>,
) -> Located<WithAttributes<Located<RBlock>>> {
    block_with(vec![], true, block_name, items)
}

fn contract_with(
    attributes: Vec<Located<RAttribute>>,
    contract_name: &str,
    constants: Vec<Located<RConstant>>,
    blocks: Vec<Located<WithAttributes<Located<RBlock>>>>,
) -> Located<WithAttributes<Located<RContract>>> {
    located(WithAttributes {
        attributes,
        inner: located(RContract { name: name(contract_name), blocks, constants }),
    })
}

fn contract(
    contract_name: &str,
    blocks: Vec<Located<WithAttributes<Located<RBlock>>>>,
) -> Located<WithAttributes<Located<RContract>>> {
    contract_with(vec![], contract_name, vec![], blocks)
}

fn constant(constant_name: &str, value: &[u8]) -> Located<RConstant> {
    located(RConstant {
        name: name(constant_name),
        value: located(RConstantArg::HexLiteral(RHexLiteral(value.to_vec()))),
    })
}

fn settings(push0: bool) -> CompilerSettings {
    CompilerSettings { push0, filling_pattern: FillingPatern::Repeat(vec![0x00]), variables: vec![] }
}

fn compile_one(
    blocks: Vec<Located<WithAttributes<Located<RBlock>>>>,
    push0: bool,
) -> Result<Artifacts, CompileError> {
    compile(&RFile(vec![contract("C", blocks)]), "C", &settings(push0))
}

fn main_code(artifacts: &Artifacts) -> Vec<u8> {
    let found = artifacts.contracts.iter().find(|c| c.name == artifacts.main).unwrap();
    found.artifacts.bytecode.clone()
}

fn block_of(artifacts: &Artifacts, block_name: &str) -> BlockArtifacts {
    let found = artifacts.contracts.iter().find(|c| c.name == artifacts.main).unwrap();
    found.artifacts.blocks.iter().find(|b| b.name == block_name).unwrap().artifacts
}

#[test]
fn hello_opcodes() {
    let artifacts = compile_one(
        vec![block("main", vec![hex(&[0x60, 0x01]), hex(&[0x60, 0x02]), word("add"), word("stop")])],
        true,
    )
    .unwrap();
    assert_eq!(artifacts.main, "C");
    assert_eq!(main_code(&artifacts), vec![0x60, 0x01, 0x60, 0x02, 0x01, 0x00]);
    assert_eq!(block_of(&artifacts, "main"), BlockArtifacts { pc: 0, size: 6 });
    assert_eq!(artifacts.main_bytecode(), &vec![0x60, 0x01, 0x60, 0x02, 0x01, 0x00]);
}

#[test]
fn push_width_with_push0() {
    let artifacts = compile_one(
        vec![block(
            "main",
            vec![plain(push_hex(&[0x01])), plain(push_hex(&[0x01, 0x02])), plain(push_hex(&[]))],
        )],
        true,
    )
    .unwrap();
    assert_eq!(main_code(&artifacts), vec![0x60, 0x01, 0x61, 0x01, 0x02, 0x5f]);
}

#[test]
fn push_width_without_push0() {
    let artifacts = compile_one(
        vec![block(
            "main",
            vec![plain(push_hex(&[0x01])), plain(push_hex(&[0x01, 0x02])), plain(push_hex(&[]))],
        )],
        false,
    )
    .unwrap();
    assert_eq!(main_code(&artifacts), vec![0x60, 0x01, 0x61, 0x01, 0x02, 0x60, 0x00]);
}

#[test]
fn forward_label() {
    let artifacts = compile_one(
        vec![
            block("main", vec![plain(push_field("end", "pc")), word("jump")]),
            block("end", vec![word("jumpdest"), word("stop")]),
        ],
        true,
    )
    .unwrap();
    assert_eq!(main_code(&artifacts), vec![0x61, 0x00, 0x04, 0x56, 0x5b, 0x00]);
    assert_eq!(block_of(&artifacts, "main"), BlockArtifacts { pc: 0, size: 4 });
    assert_eq!(block_of(&artifacts, "end"), BlockArtifacts { pc: 4, size: 2 });
}

#[test]
fn empty_first_block_has_size_zero() {
    let artifacts = compile_one(
        vec![
            block("main", vec![]),
            block_with(vec![flag("keep")], false, "end", vec![plain(push_field("main", "size")), word("stop")]),
        ],
        true,
    )
    .unwrap();
    assert_eq!(main_code(&artifacts), vec![0x61, 0x00, 0x00, 0x00]);
    assert_eq!(block_of(&artifacts, "main"), BlockArtifacts { pc: 0, size: 0 });
    assert_eq!(block_of(&artifacts, "end"), BlockArtifacts { pc: 0, size: 4 });
}

#[test]
fn opcode_substitution() {
    let artifacts = compile_one(
        vec![block_with(
            vec![assumption("msize", &[0x20])],
            false,
            "main",
            vec![plain(push_hex(&[0x20])), word("pop")],
        )],
        true,
    )
    .unwrap();
    assert_eq!(main_code(&artifacts), vec![0x59, 0x50]);
}

#[test]
fn abstract_inlining_twice() {
    let artifacts = compile_one(
        vec![
            abstract_block("X", vec![word("add")]),
            block("main", vec![star("A"), star("B")]),
            block("A", vec![plain(push_hex(&[0x01])), esp("X")]),
            block("B", vec![plain(push_hex(&[0x02])), esp("X")]),
        ],
        true,
    )
    .unwrap();
    assert_eq!(main_code(&artifacts), vec![0x60, 0x01, 0x01, 0x60, 0x02, 0x01]);
    assert_eq!(block_of(&artifacts, "main"), BlockArtifacts { pc: 0, size: 6 });
    assert_eq!(block_of(&artifacts, "A"), BlockArtifacts { pc: 0, size: 3 });
    assert_eq!(block_of(&artifacts, "B"), BlockArtifacts { pc: 3, size: 3 });
    assert_eq!(block_of(&artifacts, "X"), BlockArtifacts { pc: 5, size: 1 });
}

#[test]
fn hole_overflow() {
    let long = vec![0u8; 0x10000];
    let res = compile_one(
        vec![
            block("main", vec![plain(push_field("far", "pc")), hex(&long)]),
            block("far", vec![word("stop")]),
        ],
        true,
    );
    assert_eq!(res.unwrap_err(), CompileError { kind: ErrorKind::HoleOverflow, location: None });
}

#[test]
fn largest_address_fits() {
    let long = vec![0u8; 0xffff - 3];
    let artifacts = compile_one(
        vec![
            block("main", vec![plain(push_field("far", "pc")), hex(&long)]),
            block("far", vec![word("stop")]),
        ],
        true,
    )
    .unwrap();
    let code = main_code(&artifacts);
    assert_eq!(&code[0..3], &[0x61, 0xff, 0xff]);
    assert_eq!(block_of(&artifacts, "far"), BlockArtifacts { pc: 0xffff, size: 1 });
}

fn compile_variable(text: &str) -> RCompileVariable {
    RCompileVariable(at(40, RVariable(text.to_owned())))
}

fn error_of(blocks: Vec<Located<WithAttributes<Located<RBlock>>>>) -> ErrorKind {
    compile_one(blocks, true).unwrap_err().kind
}

fn walk(code: &[u8]) -> usize {
    let mut pending = 0usize;
    for byte in code {
        if pending > 0 {
            pending -= 1;
        } else if (0x5f..=0x7f).contains(byte) {
            pending = (*byte - 0x5f) as usize;
        }
    }
    pending
}

fn assert_blocks_within(artifacts: &Artifacts) {
    for contract in &artifacts.contracts {
        for entry in &contract.artifacts.blocks {
            assert!(
                entry.artifacts.pc + entry.artifacts.size <= contract.artifacts.bytecode.len()
            );
        }
    }
}

#[test]
fn kept_block_follows_main() {
    let artifacts = compile_one(
        vec![
            block_with(vec![flag("keep")], false, "extra", vec![word("stop")]),
            block("unused", vec![word("add")]),
            block("main", vec![word("pop")]),
        ],
        true,
    )
    .unwrap();
    assert_eq!(main_code(&artifacts), vec![0x50, 0x00]);
    assert_eq!(block_of(&artifacts, "main"), BlockArtifacts { pc: 0, size: 1 });
    assert_eq!(block_of(&artifacts, "extra"), BlockArtifacts { pc: 1, size: 1 });
    let found = &artifacts.contracts[0].artifacts.blocks;
    assert!(found.iter().all(|b| b.name != "unused"));
    assert_blocks_within(&artifacts);
}

#[test]
fn last_block_ends_the_code() {
    let artifacts = compile_one(
        vec![
            block_with(vec![flag("last")], false, "tail", vec![word("stop")]),
            block_with(vec![flag("keep")], false, "middle", vec![word("add")]),
            block("main", vec![word("pop")]),
        ],
        true,
    )
    .unwrap();
    assert_eq!(main_code(&artifacts), vec![0x50, 0x01, 0x00]);
    assert_eq!(block_of(&artifacts, "tail"), BlockArtifacts { pc: 2, size: 1 });
    assert_eq!(block_of(&artifacts, "middle"), BlockArtifacts { pc: 1, size: 1 });
}

#[test]
fn marked_main_block() {
    let artifacts = compile_one(
        vec![
            block_with(vec![flag("keep")], false, "other", vec![word("add")]),
            block_with(vec![flag("main")], false, "start", vec![word("pop")]),
        ],
        true,
    )
    .unwrap();
    assert_eq!(main_code(&artifacts), vec![0x50, 0x01]);
    assert_eq!(block_of(&artifacts, "start"), BlockArtifacts { pc: 0, size: 1 });
}

#[test]
fn gap_after_a_block_is_filled() {
    let file = RFile(vec![contract(
        "C",
        vec![
            block("main", vec![hex(&[0x00, 0x7f, 0x01]), plain(push_field("next", "size"))]),
            block("next", vec![hex(&[0x62, 0x01])]),
        ],
    )]);
    let mut with_pattern = settings(true);
    with_pattern.filling_pattern = FillingPatern::Repeat(vec![0xab, 0xcd]);
    let artifacts = compile(&file, "C", &with_pattern).unwrap();
    let code = main_code(&artifacts);
    let mut expected = vec![0x00, 0x7f, 0x01, 0x61, 0x00, 0x04];
    for place in 0..28 {
        expected.push(if place % 2 == 0 { 0xab } else { 0xcd });
    }
    expected.extend_from_slice(&[0x62, 0x01, 0xab, 0xcd]);
    assert_eq!(code, expected);
    assert_eq!(block_of(&artifacts, "main"), BlockArtifacts { pc: 0, size: 34 });
    assert_eq!(block_of(&artifacts, "next"), BlockArtifacts { pc: 34, size: 4 });
    assert_eq!(walk(&code[..34]), 0);
    assert_eq!(walk(&code), 0);
    assert_blocks_within(&artifacts);

    let mut with_zeros = settings(true);
    with_zeros.filling_pattern = FillingPatern::Repeat(vec![]);
    let zeros = main_code(&compile(&file, "C", &with_zeros).unwrap());
    assert_eq!(&zeros[6..34], &[0u8; 28]);
}

#[test]
fn random_filler_keeps_the_places() {
    let file = RFile(vec![contract(
        "C",
        vec![
            block("main", vec![hex(&[0x7f]), plain(push_field("next", "pc"))]),
            block("next", vec![word("stop")]),
        ],
    )]);
    let mut with_random = settings(true);
    with_random.filling_pattern = FillingPatern::Random;
    for _ in 0..20 {
        let artifacts = compile(&file, "C", &with_random).unwrap();
        let code = main_code(&artifacts);
        assert_eq!(code.len(), 34);
        assert_eq!(&code[..4], &[0x7f, 0x61, 0x00, 0x21]);
        assert_eq!(code[33], 0x00);
        assert_eq!(block_of(&artifacts, "next"), BlockArtifacts { pc: 33, size: 1 });
        for place in 4..33 {
            if (0x5f..=0x7f).contains(&code[place]) {
                assert!((code[place] - 0x5f) as usize <= 32 - place);
            }
        }
        assert_eq!(walk(&code[..33]), 0);
    }
}

#[test]
fn compiling_twice_gives_the_same() {
    let file = RFile(vec![contract(
        "C",
        vec![
            block("main", vec![star("A"), hex(&[0x7f]), plain(push_field("A", "size"))]),
            block("A", vec![plain(push_hex(&[0x05])), plain(push_field("far", "pc"))]),
            block("far", vec![word("jumpdest")]),
        ],
    )]);
    let first = compile(&file, "C", &settings(true)).unwrap();
    let second = compile(&file, "C", &settings(true)).unwrap();
    assert_eq!(main_code(&first), main_code(&second));
    assert_eq!(first.contracts.len(), second.contracts.len());
    for (a, b) in first.contracts[0].artifacts.blocks.iter().zip(&second.contracts[0].artifacts.blocks)
    {
        assert_eq!(a.name, b.name);
        assert_eq!(a.artifacts, b.artifacts);
    }
    assert_blocks_within(&first);
}

#[test]
fn pushed_places_and_sizes_match_the_blocks() {
    let artifacts = compile_one(
        vec![
            block(
                "main",
                vec![
                    word("pop"),
                    star("A"),
                    plain(push_field("X", "pc")),
                    plain(push_field("X", "size")),
                    plain(push_field("A", "pc")),
                    plain(push_field("A", "size")),
                    plain(push_field("main", "pc")),
                    plain(push_field("other", "pc")),
                ],
            ),
            block("A", vec![word("add"), esp("X"), word("mul")]),
            abstract_block("X", vec![plain(push_hex(&[0x07])), word("stop")]),
            block("other", vec![word("jumpdest")]),
        ],
        true,
    )
    .unwrap();
    let code = main_code(&artifacts);
    assert_eq!(
        code,
        vec![
            0x50, 0x01, 0x60, 0x07, 0x00, 0x02, 0x61, 0x00, 0x02, 0x61, 0x00, 0x03, 0x61, 0x00,
            0x01, 0x61, 0x00, 0x05, 0x61, 0x00, 0x00, 0x61, 0x00, 0x18, 0x5b,
        ]
    );
    assert_eq!(block_of(&artifacts, "main"), BlockArtifacts { pc: 0, size: 24 });
    assert_eq!(block_of(&artifacts, "A"), BlockArtifacts { pc: 1, size: 5 });
    assert_eq!(block_of(&artifacts, "X"), BlockArtifacts { pc: 2, size: 3 });
    assert_eq!(block_of(&artifacts, "other"), BlockArtifacts { pc: 24, size: 1 });
    assert_blocks_within(&artifacts);
}

#[test]
fn left_push_fills_the_word() {
    let artifacts = compile_one(
        vec![block(
            "main",
            vec![plain(call(
                "lpush",
                RFunctionArg::HexAlias(RHexAlias::HexLiteral(RHexLiteral(vec![0x01, 0x02]))),
            ))],
        )],
        true,
    )
    .unwrap();
    let mut expected = vec![0x7f, 0x01, 0x02];
    expected.extend_from_slice(&[0u8; 30]);
    assert_eq!(main_code(&artifacts), expected);
}

#[test]
fn right_push_in_other_spellings() {
    let artifacts = compile_one(
        vec![block(
            "main",
            vec![
                plain(call(
                    "rpush",
                    RFunctionArg::HexAlias(RHexAlias::HexLiteral(RHexLiteral(vec![0x00, 0x09]))),
                )),
                plain(call(
                    "PUSH",
                    RFunctionArg::HexAlias(RHexAlias::HexLiteral(RHexLiteral(vec![0xff; 32]))),
                )),
            ],
        )],
        true,
    )
    .unwrap();
    let mut expected = vec![0x60, 0x09, 0x7f];
    expected.extend_from_slice(&[0xff; 32]);
    assert_eq!(main_code(&artifacts), expected);
}

#[test]
fn constants_and_variables() {
    let mut with_variable = settings(true);
    with_variable.add_variable("V", vec![0xaa, 0xbb]);
    let file = RFile(vec![contract_with(
        vec![],
        "C",
        vec![
            constant("one", &[0x01]),
            located(RConstant {
                name: name("fromvar"),
                value: located(RConstantArg::CompileVariable(compile_variable("V"))),
            }),
        ],
        vec![block(
            "main",
            vec![
                word("one"),
                word("fromvar"),
                plain(RBlockItem::HexAlias(RHexAlias::CompileVariable(compile_variable("V")))),
                plain(call("push", RFunctionArg::HexAlias(RHexAlias::Variable(RVariable("one".into()))))),
                plain(call(
                    "push",
                    RFunctionArg::HexAlias(RHexAlias::CompileVariable(compile_variable("V"))),
                )),
                plain(call(
                    "push",
                    RFunctionArg::VariablesConcat(RConcatenation(vec![
                        located(RHexAlias::Variable(RVariable("one".into()))),
                        located(RHexAlias::HexLiteral(RHexLiteral(vec![0x02]))),
                        located(RHexAlias::CompileVariable(compile_variable("V"))),
                    ])),
                )),
            ],
        )],
    )]);
    let artifacts = compile(&file, "C", &with_variable).unwrap();
    assert_eq!(
        main_code(&artifacts),
        vec![
            0x01, 0xaa, 0xbb, 0xaa, 0xbb, 0x60, 0x01, 0x61, 0xaa, 0xbb, 0x63, 0x01, 0x02, 0xaa,
            0xbb,
        ]
    );
    let missing = compile(&file, "C", &settings(true)).unwrap_err();
    assert_eq!(
        missing,
        CompileError {
            kind: ErrorKind::UnknownName,
            location: Some(Location { start: 40, end: 41 })
        }
    );
}

#[test]
fn mnemonic_wins_over_constant() {
    let file = RFile(vec![contract_with(
        vec![],
        "C",
        vec![constant("add", &[0x77])],
        vec![block(
            "main",
            vec![
                word("add"),
                plain(call("push", RFunctionArg::HexAlias(RHexAlias::Variable(RVariable("add".into()))))),
            ],
        )],
    )]);
    let artifacts = compile(&file, "C", &settings(true)).unwrap();
    assert_eq!(main_code(&artifacts), vec![0x01, 0x60, 0x77]);
}

#[test]
fn contract_code_is_spliced() {
    let file = RFile(vec![
        contract("Unused", vec![block("main", vec![word("add")])]),
        contract("Inner", vec![block("main", vec![word("stop"), word("pop")])]),
        contract(
            "Outer",
            vec![block("main", vec![word("dup1"), code_of("Inner"), code_of("Deep"), code_of("Inner")])],
        ),
        contract("Deep", vec![block("main", vec![code_of("Inner"), word("mul")])]),
    ]);
    let artifacts = compile(&file, "Outer", &settings(true)).unwrap();
    assert_eq!(artifacts.main, "Outer");
    assert_eq!(main_code(&artifacts), vec![0x80, 0x00, 0x50, 0x00, 0x50, 0x02, 0x00, 0x50]);
    assert_eq!(artifacts.contracts.len(), 3);
    let code_of_contract = |wanted: &str| {
        artifacts.contracts.iter().find(|c| c.name == wanted).unwrap().artifacts.bytecode.clone()
    };
    assert_eq!(code_of_contract("Inner"), vec![0x00, 0x50]);
    assert_eq!(code_of_contract("Deep"), vec![0x00, 0x50, 0x02]);
    assert!(artifacts.contracts.iter().all(|c| c.name != "Unused"));
    assert_blocks_within(&artifacts);
}

#[test]
fn recursive_contracts() {
    let file = RFile(vec![
        contract("A", vec![block("main", vec![code_of("B")])]),
        contract("B", vec![block("main", vec![code_of("A")])]),
    ]);
    assert_eq!(
        compile(&file, "A", &settings(true)).unwrap_err(),
        CompileError { kind: ErrorKind::RecursiveContracts, location: None }
    );
    let own = RFile(vec![contract("A", vec![block("main", vec![code_of("A")])])]);
    assert_eq!(compile(&own, "A", &settings(true)).unwrap_err().kind, ErrorKind::RecursiveContracts);
}

#[test]
fn missing_main() {
    let file = RFile(vec![contract("A", vec![block("main", vec![])])]);
    assert_eq!(
        compile(&file, "B", &settings(true)).unwrap_err(),
        CompileError { kind: ErrorKind::MissingMain, location: None }
    );
    assert_eq!(compile(&RFile(vec![]), "A", &settings(true)).unwrap_err().kind, ErrorKind::MissingMain);
    let no_block = RFile(vec![located(WithAttributes {
        attributes: vec![],
        inner: at(7, RContract { name: name("A"), blocks: vec![block("other", vec![])], constants: vec![] }),
    })]);
    assert_eq!(
        compile(&no_block, "A", &settings(true)).unwrap_err(),
        CompileError { kind: ErrorKind::MissingMain, location: Some(Location { start: 7, end: 8 }) }
    );
}

#[test]
fn names_are_used_once() {
    assert_eq!(error_of(vec![block("main", vec![]), block("main", vec![])]), ErrorKind::NameAlreadyUsed);
    assert_eq!(error_of(vec![block("main", vec![]), block("C", vec![])]), ErrorKind::NameAlreadyUsed);
    let two_contracts = RFile(vec![
        contract("A", vec![block("main", vec![])]),
        contract("A", vec![block("main", vec![])]),
    ]);
    assert_eq!(
        compile(&two_contracts, "A", &settings(true)).unwrap_err().kind,
        ErrorKind::NameAlreadyUsed
    );
    let constant_like_block = RFile(vec![contract_with(
        vec![],
        "C",
        vec![constant("x", &[1])],
        vec![block("main", vec![]), block("x", vec![])],
    )]);
    assert_eq!(
        compile(&constant_like_block, "C", &settings(true)).unwrap_err().kind,
        ErrorKind::NameAlreadyUsed
    );
    let constant_twice = RFile(vec![contract_with(
        vec![],
        "C",
        vec![constant("x", &[1]), constant("x", &[2])],
        vec![block("main", vec![])],
    )]);
    assert_eq!(
        compile(&constant_twice, "C", &settings(true)).unwrap_err().kind,
        ErrorKind::NameAlreadyUsed
    );
    let constant_like_contract = RFile(vec![contract_with(
        vec![],
        "C",
        vec![constant("C", &[1])],
        vec![block("main", vec![])],
    )]);
    assert_eq!(
        compile(&constant_like_contract, "C", &settings(true)).unwrap_err().kind,
        ErrorKind::NameAlreadyUsed
    );
}

#[test]
fn constants_have_31_bytes_at_most() {
    let fits = RFile(vec![contract_with(
        vec![],
        "C",
        vec![constant("x", &[0x11; 31])],
        vec![block("main", vec![word("x")])],
    )]);
    assert_eq!(main_code(&compile(&fits, "C", &settings(true)).unwrap()), vec![0x11; 31]);
    let too_large = RFile(vec![contract_with(
        vec![],
        "C",
        vec![constant("x", &[0x11; 32])],
        vec![block("main", vec![])],
    )]);
    assert_eq!(
        compile(&too_large, "C", &settings(true)).unwrap_err().kind,
        ErrorKind::ConstantTooLarge
    );
}

#[test]
fn pushes_have_32_bytes_at_most() {
    assert_eq!(
        error_of(vec![block("main", vec![plain(push_hex(&[0x01; 33]))])]),
        ErrorKind::ConstantTooLarge
    );
    assert_eq!(
        error_of(vec![block(
            "main",
            vec![plain(call(
                "push",
                RFunctionArg::VariablesConcat(RConcatenation(vec![
                    located(RHexAlias::HexLiteral(RHexLiteral(vec![0x01; 20]))),
                    located(RHexAlias::HexLiteral(RHexLiteral(vec![0x02; 13]))),
                ])),
            ))],
        )]),
        ErrorKind::ConstantTooLarge
    );
    assert_eq!(
        error_of(vec![block_with(vec![assumption("msize", &[0x01; 33])], false, "main", vec![])]),
        ErrorKind::ConstantTooLarge
    );
}

#[test]
fn unknown_names() {
    assert_eq!(error_of(vec![block("main", vec![word("nothing")])]), ErrorKind::UnknownName);
    assert_eq!(error_of(vec![block("main", vec![star("nothing")])]), ErrorKind::UnknownName);
    assert_eq!(error_of(vec![block("main", vec![esp("nothing")])]), ErrorKind::UnknownName);
    assert_eq!(error_of(vec![block("main", vec![code_of("nothing")])]), ErrorKind::UnknownName);
    assert_eq!(
        error_of(vec![block("main", vec![plain(push_field("nothing", "pc"))])]),
        ErrorKind::UnknownName
    );
    assert_eq!(
        error_of(vec![block("main", vec![plain(push_field("main", "length"))])]),
        ErrorKind::UnknownName
    );
    assert_eq!(
        error_of(vec![block(
            "main",
            vec![plain(call("pull", RFunctionArg::HexAlias(RHexAlias::HexLiteral(RHexLiteral(vec![])))))]
        )]),
        ErrorKind::UnknownName
    );
    assert_eq!(
        error_of(vec![block(
            "main",
            vec![plain(call("push", RFunctionArg::HexAlias(RHexAlias::Variable(RVariable("add".into())))))]
        )]),
        ErrorKind::UnknownName
    );
    assert_eq!(
        error_of(vec![block(
            "main",
            vec![plain(RBlockItem::BlockRef(RBlockRef::Esp(RBlockRefEsp::VariableWithField(
                RVariableWithField { variable: name("C"), field: name("pc") }
            ))))]
        )]),
        ErrorKind::UnknownName
    );
    let located_error = compile_one(
        vec![block(
            "main",
            vec![located(WithAttributes {
                attributes: vec![],
                inner: at(
                    12,
                    RBlockItem::HexAlias(RHexAlias::Variable(RVariable("nothing".to_owned()))),
                ),
            })],
        )],
        true,
    )
    .unwrap_err();
    assert_eq!(located_error.location, Some(Location { start: 12, end: 13 }));
}

#[test]
fn left_push_takes_bytes_only() {
    assert_eq!(
        error_of(vec![block(
            "main",
            vec![plain(call(
                "lpush",
                RFunctionArg::VariableWithField(RVariableWithField {
                    variable: name("main"),
                    field: name("pc"),
                }),
            ))],
        )]),
        ErrorKind::InvalidPushArg
    );
    assert_eq!(
        error_of(vec![block(
            "main",
            vec![plain(call(
                "lpush",
                RFunctionArg::VariablesConcat(RConcatenation(vec![located(RHexAlias::HexLiteral(
                    RHexLiteral(vec![0x01])
                ))])),
            ))],
        )]),
        ErrorKind::InvalidPushArg
    );
}

#[test]
fn pins_are_single() {
    assert_eq!(
        error_of(vec![
            block_with(vec![flag("main")], false, "a", vec![]),
            block_with(vec![flag("main")], false, "b", vec![]),
        ]),
        ErrorKind::MultiplePins
    );
    assert_eq!(
        error_of(vec![
            block_with(vec![flag("main")], false, "a", vec![]),
            block("main", vec![]),
        ]),
        ErrorKind::MultiplePins
    );
    assert_eq!(
        error_of(vec![
            block("main", vec![]),
            block_with(vec![flag("last")], false, "a", vec![]),
            block_with(vec![flag("last")], false, "b", vec![]),
        ]),
        ErrorKind::MultiplePins
    );
    assert_eq!(
        error_of(vec![block_with(vec![flag("last")], false, "main", vec![])]),
        ErrorKind::MultiplePins
    );
}

#[test]
fn attributes_have_their_places() {
    assert_eq!(
        error_of(vec![block("main", vec![]), block_with(vec![flag("keep")], true, "x", vec![])]),
        ErrorKind::InvalidAttributePlacement
    );
    assert_eq!(
        error_of(vec![block("main", vec![]), block_with(vec![flag("main")], true, "x", vec![])]),
        ErrorKind::InvalidAttributePlacement
    );
    assert_eq!(
        error_of(vec![block("main", vec![]), block_with(vec![flag("last")], true, "x", vec![])]),
        ErrorKind::InvalidAttributePlacement
    );
    assert_eq!(
        error_of(vec![block(
            "main",
            vec![with_attributes(vec![flag("enable_optimization")], push_hex(&[0x01]))]
        )]),
        ErrorKind::InvalidAttributePlacement
    );
    assert_eq!(
        error_of(vec![block("main", vec![with_attributes(vec![flag("keep")], push_hex(&[0x01]))])]),
        ErrorKind::InvalidAttributePlacement
    );
    for pin in ["keep", "main", "last"] {
        let file = RFile(vec![contract_with(vec![flag(pin)], "C", vec![], vec![block("main", vec![])])]);
        assert_eq!(
            compile(&file, "C", &settings(true)).unwrap_err().kind,
            ErrorKind::InvalidAttributePlacement
        );
    }
    assert_eq!(
        error_of(vec![block_with(vec![flag("inline")], false, "main", vec![])]),
        ErrorKind::UnknownAttribute
    );
    assert_eq!(
        error_of(vec![block_with(vec![flag("clear_assume")], false, "main", vec![])]),
        ErrorKind::InvalidAttributeArg
    );
    assert_eq!(
        error_of(vec![block_with(vec![assumption("add", &[0x01])], false, "main", vec![])]),
        ErrorKind::AssumableOpcodeRequired
    );
}

#[test]
fn references_have_their_kinds() {
    assert_eq!(
        error_of(vec![block("main", vec![star("x")]), abstract_block("x", vec![])]),
        ErrorKind::StarOnAbstract
    );
    assert_eq!(
        error_of(vec![block("main", vec![esp("x")]), block("x", vec![])]),
        ErrorKind::EspOnConcrete
    );
    assert_eq!(
        error_of(vec![block("main", vec![star("x"), star("x")]), block("x", vec![])]),
        ErrorKind::StarTwice
    );
    assert_eq!(
        error_of(vec![
            block("main", vec![star("a"), star("b")]),
            block("a", vec![star("x")]),
            block("b", vec![star("x")]),
            block("x", vec![]),
        ]),
        ErrorKind::StarTwice
    );
    assert_eq!(
        error_of(vec![
            block("main", vec![esp("a")]),
            abstract_block("a", vec![star("x")]),
            block("x", vec![]),
        ]),
        ErrorKind::StarInsideAbstract
    );
}

#[test]
fn blocks_do_not_contain_themselves() {
    assert_eq!(error_of(vec![block("main", vec![star("main")])]), ErrorKind::RecursiveBlocks);
    assert_eq!(
        error_of(vec![
            block("main", vec![star("a")]),
            block("a", vec![star("b")]),
            block("b", vec![star("a")]),
        ]),
        ErrorKind::RecursiveBlocks
    );
    assert_eq!(
        error_of(vec![
            block("main", vec![esp("a")]),
            abstract_block("a", vec![esp("b")]),
            abstract_block("b", vec![esp("a")]),
        ]),
        ErrorKind::RecursiveBlocks
    );
}

#[test]
fn pinned_blocks_lie_by_themselves() {
    assert_eq!(
        error_of(vec![
            block("main", vec![plain(push_field("other", "pc"))]),
            block("other", vec![star("main")]),
        ]),
        ErrorKind::PinnedBlockReferenced
    );
    assert_eq!(
        error_of(vec![
            block("main", vec![star("tail")]),
            block_with(vec![flag("last")], false, "tail", vec![]),
        ]),
        ErrorKind::PinnedBlockReferenced
    );
}

#[test]
fn assumptions_replace_pushes() {
    let artifacts = compile_one(
        vec![block_with(
            vec![assumption("msize", &[0x20]), assumption("CHAINID", &[0x01])],
            false,
            "main",
            vec![
                plain(push_hex(&[0x20])),
                plain(push_hex(&[0x00, 0x01])),
                plain(push_hex(&[0x02])),
                with_attributes(vec![clear_assume("msize")], push_hex(&[0x20])),
                plain(push_hex(&[0x01])),
                with_attributes(vec![assumption("caller", &[0x01])], push_hex(&[0x01])),
                with_attributes(vec![assumption("chainid", &[0x03])], push_hex(&[0x01])),
                plain(push_hex(&[0x03])),
            ],
        )],
        true,
    )
    .unwrap();
    assert_eq!(
        main_code(&artifacts),
        vec![0x59, 0x46, 0x60, 0x02, 0x60, 0x20, 0x46, 0x33, 0x33, 0x46]
    );
}

#[test]
fn optimization_can_be_switched_off() {
    let file = RFile(vec![contract_with(
        vec![flag("disable_optimization"), assumption("msize", &[0x20])],
        "C",
        vec![],
        vec![
            block("main", vec![plain(push_hex(&[0x20])), star("fast"), plain(push_hex(&[0x20]))]),
            block_with(vec![flag("enable_optimization")], false, "fast", vec![plain(push_hex(&[0x20]))]),
        ],
    )]);
    let artifacts = compile(&file, "C", &settings(true)).unwrap();
    assert_eq!(main_code(&artifacts), vec![0x60, 0x20, 0x59, 0x60, 0x20]);
}

#[test]
fn attributes_inside_a_block_end_with_it() {
    let artifacts = compile_one(
        vec![
            block(
                "main",
                vec![
                    star("inner"),
                    plain(push_hex(&[0x20])),
                    esp("shared"),
                    plain(push_hex(&[0x20])),
                    plain(push_hex(&[0x21])),
                ],
            ),
            block_with(
                vec![assumption("msize", &[0x20])],
                false,
                "inner",
                vec![
                    plain(push_hex(&[0x20])),
                    located(WithAttributes {
                        attributes: vec![assumption("caller", &[0x20])],
                        inner: located(RBlockItem::HexAlias(RHexAlias::HexLiteral(RHexLiteral(
                            vec![0x01],
                        )))),
                    }),
                ],
            ),
            abstract_block(
                "shared",
                vec![
                    with_attributes(vec![assumption("msize", &[0x20])], push_hex(&[0x20])),
                    located(WithAttributes {
                        attributes: vec![assumption("caller", &[0x21])],
                        inner: located(RBlockItem::HexAlias(RHexAlias::HexLiteral(RHexLiteral(
                            vec![0x02],
                        )))),
                    }),
                ],
            ),
        ],
        true,
    )
    .unwrap();
    assert_eq!(
        main_code(&artifacts),
        vec![0x59, 0x01, 0x60, 0x20, 0x59, 0x02, 0x60, 0x20, 0x33]
    );
}

#[test]
fn zero_push_policy() {
    let zero_assumed = vec![block_with(
        vec![assumption("callvalue", &[])],
        false,
        "main",
        vec![plain(push_hex(&[0x00])), plain(push_hex(&[0x00, 0x00]))],
    )];
    assert_eq!(main_code(&compile_one(zero_assumed.clone(), true).unwrap()), vec![0x5f, 0x5f]);
    assert_eq!(main_code(&compile_one(zero_assumed, false).unwrap()), vec![0x34, 0x34]);
    let plain_zero = vec![block("main", vec![plain(push_hex(&[0x00]))])];
    assert_eq!(main_code(&compile_one(plain_zero.clone(), true).unwrap()), vec![0x5f]);
    assert_eq!(main_code(&compile_one(plain_zero, false).unwrap()), vec![0x60, 0x00]);
}

#[test]
fn attributes_end_an_abstract_block() {
    let artifacts = compile_one(
        vec![
            block(
                "main",
                vec![plain(push_hex(&[0x20])), esp("sets"), plain(push_hex(&[0x20]))],
            ),
            abstract_block(
                "sets",
                vec![
                    word("pop"),
                    located(WithAttributes {
                        attributes: vec![assumption("msize", &[0x20])],
                        inner: located(RBlockItem::HexAlias(RHexAlias::HexLiteral(RHexLiteral(
                            vec![0x01],
                        )))),
                    }),
                ],
            ),
        ],
        true,
    )
    .unwrap();
    assert_eq!(main_code(&artifacts), vec![0x60, 0x20, 0x50, 0x01, 0x59]);
}

#[test]
fn unreferenced_abstract_block_is_absent() {
    let artifacts = compile_one(
        vec![
            block("main", vec![word("pop")]),
            abstract_block("ghost", vec![hex(&[0xde, 0xad]), star("nothing")]),
        ],
        true,
    )
    .unwrap();
    assert_eq!(main_code(&artifacts), vec![0x50]);
    assert_eq!(artifacts.contracts[0].artifacts.blocks.len(), 1);
}

#[test]
fn size_of_a_block_too_large_for_two_bytes() {
    let long = vec![0u8; 0x10000];
    let res = compile_one(
        vec![block("main", vec![plain(push_field("main", "size")), hex(&long)])],
        true,
    );
    assert_eq!(res.unwrap_err().kind, ErrorKind::HoleOverflow);
}

#[test]
fn pushed_size_counts_the_filler() {
    let artifacts = compile_one(
        vec![
            block("main", vec![plain(push_field("main", "size")), hex(&[0x60])]),
            block_with(vec![flag("keep")], false, "b", vec![hex(&[0x5b])]),
        ],
        true,
    )
    .unwrap();
    assert_eq!(main_code(&artifacts), vec![0x61, 0x00, 0x05, 0x60, 0x00, 0x5b]);
    assert_eq!(block_of(&artifacts, "main"), BlockArtifacts { pc: 0, size: 5 });
    assert_eq!(block_of(&artifacts, "b"), BlockArtifacts { pc: 5, size: 1 });
}

#[test]
fn last_block_is_filled_too() {
    let artifacts = compile_one(vec![block("main", vec![hex(&[0x60])])], true).unwrap();
    let code = main_code(&artifacts);
    assert_eq!(code, vec![0x60, 0x00]);
    assert_eq!(walk(&code), 0);
    assert_eq!(block_of(&artifacts, "main"), BlockArtifacts { pc: 0, size: 2 });

    let file = RFile(vec![
        contract("Outer", vec![block("main", vec![code_of("Inner"), word("stop")])]),
        contract("Inner", vec![block("main", vec![hex(&[0x61, 0x01])])]),
    ]);
    let mut with_pattern = settings(true);
    with_pattern.filling_pattern = FillingPatern::Repeat(vec![0xee]);
    let both = compile(&file, "Outer", &with_pattern).unwrap();
    assert_eq!(main_code(&both), vec![0x61, 0x01, 0xee, 0x00]);
    for contract in &both.contracts {
        assert_eq!(walk(&contract.artifacts.bytecode), 0);
    }
}

#[test]
fn size_of_a_block_inside_counts_the_filler_at_the_end() {
    let artifacts = compile_one(
        vec![
            block("main", vec![plain(push_field("inner", "size")), star("inner")]),
            block("inner", vec![hex(&[0x62, 0x01])]),
        ],
        true,
    )
    .unwrap();
    assert_eq!(main_code(&artifacts), vec![0x61, 0x00, 0x04, 0x62, 0x01, 0x00, 0x00]);
    assert_eq!(block_of(&artifacts, "inner"), BlockArtifacts { pc: 3, size: 4 });
    assert_eq!(block_of(&artifacts, "main"), BlockArtifacts { pc: 0, size: 7 });
}

#[test]
fn unused_blocks_are_told() {
    let names = vec!["C".to_owned()];
    let with_unused = contract(
        "C",
        vec![
            block("dead", vec![star("nothing")]),
            block("main", vec![plain(push_field("far", "pc")), star("near")]),
            abstract_block("ghost", vec![word("add")]),
            block("near", vec![word("pop")]),
            block("far", vec![word("stop")]),
            block_with(vec![flag("keep")], false, "kept", vec![word("stop")]),
        ],
    );
    assert_eq!(unused_blocks(&with_unused, &names, &vec![]), Ok(vec![0, 2]));
    let all_used = contract("C", vec![block("main", vec![esp("x")]), abstract_block("x", vec![])]);
    assert_eq!(unused_blocks(&all_used, &names, &vec![]), Ok(vec![]));
    let no_main = contract("C", vec![block("other", vec![])]);
    assert_eq!(unused_blocks(&no_main, &names, &vec![]).unwrap_err().kind, ErrorKind::MissingMain);
    let broken = contract("C", vec![block("main", vec![word("nothing")])]);
    assert_eq!(unused_blocks(&broken, &names, &vec![]).unwrap_err().kind, ErrorKind::UnknownName);
}

#[test]
fn unused_contracts_are_told() {
    let file = RFile(vec![
        contract("Unused", vec![block("main", vec![word("add")])]),
        contract("Inner", vec![block("main", vec![word("stop")])]),
        contract("Outer", vec![block("main", vec![code_of("Inner")])]),
        contract("Other", vec![block("main", vec![code_of("Outer")])]),
    ]);
    assert_eq!(unused_contracts(&file, "Outer", &vec![]), Ok(vec![0, 3]));
    assert_eq!(unused_contracts(&file, "Other", &vec![]), Ok(vec![0]));
    assert_eq!(unused_contracts(&file, "Inner", &vec![]), Ok(vec![0, 2, 3]));
    assert_eq!(
        unused_contracts(&file, "Nothing", &vec![]).unwrap_err().kind,
        ErrorKind::MissingMain
    );
}
