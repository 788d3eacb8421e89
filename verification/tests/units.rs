use bytes::BytesMut;
use meplang::ast::literal::RHexLiteral;
use meplang::compile::artifacts::{
    Artifacts, BlockArtifacts, ContractArtifacts, NamedContract,
};
use meplang::compile::compile::{compile_contract, encode_push};
use meplang::compile::fillers::{fill_with_pattern, fill_with_random, fits};
use meplang::compile::settings::{CompilerSettings, FillingPatern};
use meplang::parser::error::{
    new_error_from_located, new_error_from_location, new_generic_error, CompileError, ErrorKind,
};
use meplang::parser::parser::{Located, Location};
use meplang::pre_processing::attribute::{Assumption, Attributes};
use meplang::pre_processing::block_flow::{
    append_or_create_bytes, is_function_name, push_kind, push_or_create_bytes,
};
use meplang::pre_processing::dependencies::DepsGraph;
use meplang::pre_processing::names::{find_name, find_named, NamedBytes};
use meplang::pre_processing::opcode::{
    is_assumable_opcode, op_from_mnemonic, push_length, str_to_op, MSIZE, PUSH0, PUSH1, PUSH2,
    PUSH32,
};
use meplang::pre_processing::pre_processing::{
    Anchor, Block, BlockItem, BlockPreProcessingContext, Push, PushInner,
};
use meplang::pre_processing::queue::{IndexedVec, PersistentDedupQueue};
use meplang::types::bytes32::Bytes32;

#[test]
fn mnemonics_give_their_opcodes() {
    assert_eq!(str_to_op("stop"), Some(0x00));
    assert_eq!(str_to_op("add"), Some(0x01));
    assert_eq!(str_to_op("keccak256"), Some(0x20));
    assert_eq!(str_to_op("msize"), Some(0x59));
    assert_eq!(str_to_op("jumpdest"), Some(0x5b));
    assert_eq!(str_to_op("dup16"), Some(0x8f));
    assert_eq!(str_to_op("swap1"), Some(0x90));
    assert_eq!(str_to_op("log4"), Some(0xa4));
    assert_eq!(str_to_op("tload"), Some(0xb3));
    assert_eq!(str_to_op("tstore"), Some(0xb4));
    assert_eq!(str_to_op("selfdestruct"), Some(0xff));
    assert_eq!(str_to_op("difficulty"), Some(0x44));
    assert_eq!(str_to_op("random"), Some(0x44));
    assert_eq!(str_to_op("prevrandao"), Some(0x44));
}

#[test]
fn mnemonics_ignore_case() {
    assert_eq!(str_to_op("ADD"), Some(0x01));
    assert_eq!(str_to_op("JumpDest"), Some(0x5b));
    assert_eq!(op_from_mnemonic("ADD"), None);
    assert_eq!(op_from_mnemonic("add"), Some(0x01));
}

#[test]
fn pushes_have_no_mnemonic() {
    assert_eq!(str_to_op("push0"), None);
    assert_eq!(str_to_op("push1"), None);
    assert_eq!(str_to_op("push32"), None);
    assert_eq!(str_to_op("nothing"), None);
    assert_eq!(str_to_op(""), None);
}

#[test]
fn push_lengths() {
    assert_eq!(push_length(PUSH0), Some(0));
    assert_eq!(push_length(PUSH1), Some(1));
    assert_eq!(push_length(PUSH2), Some(2));
    assert_eq!(push_length(PUSH32), Some(32));
    assert_eq!(push_length(0x5e), None);
    assert_eq!(push_length(0x80), None);
    assert_eq!(push_length(0x00), None);
}

#[test]
fn assumable_opcodes() {
    for name in [
        "address", "origin", "caller", "callvalue", "calldatasize", "gasprice", "returndatasize",
        "blockhash", "coinbase", "timestamp", "number", "difficulty", "gaslimit", "chainid",
        "basefee", "msize",
    ] {
        assert!(is_assumable_opcode(str_to_op(name).unwrap()));
    }
    for name in ["add", "balance", "selfbalance", "gas", "pc", "codesize", "sload", "stop"] {
        assert!(!is_assumable_opcode(str_to_op(name).unwrap()));
    }
    assert!(!is_assumable_opcode(PUSH0));
}

#[test]
fn function_names() {
    assert!(is_function_name("push"));
    assert!(is_function_name("rpush"));
    assert!(is_function_name("lpush"));
    assert!(is_function_name("PUSH"));
    assert!(!is_function_name("pop"));
    assert!(!is_function_name("push1"));
    assert_eq!(push_kind("push"), Some(true));
    assert_eq!(push_kind("rpush"), Some(true));
    assert_eq!(push_kind("lpush"), Some(false));
    assert_eq!(push_kind("PUSH"), None);
    assert_eq!(push_kind(""), None);
}

#[test]
fn word_from_bytes_at_the_end() {
    let word = Bytes32::from_bytes(&[0x01, 0x02], true).unwrap();
    let mut expected = [0u8; 32];
    expected[30] = 0x01;
    expected[31] = 0x02;
    assert_eq!(word.0, expected);
    assert_eq!(word.leading_zeros(), 30);
    assert!(!word.is_zero());
    assert_eq!(word.right_content(), &[0x01, 0x02]);
}

#[test]
fn word_from_bytes_at_the_start() {
    let word = Bytes32::from_bytes(&[0x01, 0x02], false).unwrap();
    let mut expected = [0u8; 32];
    expected[0] = 0x01;
    expected[1] = 0x02;
    assert_eq!(word.0, expected);
    assert_eq!(word.leading_zeros(), 0);
    assert_eq!(word.right_content().len(), 32);
}

#[test]
fn word_limits() {
    assert!(Bytes32::from_bytes(&[0xff; 32], true).is_some());
    assert!(Bytes32::from_bytes(&[0xff; 33], true).is_none());
    assert!(Bytes32::from_bytes(&[0xff; 33], false).is_none());
    let zero = Bytes32::from_bytes(&[], true).unwrap();
    assert!(zero.is_zero());
    assert_eq!(zero.leading_zeros(), 32);
    assert_eq!(zero.right_content(), &[] as &[u8]);
    let also_zero = Bytes32::from_bytes(&[0x00, 0x00], false).unwrap();
    assert!(also_zero.is_zero());
    assert!(zero == also_zero);
    assert!(zero.same(&also_zero));
    let one = Bytes32::from_bytes(&[0x01], true).unwrap();
    assert!(zero != one);
    assert!(!zero.same(&one));
    assert_eq!(one.leading_zeros(), 31);
}

#[test]
fn hex_literals() {
    assert_eq!(RHexLiteral::from_text("0x6001").unwrap().0, vec![0x60, 0x01]);
    assert_eq!(RHexLiteral::from_text("0xAbCdEf").unwrap().0, vec![0xab, 0xcd, 0xef]);
    assert_eq!(RHexLiteral::from_text("0x").unwrap().0, Vec::<u8>::new());
    let parse_error = CompileError { kind: ErrorKind::ParseError, location: None };
    assert_eq!(RHexLiteral::from_text("0x600").unwrap_err(), parse_error);
    assert_eq!(RHexLiteral::from_text("6001").unwrap_err(), parse_error);
    assert_eq!(RHexLiteral::from_text("0x60zz").unwrap_err(), parse_error);
    assert_eq!(RHexLiteral::from_text("0").unwrap_err(), parse_error);
    assert_eq!(RHexLiteral::from_text("").unwrap_err(), parse_error);
    assert_eq!(RHexLiteral::from_text("0X60").unwrap_err(), parse_error);
}

#[test]
fn errors_carry_their_span() {
    let location = Location { start: 3, end: 9 };
    let located = Located { location, inner: 7u8 };
    assert_eq!(
        new_error_from_located(&located, ErrorKind::UnknownName),
        CompileError { kind: ErrorKind::UnknownName, location: Some(location) }
    );
    assert_eq!(
        new_error_from_location(&location, ErrorKind::StarTwice),
        CompileError { kind: ErrorKind::StarTwice, location: Some(location) }
    );
    assert_eq!(
        new_generic_error(ErrorKind::MissingMain),
        CompileError { kind: ErrorKind::MissingMain, location: None }
    );
}

#[test]
fn indexed_vec_keeps_the_order() {
    let mut set = IndexedVec::new();
    assert!(set.insert(5));
    assert!(set.insert(3));
    assert!(!set.insert(5));
    assert!(set.insert(9));
    assert_eq!(set.as_vec(), vec![5, 3, 9]);
    assert_eq!(set.len(), 3);
    assert!(set.contains(3));
    assert!(!set.contains(4));
    assert!(set.remove(3));
    assert!(!set.remove(3));
    assert_eq!(set.as_vec(), vec![5, 9]);
    assert!(set.insert(3));
    assert_eq!(set.as_vec(), vec![5, 9, 3]);
    assert_eq!(set.pop(), Some(5));
    assert_eq!(set.pop(), Some(9));
    assert_eq!(set.pop(), Some(3));
    assert_eq!(set.pop(), None);
    assert_eq!(set.len(), 0);
}

#[test]
fn queue_takes_each_item_once() {
    let mut queue = PersistentDedupQueue::new();
    assert!(queue.insert_if_needed(1));
    assert!(queue.insert_if_needed(2));
    assert!(!queue.insert_if_needed(1));
    assert_eq!(queue.len(), 2);
    assert_eq!(queue.pop(), Some(2));
    assert!(!queue.insert_if_needed(2));
    assert!(queue.seen(2));
    assert!(!queue.seen(3));
    assert_eq!(queue.pop(), Some(1));
    assert_eq!(queue.pop(), None);
    assert!(!queue.insert_if_needed(1));
    assert!(queue.insert_if_needed(3));
    assert_eq!(queue.seen_len(), 3);
    assert_eq!(queue.pop(), Some(3));
}

#[test]
fn graph_leaves_leave_in_order() {
    let mut graph = DepsGraph::new();
    assert!(graph.is_empty());
    graph.add_node_if_needed(0);
    graph.add_node_if_needed(1);
    graph.add_node_if_needed(0);
    assert_eq!(graph.leaves(), vec![0, 1]);
    assert!(graph.insert_if_needed(0, 2));
    assert!(!graph.insert_if_needed(0, 2));
    assert!(graph.insert_if_needed(1, 2));
    assert!(graph.insert_if_needed(3, 1));
    assert_eq!(graph.leaves(), vec![2]);
    assert!(!graph.is_empty());
    graph.add_node_if_needed(2);
    graph.add_node_if_needed(3);
    assert_eq!(graph.leaves(), vec![2]);
    assert_eq!(graph.pop_leaf(), Some(2));
    assert_eq!(graph.leaves(), vec![0, 1]);
    assert_eq!(graph.pop_leaf(), Some(0));
    assert_eq!(graph.pop_leaf(), Some(1));
    assert_eq!(graph.leaves(), vec![3]);
    assert_eq!(graph.pop_leaf(), Some(3));
    assert_eq!(graph.pop_leaf(), None);
    assert!(graph.is_empty());
}

#[test]
fn graph_with_a_cycle_does_not_drain() {
    let mut graph = DepsGraph::new();
    graph.insert_if_needed(0, 1);
    graph.insert_if_needed(1, 0);
    graph.insert_if_needed(2, 0);
    assert_eq!(graph.leaves(), Vec::<usize>::new());
    assert_eq!(graph.drain(), Vec::<usize>::new());
    assert!(!graph.is_empty());

    let mut own = DepsGraph::new();
    own.add_node_if_needed(4);
    own.insert_if_needed(4, 4);
    assert_eq!(own.pop_leaf(), None);
    assert!(!own.is_empty());
}

#[test]
fn graph_drains_dependencies_first() {
    let mut graph = DepsGraph::new();
    graph.add_node_if_needed(0);
    graph.insert_if_needed(0, 1);
    graph.insert_if_needed(0, 2);
    graph.insert_if_needed(1, 2);
    assert_eq!(graph.drain(), vec![2, 1, 0]);
    assert!(graph.is_empty());
    assert_eq!(graph.leaves(), Vec::<usize>::new());
}

#[test]
fn names_are_found_first() {
    let names = vec!["a".to_owned(), "b".to_owned(), "a".to_owned()];
    assert_eq!(find_name(&names, "a"), Some(0));
    assert_eq!(find_name(&names, "b"), Some(1));
    assert_eq!(find_name(&names, "c"), None);
    assert_eq!(find_name(&names, "A"), None);
    let table = vec![
        NamedBytes { name: "x".to_owned(), value: vec![1] },
        NamedBytes { name: "y".to_owned(), value: vec![2] },
    ];
    assert_eq!(find_named(&table, "y"), Some(1));
    assert_eq!(find_named(&table, "z"), None);
}

#[test]
fn default_settings() {
    let settings = CompilerSettings::default();
    assert!(settings.push0);
    assert!(settings.variables.is_empty());
    assert!(matches!(&settings.filling_pattern, FillingPatern::Repeat(p) if p == &vec![0x00]));
    assert!(matches!(FillingPatern::default(), FillingPatern::Repeat(p) if p == vec![0x00]));
}

#[test]
fn variables_are_replaced() {
    let mut settings = CompilerSettings::default();
    settings.add_variable("A", vec![1]);
    settings.add_variable("B", vec![2]);
    settings.add_variable("A", vec![3, 4]);
    assert_eq!(settings.variables.len(), 2);
    assert_eq!(settings.variables[0].name, "A");
    assert_eq!(settings.variables[0].value, vec![3, 4]);
    assert_eq!(settings.variables[1].name, "B");
    assert_eq!(settings.variables[1].value, vec![2]);
}

#[test]
fn contexts() {
    let root = BlockPreProcessingContext::new_root(4);
    assert_eq!(
        root,
        BlockPreProcessingContext { root_index: 4, inside_abstract: false, line_index: 0 }
    );
    assert_eq!(
        root.next_context(true, 7),
        BlockPreProcessingContext { root_index: 4, inside_abstract: true, line_index: 7 }
    );
}

#[test]
fn buffers_grow() {
    let mut current: Option<BytesMut> = None;
    append_or_create_bytes(&mut current, &[1, 2]);
    assert_eq!(&current.as_ref().unwrap()[..], &[1, 2]);
    push_or_create_bytes(&mut current, 3);
    append_or_create_bytes(&mut current, &[]);
    append_or_create_bytes(&mut current, &[4]);
    assert_eq!(&current.as_ref().unwrap()[..], &[1, 2, 3, 4]);
    let mut other: Option<BytesMut> = None;
    push_or_create_bytes(&mut other, 9);
    assert_eq!(&other.as_ref().unwrap()[..], &[9]);
    let mut empty: Option<BytesMut> = None;
    append_or_create_bytes(&mut empty, &[]);
    assert_eq!(empty.unwrap().len(), 0);
}

#[test]
fn pattern_fills() {
    let mut bytes = BytesMut::new();
    bytes.extend_from_slice(&[0xaa]);
    fill_with_pattern(&mut bytes, &[1, 2, 3], 7);
    assert_eq!(&bytes[..], &[0xaa, 1, 2, 3, 1, 2, 3, 1]);
    fill_with_pattern(&mut bytes, &[], 2);
    assert_eq!(&bytes[..], &[0xaa, 1, 2, 3, 1, 2, 3, 1, 0, 0]);
    fill_with_pattern(&mut bytes, &[9], 0);
    assert_eq!(bytes.len(), 10);
}

#[test]
fn random_fills_fit() {
    for n in [0usize, 1, 2, 5, 32, 40] {
        let mut bytes = BytesMut::new();
        bytes.extend_from_slice(&[0x7f, 0x01]);
        fill_with_random(&mut bytes, n);
        assert_eq!(bytes.len(), 2 + n);
        assert_eq!(&bytes[..2], &[0x7f, 0x01]);
        for place in 0..n {
            let remaining = n - 1 - place;
            assert!(fits(bytes[2 + place], remaining));
            if let Some(length) = push_length(bytes[2 + place]) {
                assert!(length <= remaining);
            }
        }
    }
}

#[test]
fn fitting_bytes() {
    assert!(fits(0x00, 0));
    assert!(fits(PUSH0, 0));
    assert!(!fits(PUSH1, 0));
    assert!(fits(PUSH1, 1));
    assert!(!fits(PUSH32, 31));
    assert!(fits(PUSH32, 32));
    assert!(fits(0x80, 0));
    assert!(fits(MSIZE, 0));
}

#[test]
fn block_places_are_noted() {
    let mut artifacts = ContractArtifacts::new();
    artifacts.set_pc("main", 0);
    artifacts.set_pc("other", 4);
    artifacts.set_size("main", 4);
    artifacts.set_size("other", 10);
    assert_eq!(artifacts.blocks.len(), 2);
    assert_eq!(artifacts.blocks[0].name, "main");
    assert_eq!(artifacts.blocks[0].artifacts, BlockArtifacts { pc: 0, size: 4 });
    assert_eq!(artifacts.blocks[1].name, "other");
    assert_eq!(artifacts.blocks[1].artifacts, BlockArtifacts { pc: 4, size: 6 });
    artifacts.set_pc("main", 2);
    assert_eq!(artifacts.blocks.len(), 2);
    assert_eq!(artifacts.blocks[0].artifacts, BlockArtifacts { pc: 2, size: 0 });
    artifacts.set_size("main", 2);
    assert_eq!(artifacts.blocks[0].artifacts, BlockArtifacts { pc: 2, size: 0 });
}

#[test]
fn main_contract_is_found() {
    let mut artifacts = Artifacts { main: "B".to_owned(), contracts: vec![] };
    artifacts.set_contract("A", ContractArtifacts { blocks: vec![], bytecode: vec![1] });
    artifacts.set_contract("B", ContractArtifacts { blocks: vec![], bytecode: vec![2] });
    artifacts.set_contract("A", ContractArtifacts { blocks: vec![], bytecode: vec![3] });
    assert_eq!(artifacts.contracts.len(), 2);
    assert_eq!(artifacts.contracts[0].artifacts.bytecode, vec![3]);
    assert_eq!(artifacts.main_bytecode(), &vec![2]);
    assert_eq!(artifacts.main_artifacts().bytecode, vec![2]);
    let first: &NamedContract = &artifacts.contracts[0];
    assert_eq!(first.name, "A");
}

#[test]
fn pushes_are_encoded() {
    let number = |bytes: &[u8]| Bytes32::from_bytes(bytes, true).unwrap();
    let none = Attributes::default();
    assert_eq!(encode_push(&none, &number(&[]), true), vec![0x5f]);
    assert_eq!(encode_push(&none, &number(&[]), false), vec![0x60, 0x00]);
    assert_eq!(encode_push(&none, &number(&[0x01]), true), vec![0x60, 0x01]);
    assert_eq!(encode_push(&none, &number(&[0x00, 0x01, 0x00]), true), vec![0x61, 0x01, 0x00]);
    let mut full = vec![0x7f];
    full.extend_from_slice(&[0xff; 32]);
    assert_eq!(encode_push(&none, &number(&[0xff; 32]), false), full);

    let assumed = Attributes {
        assumes: vec![
            Assumption { op: 0x34, v: number(&[]) },
            Assumption { op: 0x59, v: number(&[0x20]) },
            Assumption { op: 0x46, v: number(&[0x20]) },
        ],
        optimization: true,
    };
    assert_eq!(encode_push(&assumed, &number(&[]), true), vec![0x5f]);
    assert_eq!(encode_push(&assumed, &number(&[]), false), vec![0x34]);
    assert_eq!(encode_push(&assumed, &number(&[0x20]), true), vec![0x46]);
    assert_eq!(encode_push(&assumed, &number(&[0x21]), true), vec![0x60, 0x21]);
    let switched_off = Attributes { assumes: assumed.assumes.clone(), optimization: false };
    assert_eq!(encode_push(&switched_off, &number(&[0x20]), true), vec![0x60, 0x20]);
    assert_eq!(encode_push(&switched_off, &number(&[]), false), vec![0x60, 0x00]);
}

#[test]
fn a_contract_is_laid_out_from_its_blocks() {
    let push = |inner: PushInner| BlockItem::Push(Push { attributes: Attributes::default(), inner });
    let blocks = vec![
        Block {
            name: "a".to_owned(),
            items: vec![
                push(PushInner::BlockSize { index: 0, start: 0, end: 2 }),
                BlockItem::Bytes(vec![0x60]),
            ],
            anchors: vec![Anchor { name: "tail".to_owned(), start: 1, end: 2 }],
        },
        Block {
            name: "b".to_owned(),
            items: vec![
                BlockItem::Contract(1),
                push(PushInner::BlockPc { index: 1, line: 1 }),
                push(PushInner::Constant(Bytes32::from_bytes(&[], true).unwrap())),
            ],
            anchors: vec![],
        },
    ];
    let codes = vec![None, Some(vec![0x5b, 0x5b])];
    let mut settings = CompilerSettings::default();
    settings.push0 = false;
    let made = compile_contract(&blocks, &codes, &settings).unwrap();
    assert_eq!(
        made.bytecode,
        vec![0x61, 0x00, 0x05, 0x60, 0x00, 0x5b, 0x5b, 0x61, 0x00, 0x07, 0x60, 0x00]
    );
    let noted: Vec<(&str, usize, usize)> =
        made.blocks.iter().map(|b| (b.name.as_str(), b.artifacts.pc, b.artifacts.size)).collect();
    assert_eq!(noted, vec![("a", 0, 5), ("tail", 3, 2), ("b", 5, 7)]);

    let missing = vec![Block {
        name: "a".to_owned(),
        items: vec![BlockItem::Contract(0)],
        anchors: vec![],
    }];
    assert_eq!(
        compile_contract(&missing, &codes, &settings).unwrap_err(),
        CompileError { kind: ErrorKind::UnknownName, location: None }
    );
    let one_byte = vec![Block {
        name: "a".to_owned(),
        items: vec![BlockItem::Bytes(vec![0x60])],
        anchors: vec![],
    }];
    assert_eq!(compile_contract(&one_byte, &codes, &settings).unwrap().bytecode, vec![0x60, 0x00]);
}
