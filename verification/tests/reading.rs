use meplang::ast::attribute::{
    RAttribute, RAttributeArg, RAttributeEquality, RAttributeEqualityRight, WithAttributes,
};
use meplang::ast::block::{RBlock, RBlockItem, RBlockRef, RBlockRefEsp, RBlockRefStar};
use meplang::ast::constant::{RConstant, RConstantArg};
use meplang::ast::function::{RFunction, RFunctionArg};
use meplang::ast::literal::{RHexLiteral, RStringLiteral};
use meplang::ast::variable::{
    RCompileVariable, RConcatenation, RHexAlias, RVariable, RVariableWithField,
};
use meplang::parser::error::{CompileError, ErrorKind};
use meplang::parser::parser::{Located, Location};
use meplang::pre_processing::attribute::{Assumption, Attribute, Attributes};
use meplang::pre_processing::block_flow::{
    analyze_block_flow, BlockFlowItem, BlockFlowPushInner,
};
use meplang::pre_processing::declarations::{extract_constants, scan_blocks};
use meplang::pre_processing::names::{get_compile_variable_value, NamedBytes};
use meplang::pre_processing::queue::IndexedVec;
use meplang::types::bytes32::Bytes32;

fn at<T>(start: usize, inner: T) -> Located<T> {
    Located { location: Location { start, end: start + 1 }, inner }
}

fn span(start: usize) -> Option<Location> {
    Some(Location { start, end: start + 1 })
}

fn name(start: usize, text: &str) -> Located<RVariable> {
    at(start, RVariable(text.to_owned()))
}

fn number(bytes: &[u8]) -> Bytes32 {
    Bytes32::from_bytes(bytes, true).unwrap()
}

fn flag(text: &str) -> Located<RAttribute> {
    at(1, RAttribute { name: name(2, text), arg: None })
}

fn equality(op: &str, right: RAttributeEqualityRight) -> Located<RAttribute> {
    at(
        1,
        RAttribute {
            name: name(2, "assume"),
            arg: Some(at(
                3,
                RAttributeArg::AttributeEquality(RAttributeEquality {
                    name: name(4, op),
                    value: at(5, right),
                }),
            )),
        },
    )
}

fn assumption(op: &str, value: &[u8]) -> Located<RAttribute> {
    equality(op, RAttributeEqualityRight::HexLiteral(RHexLiteral(value.to_vec())))
}

fn clearing(op: &str) -> Located<RAttribute> {
    at(
        1,
        RAttribute {
            name: name(2, "clear_assume"),
            arg: Some(at(3, RAttributeArg::Variable(RVariable(op.to_owned())))),
        },
    )
}

fn variables() -> Vec<NamedBytes> {
    vec![NamedBytes { name: "CHAIN".to_owned(), value: vec![0x01] }]
}

fn read(attribute: &Located<RAttribute>) -> Result<Attribute, CompileError> {
    Attribute::from_r_attribute(attribute, &variables())
}

fn error(kind: ErrorKind, start: usize) -> CompileError {
    CompileError { kind, location: span(start) }
}

#[test]
fn attributes_are_read_by_name() {
    assert_eq!(read(&flag("keep")), Ok(Attribute::Keep));
    assert_eq!(read(&flag("main")), Ok(Attribute::Main));
    assert_eq!(read(&flag("last")), Ok(Attribute::Last));
    assert_eq!(read(&flag("enable_optimization")), Ok(Attribute::Optimization(true)));
    assert_eq!(read(&flag("disable_optimization")), Ok(Attribute::Optimization(false)));
    assert_eq!(read(&flag("Keep")), Err(error(ErrorKind::UnknownAttribute, 2)));
    assert_eq!(read(&flag("optimization")), Err(error(ErrorKind::UnknownAttribute, 2)));
}

#[test]
fn assumptions_are_read() {
    assert_eq!(
        read(&assumption("msize", &[0x20])),
        Ok(Attribute::Assume { op: 0x59, v: number(&[0x20]) })
    );
    assert_eq!(
        read(&assumption("ChainId", &[])),
        Ok(Attribute::Assume { op: 0x46, v: number(&[]) })
    );
    assert_eq!(
        read(&assumption("caller", &[0xff; 32])),
        Ok(Attribute::Assume { op: 0x33, v: number(&[0xff; 32]) })
    );
    let from_variable = equality(
        "chainid",
        RAttributeEqualityRight::CompileVariable(RCompileVariable(name(6, "CHAIN"))),
    );
    assert_eq!(read(&from_variable), Ok(Attribute::Assume { op: 0x46, v: number(&[0x01]) }));
    assert_eq!(read(&clearing("msize")), Ok(Attribute::ClearAssume { op: 0x59 }));
    assert_eq!(read(&clearing("MSIZE")), Ok(Attribute::ClearAssume { op: 0x59 }));
}

#[test]
fn assumptions_that_are_refused() {
    assert_eq!(read(&flag("assume")), Err(error(ErrorKind::InvalidAttributeArg, 1)));
    assert_eq!(read(&flag("clear_assume")), Err(error(ErrorKind::InvalidAttributeArg, 1)));
    let with_name = at(
        1,
        RAttribute {
            name: name(2, "assume"),
            arg: Some(at(3, RAttributeArg::Variable(RVariable("msize".to_owned())))),
        },
    );
    assert_eq!(read(&with_name), Err(error(ErrorKind::InvalidAttributeArg, 1)));
    let with_string = at(
        1,
        RAttribute {
            name: name(2, "clear_assume"),
            arg: Some(at(3, RAttributeArg::StringLiteral(RStringLiteral("msize".to_owned())))),
        },
    );
    assert_eq!(read(&with_string), Err(error(ErrorKind::InvalidAttributeArg, 1)));
    let string_value =
        equality("msize", RAttributeEqualityRight::StringLiteral(RStringLiteral("x".to_owned())));
    assert_eq!(read(&string_value), Err(error(ErrorKind::InvalidAttributeArg, 5)));
    let unknown_variable = equality(
        "msize",
        RAttributeEqualityRight::CompileVariable(RCompileVariable(name(6, "NONE"))),
    );
    assert_eq!(read(&unknown_variable), Err(error(ErrorKind::UnknownName, 6)));
    assert_eq!(
        read(&assumption("msize", &[0x01; 33])),
        Err(error(ErrorKind::ConstantTooLarge, 5))
    );
    assert_eq!(read(&assumption("nothing", &[0x01])), Err(error(ErrorKind::UnknownName, 4)));
    assert_eq!(
        read(&assumption("balance", &[0x01])),
        Err(error(ErrorKind::AssumableOpcodeRequired, 4))
    );
    assert_eq!(read(&clearing("nothing")), Err(error(ErrorKind::UnknownName, 3)));
    assert_eq!(read(&clearing("add")), Err(error(ErrorKind::AssumableOpcodeRequired, 3)));
}

#[test]
fn places_of_attributes() {
    let all = [
        Attribute::Assume { op: 0x59, v: number(&[1]) },
        Attribute::ClearAssume { op: 0x59 },
        Attribute::Keep,
        Attribute::Main,
        Attribute::Last,
        Attribute::Optimization(true),
    ];
    let contract = [true, true, false, false, false, true];
    let item = [true, true, false, false, false, false];
    for (i, attribute) in all.iter().enumerate() {
        assert_eq!(attribute.is_contract_attribute(), contract[i]);
        assert_eq!(attribute.is_abstract_block_attribute(), contract[i]);
        assert_eq!(attribute.is_block_item_attribute(), item[i]);
        assert!(attribute.is_block_attribute());
    }
    assert!(all[0].is_assume() && !all[1].is_assume());
    assert!(all[1].is_clear_assume() && !all[0].is_clear_assume());
    assert!(all[2].is_keep() && !all[3].is_keep());
    assert!(all[3].is_main() && !all[4].is_main());
    assert!(all[4].is_last() && !all[5].is_last());
    assert!(all[5].is_optimization() && !all[2].is_optimization());
}

#[test]
fn attributes_come_into_force() {
    let mut attributes = Attributes::default();
    assert!(attributes.optimization);
    assert!(attributes.assumes.is_empty());
    attributes.apply(Attribute::Assume { op: 0x59, v: number(&[1]) });
    attributes.apply(Attribute::Assume { op: 0x46, v: number(&[2]) });
    attributes.apply(Attribute::Assume { op: 0x59, v: number(&[3]) });
    attributes.apply(Attribute::Keep);
    attributes.apply(Attribute::Main);
    attributes.apply(Attribute::Last);
    assert_eq!(
        attributes.assumes,
        vec![
            Assumption { op: 0x59, v: number(&[3]) },
            Assumption { op: 0x46, v: number(&[2]) }
        ]
    );
    assert!(attributes.optimization);
    attributes.apply(Attribute::Optimization(false));
    assert!(!attributes.optimization);
    attributes.apply(Attribute::ClearAssume { op: 0x33 });
    assert_eq!(attributes.assumes.len(), 2);
    attributes.apply(Attribute::ClearAssume { op: 0x59 });
    assert_eq!(attributes.assumes, vec![Assumption { op: 0x46, v: number(&[2]) }]);
    let copy = attributes.snapshot();
    attributes.apply_many(&vec![
        Attribute::Optimization(true),
        Attribute::ClearAssume { op: 0x46 },
        Attribute::Assume { op: 0x33, v: number(&[9]) },
    ]);
    assert!(attributes.optimization);
    assert_eq!(attributes.assumes, vec![Assumption { op: 0x33, v: number(&[9]) }]);
    assert!(!copy.optimization);
    assert_eq!(copy.assumes, vec![Assumption { op: 0x46, v: number(&[2]) }]);
}

#[test]
fn compile_variables_are_looked_up() {
    let table = variables();
    assert_eq!(
        get_compile_variable_value(&RCompileVariable(name(9, "CHAIN")), &table),
        Ok(&vec![0x01])
    );
    assert_eq!(
        get_compile_variable_value(&RCompileVariable(name(9, "chain")), &table),
        Err(error(ErrorKind::UnknownName, 9))
    );
}

fn plain(start: usize, inner: RBlockItem) -> Located<WithAttributes<Located<RBlockItem>>> {
    at(start + 100, WithAttributes { attributes: vec![], inner: at(start, inner) })
}

fn attributed(
    attributes: Vec<Located<RAttribute>>,
    inner: RBlockItem,
) -> Located<WithAttributes<Located<RBlockItem>>> {
    at(100, WithAttributes { attributes, inner: at(0, inner) })
}

fn hex(bytes: &[u8]) -> RBlockItem {
    RBlockItem::HexAlias(RHexAlias::HexLiteral(RHexLiteral(bytes.to_vec())))
}

fn word(text: &str) -> RBlockItem {
    RBlockItem::HexAlias(RHexAlias::Variable(RVariable(text.to_owned())))
}

fn push(arg: RFunctionArg) -> RBlockItem {
    RBlockItem::Function(RFunction { name: name(20, "push"), arg: at(21, arg) })
}

fn push_hex(bytes: &[u8]) -> RBlockItem {
    push(RFunctionArg::HexAlias(RHexAlias::HexLiteral(RHexLiteral(bytes.to_vec()))))
}

fn push_field(block: &str, field: &str) -> RBlockItem {
    push(RFunctionArg::VariableWithField(RVariableWithField {
        variable: name(22, block),
        field: name(23, field),
    }))
}

fn star(block: &str) -> RBlockItem {
    RBlockItem::BlockRef(RBlockRef::Star(RBlockRefStar::Variable(RVariable(block.to_owned()))))
}

fn esp(block: &str) -> RBlockItem {
    RBlockItem::BlockRef(RBlockRef::Esp(RBlockRefEsp::Variable(RVariable(block.to_owned()))))
}

fn code_of(contract: &str) -> RBlockItem {
    RBlockItem::BlockRef(RBlockRef::Esp(RBlockRefEsp::VariableWithField(RVariableWithField {
        variable: name(24, contract),
        field: name(25, "code"),
    })))
}

fn block_of(
    items: Vec<Located<WithAttributes<Located<RBlockItem>>>>,
) -> Located<WithAttributes<Located<RBlock>>> {
    at(
        50,
        WithAttributes {
            attributes: vec![],
            inner: at(51, RBlock { name: name(52, "b"), abstr: false, items }),
        },
    )
}

fn names(list: &[&str]) -> Vec<String> {
    list.iter().map(|s| s.to_string()).collect()
}

fn analyze(
    items: Vec<Located<WithAttributes<Located<RBlockItem>>>>,
    contract_dependencies: &mut IndexedVec,
) -> Result<meplang::pre_processing::block_flow::BlockFlow, CompileError> {
    let constants = vec![NamedBytes { name: "two".to_owned(), value: vec![0x02, 0x02] }];
    analyze_block_flow(
        &block_of(items),
        &constants,
        &names(&["C0", "C1", "C2"]),
        &names(&["b", "x", "y", "z"]),
        contract_dependencies,
        &variables(),
    )
}

#[test]
fn flow_gathers_bytes() {
    let mut dependencies = IndexedVec::new();
    let flow = analyze(
        vec![
            plain(0, hex(&[0x60, 0x01])),
            plain(1, word("ADD")),
            plain(2, word("two")),
            plain(3, RBlockItem::HexAlias(RHexAlias::CompileVariable(RCompileVariable(name(9, "CHAIN"))))),
            plain(4, push_hex(&[0x05])),
            plain(5, hex(&[])),
            plain(6, star("x")),
            plain(7, word("stop")),
        ],
        &mut dependencies,
    )
    .unwrap();
    assert_eq!(flow.items.len(), 5);
    assert!(matches!(&flow.items[0], BlockFlowItem::Bytes(b) if b == &vec![0x60, 0x01, 0x01, 0x02, 0x02, 0x01]));
    assert!(matches!(&flow.items[1], BlockFlowItem::Push(p)
        if p.inner == BlockFlowPushInner::Constant(number(&[0x05])) && p.attributes.is_empty()));
    assert!(matches!(&flow.items[2], BlockFlowItem::Bytes(b) if b.is_empty()));
    assert!(matches!(&flow.items[3], BlockFlowItem::BlockStar(r)
        if r.index == 1 && r.location == (Location { start: 6, end: 7 })));
    assert!(matches!(&flow.items[4], BlockFlowItem::Bytes(b) if b == &vec![0x00]));
    assert_eq!(flow.strong_deps.as_vec(), vec![1]);
    assert!(flow.weak_deps.as_vec().is_empty());
    assert!(flow.end_attributes.is_empty());
    assert!(dependencies.as_vec().is_empty());
}

#[test]
fn flow_notes_what_it_refers_to() {
    let mut dependencies = IndexedVec::new();
    dependencies.insert(2);
    let flow = analyze(
        vec![
            plain(0, esp("z")),
            plain(1, star("x")),
            plain(2, esp("z")),
            plain(3, push_field("y", "pc")),
            plain(4, push_field("b", "size")),
            plain(5, push_field("y", "size")),
            plain(6, code_of("C1")),
            plain(7, code_of("C0")),
            plain(8, code_of("C1")),
        ],
        &mut dependencies,
    )
    .unwrap();
    assert_eq!(flow.strong_deps.as_vec(), vec![3, 1]);
    assert_eq!(flow.weak_deps.as_vec(), vec![2, 0]);
    assert_eq!(dependencies.as_vec(), vec![2, 1, 0]);
    assert_eq!(flow.items.len(), 9);
    assert!(matches!(&flow.items[0], BlockFlowItem::BlockEsp(r) if r.index == 3));
    assert!(matches!(&flow.items[3], BlockFlowItem::Push(p) if p.inner == BlockFlowPushInner::BlockPc(2)));
    assert!(matches!(&flow.items[4], BlockFlowItem::Push(p) if p.inner == BlockFlowPushInner::BlockSize(0)));
    assert!(matches!(&flow.items[6], BlockFlowItem::Contract(1)));
    assert!(matches!(&flow.items[7], BlockFlowItem::Contract(0)));
}

#[test]
fn flow_hands_attributes_on() {
    let mut dependencies = IndexedVec::new();
    let first = Attribute::Assume { op: 0x59, v: number(&[1]) };
    let second = Attribute::ClearAssume { op: 0x59 };
    let flow = analyze(
        vec![
            attributed(vec![assumption("msize", &[1])], hex(&[0x01])),
            attributed(vec![clearing("msize")], push_hex(&[0x05])),
            plain(2, push_hex(&[0x06])),
            attributed(vec![assumption("msize", &[1])], code_of("C0")),
            plain(4, esp("x")),
            attributed(vec![clearing("msize"), assumption("msize", &[1])], word("stop")),
        ],
        &mut dependencies,
    )
    .unwrap();
    assert!(matches!(&flow.items[1], BlockFlowItem::Push(p) if p.attributes == vec![first, second]));
    assert!(matches!(&flow.items[2], BlockFlowItem::Push(p) if p.attributes.is_empty()));
    assert!(matches!(&flow.items[4], BlockFlowItem::BlockEsp(r) if r.attributes == vec![first]));
    assert_eq!(flow.end_attributes, vec![second, first]);
}

#[test]
fn flow_errors() {
    let mut dependencies = IndexedVec::new();
    let kind = |items| analyze(items, &mut IndexedVec::new()).unwrap_err();
    assert_eq!(kind(vec![plain(7, word("nothing"))]), error(ErrorKind::UnknownName, 7));
    assert_eq!(kind(vec![plain(7, star("nothing"))]), error(ErrorKind::UnknownName, 7));
    assert_eq!(kind(vec![plain(7, esp("C0"))]), error(ErrorKind::UnknownName, 7));
    assert_eq!(kind(vec![plain(7, code_of("x"))]), error(ErrorKind::UnknownName, 24));
    assert_eq!(kind(vec![plain(7, push_field("C0", "pc"))]), error(ErrorKind::UnknownName, 22));
    assert_eq!(kind(vec![plain(7, push_field("x", "code"))]), error(ErrorKind::UnknownName, 23));
    assert_eq!(kind(vec![plain(7, push_hex(&[0; 33]))]), error(ErrorKind::ConstantTooLarge, 21));
    assert_eq!(
        kind(vec![plain(7, push(RFunctionArg::HexAlias(RHexAlias::Variable(RVariable("x".into())))))]),
        error(ErrorKind::UnknownName, 21)
    );
    assert_eq!(
        kind(vec![plain(
            7,
            push(RFunctionArg::VariablesConcat(RConcatenation(vec![
                at(30, RHexAlias::HexLiteral(RHexLiteral(vec![1]))),
                at(31, RHexAlias::Variable(RVariable("stop".into()))),
            ])))
        )]),
        error(ErrorKind::UnknownName, 21)
    );
    assert_eq!(
        kind(vec![plain(
            7,
            RBlockItem::Function(RFunction {
                name: name(20, "pop"),
                arg: at(21, RFunctionArg::HexAlias(RHexAlias::HexLiteral(RHexLiteral(vec![])))),
            })
        )]),
        error(ErrorKind::UnknownName, 20)
    );
    assert_eq!(
        kind(vec![attributed(vec![flag("keep")], hex(&[1]))]),
        error(ErrorKind::InvalidAttributePlacement, 1)
    );
    assert_eq!(
        kind(vec![attributed(vec![flag("what")], hex(&[1]))]),
        error(ErrorKind::UnknownAttribute, 2)
    );
    assert!(analyze(vec![plain(0, word("stop"))], &mut dependencies).is_ok());
}

fn constant(start: usize, text: &str, value: RConstantArg) -> Located<RConstant> {
    at(start, RConstant { name: name(start + 1, text), value: at(start + 2, value) })
}

#[test]
fn constants_are_read_in_order() {
    let r_constants = vec![
        constant(0, "a", RConstantArg::HexLiteral(RHexLiteral(vec![1, 2]))),
        constant(10, "b", RConstantArg::CompileVariable(RCompileVariable(name(19, "CHAIN")))),
        constant(20, "c", RConstantArg::HexLiteral(RHexLiteral(vec![]))),
    ];
    let table = extract_constants(&r_constants, &names(&["C"]), &variables()).unwrap();
    assert_eq!(table.len(), 3);
    assert_eq!((table[0].name.as_str(), &table[0].value), ("a", &vec![1, 2]));
    assert_eq!((table[1].name.as_str(), &table[1].value), ("b", &vec![1]));
    assert_eq!((table[2].name.as_str(), &table[2].value), ("c", &vec![]));

    let clash = vec![constant(0, "C", RConstantArg::HexLiteral(RHexLiteral(vec![1])))];
    assert_eq!(
        extract_constants(&clash, &names(&["C"]), &variables()).unwrap_err(),
        error(ErrorKind::NameAlreadyUsed, 1)
    );
    let large = vec![constant(0, "a", RConstantArg::HexLiteral(RHexLiteral(vec![1; 32])))];
    assert_eq!(
        extract_constants(&large, &names(&[]), &variables()).unwrap_err(),
        error(ErrorKind::ConstantTooLarge, 2)
    );
    let unknown =
        vec![constant(0, "a", RConstantArg::CompileVariable(RCompileVariable(name(7, "NONE"))))];
    assert_eq!(
        extract_constants(&unknown, &names(&[]), &variables()).unwrap_err(),
        error(ErrorKind::UnknownName, 7)
    );
}

fn declared(
    attributes: Vec<Located<RAttribute>>,
    abstr: bool,
    text: &str,
) -> Located<WithAttributes<Located<RBlock>>> {
    at(
        50,
        WithAttributes {
            attributes,
            inner: at(51, RBlock { name: name(52, text), abstr, items: vec![] }),
        },
    )
}

#[test]
fn declarations_are_scanned() {
    let blocks = vec![
        declared(vec![flag("keep"), assumption("msize", &[1]), flag("keep")], false, "a"),
        declared(vec![flag("disable_optimization")], true, "b"),
        declared(vec![flag("last")], false, "c"),
        declared(vec![], false, "main"),
        declared(vec![flag("keep")], false, "d"),
    ];
    let scan = scan_blocks(&blocks, &names(&["C"]), &vec![], &variables()).unwrap();
    assert_eq!(scan.main_index, Some(3));
    assert_eq!(scan.last_index, Some(2));
    assert_eq!(scan.keeps, vec![0, 4]);
    assert_eq!(scan.block_names, names(&["a", "b", "c", "main", "d"]));
    assert_eq!(
        scan.block_attributes,
        vec![
            vec![Attribute::Assume { op: 0x59, v: number(&[1]) }],
            vec![Attribute::Optimization(false)],
            vec![],
            vec![],
            vec![],
        ]
    );
    let none = scan_blocks(&vec![declared(vec![], false, "a")], &names(&[]), &vec![], &variables())
        .unwrap();
    assert_eq!(none.main_index, None);
    assert_eq!(none.last_index, None);
}
