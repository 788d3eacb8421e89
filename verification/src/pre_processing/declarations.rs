use vstd::prelude::*;
use crate::ast::attribute::{RAttribute, WithAttributes};
use crate::ast::block::RBlock;
use crate::ast::constant::{RConstant, RConstantArg};
use crate::parser::error::{new_error_from_located, CompileError, ErrorKind};
use crate::parser::parser::{Located, Location};
use crate::pre_processing::attribute::{spec_from_r_attribute, Attribute};
use crate::pre_processing::block_flow::located_error;
use crate::pre_processing::names::{
    find_name,
    find_named,
    get_compile_variable_value,
    index_of_name,
    spec_compile_variable_value,
    string_names,
    table_names,
    table_view,
    NamedBytes,
    NamedBytesView,
};
use crate::pre_processing::queue::{all_below, with_item};

verus! {

/// The bytes that are given to a constant.
pub open spec fn spec_constant_value(
    value: Located<RConstantArg>,
    compile_variables: Seq<NamedBytesView>,
) -> Result<Seq<u8>, CompileError> {
    match value.inner {
        RConstantArg::HexLiteral(hex_literal) => Ok(hex_literal.0@),
        RConstantArg::CompileVariable(compile_variable) => spec_compile_variable_value(
            compile_variable,
            compile_variables,
        ),
    }
}

/// `constants` and, after them, the constants declared from index `from` on. A constant
/// has at most 31 bytes, and its name is neither that of a contract nor that of a
/// constant before it.
pub open spec fn spec_extract_constants(
    constants: Seq<NamedBytesView>,
    r_constants: Seq<Located<RConstant>>,
    contract_names: Seq<Seq<char>>,
    compile_variables: Seq<NamedBytesView>,
    from: int,
) -> Result<Seq<NamedBytesView>, CompileError>
    decreases r_constants.len() - from,
{
    if from >= r_constants.len() || from < 0 {
        Ok(constants)
    } else {
        let r_constant = r_constants[from].inner;
        let name = r_constant.name.inner.0@;
        match spec_constant_value(r_constant.value, compile_variables) {
            Err(e) => Err(e),
            Ok(value) => if value.len() >= 32 {
                Err(located_error(ErrorKind::ConstantTooLarge, r_constant.value.location))
            } else if index_of_name(contract_names, name).is_some() || index_of_name(
                table_names(constants),
                name,
            ).is_some() {
                Err(located_error(ErrorKind::NameAlreadyUsed, r_constant.name.location))
            } else {
                spec_extract_constants(
                    constants.push(NamedBytesView { name, value }),
                    r_constants,
                    contract_names,
                    compile_variables,
                    from + 1,
                )
            },
        }
    }
}

/// Reads the constants of a contract, in source order.
pub fn extract_constants(
    r_constants: &Vec<Located<RConstant>>,
    contract_names: &Vec<String>,
    compile_variables: &Vec<NamedBytes>,
) -> (res: Result<Vec<NamedBytes>, CompileError>)
    ensures
        match spec_extract_constants(
            Seq::empty(),
            r_constants@,
            string_names(contract_names@),
            table_view(compile_variables@),
            0,
        ) {
            Ok(constants) => res matches Ok(table) && table_view(table@) == constants,
            Err(e) => res matches Err(err) && err == e,
        },
{
    let mut constants: Vec<NamedBytes> = Vec::new();
    assert(table_view(constants@) =~= Seq::<NamedBytesView>::empty());
    let mut i: usize = 0;
    while i < r_constants.len()
        invariant
            i <= r_constants@.len(),
            spec_extract_constants(
                Seq::empty(),
                r_constants@,
                string_names(contract_names@),
                table_view(compile_variables@),
                0,
            ) == spec_extract_constants(
                table_view(constants@),
                r_constants@,
                string_names(contract_names@),
                table_view(compile_variables@),
                i as int,
            ),
        decreases r_constants@.len() - i,
    {
        let r_constant = &r_constants[i].inner;
        let constant_name = r_constant.name_str();
        let value: &Vec<u8> = match &r_constant.value.inner {
            RConstantArg::HexLiteral(hex_literal) => &hex_literal.0,
            RConstantArg::CompileVariable(compile_variable) => {
                match get_compile_variable_value(compile_variable, compile_variables) {
                    Ok(value) => value,
                    Err(e) => {
                        return Err(e);
                    },
                }
            },
        };
        if value.len() >= 32 {
            return Err(new_error_from_located(&r_constant.value, ErrorKind::ConstantTooLarge));
        }
        if find_name(contract_names, constant_name).is_some() || find_named(
            &constants,
            constant_name,
        ).is_some() {
            return Err(new_error_from_located(&r_constant.name, ErrorKind::NameAlreadyUsed));
        }
        let entry = NamedBytes { name: constant_name.to_owned(), value: value.clone() };
        assert(table_view(constants@.push(entry)) =~= table_view(constants@).push(entry@));
        constants.push(entry);
        i += 1;
    }
    Ok(constants)
}

/// What the attributes of the blocks read so far say of the layout: the attributes of
/// the block that is being read, the block that is marked as main, the one marked as
/// last, and those that are kept, in source order.
#[verifier::ext_equal]
pub struct PinState {
    pub attributes: Seq<Attribute>,
    pub main_index: Option<usize>,
    pub last_index: Option<usize>,
    pub keeps: Seq<usize>,
}

/// The state after one attribute of the block `block_index`. Before an abstract block
/// no attribute may stand that places it; a contract has one main block and one last
/// block at most.
pub open spec fn pin_step(
    st: PinState,
    attribute: Attribute,
    abstr: bool,
    block_index: usize,
    location: Location,
) -> Result<PinState, CompileError> {
    if abstr {
        if attribute.spec_is_contract_attribute() {
            Ok(PinState { attributes: st.attributes.push(attribute), ..st })
        } else {
            Err(located_error(ErrorKind::InvalidAttributePlacement, location))
        }
    } else {
        match attribute {
            Attribute::Last => if st.last_index.is_some() {
                Err(located_error(ErrorKind::MultiplePins, location))
            } else {
                Ok(PinState { last_index: Some(block_index), ..st })
            },
            Attribute::Keep => Ok(PinState { keeps: with_item(st.keeps, block_index), ..st }),
            Attribute::Main => if st.main_index.is_some() {
                Err(located_error(ErrorKind::MultiplePins, location))
            } else {
                Ok(PinState { main_index: Some(block_index), ..st })
            },
            _ => Ok(PinState { attributes: st.attributes.push(attribute), ..st }),
        }
    }
}

/// The state after the attributes of a block from index `from` on.
pub open spec fn pins_from(
    st: PinState,
    r_attributes: Seq<Located<RAttribute>>,
    compile_variables: Seq<NamedBytesView>,
    abstr: bool,
    block_index: usize,
    from: int,
) -> Result<PinState, CompileError>
    decreases r_attributes.len() - from,
{
    if from >= r_attributes.len() || from < 0 {
        Ok(st)
    } else {
        match spec_from_r_attribute(r_attributes[from], compile_variables) {
            Err(e) => Err(e),
            Ok(attribute) => match pin_step(
                st,
                attribute,
                abstr,
                block_index,
                r_attributes[from].location,
            ) {
                Err(e) => Err(e),
                Ok(next) => pins_from(
                    next,
                    r_attributes,
                    compile_variables,
                    abstr,
                    block_index,
                    from + 1,
                ),
            },
        }
    }
}

/// What the declarations of the blocks read so far say: the attributes of each of them
/// that are no pins, the pins, and the names.
#[verifier::ext_equal]
pub struct ScanState {
    pub block_attributes: Seq<Seq<Attribute>>,
    pub main_index: Option<usize>,
    pub last_index: Option<usize>,
    pub keeps: Seq<usize>,
    pub block_names: Seq<Seq<char>>,
}

/// The names that are taken when the blocks of a contract are read.
pub struct ScanEnv {
    pub contract_names: Seq<Seq<char>>,
    pub constants: Seq<NamedBytesView>,
    pub compile_variables: Seq<NamedBytesView>,
}

/// The state after the declaration of the block `block_index`. Its name is new: no
/// contract, no constant and no block before it has it. A block named `main` is the
/// main block, and no other block may be marked as main.
pub open spec fn scan_block(
    env: ScanEnv,
    st: ScanState,
    r_block: Located<WithAttributes<Located<RBlock>>>,
    block_index: usize,
) -> Result<ScanState, CompileError> {
    let block = r_block.inner.inner.inner;
    let name = block.name.inner.0@;
    match pins_from(
        PinState {
            attributes: Seq::empty(),
            main_index: st.main_index,
            last_index: st.last_index,
            keeps: st.keeps,
        },
        r_block.inner.attributes@,
        env.compile_variables,
        block.abstr,
        block_index,
        0,
    ) {
        Err(e) => Err(e),
        Ok(pins) => if index_of_name(env.contract_names, name).is_some() || index_of_name(
            table_names(env.constants),
            name,
        ).is_some() || index_of_name(st.block_names, name).is_some() {
            Err(located_error(ErrorKind::NameAlreadyUsed, block.name.location))
        } else if name == "main"@ && pins.main_index.is_some() {
            Err(located_error(ErrorKind::MultiplePins, block.name.location))
        } else {
            Ok(
                ScanState {
                    block_attributes: st.block_attributes.push(pins.attributes),
                    main_index: if name == "main"@ {
                        Some(block_index)
                    } else {
                        pins.main_index
                    },
                    last_index: pins.last_index,
                    keeps: pins.keeps,
                    block_names: st.block_names.push(name),
                },
            )
        },
    }
}

/// The state after the declarations of the blocks from index `from` on.
pub open spec fn scan_from(
    env: ScanEnv,
    st: ScanState,
    r_blocks: Seq<Located<WithAttributes<Located<RBlock>>>>,
    from: int,
) -> Result<ScanState, CompileError>
    decreases r_blocks.len() - from,
{
    if from >= r_blocks.len() || from < 0 {
        Ok(st)
    } else {
        match scan_block(env, st, r_blocks[from], from as usize) {
            Err(e) => Err(e),
            Ok(next) => scan_from(env, next, r_blocks, from + 1),
        }
    }
}

/// What the declarations of the blocks of a contract say, before any block is read.
pub open spec fn spec_scan_blocks(
    env: ScanEnv,
    r_blocks: Seq<Located<WithAttributes<Located<RBlock>>>>,
) -> Result<ScanState, CompileError> {
    scan_from(
        env,
        ScanState {
            block_attributes: Seq::empty(),
            main_index: None,
            last_index: None,
            keeps: Seq::empty(),
            block_names: Seq::empty(),
        },
        r_blocks,
        0,
    )
}

/// What the declarations of the blocks of a contract say.
pub struct BlockScan {
    /// For each block, its attributes that are no pins.
    pub block_attributes: Vec<Vec<Attribute>>,
    pub main_index: Option<usize>,
    pub last_index: Option<usize>,
    /// The blocks marked as kept, in source order.
    pub keeps: Vec<usize>,
    /// For each block, its name.
    pub block_names: Vec<String>,
}

/// The attributes of each block as values of the mathematics.
pub open spec fn attribute_lists(block_attributes: Seq<Vec<Attribute>>) -> Seq<Seq<Attribute>> {
    block_attributes.map_values(|attributes: Vec<Attribute>| attributes@)
}

impl View for BlockScan {
    type V = ScanState;

    open spec fn view(&self) -> ScanState {
        ScanState {
            block_attributes: attribute_lists(self.block_attributes@),
            main_index: self.main_index,
            last_index: self.last_index,
            keeps: self.keeps@,
            block_names: string_names(self.block_names@),
        }
    }
}

/// Whether the blocks that are pinned or kept have indices below `bound`.
pub open spec fn pins_below(st: PinState, bound: nat) -> bool {
    &&& st.main_index matches Some(index) ==> index < bound
    &&& st.last_index matches Some(index) ==> index < bound
    &&& all_below(st.keeps, bound)
}

impl BlockScan {
    /// Whether the blocks that are pinned or kept have indices below `bound`.
    pub open spec fn pinned_below(&self, bound: nat) -> bool {
        pins_below(
            PinState {
                attributes: Seq::empty(),
                main_index: self.main_index,
                last_index: self.last_index,
                keeps: self.keeps@,
            },
            bound,
        )
    }
}

struct Pins {
    attributes: Vec<Attribute>,
    main_index: Option<usize>,
    last_index: Option<usize>,
    keeps: Vec<usize>,
}

impl Pins {
    spec fn state(&self) -> PinState {
        PinState {
            attributes: self.attributes@,
            main_index: self.main_index,
            last_index: self.last_index,
            keeps: self.keeps@,
        }
    }
}

fn keep_index(keeps: &mut Vec<usize>, index: usize)
    ensures
        final(keeps)@ == with_item(old(keeps)@, index),
{
    let mut i: usize = 0;
    while i < keeps.len()
        invariant
            i <= keeps@.len(),
            keeps@ == old(keeps)@,
            forall|k: int| 0 <= k < i ==> keeps@[k] != index,
        decreases keeps@.len() - i,
    {
        if keeps[i] == index {
            return ;
        }
        i += 1;
    }
    keeps.push(index);
}

fn read_pins(
    pins: &mut Pins,
    r_attributes: &Vec<Located<RAttribute>>,
    compile_variables: &Vec<NamedBytes>,
    abstr: bool,
    block_index: usize,
) -> (res: Result<(), CompileError>)
    ensures
        match pins_from(
            old(pins).state(),
            r_attributes@,
            table_view(compile_variables@),
            abstr,
            block_index,
            0,
        ) {
            Ok(st) => res.is_ok() && final(pins).state() == st,
            Err(e) => res matches Err(err) && err == e,
        },
        pins_below(old(pins).state(), block_index as nat) ==> pins_below(
            final(pins).state(),
            (block_index + 1) as nat,
        ),
{
    let mut i: usize = 0;
    while i < r_attributes.len()
        invariant
            i <= r_attributes@.len(),
            pins_below(old(pins).state(), block_index as nat) ==> pins_below(
                pins.state(),
                (block_index + 1) as nat,
            ),
            pins_from(
                old(pins).state(),
                r_attributes@,
                table_view(compile_variables@),
                abstr,
                block_index,
                0,
            ) == pins_from(
                pins.state(),
                r_attributes@,
                table_view(compile_variables@),
                abstr,
                block_index,
                i as int,
            ),
        decreases r_attributes@.len() - i,
    {
        let r_attribute = &r_attributes[i];
        let attribute = match Attribute::from_r_attribute(r_attribute, compile_variables) {
            Ok(attribute) => attribute,
            Err(e) => {
                return Err(e);
            },
        };
        if !abstr {
            if attribute.is_last() {
                if pins.last_index.is_some() {
                    return Err(new_error_from_located(r_attribute, ErrorKind::MultiplePins));
                }
                pins.last_index = Some(block_index);
            } else if attribute.is_keep() {
                keep_index(&mut pins.keeps, block_index);
            } else if attribute.is_main() {
                if pins.main_index.is_some() {
                    return Err(new_error_from_located(r_attribute, ErrorKind::MultiplePins));
                }
                pins.main_index = Some(block_index);
            } else {
                pins.attributes.push(attribute);
            }
        } else {
            if attribute.is_abstract_block_attribute() {
                pins.attributes.push(attribute);
            } else {
                return Err(
                    new_error_from_located(r_attribute, ErrorKind::InvalidAttributePlacement),
                );
            }
        }
        i += 1;
    }
    Ok(())
}

/// Reads the declarations of the blocks of a contract: their attributes and their
/// names.
pub fn scan_blocks(
    r_blocks: &Vec<Located<WithAttributes<Located<RBlock>>>>,
    contract_names: &Vec<String>,
    constants: &Vec<NamedBytes>,
    compile_variables: &Vec<NamedBytes>,
) -> (res: Result<BlockScan, CompileError>)
    ensures
        match spec_scan_blocks(
            ScanEnv {
                contract_names: string_names(contract_names@),
                constants: table_view(constants@),
                compile_variables: table_view(compile_variables@),
            },
            r_blocks@,
        ) {
            Ok(st) => res matches Ok(scan) && scan@ == st,
            Err(e) => res matches Err(err) && err == e,
        },
        res matches Ok(scan) ==> scan.block_names@.len() == r_blocks@.len()
            && scan.block_attributes@.len() == r_blocks@.len() && scan.pinned_below(
            r_blocks@.len(),
        ),
{
    let ghost env = ScanEnv {
        contract_names: string_names(contract_names@),
        constants: table_view(constants@),
        compile_variables: table_view(compile_variables@),
    };
    let mut scan = BlockScan {
        block_attributes: Vec::new(),
        main_index: None,
        last_index: None,
        keeps: Vec::new(),
        block_names: Vec::new(),
    };
    let ghost start = scan@;
    assert(start =~= ScanState {
        block_attributes: Seq::empty(),
        main_index: None,
        last_index: None,
        keeps: Seq::empty(),
        block_names: Seq::empty(),
    });
    let mut block_index: usize = 0;
    while block_index < r_blocks.len()
        invariant
            block_index <= r_blocks@.len(),
            env == (ScanEnv {
                contract_names: string_names(contract_names@),
                constants: table_view(constants@),
                compile_variables: table_view(compile_variables@),
            }),
            scan.block_names@.len() == block_index,
            scan.block_attributes@.len() == block_index,
            scan.pinned_below(block_index as nat),
            spec_scan_blocks(env, r_blocks@) == scan_from(
                env,
                scan@,
                r_blocks@,
                block_index as int,
            ),
        decreases r_blocks@.len() - block_index,
    {
        let r_block_with_attr = &r_blocks[block_index];
        let r_block = &r_block_with_attr.inner.inner.inner;
        let ghost before = scan@;
        let mut keeps: Vec<usize> = Vec::new();
        core::mem::swap(&mut keeps, &mut scan.keeps);
        let mut pins = Pins {
            attributes: Vec::new(),
            main_index: scan.main_index,
            last_index: scan.last_index,
            keeps,
        };
        match read_pins(
            &mut pins,
            &r_block_with_attr.inner.attributes,
            compile_variables,
            r_block.abstr,
            block_index,
        ) {
            Ok(()) => {},
            Err(e) => {
                return Err(e);
            },
        }
        let block_name = r_block.name_str();
        if find_name(contract_names, block_name).is_some() || find_named(
            constants,
            block_name,
        ).is_some() || find_name(&scan.block_names, block_name).is_some() {
            return Err(new_error_from_located(&r_block.name, ErrorKind::NameAlreadyUsed));
        }
        let is_main = *block_name == *"main";
        if is_main && pins.main_index.is_some() {
            return Err(new_error_from_located(&r_block.name, ErrorKind::MultiplePins));
        }
        let name = block_name.to_owned();
        proof {
            assert(attribute_lists(scan.block_attributes@.push(pins.attributes))
                =~= attribute_lists(scan.block_attributes@).push(pins.attributes@));
            assert(string_names(scan.block_names@.push(name)) =~= string_names(
                scan.block_names@,
            ).push(name@));
        }
        scan.block_attributes.push(pins.attributes);
        scan.main_index = if is_main {
            Some(block_index)
        } else {
            pins.main_index
        };
        scan.last_index = pins.last_index;
        scan.keeps = pins.keeps;
        scan.block_names.push(name);
        assert(scan_block(env, before, r_blocks@[block_index as int], block_index) == Ok::<
            ScanState,
            CompileError,
        >(scan@));
        block_index += 1;
    }
    Ok(scan)
}

} // verus!
