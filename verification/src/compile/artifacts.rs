use vstd::prelude::*;
use crate::pre_processing::names::{first_index_from, lemma_first_index_from};

verus! {

/// Where a block lies in the code of its contract.
#[derive(Debug, Default, Clone, Copy, PartialEq, Eq, Structural)]
pub struct BlockArtifacts {
    /// The place of its first byte.
    pub pc: usize,
    /// The number of its bytes.
    pub size: usize,
}

/// A block by its name, and where it lies.
#[derive(Debug, Clone)]
pub struct NamedBlock {
    pub name: String,
    pub artifacts: BlockArtifacts,
}

/// What was made of a contract: its code, and where its blocks lie in it. No two
/// entries of `blocks` have the same name, as long as `set_pc` alone adds them.
#[derive(Debug, Clone)]
pub struct ContractArtifacts {
    pub blocks: Vec<NamedBlock>,
    pub bytecode: Vec<u8>,
}

/// A contract by its name, and what was made of it.
#[derive(Debug, Clone)]
pub struct NamedContract {
    pub name: String,
    pub artifacts: ContractArtifacts,
}

/// What was made of a file: the contracts that the main contract needs, and the name of
/// the main contract.
#[derive(Debug, Clone)]
pub struct Artifacts {
    pub main: String,
    pub contracts: Vec<NamedContract>,
}

/// A block by its name, and where it lies, as values of the mathematics.
#[verifier::ext_equal]
pub struct NamedBlockView {
    pub name: Seq<char>,
    pub artifacts: BlockArtifacts,
}

/// What was made of a contract, as values of the mathematics.
#[verifier::ext_equal]
pub struct ContractArtifactsView {
    pub blocks: Seq<NamedBlockView>,
    pub bytecode: Seq<u8>,
}

/// A contract by its name, and what was made of it, as values of the mathematics.
#[verifier::ext_equal]
pub struct NamedContractView {
    pub name: Seq<char>,
    pub artifacts: ContractArtifactsView,
}

/// What was made of a file, as values of the mathematics.
#[verifier::ext_equal]
pub struct ArtifactsView {
    pub main: Seq<char>,
    pub contracts: Seq<NamedContractView>,
}

impl View for NamedBlock {
    type V = NamedBlockView;

    open spec fn view(&self) -> NamedBlockView {
        NamedBlockView { name: self.name@, artifacts: self.artifacts }
    }
}

/// The entries of the blocks as values of the mathematics.
pub open spec fn named_blocks_view(blocks: Seq<NamedBlock>) -> Seq<NamedBlockView> {
    blocks.map_values(|block: NamedBlock| block@)
}

impl View for ContractArtifacts {
    type V = ContractArtifactsView;

    open spec fn view(&self) -> ContractArtifactsView {
        ContractArtifactsView { blocks: named_blocks_view(self.blocks@), bytecode: self.bytecode@ }
    }
}

impl View for NamedContract {
    type V = NamedContractView;

    open spec fn view(&self) -> NamedContractView {
        NamedContractView { name: self.name@, artifacts: self.artifacts@ }
    }
}

/// The entries of the contracts as values of the mathematics.
pub open spec fn named_contracts_view(contracts: Seq<NamedContract>) -> Seq<NamedContractView> {
    contracts.map_values(|contract: NamedContract| contract@)
}

impl View for Artifacts {
    type V = ArtifactsView;

    open spec fn view(&self) -> ArtifactsView {
        ArtifactsView { main: self.main@, contracts: named_contracts_view(self.contracts@) }
    }
}

/// The names of the entries of the blocks.
pub open spec fn block_entry_names(blocks: Seq<NamedBlockView>) -> Seq<Seq<char>> {
    blocks.map_values(|block: NamedBlockView| block.name)
}

/// The names of the entries of the contracts.
pub open spec fn contract_entry_names(contracts: Seq<NamedContractView>) -> Seq<Seq<char>> {
    contracts.map_values(|contract: NamedContractView| contract.name)
}

/// The index of the entry of `name` among `names`, which is the length of `names` where
/// there is none.
pub open spec fn entry_index(names: Seq<Seq<char>>, name: Seq<char>) -> int {
    first_index_from(names, name, 0)
}

/// `entries` with `entry` in place of the entry at `index`, or at the end where `index`
/// is the length of `entries`.
pub open spec fn with_entry<T>(entries: Seq<T>, index: int, entry: T) -> Seq<T> {
    if 0 <= index < entries.len() {
        entries.update(index, entry)
    } else {
        entries.push(entry)
    }
}

/// The entries after the block `name` was noted to start at `pc`: its entry, with size
/// zero, takes the place of the one it had, or goes to the end.
pub open spec fn with_pc(blocks: Seq<NamedBlockView>, name: Seq<char>, pc: usize) -> Seq<
    NamedBlockView,
> {
    with_entry(
        blocks,
        entry_index(block_entry_names(blocks), name),
        NamedBlockView { name, artifacts: BlockArtifacts { pc, size: 0 } },
    )
}

/// The entries after the block `name` was noted to end at `end`.
pub open spec fn with_size(blocks: Seq<NamedBlockView>, name: Seq<char>, end: usize) -> Seq<
    NamedBlockView,
> {
    let i = entry_index(block_entry_names(blocks), name);
    if 0 <= i < blocks.len() {
        blocks.update(
            i,
            NamedBlockView {
                name: blocks[i].name,
                artifacts: BlockArtifacts {
                    pc: blocks[i].artifacts.pc,
                    size: (end - blocks[i].artifacts.pc) as usize,
                },
            },
        )
    } else {
        blocks
    }
}

/// The entries after what was made of the contract `name` was noted: its entry takes the
/// place of the one it had, or goes to the end.
pub open spec fn with_contract(
    contracts: Seq<NamedContractView>,
    name: Seq<char>,
    artifacts: ContractArtifactsView,
) -> Seq<NamedContractView> {
    with_entry(
        contracts,
        entry_index(contract_entry_names(contracts), name),
        NamedContractView { name, artifacts },
    )
}

/// The entries after the block `name` was noted to go from `pc` to `end`.
pub open spec fn with_block(blocks: Seq<NamedBlockView>, name: Seq<char>, pc: usize, end: usize)
    -> Seq<NamedBlockView> {
    with_entry(
        blocks,
        entry_index(block_entry_names(blocks), name),
        NamedBlockView { name, artifacts: BlockArtifacts { pc, size: (end - pc) as usize } },
    )
}

/// Noting where a block starts and then where it ends is noting where it goes from and
/// to.
pub proof fn lemma_pc_then_size(blocks: Seq<NamedBlockView>, name: Seq<char>, pc: usize, end: usize)
    ensures
        with_size(with_pc(blocks, name, pc), name, end) == with_block(blocks, name, pc, end),
        0 <= entry_index(block_entry_names(with_pc(blocks, name, pc)), name) < with_pc(
            blocks,
            name,
            pc,
        ).len(),
        with_pc(blocks, name, pc)[entry_index(
            block_entry_names(with_pc(blocks, name, pc)),
            name,
        )].artifacts.pc == pc,
{
    let names = block_entry_names(blocks);
    let after = with_pc(blocks, name, pc);
    let after_names = block_entry_names(after);
    lemma_first_index_from(names, name, 0);
    lemma_first_index_from(after_names, name, 0);
    let i = first_index_from(names, name, 0);
    let j = first_index_from(after_names, name, 0);
    assert(after_names[i] == name);
    assert(j <= i);
    if j < i {
        assert(names[j] == after_names[j]);
    }
    assert(with_size(after, name, end) =~= with_block(blocks, name, pc, end));
}

impl ContractArtifacts {
    /// Artifacts without code and without blocks.
    pub fn new() -> (res: Self)
        ensures
            res@ == (ContractArtifactsView { blocks: Seq::empty(), bytecode: Seq::empty() }),
    {
        let res = ContractArtifacts { blocks: Vec::new(), bytecode: Vec::new() };
        assert(named_blocks_view(res.blocks@) =~= Seq::<NamedBlockView>::empty());
        res
    }

    fn find_block(&self, block_name: &str) -> (res: Option<usize>)
        ensures
            match res {
                Some(i) => i < self.blocks@.len() && i == entry_index(
                    block_entry_names(self@.blocks),
                    block_name@,
                ),
                None => entry_index(block_entry_names(self@.blocks), block_name@)
                    == self.blocks@.len(),
            },
    {
        let mut i: usize = 0;
        while i < self.blocks.len()
            invariant
                i <= self.blocks@.len(),
                first_index_from(block_entry_names(self@.blocks), block_name@, 0)
                    == first_index_from(block_entry_names(self@.blocks), block_name@, i as int),
            decreases self.blocks@.len() - i,
        {
            if *self.blocks[i].name.as_str() == *block_name {
                return Some(i);
            }
            i += 1;
        }
        None
    }

    /// Notes that the block `block_name` starts at `pc`.
    pub fn set_pc(&mut self, block_name: &str, pc: usize)
        ensures
            final(self)@.bytecode == old(self)@.bytecode,
            final(self)@.blocks == with_pc(old(self)@.blocks, block_name@, pc),
    {
        let entry = NamedBlock { name: block_name.to_owned(), artifacts: BlockArtifacts { pc, size: 0 } };
        match self.find_block(block_name) {
            Some(i) => {
                assert(named_blocks_view(self.blocks@.update(i as int, entry)) =~= named_blocks_view(
                    self.blocks@,
                ).update(i as int, entry@));
                self.blocks[i] = entry;
            },
            None => {
                assert(named_blocks_view(self.blocks@.push(entry)) =~= named_blocks_view(
                    self.blocks@,
                ).push(entry@));
                self.blocks.push(entry);
            },
        }
    }

    /// Whether the block `block_name` was noted to start at or before `end`.
    pub open spec fn starts_before(&self, block_name: Seq<char>, end: usize) -> bool {
        let i = entry_index(block_entry_names(self@.blocks), block_name);
        0 <= i < self@.blocks.len() && self@.blocks[i].artifacts.pc <= end
    }

    /// Notes that the block `block_name` ends at `end`: its size is what lies between
    /// its start and `end`. The block must have been noted to start, at or before `end`.
    pub fn set_size(&mut self, block_name: &str, end: usize)
        requires
            old(self).starts_before(block_name@, end),
        ensures
            final(self)@.bytecode == old(self)@.bytecode,
            final(self)@.blocks == with_size(old(self)@.blocks, block_name@, end),
    {
        match self.find_block(block_name) {
            Some(i) => {
                let pc = self.blocks[i].artifacts.pc;
                let entry = NamedBlock {
                    name: self.blocks[i].name.clone(),
                    artifacts: BlockArtifacts { pc, size: end - pc },
                };
                assert(named_blocks_view(self.blocks@.update(i as int, entry)) =~= named_blocks_view(
                    self.blocks@,
                ).update(i as int, entry@));
                self.blocks[i] = entry;
            },
            None => {},
        }
    }
}

impl Artifacts {
    fn find_contract(&self, name: &str) -> (res: Option<usize>)
        ensures
            match res {
                Some(i) => i < self.contracts@.len() && i == entry_index(
                    contract_entry_names(self@.contracts),
                    name@,
                ),
                None => entry_index(contract_entry_names(self@.contracts), name@)
                    == self.contracts@.len(),
            },
    {
        let mut i: usize = 0;
        while i < self.contracts.len()
            invariant
                i <= self.contracts@.len(),
                first_index_from(contract_entry_names(self@.contracts), name@, 0)
                    == first_index_from(contract_entry_names(self@.contracts), name@, i as int),
            decreases self.contracts@.len() - i,
        {
            if *self.contracts[i].name.as_str() == *name {
                return Some(i);
            }
            i += 1;
        }
        None
    }

    /// Notes what was made of the contract `name`.
    pub fn set_contract(&mut self, name: &str, artifacts: ContractArtifacts)
        ensures
            final(self)@.main == old(self)@.main,
            final(self)@.contracts == with_contract(old(self)@.contracts, name@, artifacts@),
    {
        let entry = NamedContract { name: name.to_owned(), artifacts };
        match self.find_contract(name) {
            Some(i) => {
                assert(named_contracts_view(self.contracts@.update(i as int, entry))
                    =~= named_contracts_view(self.contracts@).update(i as int, entry@));
                self.contracts[i] = entry;
            },
            None => {
                assert(named_contracts_view(self.contracts@.push(entry)) =~= named_contracts_view(
                    self.contracts@,
                ).push(entry@));
                self.contracts.push(entry);
            },
        }
    }

    /// Whether the main contract is among the contracts.
    pub open spec fn has_main(&self) -> bool {
        0 <= entry_index(contract_entry_names(self@.contracts), self.main@)
            < self@.contracts.len()
    }

    /// The first entry of the main contract.
    pub open spec fn spec_main_artifacts(&self) -> ContractArtifactsView {
        self@.contracts[entry_index(contract_entry_names(self@.contracts), self.main@)].artifacts
    }

    /// What was made of the main contract, which must be among the contracts.
    pub fn main_artifacts(&self) -> (res: &ContractArtifacts)
        requires
            self.has_main(),
        ensures
            res@ == self.spec_main_artifacts(),
    {
        let index = self.find_contract(self.main.as_str()).unwrap();
        &self.contracts[index].artifacts
    }

    /// The code of the main contract, which must be among the contracts.
    pub fn main_bytecode(&self) -> (res: &Vec<u8>)
        requires
            self.has_main(),
        ensures
            res@ == self.spec_main_artifacts().bytecode,
    {
        &self.main_artifacts().bytecode
    }
}

} // verus!
