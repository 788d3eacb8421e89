use vstd::prelude::*;
use crate::pre_processing::names::{
    find_named,
    index_of_name,
    table_names,
    table_view,
    NamedBytes,
};

verus! {

/// How the gap after a block that ends inside the data of a push is filled.
#[derive(Debug, Clone)]
pub enum FillingPatern {
    /// With random bytes.
    Random,
    /// With the bytes of the pattern, repeated; with zeros where the pattern is empty.
    Repeat(Vec<u8>),
}

/// How a gap is filled, as a value of the mathematics.
pub enum FillingView {
    Random,
    Repeat(Seq<u8>),
}

impl View for FillingPatern {
    type V = FillingView;

    open spec fn view(&self) -> FillingView {
        match self {
            FillingPatern::Random => FillingView::Random,
            FillingPatern::Repeat(pattern) => FillingView::Repeat(pattern@),
        }
    }
}

impl Default for FillingPatern {
    fn default() -> (res: Self)
        ensures
            res matches FillingPatern::Repeat(pattern) && pattern@ == seq![0u8],
    {
        let mut pattern: Vec<u8> = Vec::new();
        pattern.push(0x00);
        assert(pattern@ =~= seq![0u8]);
        FillingPatern::Repeat(pattern)
    }
}

/// The compiler's settings.
#[derive(Debug, Clone)]
pub struct CompilerSettings {
    /// Whether the machine has the opcode `PUSH0`.
    pub push0: bool,
    pub filling_pattern: FillingPatern,
    /// The values of the compile variables. Where a name occurs twice, the first counts.
    pub variables: Vec<NamedBytes>,
}

impl Default for CompilerSettings {
    fn default() -> (res: Self)
        ensures
            res.push0,
            res.filling_pattern matches FillingPatern::Repeat(pattern) && pattern@ == seq![0u8],
            res.variables@.len() == 0,
    {
        CompilerSettings {
            push0: true,
            filling_pattern: FillingPatern::default(),
            variables: Vec::new(),
        }
    }
}

impl CompilerSettings {
    /// Gives the compile variable `name` the value `value`, in place of the value it had
    /// if it had one.
    pub fn add_variable(&mut self, name: &str, value: Vec<u8>)
        ensures
            final(self).push0 == old(self).push0,
            final(self).filling_pattern == old(self).filling_pattern,
            match index_of_name(table_names(table_view(old(self).variables@)), name@) {
                Some(i) => final(self).variables@.len() == old(self).variables@.len() && (forall|
                    k: int,
                |
                    0 <= k < old(self).variables@.len() && k != i ==> final(self).variables@[k]
                        == old(self).variables@[k]) && final(self).variables@[i as int].name@
                    == name@ && final(self).variables@[i as int].value == value,
                None => final(self).variables@.len() == old(self).variables@.len() + 1
                    && final(self).variables@.subrange(0, old(self).variables@.len() as int)
                    == old(self).variables@ && final(self).variables@.last().name@ == name@
                    && final(self).variables@.last().value == value,
            },
    {
        let entry = NamedBytes { name: name.to_owned(), value };
        match find_named(&self.variables, name) {
            Some(i) => {
                self.variables[i] = entry;
            },
            None => {
                self.variables.push(entry);
                assert(self.variables@.subrange(0, old(self).variables@.len() as int) =~= old(
                    self,
                ).variables@);
            },
        }
    }
}

} // verus!
