use vstd::prelude::*;
use crate::ast::variable::RCompileVariable;
use crate::parser::error::{new_error_from_located, CompileError, ErrorKind};

verus! {

/// A name and the bytes it stands for: a constant of a contract, or a compile variable.
#[derive(Debug, Clone)]
pub struct NamedBytes {
    pub name: String,
    pub value: Vec<u8>,
}

/// The index of the first of `names` at or after `from` that equals `name`, or the
/// length of `names` where there is none.
pub open spec fn first_index_from(names: Seq<Seq<char>>, name: Seq<char>, from: int) -> int
    decreases names.len() - from,
{
    if from >= names.len() || names[from] == name {
        from
    } else {
        first_index_from(names, name, from + 1)
    }
}

/// The index of the first of `names` that equals `name`.
pub open spec fn index_of_name(names: Seq<Seq<char>>, name: Seq<char>) -> Option<usize> {
    let i = first_index_from(names, name, 0);
    if i < names.len() {
        Some(i as usize)
    } else {
        None
    }
}

/// The names of a list of strings.
pub open spec fn string_names(names: Seq<String>) -> Seq<Seq<char>> {
    names.map_values(|s: String| s@)
}

/// A name and the bytes it stands for, as values of the mathematics.
pub struct NamedBytesView {
    pub name: Seq<char>,
    pub value: Seq<u8>,
}

impl View for NamedBytes {
    type V = NamedBytesView;

    open spec fn view(&self) -> NamedBytesView {
        NamedBytesView { name: self.name@, value: self.value@ }
    }
}

/// The entries of a table as values of the mathematics.
pub open spec fn table_view(table: Seq<NamedBytes>) -> Seq<NamedBytesView> {
    table.map_values(|e: NamedBytes| e@)
}

/// The names of a table.
pub open spec fn table_names(table: Seq<NamedBytesView>) -> Seq<Seq<char>> {
    table.map_values(|e: NamedBytesView| e.name)
}

/// The bytes that `table` gives to `name`: those of the first entry of that name.
pub open spec fn table_value(table: Seq<NamedBytesView>, name: Seq<char>) -> Option<Seq<u8>> {
    match index_of_name(table_names(table), name) {
        Some(i) => Some(table[i as int].value),
        None => None,
    }
}

/// What `index_of_name` finds is the first entry of that name, and it finds nothing
/// only where no entry has it.
pub proof fn lemma_index_of_name(names: Seq<Seq<char>>, name: Seq<char>)
    requires
        names.len() <= usize::MAX,
    ensures
        index_of_name(names, name) matches Some(i) ==> i < names.len() && names[i as int] == name
            && forall|k: int| 0 <= k < i ==> names[k] != name,
        index_of_name(names, name).is_none() ==> forall|k: int|
            0 <= k < names.len() ==> names[k] != name,
{
    lemma_first_index_from(names, name, 0);
}

/// The first index at or after `from` holds the name, where it lies within the names,
/// and no index between holds it.
pub proof fn lemma_first_index_from(names: Seq<Seq<char>>, name: Seq<char>, from: int)
    requires
        0 <= from <= names.len(),
    ensures
        from <= first_index_from(names, name, from) <= names.len(),
        first_index_from(names, name, from) < names.len() ==> names[first_index_from(
            names,
            name,
            from,
        )] == name,
        forall|k: int| from <= k < first_index_from(names, name, from) ==> names[k] != name,
    decreases names.len() - from,
{
    if from < names.len() && names[from] != name {
        lemma_first_index_from(names, name, from + 1);
    }
}

/// Finds the first of `names` that equals `name`.
pub fn find_name(names: &Vec<String>, name: &str) -> (res: Option<usize>)
    ensures
        res == index_of_name(string_names(names@), name@),
        res matches Some(i) ==> i < names@.len(),
{
    let mut i: usize = 0;
    while i < names.len()
        invariant
            i <= names@.len(),
            first_index_from(string_names(names@), name@, 0) == first_index_from(
                string_names(names@),
                name@,
                i as int,
            ),
        decreases names@.len() - i,
    {
        if *names[i].as_str() == *name {
            return Some(i);
        }
        i += 1;
    }
    None
}

/// Finds the first entry of `table` whose name is `name`.
pub fn find_named(table: &Vec<NamedBytes>, name: &str) -> (res: Option<usize>)
    ensures
        res == index_of_name(table_names(table_view(table@)), name@),
        res matches Some(i) ==> i < table@.len(),
{
    let mut i: usize = 0;
    while i < table.len()
        invariant
            i <= table@.len(),
            first_index_from(table_names(table_view(table@)), name@, 0) == first_index_from(
                table_names(table_view(table@)),
                name@,
                i as int,
            ),
        decreases table@.len() - i,
    {
        if *table[i].name.as_str() == *name {
            return Some(i);
        }
        i += 1;
    }
    None
}

/// The value of a compile variable, or the error for one that the settings do not give.
pub open spec fn spec_compile_variable_value(
    compile_variable: RCompileVariable,
    compile_variables: Seq<NamedBytesView>,
) -> Result<Seq<u8>, CompileError> {
    match table_value(compile_variables, compile_variable.0.inner.0@) {
        Some(value) => Ok(value),
        None => Err(
            CompileError {
                kind: ErrorKind::UnknownName,
                location: Some(compile_variable.0.location),
            },
        ),
    }
}

/// Looks up the value that the settings give to a compile variable.
pub fn get_compile_variable_value<'a>(
    compile_variable: &RCompileVariable,
    compile_variables: &'a Vec<NamedBytes>,
) -> (res: Result<&'a Vec<u8>, CompileError>)
    ensures
        res matches Ok(value) ==> spec_compile_variable_value(
            *compile_variable,
            table_view(compile_variables@),
        ) == Ok::<Seq<u8>, CompileError>(value@),
        res matches Err(e) ==> spec_compile_variable_value(
            *compile_variable,
            table_view(compile_variables@),
        ) == Err::<Seq<u8>, CompileError>(e),
{
    match find_named(compile_variables, compile_variable.as_str()) {
        Some(i) => Ok(&compile_variables[i].value),
        None => Err(new_error_from_located(&compile_variable.0, ErrorKind::UnknownName)),
    }
}

} // verus!
