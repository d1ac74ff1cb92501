//! The in-memory program that the front end builds and the code generator
//! lowers: its ops in source order and its three symbol tables.
use crate::params::Param;
use crate::table::SymbolTable;
use vstd::prelude::*;

verus! {

/// Where a symbol or op came from in the source.
#[derive(Debug)]
pub struct Definition {
    pub original_line: String,
    pub line_num: usize,
}

/// One assembled instruction.
#[derive(Debug)]
pub struct OpModel {
    pub opcode: u8,
    pub params: Vec<Param>,
    pub original_line: String,
    pub processed_line: String,
    pub line_num: usize,
}

/// One entry of the strings section.
#[derive(Debug)]
pub struct StringModel {
    pub key: String,
    pub content: String,
    pub definition: Definition,
}

/// One entry of the data section: a raw blob.
#[derive(Debug)]
pub struct DataModel {
    pub key: String,
    pub content: Vec<u8>,
    pub definition: Definition,
}

/// A label, with the line that defines it once one has been seen.
#[derive(Debug)]
pub struct LabelModel {
    pub key: String,
    pub definition: Option<Definition>,
}

#[derive(Debug)]
pub struct ProgramModel {
    pub name: String,
    pub version: String,
    pub ops: Vec<OpModel>,
    pub strings: SymbolTable<StringModel>,
    pub data: SymbolTable<DataModel>,
    pub labels: SymbolTable<LabelModel>,
}

impl OpModel {
    pub fn new(
        opcode: u8,
        params: Vec<Param>,
        original_line: String,
        processed_line: String,
        line_num: usize,
    ) -> (r: OpModel)
        ensures
            r.opcode == opcode,
            r.params@ == params@,
            r.original_line@ == original_line@,
            r.processed_line@ == processed_line@,
            r.line_num == line_num,
    {
        OpModel { opcode, params, original_line, processed_line, line_num }
    }
}

impl StringModel {
    pub fn new(key: String, content: String, original_line: String, line_num: usize) -> (r: StringModel)
        ensures
            r.key@ == key@,
            r.content@ == content@,
            r.definition.original_line@ == original_line@,
            r.definition.line_num == line_num,
    {
        StringModel { key, content, definition: Definition { original_line, line_num } }
    }
}

impl DataModel {
    pub fn new(key: String, content: Vec<u8>, original_line: String, line_num: usize) -> (r: DataModel)
        ensures
            r.key@ == key@,
            r.content@ == content@,
            r.definition.original_line@ == original_line@,
            r.definition.line_num == line_num,
    {
        DataModel { key, content, definition: Definition { original_line, line_num } }
    }
}

impl LabelModel {
    /// A label defined on `line_num`.
    pub fn new(key: String, original_line: String, line_num: usize) -> (r: LabelModel)
        ensures
            r.key@ == key@,
            r.definition matches Some(d) && d.original_line@ == original_line@ && d.line_num == line_num,
    {
        LabelModel { key, definition: Some(Definition { original_line, line_num }) }
    }

    /// A label referred to but not defined yet.
    pub fn undefined(key: String) -> (r: LabelModel)
        ensures
            r.key@ == key@,
            r.definition is None,
    {
        LabelModel { key, definition: None }
    }
}

impl ProgramModel {
    /// A program with no ops and empty symbol tables.
    pub fn new(name: String, version: String) -> (r: ProgramModel)
        ensures
            r.name@ == name@,
            r.version@ == version@,
            r.ops@.len() == 0,
            r.strings.entries@.len() == 0,
            r.data.entries@.len() == 0,
            r.labels.entries@.len() == 0,
            r.wf(),
    {
        ProgramModel {
            name,
            version,
            ops: Vec::new(),
            strings: SymbolTable::new(),
            data: SymbolTable::new(),
            labels: SymbolTable::new(),
        }
    }

    /// The three symbol tables are well formed.
    pub open spec fn wf(&self) -> bool {
        self.strings.wf() && self.data.wf() && self.labels.wf()
    }
}

} // verus!
