//! The debug model: for every op, string, data blob and label that reaches the
//! tape, its address, where it came from, and the ops that refer to it.
use vstd::prelude::*;

verus! {

#[derive(Debug, PartialEq)]
pub struct DebugModel {
    pub ops: Vec<DebugOp>,
    pub strings: Vec<DebugString>,
    pub data: Vec<DebugData>,
    pub labels: Vec<DebugLabel>,
}

#[derive(Debug, PartialEq)]
pub struct DebugOp {
    pub byte_addr: u16,
    pub original_line: String,
    pub line_num: usize,
    pub processed_line: String,
    pub bytes: Vec<u8>,
}

#[derive(Debug, PartialEq)]
pub struct DebugString {
    pub addr: u16,
    pub key: String,
    pub content: String,
    pub original_line: String,
    pub line_num: usize,
    pub usage: Vec<DebugUsage>,
}

#[derive(Debug, PartialEq)]
pub struct DebugData {
    pub addr: u16,
    pub key: String,
    pub content: Vec<Vec<u8>>,
    pub original_line: String,
    pub line_num: usize,
    pub usage: Vec<DebugUsage>,
}

#[derive(Debug, PartialEq)]
pub struct DebugLabel {
    pub byte: u16,
    pub name: String,
    pub original_line: String,
    pub line_num: usize,
    pub usage: Vec<DebugUsage>,
}

/// One reference to a symbol: the op's address, the operand's offset within
/// the op, and the op's line.
#[derive(Debug, PartialEq)]
pub struct DebugUsage {
    pub op_addr: u16,
    pub offset: u8,
    pub line: usize,
}

impl DebugModel {
    pub fn new(
        ops: Vec<DebugOp>,
        strings: Vec<DebugString>,
        data: Vec<DebugData>,
        labels: Vec<DebugLabel>,
    ) -> (r: Self)
        ensures
            r.ops@ == ops@,
            r.strings@ == strings@,
            r.data@ == data@,
            r.labels@ == labels@,
    {
        DebugModel { ops, strings, data, labels }
    }
}

impl Default for DebugModel {
    fn default() -> (r: Self)
        ensures
            r.ops@.len() == 0,
            r.strings@.len() == 0,
            r.data@.len() == 0,
            r.labels@.len() == 0,
    {
        DebugModel { ops: Vec::new(), strings: Vec::new(), data: Vec::new(), labels: Vec::new() }
    }
}

impl DebugOp {
    pub fn new(byte_addr: u16, original_line: String, line_num: usize, processed_line: String, bytes: Vec<u8>) -> (r: Self)
        ensures
            r.byte_addr == byte_addr,
            r.original_line@ == original_line@,
            r.line_num == line_num,
            r.processed_line@ == processed_line@,
            r.bytes@ == bytes@,
    {
        DebugOp { byte_addr, original_line, line_num, processed_line, bytes }
    }
}

impl DebugString {
    /// A string entry with no usages recorded yet.
    pub fn new(addr: u16, key: String, content: String, original_line: String, line_num: usize) -> (r: Self)
        ensures
            r.addr == addr,
            r.key@ == key@,
            r.content@ == content@,
            r.original_line@ == original_line@,
            r.line_num == line_num,
            r.usage@.len() == 0,
    {
        DebugString { addr, key, content, original_line, line_num, usage: Vec::new() }
    }
}

impl DebugData {
    /// A data entry with no usages recorded yet.
    pub fn new(addr: u16, key: String, content: Vec<Vec<u8>>, original_line: String, line_num: usize) -> (r: Self)
        ensures
            r.addr == addr,
            r.key@ == key@,
            r.content@ == content@,
            r.original_line@ == original_line@,
            r.line_num == line_num,
            r.usage@.len() == 0,
    {
        DebugData { addr, key, content, original_line, line_num, usage: Vec::new() }
    }
}

impl DebugLabel {
    /// A label with no usages recorded yet.
    pub fn new(byte: u16, name: String, original_line: String, line_num: usize) -> (r: Self)
        ensures
            r.byte == byte,
            r.name@ == name@,
            r.original_line@ == original_line@,
            r.line_num == line_num,
            r.usage@.len() == 0,
    {
        DebugLabel { byte, name, original_line, line_num, usage: Vec::new() }
    }
}

impl DebugUsage {
    pub fn new(op_byte: u16, offset: u8, line: usize) -> (r: Self)
        ensures
            r.op_addr == op_byte,
            r.offset == offset,
            r.line == line,
    {
        DebugUsage { op_addr: op_byte, offset, line }
    }
}

} // verus!
