use tape_device::constants::{HALT, INC_REG, JMP_ADDR, PRTS_STR, REG_D0};
use tape_device::error::ErrorKind;
use tape_device::generator::generate_ops_bytes;
use tape_device::ops_section::compile_ops;
use tape_device::params::Param;

fn lines(v: &[&str]) -> Vec<String> {
    v.iter().map(|s| String::from(*s)).collect()
}

#[test]
fn ops_and_labels_in_source_order() {
    let src = lines(&["start:", "  inc d0  # bump", "", "# only a comment", "jmp start", "prts greeting", "done:", "halt"]);
    let (ops, labels) = compile_ops(&src, 0).unwrap();
    assert_eq!(ops.len(), 4);
    assert_eq!(ops[0].opcode, INC_REG);
    assert_eq!(ops[0].params, vec![Param::DataReg(REG_D0)]);
    assert_eq!(ops[0].line_num, 2);
    assert_eq!(ops[0].processed_line, "inc d0");
    assert_eq!(ops[1].opcode, JMP_ADDR);
    assert_eq!(ops[2].opcode, PRTS_STR);
    assert_eq!(ops[3].opcode, HALT);
    assert_eq!(labels.len(), 2);
    assert_eq!(labels.get("start").unwrap().definition.as_ref().unwrap().line_num, 1);
    assert_eq!(labels.get("done").unwrap().definition.as_ref().unwrap().line_num, 7);
    let out = generate_ops_bytes(&ops, 0, &labels).unwrap();
    assert_eq!(out.label_addresses.get("start"), Some(&0));
    assert_eq!(out.label_addresses.get("done"), Some(&8));
}

#[test]
fn ops_section_errors() {
    assert_eq!(compile_ops(&lines(&["a:", "a:"]), 0).unwrap_err().kind, ErrorKind::DuplicateKey);
    assert_eq!(compile_ops(&lines(&["bad label:"]), 0).unwrap_err().kind, ErrorKind::InvalidKey);
    assert_eq!(compile_ops(&lines(&[":"]), 0).unwrap_err().kind, ErrorKind::InvalidKey);
    assert_eq!(compile_ops(&lines(&["inc d0", "wat"]), 0).unwrap_err().kind, ErrorKind::UnknownInstruction);
    assert_eq!(compile_ops(&lines(&["inc 300"]), 0).unwrap_err().kind, ErrorKind::NoMatchingSignature);
}

#[test]
fn empty_ops_section_compiles_to_nothing() {
    let (ops, labels) = compile_ops(&Vec::new(), 0).unwrap();
    assert!(ops.is_empty());
    assert!(labels.is_empty());
}
