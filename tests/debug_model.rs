use tape_device::assembler::assemble;
use tape_device::constants::PRTS_STR;
use tape_device::debug_builder::build_debug_model;
use tape_device::debug_model::{DebugData, DebugLabel, DebugModel, DebugOp, DebugString, DebugUsage};

#[test]
fn debug_entries_start_without_usages() {
    let s = DebugString::new(4, String::from("k"), String::from("hi"), String::from("k=hi"), 2);
    assert_eq!(s.addr, 4);
    assert!(s.usage.is_empty());
    let d = DebugData::new(1, String::from("d"), vec![vec![1, 2]], String::from("d 1 2"), 3);
    assert_eq!(d.content, vec![vec![1, 2]]);
    let l = DebugLabel::new(9, String::from("l"), String::from("l:"), 5);
    assert_eq!(l.byte, 9);
    let u = DebugUsage::new(7, 1, 6);
    assert_eq!(u, DebugUsage { op_addr: 7, offset: 1, line: 6 });
    let o = DebugOp::new(0, String::from("INC D0"), 6, String::from("inc d0"), vec![5, 1]);
    let m = DebugModel::new(vec![o], vec![s], vec![d], vec![l]);
    assert_eq!(m.ops.len(), 1);
    assert_eq!(DebugModel::default().ops.len(), 0);
}

#[test]
fn debug_model_of_a_program() {
    let src: Vec<String> = [
        "Demo", "1.0", "greet=hi", ".data", "dk1 1 2 3", ".ops", "start:", "prts greet", "ld a0 dk1 2 d3", "jmp start", "end:",
    ]
    .iter()
    .map(|s| String::from(*s))
    .collect();
    let model = assemble(&src, false).unwrap();
    let dm = build_debug_model(&model).unwrap();
    assert_eq!(dm.ops.len(), 3);
    assert_eq!(dm.ops[0].byte_addr, 0);
    assert_eq!(dm.ops[0].bytes, vec![PRTS_STR, 0, 0]);
    assert_eq!(dm.ops[1].byte_addr, 3);
    assert_eq!(dm.ops[1].line_num, 9);
    assert_eq!(dm.ops[2].byte_addr, 9);
    assert_eq!(dm.ops[2].processed_line, "jmp start");
    assert_eq!(dm.strings.len(), 1);
    assert_eq!(dm.strings[0].addr, 0);
    assert_eq!(dm.strings[0].usage, vec![DebugUsage::new(0, 1, 8)]);
    assert_eq!(dm.data[0].content, vec![vec![1, 2, 3]]);
    assert_eq!(dm.data[0].usage, vec![DebugUsage::new(3, 2, 9)]);
    assert_eq!(dm.labels.len(), 2);
    assert_eq!(dm.labels[0].name, "end");
    assert_eq!(dm.labels[0].byte, 12);
    assert!(dm.labels[0].usage.is_empty());
    assert_eq!(dm.labels[1].name, "start");
    assert_eq!(dm.labels[1].byte, 0);
    assert_eq!(dm.labels[1].usage, vec![DebugUsage::new(9, 1, 10)]);
}
