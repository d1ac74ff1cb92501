use tape_device::assembler::{assemble, parse_data_line};
use tape_device::constants::{LD_AREG_DATA_VAL_REG, PRG_VERSION, PRTS_STR, REG_A0, REG_D3, TAPE_HEADER_1, TAPE_HEADER_2};
use tape_device::error::ErrorKind;
use tape_device::generator::generate_byte_code;

fn lines(v: &[&str]) -> Vec<String> {
    v.iter().map(|s| String::from(*s)).collect()
}

#[test]
fn whole_source_to_tape() {
    let src = lines(&[
        "# a demo program",
        "Demo",
        "1.0",
        ".strings",
        "greet=hi   # trailing comment",
        ".data",
        "dk1 3 2 x0A 'a'",
        ".ops",
        "start:",
        "prts greet",
        "ld a0 dk1 2 d3",
        "jmp start",
    ]);
    let model = assemble(&src, false).unwrap();
    assert_eq!(model.name, "Demo");
    assert_eq!(model.version, "1.0");
    assert_eq!(model.strings.get("greet").unwrap().content, "hi");
    assert_eq!(model.strings.get("greet").unwrap().definition.line_num, 5);
    assert_eq!(model.data.get("dk1").unwrap().content, vec![3, 2, 10, 97]);
    assert_eq!(model.ops.len(), 3);
    assert_eq!(model.ops[0].line_num, 10);
    assert_eq!(model.labels.get("start").unwrap().definition.as_ref().unwrap().line_num, 9);
    let tape = generate_byte_code(model).unwrap();
    let mut expected = vec![TAPE_HEADER_1, TAPE_HEADER_2, PRG_VERSION, 4, b'D', b'e', b'm', b'o', 3, b'1', b'.', b'0', 0, 12];
    expected.extend_from_slice(&[PRTS_STR, 0, 0, LD_AREG_DATA_VAL_REG, REG_A0, 0, 0, 2, REG_D3]);
    expected.extend_from_slice(&[tape_device::constants::JMP_ADDR, 0, 0]);
    expected.extend_from_slice(&[0, 3, 2, b'h', b'i', 3, 2, 10, 97]);
    assert_eq!(tape, expected);
}

#[test]
fn whitespace_kept_in_string_content() {
    let src = lines(&["p", "v", "also=  both  ", ".ops"]);
    let model = assemble(&src, true).unwrap();
    assert_eq!(model.strings.get("also").unwrap().content, "  both  ");
    let model = assemble(&src, false).unwrap();
    assert_eq!(model.strings.get("also").unwrap().content, "both");
}

#[test]
fn header_only_source() {
    let model = assemble(&lines(&["Test Prog", "1.0", ".ops"]), false).unwrap();
    let tape = generate_byte_code(model).unwrap();
    assert_eq!(
        tape,
        vec![TAPE_HEADER_1, TAPE_HEADER_2, PRG_VERSION, 9, 84, 101, 115, 116, 32, 80, 114, 111, 103, 3, 49, 46, 48, 0, 0, 0, 0]
    );
}

#[test]
fn source_errors() {
    assert_eq!(assemble(&lines(&["p", "v", "a=1"]), false).unwrap_err().kind, ErrorKind::MissingOps);
    assert_eq!(assemble(&lines(&["p", "v", "a=1", "a=2", ".ops"]), false).unwrap_err().kind, ErrorKind::DuplicateKey);
    assert_eq!(assemble(&lines(&["p", "v", ".data", "d", ".ops"]), false).unwrap_err().kind, ErrorKind::MalformedData);
    assert_eq!(assemble(&lines(&["p", "v", ".data", "d 1", "d 2", ".ops"]), false).unwrap_err().kind, ErrorKind::DuplicateKey);
    assert_eq!(assemble(&lines(&["p", "v", ".ops", "nope"]), false).unwrap_err().kind, ErrorKind::UnknownInstruction);
    assert_eq!(assemble(&lines(&["p", "v", "oops", ".ops"]), false).unwrap_err().kind, ErrorKind::MalformedString);
}

#[test]
fn data_lines() {
    assert_eq!(parse_data_line("k 1 xFF b00000011 'z'").unwrap(), (String::from("k"), vec![1, 255, 3, 122]));
    assert_eq!(parse_data_line("k").unwrap_err(), ErrorKind::MalformedData);
    assert_eq!(parse_data_line("k-1 4").unwrap_err(), ErrorKind::InvalidKey);
    assert_eq!(parse_data_line("k 256").unwrap_err(), ErrorKind::InvalidNumber);
}
