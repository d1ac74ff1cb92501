use tape_device::constants::{
    CALL_AREG, CPY_AREG_ADDR, CPY_REG_VAL, HALT, INC_REG, JMP_ADDR, LD_AREG_DATA_REG_VAL, LD_AREG_DATA_VAL_REG, PRTC_VAL,
    PRTS_STR, PUSH_REG, REG_A1, REG_ACC, REG_D3,
};
use tape_device::generator::generate_ops_bytes;
use tape_device::program_model::OpModel;
use tape_device::table::SymbolTable;
use tape_device::error::ErrorKind;
use tape_device::language::{get_addr_byte_offset, parse_line, tokenize};
use tape_device::params::Param;

#[test]
fn basic_test() {
    assert_eq!(parse_line("cpy acc 5").unwrap(), (CPY_REG_VAL, vec![Param::DataReg(REG_ACC), Param::Number(5)]));
    assert_eq!(
        parse_line("ld a1 test d3 xF1").unwrap(),
        (
            LD_AREG_DATA_REG_VAL,
            vec![Param::AddrReg(REG_A1), Param::DataKey(String::from("test")), Param::DataReg(REG_D3), Param::Number(241)]
        )
    );
    assert_eq!(parse_line("halt").unwrap(), (HALT, vec![]));
}

#[test]
fn tokens_keep_char_literals_whole() {
    assert_eq!(tokenize("prtc @xAF 10 label 'a' ' '"), vec!["prtc", "@xAF", "10", "label", "'a'", "' '"]);
    assert_eq!(tokenize("  "), Vec::<String>::new());
    assert_eq!(tokenize("'a'b"), vec!["'a'", "b"]);
}

#[test]
fn dispatch_picks_first_matching_signature() {
    assert_eq!(parse_line("PRTC ' '").unwrap(), (PRTC_VAL, vec![Param::Number(32)]));
    assert_eq!(parse_line("call a1").unwrap(), (CALL_AREG, vec![Param::AddrReg(REG_A1)]));
    assert_eq!(parse_line("jmp start").unwrap(), (JMP_ADDR, vec![Param::Label(String::from("start"))]));
    assert_eq!(parse_line("push acc").unwrap(), (PUSH_REG, vec![Param::DataReg(REG_ACC)]));
}

#[test]
fn dispatch_errors() {
    assert_eq!(parse_line("frob d0").unwrap_err().kind, ErrorKind::UnknownInstruction);
    assert_eq!(parse_line("").unwrap_err().kind, ErrorKind::UnknownInstruction);
    assert_eq!(parse_line("inc 5").unwrap_err().kind, ErrorKind::NoMatchingSignature);
    assert_eq!(parse_line("halt d0").unwrap_err().kind, ErrorKind::NoMatchingSignature);
}

#[test]
fn address_operand_offsets() {
    assert_eq!(get_addr_byte_offset(PRTS_STR), Some(1));
    assert_eq!(get_addr_byte_offset(JMP_ADDR), Some(1));
    assert_eq!(get_addr_byte_offset(CPY_AREG_ADDR), Some(2));
    assert_eq!(get_addr_byte_offset(LD_AREG_DATA_REG_VAL), Some(2));
    assert_eq!(get_addr_byte_offset(LD_AREG_DATA_VAL_REG), Some(2));
    assert_eq!(get_addr_byte_offset(INC_REG), None);
    assert_eq!(get_addr_byte_offset(0xEE), None);
}

#[test]
fn reassembling_symbol_free_ops_keeps_bytes() {
    let encode = |line: &str| {
        let (code, params) = parse_line(line).unwrap();
        let ops = vec![OpModel::new(code, params, String::from(line), String::from(line), 0)];
        generate_ops_bytes(&ops, 0, &SymbolTable::new()).unwrap().bytes
    };
    let first = encode("cpy a0 @x1234");
    assert_eq!(first[2..], [0x12, 0x34]);
    // the address read back from the bytes, written as a literal, encodes the same
    assert_eq!(encode("cpy a0 @4660"), first);
    assert_eq!(encode("push 'A'"), encode("push 65"));
}
