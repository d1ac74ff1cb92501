use tape_device::constants::{REG_A0, REG_A1, REG_ACC, REG_D0, REG_D1, REG_D2, REG_D3};
use tape_device::params::{
    parse_addr, parse_addr_reg, parse_data_reg, parse_number, strip_trailing_comment, Param, Parameters,
};

#[test]
fn test_address_parsing() {
    assert_eq!(parse_addr("@10").unwrap(), Param::Addr(10));
    assert_eq!(parse_addr("@0").unwrap(), Param::Addr(0));
    assert_eq!(parse_addr("@100").unwrap(), Param::Addr(100));
    assert_eq!(parse_addr("@255").unwrap(), Param::Addr(255));
    assert_eq!(parse_addr("@1000").unwrap(), Param::Addr(1000));
    assert_eq!(parse_addr("@12000").unwrap(), Param::Addr(12000));
    assert_eq!(parse_addr("@65535").unwrap(), Param::Addr(65535));
    assert!(parse_addr("@65536").is_err());
    assert!(parse_addr("@-10").is_err());
    assert!(parse_addr("@test").is_err());
    assert_eq!(parse_addr("@255").unwrap(), Param::Addr(255));
    assert_eq!(parse_addr("@xA").unwrap(), Param::Addr(10));
    assert_eq!(parse_addr("@x0").unwrap(), Param::Addr(0));
    assert_eq!(parse_addr("@x64").unwrap(), Param::Addr(100));
    assert_eq!(parse_addr("@xFF").unwrap(), Param::Addr(255));
    assert_eq!(parse_addr("@xFF00").unwrap(), Param::Addr(65280));
    assert_eq!(parse_addr("@xFFFF").unwrap(), Param::Addr(65535));
    assert!(parse_addr("@x1FFFF").is_err());
    assert!(parse_addr("@1x2").is_err());
    assert!(parse_addr("a0").is_err());
    assert!(parse_addr("@x2p").is_err());
    assert!(parse_addr("@x").is_err());
}

#[test]
fn test_number_parsing() {
    assert_eq!(parse_number("10").unwrap(), Param::Number(10));
    assert_eq!(parse_number("0").unwrap(), Param::Number(0));
    assert_eq!(parse_number("100").unwrap(), Param::Number(100));
    assert_eq!(parse_number("255").unwrap(), Param::Number(255));
    assert!(parse_number("256").is_err());
    assert!(parse_number("1000").is_err());
    assert!(parse_number("-1").is_err());
    assert_eq!(parse_number("xA").unwrap(), Param::Number(10));
    assert_eq!(parse_number("x0").unwrap(), Param::Number(0));
    assert_eq!(parse_number("x64").unwrap(), Param::Number(100));
    assert_eq!(parse_number("xFF").unwrap(), Param::Number(255));
    assert!(parse_number("x100").is_err());
    assert!(parse_number("x3e8").is_err());
    assert!(parse_number("xF001").is_err());
    assert_eq!(parse_number("' '").unwrap(), Param::Number(32));
    assert_eq!(parse_number("'s'").unwrap(), Param::Number(115));
    assert_eq!(parse_number("'}'").unwrap(), Param::Number(125));
    assert!(parse_number("'s '").is_err());
    assert!(parse_number("''").is_err());
    assert_eq!(parse_number("b00000000").unwrap(), Param::Number(0));
    assert_eq!(parse_number("b11111111").unwrap(), Param::Number(255));
    assert_eq!(parse_number("b00001111").unwrap(), Param::Number(15));
    assert!(parse_number("b0").is_err());
    assert!(parse_number("b1").is_err());
    assert!(parse_number("b101010100111").is_err());
}

#[test]
fn test_reg_parsing() {
    assert_eq!(parse_data_reg("d0").unwrap(), Param::DataReg(REG_D0));
    assert_eq!(parse_data_reg("d1").unwrap(), Param::DataReg(REG_D1));
    assert_eq!(parse_data_reg("d2").unwrap(), Param::DataReg(REG_D2));
    assert_eq!(parse_data_reg("d3").unwrap(), Param::DataReg(REG_D3));
    assert_eq!(parse_data_reg("acc").unwrap(), Param::DataReg(REG_ACC));
    assert_eq!(parse_addr_reg("a0").unwrap(), Param::AddrReg(REG_A0));
    assert_eq!(parse_addr_reg("a1").unwrap(), Param::AddrReg(REG_A1));
    assert!(parse_data_reg("d5").is_err());
    assert!(parse_data_reg("a0").is_err());
    assert!(parse_data_reg("").is_err());
    assert!(parse_addr_reg("").is_err());
    assert!(parse_data_reg("dec").is_err());
    assert!(parse_addr_reg("d0").is_err());
    assert!(parse_addr_reg("acc").is_err());
}

#[test]
fn test_number_parameter_parsing() {
    assert_eq!(Parameters::NUMBER.parse("10").unwrap(), Param::Number(10));
}

#[test]
fn test_addr_reg_parameter_parsing() {
    assert_eq!(Parameters::ADDR_REG.parse("a0").unwrap(), Param::AddrReg(REG_A0));
}

#[test]
fn test_addresses_parameter_parsing() {
    assert_eq!(Parameters::ADDRESSES.parse("@34").unwrap(), Param::Addr(34));
}

#[test]
fn test_addr_parameter_parsing() {
    assert_eq!(Parameters::ADDRESS.parse("@986").unwrap(), Param::Addr(986));
}

#[test]
fn test_data_reg_parameter_parsing() {
    assert_eq!(Parameters::DATA_REG.parse("D0").unwrap(), Param::DataReg(REG_D0));
}

#[test]
fn test_label_parameter_parsing() {
    assert_eq!(Parameters::LABEL.parse("start").unwrap(), Param::Label(String::from("start")));
}

#[test]
fn test_data_key_parameter_parsing() {
    assert_eq!(Parameters::DATA_KEY.parse("start").unwrap(), Param::DataKey(String::from("start")));
}

#[test]
fn test_string_key_parameter_parsing() {
    assert_eq!(Parameters::STRING_KEY.parse("greeting").unwrap(), Param::StrKey(String::from("greeting")));
}

#[test]
fn test_registers_parameter_parsing() {
    assert_eq!(Parameters::REGISTERS.parse("aCc").unwrap(), Param::DataReg(REG_ACC));
}

#[test]
fn composite_kinds_fall_back() {
    assert_eq!(Parameters::REGISTERS.parse("A1").unwrap(), Param::AddrReg(REG_A1));
    assert!(Parameters::REGISTERS.parse("d9").is_err());
    assert_eq!(Parameters::ADDRESSES.parse("loop").unwrap(), Param::Label(String::from("loop")));
    assert_eq!(Parameters::NUMBER.parse(" 7 # seven").unwrap(), Param::Number(7));
}

#[test]
fn comment_and_whitespace_are_stripped() {
    assert_eq!(strip_trailing_comment("  abc # note"), "abc");
    assert_eq!(strip_trailing_comment("abc"), "abc");
    assert_eq!(strip_trailing_comment("#"), "");
}

#[test]
fn kind_bits_and_names() {
    assert_eq!(Parameters::ADDRESSES.bits(), Parameters::LABEL.bits() | Parameters::ADDRESS.bits());
    assert_eq!(Parameters::REGISTERS.bits(), Parameters::DATA_REG.bits() | Parameters::ADDR_REG.bits());
    assert_eq!(Parameters::NUMBER.name(), "byte");
    assert_eq!(Parameters::STRING_KEY.name(), "text_key");
    assert_eq!(Parameters::REGISTERS.name(), "(data_reg|addr_reg)");
}

#[test]
fn non_ascii_char_literal_is_refused() {
    assert!(parse_number("'é'").is_err());
    assert_eq!(parse_number("'A'").unwrap(), Param::Number(65));
}
