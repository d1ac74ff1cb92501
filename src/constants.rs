//! Fixed values of the device: register ids, opcode bytes, tape header bytes
//! and segment caps.
use vstd::prelude::*;

verus! {

pub const REG_D0: u8 = 0x01;
pub const REG_D1: u8 = 0x02;
pub const REG_D2: u8 = 0x03;
pub const REG_D3: u8 = 0x04;
pub const REG_ACC: u8 = 0x05;
pub const REG_A0: u8 = 0x06;
pub const REG_A1: u8 = 0x07;

/// First byte of every tape.
pub const TAPE_HEADER_1: u8 = 0xFD;
/// Second byte of every tape.
pub const TAPE_HEADER_2: u8 = 0xA1;
/// Version of the tape format.
pub const PRG_VERSION: u8 = 0x01;

/// Cap on the strings segment, length bytes included.
pub const MAX_STRING_BYTES: usize = 65535;
/// Cap on the data segment.
pub const MAX_DATA_BYTES: usize = 65535;
/// Cap on the ops segment.
pub const MAX_OPS_BYTES: usize = 65535;

pub const NOP: u8 = 0x00;
pub const ADD_REG_REG: u8 = 0x01;
pub const ADD_REG_VAL: u8 = 0x02;
pub const SUB_REG_REG: u8 = 0x03;
pub const SUB_REG_VAL: u8 = 0x04;
pub const INC_REG: u8 = 0x05;
pub const DEC_REG: u8 = 0x06;
pub const CPY_REG_REG: u8 = 0x10;
pub const CPY_REG_VAL: u8 = 0x11;
pub const CPY_AREG_ADDR: u8 = 0x12;
pub const CPY_AREG_AREG: u8 = 0x13;
pub const LD_AREG_DATA_REG_VAL: u8 = 0x20;
pub const LD_AREG_DATA_VAL_REG: u8 = 0x21;
pub const LD_AREG_DATA_REG_REG: u8 = 0x22;
pub const LD_AREG_DATA_VAL_VAL: u8 = 0x23;
pub const CMP_REG_REG: u8 = 0x30;
pub const CMP_REG_VAL: u8 = 0x31;
pub const JMP_ADDR: u8 = 0x40;
pub const JMP_AREG: u8 = 0x41;
pub const JE_ADDR: u8 = 0x42;
pub const JNE_ADDR: u8 = 0x43;
pub const CALL_ADDR: u8 = 0x50;
pub const CALL_AREG: u8 = 0x51;
pub const RET: u8 = 0x52;
pub const PUSH_REG: u8 = 0x60;
pub const PUSH_VAL: u8 = 0x61;
pub const POP_REG: u8 = 0x62;
pub const PRT_REG: u8 = 0x70;
pub const PRT_VAL: u8 = 0x71;
pub const PRTC_REG: u8 = 0x72;
pub const PRTC_VAL: u8 = 0x73;
pub const PRTS_STR: u8 = 0x74;
pub const HALT: u8 = 0xFF;

} // verus!
