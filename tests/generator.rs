use tape_device::constants::{
    ADD_REG_REG, CPY_REG_REG, INC_REG, JMP_ADDR, LD_AREG_DATA_REG_VAL, LD_AREG_DATA_VAL_REG, PRG_VERSION, PRTS_STR,
    REG_A0, REG_ACC, REG_D0, REG_D1, REG_D2, REG_D3, TAPE_HEADER_1, TAPE_HEADER_2,
};
use tape_device::error::ErrorKind;
use tape_device::generator::{
    generate_byte_code, generate_data_bytes, generate_ops_bytes, generate_string_bytes, get_label_keys_for_line,
    update_addresses, Site, SymbolKind,
};
use tape_device::params::Param;
use tape_device::program_model::{DataModel, LabelModel, OpModel, ProgramModel, StringModel};
use tape_device::table::SymbolTable;

#[test]
fn test_update_addresses_single() {
    let bytes = vec![PRTS_STR, 0, 0];
    let targets = vec![Site::new(SymbolKind::Str, String::from("foo"), 1)];
    let mut sources = SymbolTable::new();
    sources.insert(String::from("abc"), 0);
    sources.insert(String::from("foo"), 4);

    let output = update_addresses(bytes, &targets, SymbolKind::Str, &sources);
    assert_eq!(output, vec![PRTS_STR, 0, 4]);
}

#[test]
fn test_gen_string_bytes() {
    let mut strings = SymbolTable::new();
    strings.insert(String::from("a"), StringModel::new(String::new(), String::from("test string"), String::new(), 0));
    strings.insert(String::from("b"), StringModel::new(String::new(), String::from("an example"), String::new(), 0));
    strings.insert(String::from("c"), StringModel::new(String::new(), String::from("abcdef"), String::new(), 0));

    let (bytes, sources) = generate_string_bytes(&strings).unwrap();

    assert_eq!(
        bytes,
        vec![
            11, 116, 101, 115, 116, 32, 115, 116, 114, 105, 110, 103, 10, 97, 110, 32, 101, 120, 97, 109, 112, 108,
            101, 6, 97, 98, 99, 100, 101, 102
        ]
    );

    assert_eq!(sources.len(), 3);
    assert_eq!(sources.get("a"), Some(&0));
    assert_eq!(sources.get("b"), Some(&12));
    assert_eq!(sources.get("c"), Some(&23));
}

#[test]
fn test_gen_data_bytes() {
    let mut data = SymbolTable::new();
    data.insert(String::from("a"), DataModel::new(String::new(), vec![2, 5, 2, 1, 2, 3, 4, 5, 6, 7], String::new(), 0));
    data.insert(
        String::from("b"),
        DataModel::new(String::new(), vec![4, 2, 2, 2, 2, 97, 98, 99, 100, 101, 102, 103, 104], String::new(), 0),
    );

    let (bytes, sources) = generate_data_bytes(&data).unwrap();

    assert_eq!(bytes, vec![2, 5, 2, 1, 2, 3, 4, 5, 6, 7, 4, 2, 2, 2, 2, 97, 98, 99, 100, 101, 102, 103, 104]);

    assert_eq!(sources.len(), 2);
    assert_eq!(sources.get("a"), Some(&0));
    assert_eq!(sources.get("b"), Some(&10));
}

#[test]
fn test_target_gen() {
    let ops = vec![
        OpModel::new(PRTS_STR, vec![Param::StrKey(String::from("foo"))], String::new(), String::from("prts foo"), 0),
        OpModel::new(
            LD_AREG_DATA_REG_VAL,
            vec![Param::AddrReg(REG_A0), Param::DataKey(String::from("bar")), Param::DataReg(REG_D2), Param::Number(10)],
            String::new(),
            String::from("ld a0 bar d2 10"),
            0,
        ),
    ];
    let output = generate_ops_bytes(&ops, 0, &SymbolTable::new()).unwrap();

    assert_eq!(output.bytes, vec![PRTS_STR, 0, 0, LD_AREG_DATA_REG_VAL, REG_A0, 0, 0, REG_D2, 10]);
    let string_targets: Vec<(String, usize)> =
        output.sites.iter().filter(|s| s.kind == SymbolKind::Str).map(|s| (s.name.clone(), s.offset)).collect();
    let data_targets: Vec<(String, usize)> =
        output.sites.iter().filter(|s| s.kind == SymbolKind::Data).map(|s| (s.name.clone(), s.offset)).collect();
    assert_eq!(string_targets, vec![(String::from("foo"), 1)]);
    assert_eq!(data_targets, vec![(String::from("bar"), 5)]);
}

#[test]
fn test_header() {
    let model = ProgramModel::new(String::from("Test Prog"), String::from("1.0"));
    let bytes = generate_byte_code(model).unwrap();

    assert_eq!(
        bytes,
        vec![
            TAPE_HEADER_1, TAPE_HEADER_2, PRG_VERSION, 9, 84, 101, 115, 116, 32, 80, 114, 111, 103, 3, 49, 46, 48, 0,
            0, 0, 0
        ]
    )
}

#[test]
fn test_simple_prog() {
    let mut model = ProgramModel::new(String::from("a"), String::from("b"));

    model.ops.push(OpModel::new(INC_REG, vec![Param::DataReg(REG_D0)], String::new(), String::from("inc d0"), 0));
    model.ops.push(OpModel::new(
        CPY_REG_REG,
        vec![Param::DataReg(REG_D1), Param::DataReg(REG_D0)],
        String::new(),
        String::from("cpy d1 d0"),
        1,
    ));
    model.ops.push(OpModel::new(
        ADD_REG_REG,
        vec![Param::DataReg(REG_D0), Param::DataReg(REG_D1)],
        String::new(),
        String::from("add d0 d1"),
        2,
    ));

    let bytes = generate_byte_code(model).unwrap();

    assert_eq!(
        bytes,
        vec![
            TAPE_HEADER_1, TAPE_HEADER_2, PRG_VERSION, 1, 97, 1, 98, 0, 8, INC_REG, REG_D0, CPY_REG_REG, REG_D1,
            REG_D0, ADD_REG_REG, REG_D0, REG_D1, 0, 0
        ]
    )
}

#[test]
fn test_simple_prog_with_strings() {
    let mut model = ProgramModel::new(String::from("a"), String::from("b"));

    model.strings.insert(String::from("abc"), StringModel::new(String::from("abc"), String::from("foo"), String::new(), 0));
    model.strings.insert(String::from("test"), StringModel::new(String::from("test"), String::from("bar"), String::new(), 0));

    model.ops.push(OpModel::new(INC_REG, vec![Param::DataReg(REG_D0)], String::new(), String::from("inc d0"), 0));
    model.ops.push(OpModel::new(PRTS_STR, vec![Param::StrKey(String::from("test"))], String::new(), String::from("prts test"), 1));

    let bytes = generate_byte_code(model).unwrap();

    assert_eq!(
        bytes,
        vec![
            TAPE_HEADER_1, TAPE_HEADER_2, PRG_VERSION, 1, 97, 1, 98, 0, 5, INC_REG, REG_D0, PRTS_STR, 0, 4, 0, 8, 3,
            102, 111, 111, 3, 98, 97, 114
        ]
    )
}

#[test]
fn test_simple_prog_with_data() {
    let mut model = ProgramModel::new(String::from("a"), String::from("b"));

    model.data.insert(
        String::from("dk1"),
        DataModel::new(String::new(), vec![3, 2, 2, 4, 10, 11, 50, 51, 97, 98, 99, 100], String::new(), 0),
    );
    model.data.insert(
        String::from("dk2"),
        DataModel::new(String::new(), vec![1, 10, 30, 31, 32, 33, 34, 35, 36, 37, 38, 39], String::new(), 0),
    );

    model.ops.push(OpModel::new(
        ADD_REG_REG,
        vec![Param::DataReg(REG_D0), Param::DataReg(REG_D1)],
        String::new(),
        String::from("add d0 d1"),
        0,
    ));
    model.ops.push(OpModel::new(INC_REG, vec![Param::DataReg(REG_ACC)], String::new(), String::from("inc acc"), 0));
    model.ops.push(OpModel::new(
        LD_AREG_DATA_VAL_REG,
        vec![Param::AddrReg(REG_A0), Param::DataKey(String::from("dk2")), Param::Number(2), Param::DataReg(REG_D3)],
        String::new(),
        String::from("ld a0 dk1 2 d3"),
        1,
    ));

    let bytes = generate_byte_code(model).unwrap();

    assert_eq!(
        bytes,
        vec![
            TAPE_HEADER_1, TAPE_HEADER_2, PRG_VERSION, 1, 97, 1, 98, 0, 11, ADD_REG_REG, REG_D0, REG_D1, INC_REG,
            REG_ACC, LD_AREG_DATA_VAL_REG, REG_A0, 0, 12, 2, REG_D3, 0, 0, 3, 2, 2, 4, 10, 11, 50, 51, 97, 98, 99,
            100, 1, 10, 30, 31, 32, 33, 34, 35, 36, 37, 38, 39
        ]
    )
}

#[test]
fn test_simple_prog_with_strings_and_data() {
    let mut model = ProgramModel::new(String::from("a"), String::from("b"));

    model.strings.insert(String::from("abc"), StringModel::new(String::from("abc"), String::from("foo"), String::new(), 0));
    model.data.insert(
        String::from("dk1"),
        DataModel::new(String::new(), vec![3, 2, 2, 4, 10, 11, 50, 51, 97, 98, 99, 100], String::new(), 0),
    );

    model.ops.push(OpModel::new(
        ADD_REG_REG,
        vec![Param::DataReg(REG_D0), Param::DataReg(REG_D1)],
        String::new(),
        String::from("add d0 d1"),
        0,
    ));
    model.ops.push(OpModel::new(INC_REG, vec![Param::DataReg(REG_ACC)], String::new(), String::from("inc acc"), 0));
    model.ops.push(OpModel::new(
        LD_AREG_DATA_VAL_REG,
        vec![Param::AddrReg(REG_A0), Param::DataKey(String::from("dk1")), Param::Number(2), Param::DataReg(REG_D3)],
        String::new(),
        String::from("ld a0 dk1 2 d3"),
        1,
    ));
    model.ops.push(OpModel::new(PRTS_STR, vec![Param::StrKey(String::from("abc"))], String::new(), String::from("prts abc"), 0));

    let bytes = generate_byte_code(model).unwrap();

    assert_eq!(
        bytes,
        vec![
            TAPE_HEADER_1, TAPE_HEADER_2, PRG_VERSION, 1, 97, 1, 98, 0, 14, ADD_REG_REG, REG_D0, REG_D1, INC_REG,
            REG_ACC, LD_AREG_DATA_VAL_REG, REG_A0, 0, 0, 2, REG_D3, PRTS_STR, 0, 0, 0, 4, 3, 102, 111, 111, 3, 2, 2,
            4, 10, 11, 50, 51, 97, 98, 99, 100
        ]
    )
}

fn op(code: u8, params: Vec<Param>, line: usize) -> OpModel {
    OpModel::new(code, params, String::new(), String::new(), line)
}

#[test]
fn label_back_patch_to_string() {
    let mut model = ProgramModel::new(String::from("p"), String::from("v"));
    model.strings.insert(String::from("foo"), StringModel::new(String::from("foo"), String::from("ab"), String::new(), 1));
    model.ops.push(op(PRTS_STR, vec![Param::StrKey(String::from("foo"))], 3));
    let bytes = generate_byte_code(model).unwrap();
    // header prefix: 3 fixed bytes, 1+1 name, 1+1 version, 2 ops length
    let prefix = 3 + 2 + 2 + 2;
    assert_eq!(&bytes[prefix + 1..prefix + 3], &[0, 0]);
    assert_eq!(&bytes[prefix + 3..prefix + 5], &[0, 3]);
    assert_eq!(&bytes[prefix + 5..], &[2, b'a', b'b']);
}

#[test]
fn cross_segment_data_address() {
    let mut model = ProgramModel::new(String::from("p"), String::from("v"));
    model.data.insert(
        String::from("dk1"),
        DataModel::new(String::from("dk1"), vec![3, 2, 2, 4, 10, 11, 50, 51, 97, 98, 99, 100], String::new(), 1),
    );
    model.ops.push(op(
        LD_AREG_DATA_VAL_REG,
        vec![Param::AddrReg(REG_A0), Param::DataKey(String::from("dk1")), Param::Number(2), Param::DataReg(REG_D3)],
        3,
    ));
    let bytes = generate_byte_code(model).unwrap();
    let op_start = 3 + 2 + 2 + 2;
    assert_eq!(bytes[op_start], LD_AREG_DATA_VAL_REG);
    assert_eq!(&bytes[op_start + 2..op_start + 4], &[0, 0]);
}

#[test]
fn labels_bind_to_next_op_and_end_of_segment() {
    let mut model = ProgramModel::new(String::from("p"), String::from("v"));
    model.labels.insert(String::from("first"), LabelModel::new(String::from("first"), String::from("first:"), 1));
    model.labels.insert(String::from("second"), LabelModel::new(String::from("second"), String::from("second:"), 2));
    model.labels.insert(String::from("end"), LabelModel::new(String::from("end"), String::from("end:"), 9));
    model.ops.push(op(INC_REG, vec![Param::DataReg(REG_D0)], 0));
    model.ops.push(op(JMP_ADDR, vec![Param::Label(String::from("second"))], 3));
    model.ops.push(op(JMP_ADDR, vec![Param::Label(String::from("end"))], 4));
    model.ops.push(op(JMP_ADDR, vec![Param::Label(String::from("first"))], 5));
    let out = generate_ops_bytes(&model.ops, 0, &model.labels).unwrap();
    // two labels on lines before the same op bind to the same address
    assert_eq!(out.label_addresses.get("first"), Some(&2));
    assert_eq!(out.label_addresses.get("second"), Some(&2));
    // a label after the final op binds to the end of the segment
    assert_eq!(out.label_addresses.get("end"), Some(&11));
    let bytes = generate_byte_code(model).unwrap();
    let ops = 3 + 2 + 2 + 2;
    assert_eq!(&bytes[ops..ops + 11], &[INC_REG, REG_D0, JMP_ADDR, 0, 2, JMP_ADDR, 0, 11, JMP_ADDR, 0, 2]);
}

#[test]
fn undefined_symbols_fail() {
    let mut model = ProgramModel::new(String::from("p"), String::from("v"));
    model.ops.push(op(PRTS_STR, vec![Param::StrKey(String::from("missing"))], 1));
    assert_eq!(generate_byte_code(model).unwrap_err().kind, ErrorKind::UndefinedSymbol);
    let mut model = ProgramModel::new(String::from("p"), String::from("v"));
    model.labels.insert(String::from("nowhere"), LabelModel::undefined(String::from("nowhere")));
    model.ops.push(op(JMP_ADDR, vec![Param::Label(String::from("nowhere"))], 1));
    assert_eq!(generate_byte_code(model).unwrap_err().kind, ErrorKind::UndefinedSymbol);
}

#[test]
fn name_of_255_bytes_fits_and_256_does_not() {
    let model = ProgramModel::new("n".repeat(255), String::from("1"));
    let bytes = generate_byte_code(model).unwrap();
    assert_eq!(bytes.len(), 9 + 255 + 1);
    assert_eq!(bytes[3], 255);
    let model = ProgramModel::new("n".repeat(256), String::from("1"));
    assert_eq!(generate_byte_code(model).unwrap_err().kind, ErrorKind::NameTooLong);
    let model = ProgramModel::new(String::from("n"), "v".repeat(256));
    assert_eq!(generate_byte_code(model).unwrap_err().kind, ErrorKind::VersionTooLong);
}

#[test]
fn segment_caps() {
    let mut model = ProgramModel::new(String::from("p"), String::from("v"));
    model.strings.insert(String::from("s"), StringModel::new(String::from("s"), "x".repeat(256), String::new(), 1));
    assert_eq!(generate_byte_code(model).unwrap_err().kind, ErrorKind::StringTooLong);
    let mut model = ProgramModel::new(String::from("p"), String::from("v"));
    model.data.insert(String::from("d"), DataModel::new(String::from("d"), vec![0; 65536], String::new(), 1));
    assert_eq!(generate_byte_code(model).unwrap_err().kind, ErrorKind::DataTooLarge);
    let mut model = ProgramModel::new(String::from("p"), String::from("v"));
    for line in 0..32768 {
        model.ops.push(op(INC_REG, vec![Param::DataReg(REG_D0)], line));
    }
    assert_eq!(generate_byte_code(model).unwrap_err().kind, ErrorKind::OpsTooLarge);
}

#[test]
fn tape_length_adds_up_and_runs_agree() {
    let build = || {
        let mut model = ProgramModel::new(String::from("prog"), String::from("2.1"));
        model.strings.insert(String::from("b"), StringModel::new(String::from("b"), String::from("xyz"), String::new(), 1));
        model.strings.insert(String::from("a"), StringModel::new(String::from("a"), String::from("q"), String::new(), 2));
        model.data.insert(String::from("d"), DataModel::new(String::from("d"), vec![1, 2, 3], String::new(), 3));
        model.ops.push(op(PRTS_STR, vec![Param::StrKey(String::from("b"))], 5));
        model.ops.push(op(PRTS_STR, vec![Param::StrKey(String::from("a"))], 6));
        model
    };
    let first = generate_byte_code(build()).unwrap();
    let second = generate_byte_code(build()).unwrap();
    assert_eq!(first, second);
    assert_eq!(first.len(), 9 + 4 + 3 + 6 + (2 + 4) + 3);
    // strings are laid out in key order: "a" at 0, "b" at 2
    let strings_start = 3 + 5 + 4 + 2 + 6 + 2;
    assert_eq!(&first[strings_start..strings_start + 6], &[1, b'q', 3, b'x', b'y', b'z']);
    assert_eq!(&first[3 + 5 + 4 + 2 + 1..3 + 5 + 4 + 2 + 3], &[0, 2]);
    assert_eq!(&first[3 + 5 + 4 + 2 + 4..3 + 5 + 4 + 2 + 6], &[0, 0]);
}

#[test]
fn label_keys_for_line() {
    let mut labels = SymbolTable::new();
    labels.insert(String::from("b"), LabelModel::new(String::from("b"), String::new(), 4));
    labels.insert(String::from("a"), LabelModel::new(String::from("a"), String::new(), 4));
    labels.insert(String::from("c"), LabelModel::new(String::from("c"), String::new(), 5));
    labels.insert(String::from("u"), LabelModel::undefined(String::from("u")));
    assert_eq!(get_label_keys_for_line(&labels, 4), vec![String::from("a"), String::from("b")]);
    assert_eq!(get_label_keys_for_line(&labels, 7), Vec::<String>::new());
}

#[test]
fn empty_ops_section() {
    let mut model = ProgramModel::new(String::from("p"), String::from("v"));
    model.labels.insert(String::from("only"), LabelModel::new(String::from("only"), String::new(), 2));
    let out = generate_ops_bytes(&model.ops, 0, &model.labels).unwrap();
    assert!(out.bytes.is_empty());
    assert_eq!(out.label_addresses.get("only"), Some(&0));
    let bytes = generate_byte_code(model).unwrap();
    assert_eq!(&bytes[7..9], &[0, 0]);
}
