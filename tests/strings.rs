use tape_device::error::ErrorKind;
use tape_device::strings::compile_strings;
use tape_device::table::SymbolTable;

fn keys(t: &SymbolTable<u16>) -> Vec<String> {
    t.entries.iter().map(|e| e.0.clone()).collect()
}

fn values(t: &SymbolTable<u16>) -> Vec<u16> {
    t.entries.iter().map(|e| e.1).collect()
}

#[test]
fn test_basic_file() {
    let mut input = vec![
        String::from("simple=test"),
        String::from("checking=bytes"),
        String::from(".ops"),
    ];
    let result = compile_strings(&mut input, false);
    assert!(input.is_empty());
    assert!(result.is_ok());
    let result = result.unwrap();
    let keys = keys(&result.0);
    let values = values(&result.0);
    assert!(keys.contains(&String::from("simple")));
    assert!(keys.contains(&String::from("checking")));
    assert!(values.contains(&0));
    assert!(values.contains(&5));
    assert_eq!(result.1, [4, 116, 101, 115, 116, 5, 98, 121, 116, 101, 115]);
}

#[test]
fn test_whitespace() {
    let mut input = vec![
        String::from("no=whitespace"),
        String::from("some=  before"),
        String::from("and=after  "),
        String::from("also=  both  "),
        String::from(" keyb=ws"),
        String::from("keya =ws"),
        String::from(".ops"),
    ];
    let mut input2 = input.clone();
    let result_no = compile_strings(&mut input, false);
    let result_ws = compile_strings(&mut input2, true);
    assert!(result_no.is_ok());
    assert!(result_ws.is_ok());
    let result_no = result_no.unwrap();
    let result_ws = result_ws.unwrap();
    let keys_ws = keys(&result_ws.0);
    let keys_no = keys(&result_no.0);
    let bytes_ws = result_ws.1;
    let bytes_no = result_no.1;
    for key in ["no", "some", "and", "also", "keya", "keyb"] {
        assert!(keys_no.contains(&String::from(key)));
        assert!(keys_ws.contains(&String::from(key)));
    }
    assert_eq!(
        bytes_no,
        [
            10, 119, 104, 105, 116, 101, 115, 112, 97, 99, 101, 6, 98, 101, 102, 111, 114, 101, 5, 97, 102, 116,
            101, 114, 4, 98, 111, 116, 104, 2, 119, 115, 2, 119, 115
        ]
    );
    assert_eq!(
        bytes_ws,
        [
            10, 119, 104, 105, 116, 101, 115, 112, 97, 99, 101, 8, 32, 32, 98, 101, 102, 111, 114, 101, 7, 97, 102,
            116, 101, 114, 32, 32, 8, 32, 32, 98, 111, 116, 104, 32, 32, 2, 119, 115, 2, 119, 115
        ]
    );
}

#[test]
fn test_output_order_matches() {
    let mut input = vec![
        String::from("simple=test"),
        String::from("checking=order"),
        String::from("of=output"),
        String::from(".ops"),
    ];
    let result = compile_strings(&mut input, false);
    assert!(input.is_empty());
    assert!(result.is_ok());
    let result = result.unwrap();
    let keys = keys(&result.0);
    let values = values(&result.0);
    assert_eq!(keys.len(), values.len());
    for (idx, key) in keys.iter().enumerate() {
        match key.as_str() {
            "simple" => assert_eq!(values[idx], 0),
            "checking" => assert_eq!(values[idx], 5),
            "of" => assert_eq!(values[idx], 11),
            _ => panic!("Invalid key {}", key),
        }
    }
}

#[test]
fn test_ops_not_consumed() {
    let mut input = vec![String::from("a=string"), String::from(".ops"), String::from("INC D0")];
    let result = compile_strings(&mut input, false);
    assert_eq!(input.len(), 1);
    assert_eq!(input[0], String::from("INC D0"));
    assert!(result.is_ok());
    let result = result.unwrap();
    assert_eq!(keys(&result.0), vec![String::from("a")]);
    assert_eq!(values(&result.0), vec![0]);
    assert_eq!(result.1, [6, 115, 116, 114, 105, 110, 103]);
}

#[test]
fn test_just_ops_marker() {
    let mut input = vec![String::from(".ops")];
    let result = compile_strings(&mut input, false);
    assert!(input.is_empty());
    assert!(result.is_ok());
    let result = result.unwrap();
    assert!(result.0.is_empty());
    assert_eq!(result.1, Vec::<u8>::new());
}

#[test]
fn test_no_ops_marker() {
    let mut input = vec![String::from("a=string")];
    assert!(compile_strings(&mut input, false).is_err());
    assert!(input.is_empty());
}

#[test]
fn scenario_trim_mode_addresses() {
    let mut input = vec![String::from("simple=test"), String::from("checking=bytes"), String::from(".ops")];
    let (table, bytes) = compile_strings(&mut input, false).unwrap();
    assert_eq!(bytes, vec![4, b't', b'e', b's', b't', 5, b'b', b'y', b't', b'e', b's']);
    assert_eq!(table.get("simple"), Some(&0));
    assert_eq!(table.get("checking"), Some(&5));
    assert_eq!(table.len(), 2);
}

#[test]
fn scenario_whitespace_preservation() {
    let mut keep = vec![String::from("also=  both  "), String::from(".ops")];
    let mut trim = keep.clone();
    assert_eq!(compile_strings(&mut keep, true).unwrap().1, vec![8, b' ', b' ', b'b', b'o', b't', b'h', b' ', b' ']);
    assert_eq!(compile_strings(&mut trim, false).unwrap().1, vec![4, b'b', b'o', b't', b'h']);
}

#[test]
fn string_of_255_bytes_fits_and_256_does_not() {
    let ok = format!("k={}", "a".repeat(255));
    let mut input = vec![ok, String::from(".ops")];
    let (_, bytes) = compile_strings(&mut input, false).unwrap();
    assert_eq!(bytes.len(), 256);
    assert_eq!(bytes[0], 255);
    let too_long = format!("k={}", "a".repeat(256));
    let mut input = vec![too_long, String::from(".ops")];
    assert_eq!(compile_strings(&mut input, false).unwrap_err().kind, ErrorKind::StringTooLong);
}

#[test]
fn string_errors_by_kind() {
    let mut input = vec![String::from("no equals"), String::from(".ops")];
    assert_eq!(compile_strings(&mut input, false).unwrap_err().kind, ErrorKind::MalformedString);
    let mut input = vec![String::from("bad-key=x"), String::from(".ops")];
    assert_eq!(compile_strings(&mut input, false).unwrap_err().kind, ErrorKind::InvalidKey);
    let mut input = vec![String::from("=x"), String::from(".ops")];
    assert_eq!(compile_strings(&mut input, false).unwrap_err().kind, ErrorKind::InvalidKey);
    let mut input = vec![String::from("a=x"), String::from("a=y"), String::from(".ops")];
    assert_eq!(compile_strings(&mut input, false).unwrap_err().kind, ErrorKind::DuplicateKey);
    let mut input = vec![String::from("a=x")];
    assert_eq!(compile_strings(&mut input, false).unwrap_err().kind, ErrorKind::MissingOps);
    let mut input: Vec<String> = vec![];
    assert_eq!(compile_strings(&mut input, false).unwrap_err().kind, ErrorKind::MissingOps);
}

#[test]
fn strings_section_cap() {
    let mut input: Vec<String> = (0..258).map(|i| format!("k{}={}", i, "a".repeat(254))).collect();
    input.push(String::from(".ops"));
    assert_eq!(compile_strings(&mut input, false).unwrap_err().kind, ErrorKind::StringsTooLarge);
    let mut input: Vec<String> = (0..257).map(|i| format!("k{}={}", i, "a".repeat(254))).collect();
    input.push(String::from(".ops"));
    let (table, bytes) = compile_strings(&mut input, false).unwrap();
    assert_eq!(bytes.len(), 65535);
    assert_eq!(table.len(), 257);
}

#[test]
fn string_first_equals_splits() {
    let mut input = vec![String::from("eq=a=b"), String::from(".ops")];
    let (table, bytes) = compile_strings(&mut input, false).unwrap();
    assert_eq!(table.get("eq"), Some(&0));
    assert_eq!(bytes, vec![3, b'a', b'=', b'b']);
}
