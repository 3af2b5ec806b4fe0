use tomasulo::decoder::{ArgType, Decoder, InstFormat, TokenType};
use tomasulo::decoder::TokenType::{Immediate, Register};

fn format(name: &str, syntax: &[TokenType]) -> InstFormat {
    let mut creater = InstFormat::create(name);
    for t in syntax {
        creater = creater.add_syntax(*t);
    }
    creater.done()
}

#[test]
fn register_mul() {
    let mut d = Decoder::new();
    let test_inst = vec![
        format("add", &[Register, Register, Register]),
        format("addi", &[Register, Register, Immediate]),
    ];
    let station0 = String::from("station0");
    let station1 = String::from("station1");

    d.register(test_inst.clone(), station0.clone()).unwrap();
    d.register(test_inst.clone(), station1.clone()).unwrap();

    // Both opcodes now map to the one shared station list, in order.
    let got_add = d.decode("add R1, R2, R3").unwrap();
    assert_eq!(2, got_add.stations().len());
    assert_eq!(station0, got_add.stations()[0]);
    assert_eq!(station1, got_add.stations()[1]);

    let got_addi = d.decode("addi R1, R2, #3").unwrap();
    assert_eq!(2, got_addi.stations().len());
    assert_eq!(station0, got_addi.stations()[0]);
    assert_eq!(station1, got_addi.stations()[1]);
}

#[test]
fn decode() {
    let mut d = Decoder::new();
    let inst = vec![format("add", &[Register, Register, Immediate])];
    let station = String::from("station");
    let to_decode = String::from("add R0, R13, #100");

    d.register(inst, station.clone()).unwrap();

    let got = d.decode(&to_decode).unwrap();
    assert_eq!(1, got.stations().len());
    assert_eq!(station, got.stations()[0]);

    assert_eq!(3, got.arguments().len());
    assert_eq!(ArgType::Reg(0), got.arguments()[0]);
    assert_eq!(ArgType::Reg(13), got.arguments()[1]);
    assert_eq!(ArgType::Imm(100), got.arguments()[2]);
}

#[test]
fn invalid_instruction() {
    let mut d = Decoder::new();
    let inst = vec![format("add", &[Register, Register, Immediate])];
    let station = String::from("station");
    let to_decode = String::from("add R0, R13, 100");
    d.register(inst, station.clone()).unwrap();

    assert!(d.decode(&to_decode).is_err());
}

#[test]
fn slicer_test() {
    let txt = "a b,c(d)e:";
    let slice = tomasulo::decoder::text_slicer(txt);
    assert_eq!(slice[0], "a");
    assert_eq!(slice[1], "b");
    assert_eq!(slice[2], "c");
    assert_eq!(slice[3], "d");
    assert_eq!(slice[4], "e");
}

#[test]
fn decode_empty_input() {
    let mut d = Decoder::new();
    assert!(d.decode("").is_err());
}

#[test]
fn decode_unknown_opcode() {
    let mut d = Decoder::new();
    assert!(d.decode("bogus R1, R2, R3").is_err());
}

#[test]
fn decode_register_out_of_range() {
    let mut d = Decoder::new();
    let inst = vec![format("add", &[Register, Register, Immediate])];
    d.register(inst, String::from("station")).unwrap();
    assert!(d.decode("add R16, R1, #1").is_err());
    assert!(d.decode("add R15, R1, #1").is_ok());
}

#[test]
fn decode_immediate_out_of_range() {
    let mut d = Decoder::new();
    let inst = vec![format("add", &[Register, Register, Immediate])];
    d.register(inst, String::from("station")).unwrap();
    assert!(d.decode("add R1, R2, #4294967296").is_err());
    assert!(d.decode("add R1, R2, #4294967295").is_ok());
}

#[test]
fn decode_arity_mismatch() {
    let mut d = Decoder::new();
    let inst = vec![format("add", &[Register, Register, Register])];
    d.register(inst, String::from("station")).unwrap();
    assert!(d.decode("add R1, R2").is_err());
    assert!(d.decode("add R1, R2, R3, R4").is_err());
}

#[test]
fn register_overlapping_set_refused() {
    let mut d = Decoder::new();
    let set_a = vec![
        format("add", &[Register, Register, Register]),
        format("sub2", &[Register, Register, Register]),
    ];
    let set_b = vec![
        format("xor2", &[Register, Register, Register]),
        format("sub2", &[Register, Register, Register]),
    ];
    d.register(set_a, String::from("s0")).unwrap();
    // `xor2` is new but `sub2` is already taken: neither disjoint nor
    // congruent, so the registration is refused.
    assert!(d.register(set_b, String::from("s1")).is_err());
}

#[test]
fn register_unequal_superset_refused() {
    let mut d = Decoder::new();
    let set_a = vec![
        format("add", &[Register, Register, Register]),
        format("addi", &[Register, Register, Immediate]),
    ];
    // The first opcode is already registered but the sets differ: spec
    // demands an error, and the registry is left unchanged.
    let set_b = vec![
        format("add", &[Register, Register, Register]),
        format("mul2", &[Register, Register, Register]),
    ];
    let set_c = vec![format("add", &[Register, Register, Register])];
    d.register(set_a.clone(), String::from("s0")).unwrap();
    assert!(d.register(set_b, String::from("s1")).is_err());
    assert!(d.register(set_c, String::from("s2")).is_err());
    // The identical set is accepted and shares the list.
    d.register(set_a, String::from("s3")).unwrap();
    let got = d.decode("addi R1, R2, #3").unwrap();
    assert_eq!(2, got.stations().len());
    assert_eq!("s0", got.stations()[0]);
    assert_eq!("s3", got.stations()[1]);
}
