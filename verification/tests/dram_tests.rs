use tomasulo::dram::Dram;
use tomasulo::execution_path::{BusAccessRequst, BusAccessResult};

fn run_store(dram: &mut Dram, base: u32, data: Vec<u8>) -> Result<BusAccessResult, String> {
    let req = BusAccessRequst::new_store(String::from("p"), 0, base, data);
    dram.access(req).unwrap();
    loop {
        if let Some(resp) = dram.next_cycle() {
            return resp.into_result();
        }
    }
}

fn run_load(dram: &mut Dram, base: u32, len: usize) -> Result<BusAccessResult, String> {
    let req = BusAccessRequst::new_load(String::from("p"), 0, base, len);
    dram.access(req).unwrap();
    loop {
        if let Some(resp) = dram.next_cycle() {
            return resp.into_result();
        }
    }
}

#[test]
fn write_in_bound() {
    let mut dram = Dram::new(5);
    let base = 2;
    let data = vec![1, 2, 3];
    let expect = [0, 0, 1, 2, 3];
    match run_store(&mut dram, base, data).unwrap() {
        BusAccessResult::Store => {}
        _ => panic!("expected a store result"),
    }
    assert_eq!(&dram.into_raw_data()[..], &expect);
}

#[test]
fn read_in_bound() {
    let len = 0x10;
    let mut dram = Dram::new(len);
    let expect: Vec<u8> = (0u8..len as u8).collect();
    match run_store(&mut dram, 0, expect.clone()).unwrap() {
        BusAccessResult::Store => {}
        _ => panic!("expected a store result"),
    }
    for i in (0..len).step_by(4) {
        let expect_slice = &expect[i..i + 4];
        match run_load(&mut dram, i as u32, 4).unwrap() {
            BusAccessResult::Load(read) => assert_eq!(expect_slice, &read[..]),
            _ => panic!("expected a load result"),
        }
    }
}

#[test]
fn out_of_bound_access_answers_error() {
    let mut dram = Dram::new(4);
    assert!(run_load(&mut dram, 2, 4).is_err());
    assert!(run_store(&mut dram, 3, vec![1, 2]).is_err());
}

#[test]
fn busy_dram_refuses_second_access() {
    let mut dram = Dram::new(8);
    let req = BusAccessRequst::new_load(String::from("p"), 0, 0, 4);
    dram.access(req).unwrap();
    assert!(!dram.is_idle());
    let req2 = BusAccessRequst::new_load(String::from("p"), 1, 0, 4);
    assert!(dram.access(req2).is_err());
}
