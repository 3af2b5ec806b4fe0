use tomasulo::decoder::TokenType;
use tomasulo::execution_path::{ArgState, BusAccess, BusAccessRequst, RStag};
use tomasulo::memory_access_unit::{access_overlap, AccessArgs, AccessInst, MemAddress};
use tomasulo::queue::Queue;
use tomasulo::register::RegisterFile;
use tomasulo::reservation_station::RenamedInst;
use tomasulo::util::{raw_to_u32_big_endian, u32_to_raw_big_endian};

#[test]
#[allow(non_snake_case)]
fn Sametype() {
    let a = TokenType::Immediate;
    let b = TokenType::Immediate;
    assert!(a.matches(&b));
}

#[test]
#[allow(non_snake_case)]
fn Register_Writeback() {
    let a = TokenType::Register;
    let b = TokenType::Writeback;
    assert!(a.matches(&b));
}

#[test]
#[allow(non_snake_case)]
fn Writeback_Register() {
    let a = TokenType::Writeback;
    let b = TokenType::Register;
    assert!(a.matches(&b));
}

#[test]
#[allow(non_snake_case)]
fn Register_Immediate() {
    let a = TokenType::Register;
    let b = TokenType::Immediate;
    assert!(!a.matches(&b));
}

#[test]
#[allow(non_snake_case)]
fn Writeback_Immediate() {
    let a = TokenType::Writeback;
    let b = TokenType::Immediate;
    assert!(!a.matches(&b));
}

#[test]
fn register_new() {
    let rf = RegisterFile::new();
    assert_eq!(16, rf.size());
    for i in 0..rf.size() {
        assert_eq!(ArgState::Ready(0), rf.read(i));
    }
}

#[test]
fn register_write_match() {
    let mut rf = RegisterFile::new();
    let tag = RStag::new("name", 1);
    let write_val = 100;
    let to_write = [0usize, 10, 15];
    for idx in to_write.iter() {
        rf.rename(*idx, tag.clone());
    }

    rf.write(tag, write_val);

    for idx in to_write.iter() {
        assert_eq!(ArgState::Ready(write_val), rf.read(*idx));
    }
}

#[test]
fn register_write_not_match() {
    let mut rf = RegisterFile::new();
    let tag_set = RStag::new("name", 1);
    let tag_write = RStag::new("name", 2);
    let to_not_match = 5;
    let write_val = 100;
    rf.rename(to_not_match, tag_set.clone());

    rf.write(tag_write, write_val);

    // The mismatching entry keeps waiting on its own tag.
    assert_eq!(ArgState::Waiting(tag_set), rf.read(to_not_match));
}

const TEST_CAPACITY: usize = 10;

#[test]
fn init() {
    let q: Queue<usize> = Queue::new(TEST_CAPACITY);
    assert_eq!(q.capacity(), TEST_CAPACITY);
    assert_eq!(q.len(), 0);
}

#[test]
fn insert_and_pop() -> Result<(), String> {
    let mut q = Queue::new(TEST_CAPACITY);
    for i in 0..TEST_CAPACITY {
        q.insert(i)?;
    }
    for i in 0..TEST_CAPACITY {
        let elt = q
            .pop()
            .ok_or(format!("{}th element is empty, expect something here", i))?;
        assert_eq!(elt, i);
    }
    Ok(())
}

#[test]
fn iteration() -> Result<(), String> {
    let mut q = Queue::new(TEST_CAPACITY);
    for i in 0..TEST_CAPACITY {
        q.insert(i)?;
    }
    for i in 0..TEST_CAPACITY {
        let v = q.get(i).ok_or("missing element".to_string())?;
        assert_eq!(i, *v);
    }
    for i in 0..TEST_CAPACITY {
        let elt = q
            .pop()
            .ok_or(format!("{}th element is empty, expect something here", i))?;
        assert_eq!(i, elt);
    }
    Ok(())
}

#[test]
fn iteration_mut() -> Result<(), String> {
    let mut q = Queue::new(TEST_CAPACITY);
    for i in 0..TEST_CAPACITY {
        q.insert(i)?;
    }
    for i in 0..TEST_CAPACITY {
        let v = q.get_mut(i).ok_or("missing element".to_string())?;
        *v = *v * 2;
    }
    for i in 0..TEST_CAPACITY {
        let v = q.get(i).ok_or("missing element".to_string())?;
        assert_eq!(i * 2, *v);
    }
    for i in 0..TEST_CAPACITY {
        let elt = q
            .pop()
            .ok_or(format!("{}th element is empty, expect something here", i))?;
        assert_eq!(i * 2, elt);
    }
    Ok(())
}

#[test]
fn queue_full_insert_fails() {
    let mut q: Queue<u32> = Queue::new(1);
    assert!(q.insert(7).is_ok());
    assert!(q.is_full());
    assert!(q.insert(8).is_err());
    assert_eq!(Some(7), q.pop());
    assert_eq!(None, q.pop());
}

const U32: u32 = 0x0A0B0C0D;
const RAW: [u8; 4] = [0xA, 0xB, 0xC, 0xD];

#[test]
fn test_raw_data_to_u32() {
    let got = raw_to_u32_big_endian(&RAW);
    let expect = U32;
    assert_eq!(got, expect);
}

#[test]
fn test_u32_to_raw() {
    let got = u32_to_raw_big_endian(U32);
    let expect = RAW;
    assert_eq!(&got[..], &expect);
}

#[test]
fn overlap() {
    let first = 10;
    let second = 20;
    let third = 30;
    let fourth = 40;

    assert_eq!(access_overlap(third, fourth, first, second), false, "A > B");
    assert_eq!(access_overlap(first, second, third, fourth), false, "A < B");
    assert_eq!(
        access_overlap(second, fourth, first, third),
        true,
        "A > B parital overlap"
    );
    assert_eq!(
        access_overlap(first, fourth, second, third),
        true,
        "A covered B"
    );
    assert_eq!(
        access_overlap(first, third, second, fourth),
        true,
        "A < B partial overlap"
    );
    assert_eq!(
        access_overlap(second, third, first, fourth),
        true,
        "B covered A"
    );
}

#[test]
fn ready_check_for_load() {
    let base = RStag::new("base", 10);
    let mut inst = AccessInst {
        name: String::from("lw"),
        args: AccessArgs::Load(MemAddress::Evaluating(ArgState::Waiting(base.clone()), 10)),
        dependencies: Vec::new(),
    };

    assert_eq!(false, inst.is_ready());

    inst.forwarding(&base, 10);

    assert_eq!(true, inst.is_ready());
}

#[test]
fn ready_check_for_store() {
    let base = RStag::new("base", 10);
    let source = RStag::new("source", 10);
    let mut inst = AccessInst {
        name: String::from("sw"),
        args: AccessArgs::Store(
            ArgState::Waiting(source.clone()),
            MemAddress::Evaluating(ArgState::Waiting(base.clone()), 10),
        ),
        dependencies: Vec::new(),
    };

    assert_eq!(false, inst.is_ready());

    inst.forwarding(&base, 10);

    assert_eq!(false, inst.is_ready());

    inst.forwarding(&source, 10);

    assert_eq!(true, inst.is_ready());
}

#[test]
fn access_inst_waits_for_dependencies() {
    let dep = RStag::new("mem_access0", 4);
    let mut inst = AccessInst {
        name: String::from("lw"),
        args: AccessArgs::Load(MemAddress::Evaluated(16)),
        dependencies: vec![dep.clone()],
    };
    // All arguments ready, but the dependency list still names an earlier
    // overlapping access.
    assert_eq!(false, inst.is_ready());
    inst.forwarding(&dep, 0);
    assert_eq!(true, inst.is_ready());
}

#[test]
fn round_trip_be() {
    for v in [0u32, 1, 4, 256, 0xDEAD_BEEF, u32::MAX] {
        assert_eq!(v, raw_to_u32_big_endian(&u32_to_raw_big_endian(v)));
    }
}

#[test]
fn request_shape() {
    let req = BusAccessRequst::new_load(String::from("mem_access0"), 2, 64, 4);
    match req.request() {
        BusAccess::Load(base, len) => {
            assert_eq!(*base, 64);
            assert_eq!(*len, 4);
        }
        _ => panic!("expected a load"),
    }
    let resp = req.into_respose(Err(String::from("no answer")));
    assert_eq!(resp.path_name(), "mem_access0");
    assert_eq!(resp.slot(), 2);
    assert!(resp.into_result().is_err());
}
