use tomasulo::execution_path::ArgState;
use tomasulo::factory::{Factory, Function, MemFunction};
use tomasulo::processor::Processor;
use tomasulo::util::raw_to_u32_big_endian;
use tomasulo::virtual_machine::Machine;

fn flush(vm: &mut Machine) {
    while vm.next_flush_cycle().is_ok() {}
}

fn program_strings(program: &[&str]) -> Vec<String> {
    program.iter().map(|i| i.to_string()).collect()
}

fn machine_with(arith_units: usize, mem_units: usize, program: &[&str], ram: usize) -> Machine {
    let mut p = Processor::new();
    let mut ff = Factory::new();
    for _ in 0..arith_units {
        let unit = ff.new_unit(Function::Arithmetic);
        p.add_path(unit).unwrap();
    }
    for _ in 0..mem_units {
        let unit = ff.new_mem_unit(MemFunction::MemoryAccess);
        p.add_mem_path(unit).unwrap();
    }
    Machine::new(p, program_strings(program), ram)
}

fn run_to_completion(vm: &mut Machine) {
    while vm.next_cycle().is_ok() {}
    flush(vm);
}

fn assert_registers(p: &Processor, expect: &[u32]) {
    let regs = p.peek_registers();
    for (i, (r, e)) in regs.iter().zip(expect.iter()).enumerate() {
        assert_eq!(*r, ArgState::Ready(*e), "register {} differs", i);
    }
}

#[test]
fn factory_new_units() {
    let mut ff = Factory::new();
    let units: Vec<_> = (0..10).map(|_| ff.new_unit(Function::Arithmetic)).collect();
    for (i, u) in units.iter().enumerate() {
        let expect = format!("{}{}", u.function(), i);
        assert_eq!(expect, u.name());
    }
}

#[test]
fn sequential_execution() -> Result<(), String> {
    let program = [
        "addi R1, R0, #100", // R1 = 100
        "addi R2, R0, #200", // R2 = 200
        "add R3, R1, R2",    // R3 = 300
        "add R4, R1, R3",    // R4 = 400
        "add R3, R4, R3",    // R3 = 700
        "addi R1, R5, #400", // R1 = 400
        "add R5, R1, R2",    // R5 = 600
    ];
    let reg_expect = [0, 400, 200, 700, 400, 600, 0, 0, 0, 0, 0, 0, 0, 0, 0, 0];

    let mut vm = machine_with(2, 0, &program, 0);
    run_to_completion(&mut vm);
    let (p, _) = vm.splite();
    assert_registers(&p, &reg_expect);
    Ok(())
}

#[test]
fn arthmatic_unit_exec() {
    let program = [
        "addi R1, R0, #100", // R1 = 100
        "addi R2, R0, #200", // R2 = 200
        "add R3, R1, R2",    // R3 = 300
        "add R4, R1, R3",    // R4 = 400
        "add R3, R4, R3",    // R3 = 700
        "addi R1, R5, #400", // R1 = 400
        "add R5, R1, R2",    // R5 = 600
    ];
    let mut p = Processor::new();
    let mut ff = Factory::new();
    for _ in 0..2 {
        p.add_path(ff.new_unit(Function::Arithmetic)).unwrap();
    }
    for _ in 0..100 {
        let line = p.fetch_address();
        let inst = if line >= program.len() {
            "nop"
        } else {
            program[line]
        };
        p.next_cycle(inst).unwrap();
    }
    let regs = p.peek_registers();
    assert!(matches!(regs[1], ArgState::Ready(400)));
    assert!(matches!(regs[2], ArgState::Ready(200)), "R2: {:?}", regs[2]);
    assert!(matches!(regs[3], ArgState::Ready(700)));
    assert!(matches!(regs[4], ArgState::Ready(400)));
    assert!(matches!(regs[5], ArgState::Ready(600)));
}

#[test]
fn memory_access() -> Result<(), String> {
    // j and k live at DRAM offsets 10 and 14; three unrolled iterations of
    // j += 4; k += 5 starting from zeroes.
    let expect_j = (12u32, 10u32); // (value, address)
    let expect_k = (15u32, 14u32);
    let program = [
        "addi R1, R0, #0",
        "addi R2, R0, #10",
        "sw R1, R2, #0",
        "sw R1, R2, #4",
        "addi R3, R0, #4",
        "addi R4, R0, #5",
        // First iteration
        "lw R1, R2, #0",
        "add R1, R3, R1",
        "sw R1, R2, #0",
        "lw R1, R2, #4",
        "add R1, R4, R1",
        "sw R1, R2, #4",
        // Second iteration
        "lw R1, R2, #0",
        "add R1, R3, R1",
        "sw R1, R2, #0",
        "lw R1, R2, #4",
        "add R1, R4, R1",
        "sw R1, R2, #4",
        // Third iteration
        "lw R1, R2, #0",
        "add R1, R3, R1",
        "sw R1, R2, #0",
        "lw R1, R2, #4",
        "add R1, R4, R1",
        "sw R1, R2, #4",
    ];
    let mut vm = machine_with(2, 1, &program, 200);
    run_to_completion(&mut vm);

    let (_processor, dram) = vm.splite();

    let check = |expect: (u32, u32)| {
        let expect_value = expect.0;
        let address = expect.1 as usize;
        let got = raw_to_u32_big_endian(&dram[address..address + 4]);
        assert_eq!(got, expect_value);
    };
    check(expect_j);
    check(expect_k);
    Ok(())
}

#[test]
fn raw_chain() {
    // addi R1,R0,#100; addi R1,R1,#200; add R2,R1,R1: the dependent add must
    // wait for both writes to R1.
    let program = ["addi R1, R0, #100", "addi R1, R1, #200", "add R2, R1, R1"];
    let mut vm = machine_with(1, 0, &program, 0);
    run_to_completion(&mut vm);
    let (p, _) = vm.splite();
    let mut expect = [0u32; 16];
    expect[1] = 300;
    expect[2] = 600;
    assert_registers(&p, &expect);
}

#[test]
fn multiply_latency() {
    let program = ["addi R1, R0, #7", "muli R2, R1, #6", "mul R3, R2, R2"];
    let mut vm = machine_with(2, 0, &program, 0);
    run_to_completion(&mut vm);
    let (p, _) = vm.splite();
    let mut expect = [0u32; 16];
    expect[1] = 7;
    expect[2] = 42;
    expect[3] = 1764;
    assert_registers(&p, &expect);
}

#[test]
fn wrapping_arithmetic() {
    // 2^31 + 2^31 wraps to zero; (2^16)^2 wraps to zero.
    let program = [
        "addi R1, R0, #2147483648",
        "add R2, R1, R1",
        "addi R3, R0, #65536",
        "mul R4, R3, R3",
        "addi R5, R4, #9",
    ];
    let mut vm = machine_with(2, 0, &program, 0);
    run_to_completion(&mut vm);
    let (p, _) = vm.splite();
    let mut expect = [0u32; 16];
    expect[1] = 0x8000_0000;
    expect[2] = 0;
    expect[3] = 65536;
    expect[4] = 0;
    expect[5] = 9;
    assert_registers(&p, &expect);
}

#[test]
fn store_load_round_trip() {
    // One memory unit, two arithmetic units, DRAM of 16 bytes.
    let program = [
        "addi R2, R0, #10",
        "addi R3, R0, #4",
        "sw R3, R2, #0",
        "lw R1, R2, #0",
    ];
    let mut vm = machine_with(2, 1, &program, 16);
    run_to_completion(&mut vm);
    let (p, dram) = vm.splite();
    let regs = p.peek_registers();
    assert_eq!(regs[1], ArgState::Ready(4));
    assert_eq!(&dram[10..14], &[0, 0, 0, 4]);
}

#[test]
fn load_store_hazard() {
    // The lw to the same address must wait for the prior sw.
    let program = [
        "addi R1, R0, #7",
        "addi R2, R0, #0",
        "sw R1, R2, #0",
        "lw R3, R2, #0",
        "addi R4, R3, #1",
    ];
    let mut vm = machine_with(2, 1, &program, 8);
    run_to_completion(&mut vm);
    let (p, _) = vm.splite();
    let regs = p.peek_registers();
    assert_eq!(regs[3], ArgState::Ready(7));
    assert_eq!(regs[4], ArgState::Ready(8));
}

#[test]
fn bus_contention() {
    // Two equal-latency adds issued back to back on two units: the single
    // result bus serializes their writebacks onto different cycles.
    let program = ["addi R1, R0, #1", "addi R2, R0, #2"];
    let mut p = Processor::new();
    let mut ff = Factory::new();
    for _ in 0..2 {
        p.add_path(ff.new_unit(Function::Arithmetic)).unwrap();
    }
    let waiting = |p: &Processor, i: usize| matches!(p.peek_registers()[i], ArgState::Waiting(_));
    let ready = |p: &Processor, i: usize| matches!(p.peek_registers()[i], ArgState::Ready(_));
    let mut r1_waited = false;
    let mut r2_waited = false;
    let mut r1_cycle = None;
    let mut r2_cycle = None;
    for cycle in 0..100 {
        let line = p.fetch_address();
        let inst = if line >= program.len() {
            "nop"
        } else {
            program[line]
        };
        p.next_cycle(inst).unwrap();
        if waiting(&p, 1) {
            r1_waited = true;
        } else if r1_waited && r1_cycle.is_none() && ready(&p, 1) {
            r1_cycle = Some(cycle);
        }
        if waiting(&p, 2) {
            r2_waited = true;
        } else if r2_waited && r2_cycle.is_none() && ready(&p, 2) {
            r2_cycle = Some(cycle);
        }
    }
    let regs = p.peek_registers();
    assert_eq!(regs[1], ArgState::Ready(1));
    assert_eq!(regs[2], ArgState::Ready(2));
    // Both completed, on different writeback cycles.
    assert_ne!(r1_cycle.unwrap(), r2_cycle.unwrap());
}

#[test]
fn access_error_aborts_the_step() {
    // A load far outside the 8-byte DRAM: the error response surfaces on
    // commit and the step reports it.
    let program = ["lw R1, R0, #1000"];
    let mut vm = machine_with(0, 1, &program, 8);
    while vm.next_cycle().is_ok() {}
    let mut last: Result<(), String> = Ok(());
    for _ in 0..200 {
        let r = vm.next_flush_cycle();
        if r.is_err() {
            last = r;
            break;
        }
    }
    assert_eq!(last.unwrap_err(), "Result bus carried an access error");
}

#[test]
fn stall_keeps_fetch_address() {
    // A single two-slot unit: once it is full of unresolvable work the
    // fetch address stops advancing until a slot frees up.
    let program = [
        "addi R1, R0, #1",
        "addi R2, R1, #1",
        "addi R3, R2, #1",
        "addi R4, R3, #1",
        "addi R5, R4, #1",
    ];
    let mut vm = machine_with(1, 0, &program, 0);
    run_to_completion(&mut vm);
    let (p, _) = vm.splite();
    let mut expect = [0u32; 16];
    expect[1] = 1;
    expect[2] = 2;
    expect[3] = 3;
    expect[4] = 4;
    expect[5] = 5;
    assert_registers(&p, &expect);
}

#[test]
fn duplicate_path_name_refused() {
    let mut p = Processor::new();
    // The built-in no-operation path already owns its reserved name.
    let another = tomasulo::execution_path::ExecPath::Nop(tomasulo::nop_unit::Unit::new());
    assert!(p.add_path(another).is_err());
}

#[test]
fn fetch_past_program_end_fails() {
    let program = ["addi R1, R0, #1"];
    let mut vm = machine_with(1, 0, &program, 0);
    while vm.next_cycle().is_ok() {}
    // The fetch address has run off the program text.
    assert!(vm.next_cycle().is_err());
    flush(&mut vm);
    let (p, _) = vm.splite();
    assert_eq!(p.peek_registers()[1], ArgState::Ready(1));
}
