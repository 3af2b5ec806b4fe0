use tomasulo::arithmetic_unit::ArithInst;
use tomasulo::execution_path::ArgState;
use tomasulo::reservation_station::ReservationStation;

fn new_inst() -> ArithInst {
    ArithInst {
        name: String::from("inst"),
        arg0: ArgState::Ready(1),
        arg1: ArgState::Ready(2),
    }
}

#[test]
fn arthmatic_unit_pending() {
    let size = 10;
    let mut station: ReservationStation<ArithInst> = ReservationStation::new(size);
    let inst_cnt = 5;
    for _ in 0..inst_cnt {
        station.insert(new_inst());
    }
    assert_eq!(inst_cnt, station.pending());
}

#[test]
fn reservation_station_pending() {
    let size = 10;
    let mut station: ReservationStation<ArithInst> = ReservationStation::new(size);
    let inst_cnt = 5;
    for _ in 0..inst_cnt {
        station.insert(new_inst());
    }
    assert_eq!(inst_cnt, station.occupied());
}

#[test]
fn station_counts_within_capacity() {
    let mut station: ReservationStation<ArithInst> = ReservationStation::new(3);
    for _ in 0..3 {
        assert!(station.insert(new_inst()).is_some());
    }
    assert!(station.is_full());
    assert!(station.insert(new_inst()).is_none());
    assert!(station.pending() <= station.occupied());
    assert!(station.occupied() <= station.capacity());
}

#[test]
fn reserved_slot_lifecycle() {
    let mut station: ReservationStation<ArithInst> = ReservationStation::new(2);
    let idx = station.reserve().unwrap();
    // A reserved slot counts as occupied but not pending.
    assert_eq!(1, station.occupied());
    assert_eq!(0, station.pending());
    // Only the reserved slot accepts the deferred insert.
    assert!(station.insert_into_reserved_slot(new_inst(), 1 - idx).is_err());
    assert_eq!(idx, station.insert_into_reserved_slot(new_inst(), idx).unwrap());
    assert_eq!(1, station.pending());
    // Ready, execute, resolve.
    let ready = station.ready().unwrap();
    assert_eq!(idx, ready);
    station.start_execute(idx).unwrap();
    assert_eq!(0, station.pending());
    assert_eq!(1, station.occupied());
    station.sloved(idx);
    assert_eq!(0, station.occupied());
}
