use mem3::txlog::{
    end_atomic, log_entry_address, restore_globals, restore_globals1, restore_globals1_next_round, save_variables, save_variables1, start_atomic,
    ByteCopy, CheckpointState, MemWrite, COUNTER_ADDR, DATA_BASE, LOG_BASE,
};

#[test]
fn new_state_is_empty_and_outside_regions() {
    let s = CheckpointState::new();
    assert_eq!(s.transaction_log(), LOG_BASE);
    assert_eq!(s.data_loc(), DATA_BASE);
    assert!(s.execution_mode());
}

#[test]
fn atomic_region_switches_mode_and_empties_log() {
    let mut s = CheckpointState::new();
    start_atomic(&mut s);
    assert!(!s.execution_mode());
    save_variables(&mut s, 0x2000_1234, 2, 0);
    assert_eq!(s.transaction_log(), LOG_BASE + 8);
    end_atomic(&mut s);
    assert!(s.execution_mode());
    assert_eq!(s.transaction_log(), LOG_BASE);
    assert_eq!(s.data_loc(), DATA_BASE + 2);
}

#[test]
fn save_variables_appends_address_size_and_counts() {
    let mut s = CheckpointState::new();
    let w = save_variables(&mut s, 0x2000_1234, 2, 7);
    assert_eq!(
        w,
        vec![
            MemWrite::Word { addr: LOG_BASE, value: 0x2000_1234 },
            MemWrite::Word { addr: LOG_BASE + 4, value: 2 },
            MemWrite::Half { addr: DATA_BASE, value: 0x1234 },
            MemWrite::Half { addr: COUNTER_ADDR, value: 8 },
        ]
    );
    let w2 = save_variables(&mut s, 0x2000_0010, 4, 8);
    assert_eq!(w2[0], MemWrite::Word { addr: LOG_BASE + 8, value: 0x2000_0010 });
    assert_eq!(w2[2], MemWrite::Half { addr: DATA_BASE + 2, value: 0x0010 });
}

#[test]
fn save_variables1_spreads_bytes_over_even_addresses() {
    let mut s = CheckpointState::new();
    let w = save_variables1(&mut s, 0x2000_1234, &vec![0xAA, 0xBB], 0);
    assert_eq!(
        w,
        vec![
            MemWrite::Byte { addr: LOG_BASE, value: 0x34 },
            MemWrite::Byte { addr: LOG_BASE + 2, value: 0x12 },
            MemWrite::Byte { addr: LOG_BASE + 4, value: 0x00 },
            MemWrite::Byte { addr: LOG_BASE + 6, value: 0x20 },
            MemWrite::Byte { addr: LOG_BASE + 8, value: 2 },
            MemWrite::Byte { addr: LOG_BASE + 10, value: 0xAA },
            MemWrite::Byte { addr: LOG_BASE + 12, value: 0xBB },
            MemWrite::Half { addr: COUNTER_ADDR, value: 1 },
        ]
    );
    assert_eq!(s.transaction_log(), LOG_BASE + 14);
}

#[test]
fn restore_globals_relinks_each_counted_step() {
    let mut s = CheckpointState::new();
    let w = restore_globals(&mut s, 2);
    assert_eq!(
        w,
        vec![
            MemWrite::Word { addr: LOG_BASE, value: LOG_BASE + 8 },
            MemWrite::Word { addr: LOG_BASE + 12, value: LOG_BASE + 20 },
        ]
    );
    assert_eq!(s.transaction_log(), LOG_BASE + 24);
    assert!(restore_globals(&mut s, 0).is_empty());
}

#[test]
fn entry_address_combines_shifted_words() {
    assert_eq!(log_entry_address(&[0x34, 0x12, 0x00, 0x20]), 0x2000_1234);
    assert_eq!(log_entry_address(&[0x0000_0034, 0x0012_0000, 0, 0]), 0x1200_0034);
    assert_eq!(log_entry_address(&[0xFF00_0000, 0, 0, 0x1]), 0xFF00_0000 | 0x0100_0000);
}

#[test]
fn restore_globals1_copies_from_the_log_to_the_entry_address() {
    let s = CheckpointState::new();
    let copy = restore_globals1(&s, &[0x34, 0x12, 0x00, 0x20], 3);
    assert_eq!(copy, ByteCopy { from: LOG_BASE, to: 0x2000_1234, len: 3 });
}

#[test]
fn byte_log_rounds_stop_when_the_counter_is_reached() {
    assert_eq!(restore_globals1_next_round(0, 0), None);
    assert_eq!(restore_globals1_next_round(0, 3), Some(1));
    assert_eq!(restore_globals1_next_round(2, 3), Some(3));
    assert_eq!(restore_globals1_next_round(3, 3), None);
    assert_eq!(restore_globals1_next_round(u16::MAX, u16::MAX), None);
}
