use mem3::flash::{
    clear_error_flags, delete_all_pg, delete_pg, erase_all, erase_page, flash_action, flash_step, unlock,
    wait_ready, write_to_flash, FlashAction, FlashBit, FlashInstr, FlashState, FlashWrite, ERASE_BASE,
    UNLOCK_KEY1, UNLOCK_KEY2,
};

/// Runs a script against a list of bit values; returns the writes and the
/// result, stopping when the replies run out.
fn simulate(script: &Vec<FlashInstr>, replies: &[bool]) -> (Vec<FlashWrite>, Option<bool>, bool) {
    let mut pc = 0;
    let mut next_reply = 0;
    let mut writes = Vec::new();
    loop {
        let bit = match flash_action(script, pc) {
            FlashAction::Done => return (writes, None, true),
            FlashAction::Write(w) => {
                writes.push(w);
                false
            }
            FlashAction::Read(_) => {
                if next_reply == replies.len() {
                    return (writes, None, false);
                }
                next_reply += 1;
                replies[next_reply - 1]
            }
        };
        match flash_step(script, pc, bit) {
            FlashState::Running(p) => pc = p,
            FlashState::Returned(r) => return (writes, Some(r), true),
        }
    }
}

#[test]
fn unlock_of_unlocked_flash_writes_nothing() {
    assert_eq!(simulate(&unlock(), &[false]), (vec![], Some(true), true));
}

#[test]
fn unlock_writes_both_keys() {
    let keys = vec![FlashWrite::Key(UNLOCK_KEY1), FlashWrite::Key(UNLOCK_KEY2)];
    assert_eq!(simulate(&unlock(), &[true, false]), (keys.clone(), Some(true), true));
    assert_eq!(simulate(&unlock(), &[true, true]), (keys, Some(false), true));
}

#[test]
fn wait_ready_polls_until_clear() {
    assert_eq!(simulate(&wait_ready(), &[true, true, false]), (vec![], None, true));
    assert_eq!(simulate(&wait_ready(), &[true, true]), (vec![], None, false));
}

#[test]
fn clear_error_flags_clears_what_is_set() {
    assert_eq!(
        simulate(&clear_error_flags(), &[true, false]),
        (vec![FlashWrite::ClearWriteProtectError], None, true)
    );
    assert_eq!(
        simulate(&clear_error_flags(), &[false, true]),
        (vec![FlashWrite::ClearProgrammingError], None, true)
    );
}

#[test]
fn erase_page_selects_starts_and_locks() {
    let (w, r, done) = simulate(&erase_page(0x0803_0800), &[true, false, false, true, false, false]);
    assert!(done);
    assert_eq!(r, None);
    assert_eq!(
        w,
        vec![
            FlashWrite::ReportBusy,
            FlashWrite::SetPageErase,
            FlashWrite::SetAddress(0x0803_0800),
            FlashWrite::SetStart,
            FlashWrite::SetLock,
        ]
    );
}

#[test]
fn write_to_flash_programs_low_then_high_half() {
    let (w, _, done) = simulate(&write_to_flash(0x0801_0F10, 0x1234_5678), &[false, false, false, false, false, true]);
    assert!(done);
    assert_eq!(
        w,
        vec![
            FlashWrite::SetProgram,
            FlashWrite::ProgramHalfWord(0x0801_0F10, 0x5678),
            FlashWrite::ProgramHalfWord(0x0801_0F12, 0x1234),
            FlashWrite::SetLock,
            FlashWrite::ClearEndOfOperation,
            FlashWrite::ClearProgram,
        ]
    );
}

#[test]
fn write_to_flash_unlocks_a_locked_flash_first() {
    let (w, _, _) = simulate(&write_to_flash(0x0801_0F10, 40), &[true, false, false, false, false, false, false]);
    assert_eq!(w[0], FlashWrite::Key(UNLOCK_KEY1));
    assert_eq!(w[1], FlashWrite::Key(UNLOCK_KEY2));
    assert_eq!(w[3], FlashWrite::ProgramHalfWord(0x0801_0F10, 40));
    assert_eq!(w[4], FlashWrite::ProgramHalfWord(0x0801_0F12, 0));
}

#[test]
fn delete_pg_unlocks_waits_and_erases() {
    let script = delete_pg(ERASE_BASE);
    assert_eq!(script[0], FlashInstr::SkipIfClear(FlashBit::Lock, 3));
    assert_eq!(script[4], FlashInstr::WaitWhileSet(FlashBit::Busy));
    assert_eq!(script[5..], erase_page(ERASE_BASE)[..]);
}

#[test]
fn bulk_erase_covers_consecutive_pages() {
    let all = erase_all();
    assert_eq!(all.len(), 100 * 12);
    assert_eq!(all[12 * 99..], erase_page(ERASE_BASE + 99 * 2048)[..]);
    let some = delete_all_pg();
    assert_eq!(some.len(), 25 * 17);
    assert_eq!(some[17 * 24..], delete_pg(ERASE_BASE + 24 * 2048)[..]);
}
