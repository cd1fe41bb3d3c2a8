use mem3::frame::{
    checkpoint, restore, stack_word_count, Registers, RestoreError, RestoreOutcome, ResumePlan, FRAME_REGION_WORDS,
    JIT_TAG, STACK_END_MARKER, STACK_TOP, STATIC_TAG,
};

fn regs() -> Registers {
    let mut r = [0u32; 13];
    for (k, v) in r.iter_mut().enumerate() {
        *v = 100 + k as u32;
    }
    Registers { r, lr: 200, pc: 300 }
}

fn region_of(frame: &[u32]) -> Vec<u32> {
    let mut region = frame.to_vec();
    region.resize(FRAME_REGION_WORDS, 0xFFFF_FFFF);
    region
}

#[test]
fn stack_word_count_covers_top_to_end() {
    assert_eq!(stack_word_count(STACK_TOP), 1);
    assert_eq!(stack_word_count(STACK_TOP - 8), 3);
    assert_eq!(stack_word_count(STACK_TOP - 9), 3);
    assert_eq!(stack_word_count(STACK_TOP - 12), 4);
}

#[test]
fn checkpoint_lays_out_the_frame() {
    let end = STACK_TOP - 8;
    let stack = vec![11, 12, 13];
    let frame = checkpoint(true, &regs(), end, &stack);
    let mut expected = vec![88, STATIC_TAG, 11, 12, 13, STACK_END_MARKER];
    expected.extend(100..113);
    expected.extend([end, 200, 300]);
    assert_eq!(frame, expected);
    assert_eq!(frame[0] as usize, 4 * frame.len());
}

#[test]
fn size_field_counts_the_stack_range() {
    let frame = checkpoint(true, &regs(), STACK_TOP - 9, &vec![1, 2, 3]);
    assert_eq!(frame[0], 9 + 4 + 76);
    assert_eq!(frame.len(), 22);
}

#[test]
fn jit_checkpoint_is_tagged_jit() {
    let frame = checkpoint(false, &regs(), STACK_TOP, &vec![7]);
    assert_eq!(frame[0], 4 + 4 + 64 + 4 + 4);
    assert_eq!(frame[1], JIT_TAG);
    assert_eq!(frame.len(), 1 + 19);
}

#[test]
fn restore_resumes_a_static_checkpoint() {
    let end = STACK_TOP - 8;
    let frame = checkpoint(true, &regs(), end, &vec![11, 12, 13]);
    let plan = restore(&region_of(&frame)).unwrap();
    assert_eq!(
        plan,
        RestoreOutcome::Resume(ResumePlan {
            reset_counter: true,
            pushes: vec![12, 13, 100],
            regs: (101..113).collect(),
            lr: 200,
        })
    );
}

#[test]
fn restore_keeps_the_counter_after_a_jit_checkpoint() {
    let frame = checkpoint(false, &regs(), STACK_TOP, &vec![7]);
    match restore(&region_of(&frame)).unwrap() {
        RestoreOutcome::Resume(plan) => {
            assert!(!plan.reset_counter);
            assert_eq!(plan.pushes, vec![100]);
            assert_eq!(plan.lr, 200);
        }
        RestoreOutcome::NoCheckpoint => panic!("expected a checkpoint"),
    }
}

#[test]
fn zero_size_means_no_checkpoint() {
    assert_eq!(restore(&region_of(&[0, 5, 6])), Ok(RestoreOutcome::NoCheckpoint));
}

#[test]
fn missing_marker_is_an_error() {
    let region = vec![88u32; 40];
    assert_eq!(restore(&region), Err(RestoreError::NoStackEnd));
}

#[test]
fn truncated_frame_is_an_error() {
    assert_eq!(restore(&vec![]), Err(RestoreError::FrameTooShort));
    assert_eq!(restore(&vec![88, STATIC_TAG]), Err(RestoreError::FrameTooShort));
    let mut short = vec![88, STATIC_TAG, 1, STACK_END_MARKER];
    short.extend(0..10);
    assert_eq!(restore(&short), Err(RestoreError::FrameTooShort));
}

#[test]
fn stack_word_equal_to_marker_ends_the_stack_early() {
    let end = STACK_TOP - 8;
    let frame = checkpoint(true, &regs(), end, &vec![11, STACK_END_MARKER, 13]);
    match restore(&region_of(&frame)).unwrap() {
        RestoreOutcome::Resume(plan) => {
            assert_eq!(plan.pushes, vec![13]);
            assert_eq!(plan.lr, 112);
        }
        RestoreOutcome::NoCheckpoint => panic!("expected a checkpoint"),
    }
}
