# mem3

Crash consistency for an STM32F303 board with an external FRAM bank.

The library (`src/`) holds the logic, proved with Verus:

- `txlog`: the undo log of atomic regions (`start_atomic`, `end_atomic`,
  `save_variables`, `save_variables1`) and the routines that walk it back.
- `frame`: the checkpoint frame that saves the stack and the registers to
  FRAM, and how a restart reads it back; `lemma_restore_resumes_checkpoint`
  proves that a restart resumes the checkpoint that was taken.
- `flash`: the flash procedures (unlock, erase, program) as scripts of
  register steps, with an interpreter for them.
- `instrument`: the write-after-read analysis behind the `#[my_proc_macro]`
  attribute, which inserts `save_variables(..)` calls into atomic regions,
  and the reading of a function's text with `syn` into the analysis' model.

`app/` is the firmware around it: register access, inline assembly for the
core registers, the memory accesses, and the rendering of the inserted
saves as tokens. `tests/` exercises the library on
concrete values.
