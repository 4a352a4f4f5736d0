//! Laws of the machine: properties that hold across instructions, stated
//! over the model and proved once for all states and programs.

use vstd::prelude::*;

use crate::Chip8Error;
use crate::model::{
    blank_display, can_fetch, draw_collision, draw_display, fetched_word, first_key_from, font,
    initial, sprite_hit, step_spec, MachineView, DISPLAY_CELLS, FONT_BYTES, MEMORY_SIZE, NUM_KEYS,
    NUM_REGISTERS,
};

verus! {

/// A fresh machine has every register, both timers, the index register
/// and the stack pointer at zero, the program counter at 0x200, an unlit
/// framebuffer, no key down, the font in the low 80 memory bytes and zero
/// in every byte above them.
pub proof fn lemma_initial_state()
    ensures
        initial().wf(),
        initial().pc == 0x200,
        initial().sp == 0,
        initial().i == 0,
        initial().dt == 0,
        initial().st == 0,
        forall|j: int| 0 <= j < NUM_REGISTERS ==> initial().v[j] == 0u8,
        forall|j: int| 0 <= j < DISPLAY_CELLS ==> !initial().display[j],
        forall|j: int| 0 <= j < FONT_BYTES ==> initial().memory[j] == font()[j],
        forall|j: int| FONT_BYTES <= j < MEMORY_SIZE ==> initial().memory[j] == 0u8,
        forall|j: int| 0 <= j < NUM_KEYS ==> !initial().keypad[j],
{
}

/// Executing `00E0` unlights every framebuffer cell, whatever the cells
/// held before, and touches nothing but the display and the program
/// counter, which moves to the next instruction.
pub proof fn lemma_clear_screen(s: MachineView, rb: u8)
    requires
        s.wf(),
        can_fetch(s),
        fetched_word(s) == 0x00E0,
    ensures
        step_spec(s, rb) is Ok,
        step_spec(s, rb)->Ok_0.display == blank_display(),
        forall|j: int| 0 <= j < DISPLAY_CELLS ==> !step_spec(s, rb)->Ok_0.display[j],
        step_spec(s, rb)->Ok_0 == (MachineView {
            display: blank_display(),
            pc: (s.pc + 2) as u16,
            ..s
        }),
{
}

/// A call followed by the matching return comes back to the instruction
/// right after the call, with the stack pointer as it was before the
/// call: `2nnn` pushes the return address that `00EE` then pops.
pub proof fn lemma_call_then_return(s: MachineView, rb1: u8, rb2: u8)
    requires
        s.wf(),
        can_fetch(s),
        fetched_word(s) / 0x1000 == 0x2,
        s.sp < 16,
        fetched_word(s) % 0x1000 + 1 < MEMORY_SIZE,
        s.memory[fetched_word(s) % 0x1000] == 0x00u8,
        s.memory[fetched_word(s) % 0x1000 + 1] == 0xEEu8,
    ensures
        step_spec(s, rb1) is Ok,
        step_spec(step_spec(s, rb1)->Ok_0, rb2) is Ok,
        step_spec(step_spec(s, rb1)->Ok_0, rb2)->Ok_0.pc == s.pc + 2,
        step_spec(step_spec(s, rb1)->Ok_0, rb2)->Ok_0.sp == s.sp,
{
    let t = step_spec(s, rb1)->Ok_0;
    assert(t.pc == fetched_word(s) % 0x1000);
    assert(fetched_word(t) == 0x00EE);
}

/// Drawing the identical sprite at the identical location twice returns
/// the framebuffer to its state before the first draw, and each draw
/// reports collision exactly where its own prior content was lit: the
/// first where a cell of `d` under a sprite bit was lit, the second where
/// one was unlit (the first draw lit it).
pub proof fn lemma_draw_twice_restores(
    d: Seq<bool>,
    mem: Seq<u8>,
    i: int,
    vx: u8,
    vy: u8,
    n: int,
)
    ensures
        draw_display(draw_display(d, mem, i, vx, vy, n), mem, i, vx, vy, n) =~= d,
        draw_collision(d, mem, i, vx, vy, n) == (exists|idx: int|
            0 <= idx < d.len() && d[idx] && sprite_hit(mem, i, vx, vy, n, idx)),
        draw_collision(draw_display(d, mem, i, vx, vy, n), mem, i, vx, vy, n) == (exists|idx: int|
            0 <= idx < d.len() && !d[idx] && sprite_hit(mem, i, vx, vy, n, idx)),
{
    let d1 = draw_display(d, mem, i, vx, vy, n);
    if draw_collision(d1, mem, i, vx, vy, n) {
        let idx = choose|idx: int|
            0 <= idx < d1.len() && d1[idx] && sprite_hit(mem, i, vx, vy, n, idx);
        assert(!d[idx] && sprite_hit(mem, i, vx, vy, n, idx));
    }
    if exists|idx: int| 0 <= idx < d.len() && !d[idx] && sprite_hit(mem, i, vx, vy, n, idx) {
        let idx = choose|idx: int|
            0 <= idx < d.len() && !d[idx] && sprite_hit(mem, i, vx, vy, n, idx);
        assert(d1[idx] && sprite_hit(mem, i, vx, vy, n, idx));
        assert(draw_collision(d1, mem, i, vx, vy, n));
    }
}

/// With no key down, the key wait `Fx0A` leaves the machine exactly as it
/// was, so every further step repeats the wait until a key goes down.
pub proof fn lemma_wait_key_blocks(s: MachineView, rb: u8)
    requires
        s.wf(),
        can_fetch(s),
        fetched_word(s) / 0x1000 == 0xF,
        fetched_word(s) % 0x100 == 0x0A,
        forall|k: int| 0 <= k < NUM_KEYS ==> !s.keypad[k],
    ensures
        step_spec(s, rb) == Ok::<MachineView, Chip8Error>(s),
{
    lemma_first_key_none(s.keypad, 0);
    let t = step_spec(s, rb)->Ok_0;
    assert(t =~= s);
}

/// With the lowest down key at index `k`, the key wait `Fx0A` completes:
/// `Vx` takes `k` and the program counter moves to the next instruction.
pub proof fn lemma_wait_key_resumes(s: MachineView, rb: u8, k: int)
    requires
        s.wf(),
        can_fetch(s),
        fetched_word(s) / 0x1000 == 0xF,
        fetched_word(s) % 0x100 == 0x0A,
        0 <= k < NUM_KEYS,
        s.keypad[k],
        forall|j: int| 0 <= j < k ==> !s.keypad[j],
    ensures
        step_spec(s, rb) is Ok,
        step_spec(s, rb)->Ok_0.v == s.v.update((fetched_word(s) / 0x100) % 0x10, k as u8),
        step_spec(s, rb)->Ok_0.pc == s.pc + 2,
{
    lemma_first_key_found(s.keypad, 0, k);
}

/// Adding `8xy4` sets the flag register to 1 exactly when the byte sum
/// overflows, and (when `x` is not the flag register itself) leaves the
/// wrapped sum in `Vx`.
pub proof fn lemma_add_with_carry(s: MachineView, rb: u8)
    requires
        s.wf(),
        can_fetch(s),
        fetched_word(s) / 0x1000 == 0x8,
        fetched_word(s) % 0x10 == 0x4,
    ensures
        step_spec(s, rb) is Ok,
        ({
            let x = (fetched_word(s) / 0x100) % 0x10;
            let y = (fetched_word(s) / 0x10) % 0x10;
            let t = step_spec(s, rb)->Ok_0;
            &&& t.v[15] == (if s.v[x] + s.v[y] > 255 {
                1u8
            } else {
                0u8
            })
            &&& (x != 15 ==> t.v[x] == ((s.v[x] + s.v[y]) % 256) as u8)
            &&& t.pc == s.pc + 2
        }),
{
}

/// Subtracting `8xy5` sets the flag register to 1 exactly when the
/// subtraction borrows, and (when `x` is not the flag register itself)
/// leaves the wrapped difference in `Vx`.
pub proof fn lemma_sub_with_borrow(s: MachineView, rb: u8)
    requires
        s.wf(),
        can_fetch(s),
        fetched_word(s) / 0x1000 == 0x8,
        fetched_word(s) % 0x10 == 0x5,
    ensures
        step_spec(s, rb) is Ok,
        ({
            let x = (fetched_word(s) / 0x100) % 0x10;
            let y = (fetched_word(s) / 0x10) % 0x10;
            let t = step_spec(s, rb)->Ok_0;
            &&& t.v[15] == (if s.v[x] < s.v[y] {
                1u8
            } else {
                0u8
            })
            &&& (x != 15 ==> t.v[x] == ((s.v[x] + 256 - s.v[y]) % 256) as u8)
            &&& t.pc == s.pc + 2
        }),
{
}

/// Only `Cxkk` consults the random source: for a state about to execute
/// any other instruction, the step relation does not depend on the byte
/// the source hands over, so the machine is deterministic there.
pub proof fn lemma_step_ignores_random(s: MachineView, rb1: u8, rb2: u8)
    requires
        can_fetch(s) ==> fetched_word(s) / 0x1000 != 0xC,
    ensures
        step_spec(s, rb1) == step_spec(s, rb2),
{
}

/// `first_key_from` finds no key when none at or above `lo` is down.
proof fn lemma_first_key_none(keys: Seq<bool>, lo: int)
    requires
        0 <= lo <= NUM_KEYS,
        forall|j: int| lo <= j < NUM_KEYS ==> !keys[j],
    ensures
        first_key_from(keys, lo) == NUM_KEYS,
    decreases NUM_KEYS - lo,
{
    if lo < NUM_KEYS {
        lemma_first_key_none(keys, lo + 1);
    }
}

/// `first_key_from` finds exactly the lowest down key at or above `lo`.
proof fn lemma_first_key_found(keys: Seq<bool>, lo: int, k: int)
    requires
        0 <= lo <= k < NUM_KEYS,
        keys[k],
        forall|j: int| lo <= j < k ==> !keys[j],
    ensures
        first_key_from(keys, lo) == k,
    decreases k - lo,
{
    if lo < k {
        lemma_first_key_found(keys, lo + 1, k);
    }
}

} // verus!
