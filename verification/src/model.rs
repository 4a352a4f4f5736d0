//! The mathematical model of the machine: a ghost record of the interpreter
//! state and a pure transition function giving the meaning of every opcode.

use vstd::prelude::*;

use crate::Chip8Error;

verus! {

/// Bytes of addressable memory.
pub const MEMORY_SIZE: usize = 4096;
/// Address at which a loaded program begins and where execution starts.
pub const PROGRAM_START: usize = 0x200;
/// Number of general-purpose registers `V0..VF`.
pub const NUM_REGISTERS: usize = 16;
/// Capacity of the call stack.
pub const STACK_DEPTH: usize = 16;
/// Framebuffer columns.
pub const DISPLAY_WIDTH: usize = 64;
/// Framebuffer rows.
pub const DISPLAY_HEIGHT: usize = 32;
/// Framebuffer cells: one boolean per pixel, row-major.
pub const DISPLAY_CELLS: usize = 2048;
/// Number of keypad lines, one per hexadecimal key.
pub const NUM_KEYS: usize = 16;
/// Bytes taken by the built-in font: 16 glyphs of 5 bytes each.
pub const FONT_BYTES: usize = 80;

/// The abstract machine state. Executable state is viewed as one of these,
/// and every operation's contract is stated over it.
#[verifier::ext_equal]
pub ghost struct MachineView {
    /// 4096 bytes of memory; the font sits in the first 80 bytes.
    pub memory: Seq<u8>,
    /// The 16 registers `V0..VF`; `V15` doubles as the carry/collision flag.
    pub v: Seq<u8>,
    /// The 16-bit index register `I`.
    pub i: u16,
    /// Delay timer.
    pub dt: u8,
    /// Sound timer.
    pub st: u8,
    /// Program counter.
    pub pc: u16,
    /// Count of pushed return addresses; the stack is empty when it is 0.
    pub sp: u8,
    /// The 16-slot call stack; slots below `sp` hold return addresses.
    pub stack: Seq<u16>,
    /// 2048 pixel cells, row-major, `true` means lit.
    pub display: Seq<bool>,
    /// One `true` per key currently held down.
    pub keypad: Seq<bool>,
}

impl MachineView {
    /// Shape invariant: every component has its fixed size and the stack
    /// pointer counts no more slots than exist.
    pub open spec fn wf(self) -> bool {
        &&& self.memory.len() == MEMORY_SIZE
        &&& self.v.len() == NUM_REGISTERS
        &&& self.stack.len() == STACK_DEPTH
        &&& self.display.len() == DISPLAY_CELLS
        &&& self.keypad.len() == NUM_KEYS
        &&& self.sp <= STACK_DEPTH
    }
}

/// The built-in font: 16 glyphs (hexadecimal digits 0 through F), each five
/// bytes, one 8-pixel row per byte, most significant bit leftmost.
pub open spec fn font() -> Seq<u8> {
    seq![
        0xF0u8, 0x90, 0x90, 0x90, 0xF0, // 0
        0x20, 0x60, 0x20, 0x20, 0x70, // 1
        0xF0, 0x10, 0xF0, 0x80, 0xF0, // 2
        0xF0, 0x10, 0xF0, 0x10, 0xF0, // 3
        0x90, 0x90, 0xF0, 0x10, 0x10, // 4
        0xF0, 0x80, 0xF0, 0x10, 0xF0, // 5
        0xF0, 0x80, 0xF0, 0x90, 0xF0, // 6
        0xF0, 0x10, 0x20, 0x40, 0x40, // 7
        0xF0, 0x90, 0xF0, 0x90, 0xF0, // 8
        0xF0, 0x90, 0xF0, 0x10, 0xF0, // 9
        0xF0, 0x90, 0xF0, 0x90, 0x90, // A
        0xE0, 0x90, 0xE0, 0x90, 0xE0, // B
        0xF0, 0x80, 0x80, 0x80, 0xF0, // C
        0xE0, 0x90, 0x90, 0x90, 0xE0, // D
        0xF0, 0x80, 0xF0, 0x80, 0xF0, // E
        0xF0, 0x80, 0xF0, 0x80, 0x80, // F
    ]
}

/// Memory as construction leaves it: the font in the low 80 bytes, zero
/// everywhere else.
pub open spec fn initial_memory() -> Seq<u8> {
    Seq::new(MEMORY_SIZE as nat, |j: int| if 0 <= j < FONT_BYTES { font()[j] } else { 0u8 })
}

/// An entirely unlit framebuffer.
pub open spec fn blank_display() -> Seq<bool> {
    Seq::new(DISPLAY_CELLS as nat, |j: int| false)
}

/// The state a freshly constructed machine is in.
pub open spec fn initial() -> MachineView {
    MachineView {
        memory: initial_memory(),
        v: Seq::new(NUM_REGISTERS as nat, |j: int| 0u8),
        i: 0,
        dt: 0,
        st: 0,
        pc: PROGRAM_START as u16,
        sp: 0,
        stack: Seq::new(STACK_DEPTH as nat, |j: int| 0u16),
        display: blank_display(),
        keypad: Seq::new(NUM_KEYS as nat, |j: int| false),
    }
}

/// The state after a full reset followed by copying `rom` into memory at
/// the program start address.
pub open spec fn loaded(rom: Seq<u8>) -> MachineView {
    MachineView {
        memory: Seq::new(
            MEMORY_SIZE as nat,
            |j: int|
                if PROGRAM_START <= j < PROGRAM_START + rom.len() {
                    rom[j - PROGRAM_START]
                } else {
                    initial_memory()[j]
                },
        ),
        ..initial()
    }
}

/// Both instruction bytes lie inside memory, so a fetch can happen.
pub open spec fn can_fetch(s: MachineView) -> bool {
    s.pc as int + 1 < MEMORY_SIZE
}

/// The 16-bit instruction word at the program counter: two consecutive
/// bytes combined big-endian.
pub open spec fn fetched_word(s: MachineView) -> int {
    s.memory[s.pc as int] * 256 + s.memory[s.pc as int + 1]
}

/// `s` with the program counter moved past one further instruction (the
/// conditional-skip effect).
pub open spec fn skip(s: MachineView) -> MachineView {
    MachineView { pc: (s.pc + 2) as u16, ..s }
}

/// `s` with register `x` set to `val`.
pub open spec fn set_v(s: MachineView, x: int, val: u8) -> MachineView {
    MachineView { v: s.v.update(x, val), ..s }
}

/// `s` with the flag register `VF` set to `val`.
pub open spec fn set_vf(s: MachineView, val: u8) -> MachineView {
    set_v(s, 15, val)
}

/// The lowest index at or above `k` of a key that is down, or 16 when no
/// key at or above `k` is down.
pub open spec fn first_key_from(keys: Seq<bool>, k: int) -> int
    decreases NUM_KEYS - k,
{
    if k < 0 || k >= NUM_KEYS {
        NUM_KEYS as int
    } else if keys[k] {
        k
    } else {
        first_key_from(keys, k + 1)
    }
}

/// One fetch-decode-execute cycle as a mathematical function. `rb` stands
/// for the byte the random source hands the `Cxkk` instruction; no other
/// instruction reads it. The result is the next state, or the error the
/// cycle reports, in which case the machine is left as it was.
pub open spec fn step_spec(s: MachineView, rb: u8) -> Result<MachineView, Chip8Error> {
    if !can_fetch(s) {
        Err(Chip8Error::OutOfBounds)
    } else {
        instr_spec(MachineView { pc: (s.pc + 2) as u16, ..s }, fetched_word(s), rb)
    }
}

/// The effect of instruction word `w` on state `s`, where `s` already has
/// the program counter advanced past the word. Dispatches on the leading
/// nibble, then for families 0, 8, E and F on the trailing byte or nibble.
pub open spec fn instr_spec(s: MachineView, w: int, rb: u8) -> Result<MachineView, Chip8Error> {
    let x = (w / 0x100) % 0x10;
    let y = (w / 0x10) % 0x10;
    let n = w % 0x10;
    let kk = (w % 0x100) as u8;
    let nnn = (w % 0x1000) as u16;
    let fam = w / 0x1000;
    if fam == 0x0 {
        if w % 0x1000 == 0x0E0 {
            // 00E0: clear the framebuffer.
            Ok(MachineView { display: blank_display(), ..s })
        } else if w % 0x1000 == 0x0EE {
            // 00EE: return from a call; underflow is an error.
            if s.sp == 0 {
                Err(Chip8Error::OutOfBounds)
            } else {
                Ok(MachineView { pc: s.stack[s.sp - 1], sp: (s.sp - 1) as u8, ..s })
            }
        } else {
            Err(Chip8Error::UnknownOpcode)
        }
    } else if fam == 0x1 {
        // 1nnn: jump.
        Ok(MachineView { pc: nnn, ..s })
    } else if fam == 0x2 {
        // 2nnn: call; push the address of the next instruction.
        if s.sp >= STACK_DEPTH {
            Err(Chip8Error::OutOfBounds)
        } else {
            Ok(
                MachineView {
                    stack: s.stack.update(s.sp as int, s.pc),
                    sp: (s.sp + 1) as u8,
                    pc: nnn,
                    ..s
                },
            )
        }
    } else if fam == 0x3 {
        // 3xkk: skip if Vx == kk.
        Ok(if s.v[x] == kk { skip(s) } else { s })
    } else if fam == 0x4 {
        // 4xkk: skip if Vx != kk.
        Ok(if s.v[x] != kk { skip(s) } else { s })
    } else if fam == 0x5 {
        // 5xy0: skip if Vx == Vy.
        if n == 0 {
            Ok(if s.v[x] == s.v[y] { skip(s) } else { s })
        } else {
            Err(Chip8Error::UnknownOpcode)
        }
    } else if fam == 0x6 {
        // 6xkk: Vx = kk.
        Ok(set_v(s, x, kk))
    } else if fam == 0x7 {
        // 7xkk: Vx = Vx + kk, wrapping, no flag.
        Ok(set_v(s, x, ((s.v[x] + kk) % 256) as u8))
    } else if fam == 0x8 {
        alu_spec(s, x, y, n)
    } else if fam == 0x9 {
        // 9xy0: skip if Vx != Vy.
        if n == 0 {
            Ok(if s.v[x] != s.v[y] { skip(s) } else { s })
        } else {
            Err(Chip8Error::UnknownOpcode)
        }
    } else if fam == 0xA {
        // Annn: I = nnn.
        Ok(MachineView { i: nnn, ..s })
    } else if fam == 0xB {
        // Bnnn: jump to V0 + nnn.
        Ok(MachineView { pc: (s.v[0] + nnn) as u16, ..s })
    } else if fam == 0xC {
        // Cxkk: Vx = random byte AND kk.
        Ok(set_v(s, x, rb & kk))
    } else if fam == 0xD {
        draw_step(s, x, y, n)
    } else if fam == 0xE {
        key_skip_spec(s, x, w % 0x100)
    } else {
        fx_spec(s, x, w % 0x100)
    }
}

/// The 8xyn register-to-register family: moves, bitwise operations,
/// wrapping add and subtract with the flag in `VF`, and the two shifts.
pub open spec fn alu_spec(s: MachineView, x: int, y: int, n: int) -> Result<
    MachineView,
    Chip8Error,
> {
    let vx = s.v[x];
    let vy = s.v[y];
    if n == 0x0 {
        Ok(set_v(s, x, vy))
    } else if n == 0x1 {
        Ok(set_v(s, x, vx | vy))
    } else if n == 0x2 {
        Ok(set_v(s, x, vx & vy))
    } else if n == 0x3 {
        Ok(set_v(s, x, vx ^ vy))
    } else if n == 0x4 {
        // Wrapping add; VF records the carry and wins when x is 15.
        Ok(set_vf(set_v(s, x, ((vx + vy) % 256) as u8), if vx + vy > 255 { 1 } else { 0 }))
    } else if n == 0x5 {
        // Vx - Vy wrapping; VF records the borrow.
        Ok(set_vf(set_v(s, x, ((vx + 256 - vy) % 256) as u8), if vx < vy { 1 } else { 0 }))
    } else if n == 0x6 {
        // VF takes the low bit of Vx, then Vx doubles, wrapping. The flag is
        // written first, so for x = 15 the doubling acts on the flag value.
        let s1 = set_vf(s, (vx & 1) as u8);
        Ok(set_v(s1, x, ((s1.v[x] * 2) % 256) as u8))
    } else if n == 0x7 {
        // Vy - Vx wrapping into Vx; VF records the borrow.
        Ok(set_vf(set_v(s, x, ((vy + 256 - vx) % 256) as u8), if vy < vx { 1 } else { 0 }))
    } else if n == 0xE {
        // VF takes the high bit of Vx, then Vx doubles, wrapping, as above.
        let s1 = set_vf(s, if vx >= 128 { 1 } else { 0 });
        Ok(set_v(s1, x, ((s1.v[x] * 2) % 256) as u8))
    } else {
        Err(Chip8Error::UnknownOpcode)
    }
}

/// The Ex family: skip on the state of the key named by Vx. A register
/// value outside the 16 keypad lines is an out-of-range access.
pub open spec fn key_skip_spec(s: MachineView, x: int, low: int) -> Result<
    MachineView,
    Chip8Error,
> {
    if low == 0x9E {
        if s.v[x] >= NUM_KEYS {
            Err(Chip8Error::OutOfBounds)
        } else {
            Ok(if s.keypad[s.v[x] as int] { skip(s) } else { s })
        }
    } else if low == 0xA1 {
        if s.v[x] >= NUM_KEYS {
            Err(Chip8Error::OutOfBounds)
        } else {
            Ok(if !s.keypad[s.v[x] as int] { skip(s) } else { s })
        }
    } else {
        Err(Chip8Error::UnknownOpcode)
    }
}

/// The Fx family: timers, the blocking key wait, index arithmetic, the
/// font lookup, decimal digits, and the register block stores and loads.
pub open spec fn fx_spec(s: MachineView, x: int, low: int) -> Result<MachineView, Chip8Error> {
    let vx = s.v[x];
    if low == 0x07 {
        // Fx07: Vx = DT.
        Ok(set_v(s, x, s.dt))
    } else if low == 0x0A {
        // Fx0A: wait for a key. With one down, Vx takes the lowest such
        // index and the cycle completes; with none, the program counter is
        // rewound so the next step repeats the wait.
        let k = first_key_from(s.keypad, 0);
        if k < NUM_KEYS {
            Ok(set_v(s, x, k as u8))
        } else {
            Ok(MachineView { pc: (s.pc - 2) as u16, ..s })
        }
    } else if low == 0x15 {
        // Fx15: DT = Vx.
        Ok(MachineView { dt: vx, ..s })
    } else if low == 0x18 {
        // Fx18: ST = Vx.
        Ok(MachineView { st: vx, ..s })
    } else if low == 0x1E {
        // Fx1E: I = I + Vx, 16-bit wrapping, no flag.
        Ok(MachineView { i: ((s.i + vx) % 0x10000) as u16, ..s })
    } else if low == 0x29 {
        // Fx29: I = address of the built-in glyph for Vx.
        Ok(MachineView { i: (vx * 5) as u16, ..s })
    } else if low == 0x33 {
        // Fx33: decimal digits of Vx at I, I+1, I+2.
        if s.i + 3 > MEMORY_SIZE {
            Err(Chip8Error::OutOfBounds)
        } else {
            Ok(
                MachineView {
                    memory: s.memory.update(s.i as int, (vx / 100) as u8).update(
                        s.i as int + 1,
                        ((vx % 100) / 10) as u8,
                    ).update(s.i as int + 2, (vx % 10) as u8),
                    ..s
                },
            )
        }
    } else if low == 0x55 {
        // Fx55: store V0..VF at I..I+15.
        if s.i + NUM_REGISTERS > MEMORY_SIZE {
            Err(Chip8Error::OutOfBounds)
        } else {
            Ok(
                MachineView {
                    memory: Seq::new(
                        MEMORY_SIZE as nat,
                        |j: int|
                            if s.i <= j < s.i + NUM_REGISTERS {
                                s.v[j - s.i]
                            } else {
                                s.memory[j]
                            },
                    ),
                    ..s
                },
            )
        }
    } else if low == 0x65 {
        // Fx65: load V0..VF from I..I+15.
        if s.i + NUM_REGISTERS > MEMORY_SIZE {
            Err(Chip8Error::OutOfBounds)
        } else {
            Ok(
                MachineView {
                    v: Seq::new(NUM_REGISTERS as nat, |j: int| s.memory[s.i + j]),
                    ..s
                },
            )
        }
    } else {
        Err(Chip8Error::UnknownOpcode)
    }
}

/// Whether bit `col` (counted from the leftmost, most significant bit) of
/// a sprite row byte is set.
pub open spec fn bit_set(b: u8, col: int) -> bool {
    (b >> (7 - col) as u8) & 1 == 1
}

/// The framebuffer cell a sprite bit at column `col` of row `row` lands
/// on when the sprite is anchored at `(vx, vy)`: both coordinates wrap.
pub open spec fn draw_index(vx: u8, vy: u8, col: int, row: int) -> int {
    (vx + col) % (DISPLAY_WIDTH as int) + ((vy + row) % (DISPLAY_HEIGHT as int)) * (
    DISPLAY_WIDTH as int)
}

/// Whether any set bit of the `n`-row sprite at memory address `i`, drawn
/// anchored at `(vx, vy)`, lands on cell `idx`.
pub open spec fn sprite_hit(mem: Seq<u8>, i: int, vx: u8, vy: u8, n: int, idx: int) -> bool {
    exists|row: int, col: int|
        0 <= row < n && 0 <= col < 8 && bit_set(mem[i + row], col) && #[trigger] draw_index(
            vx,
            vy,
            col,
            row,
        ) == idx
}

/// The framebuffer after the draw: every cell a sprite bit lands on is
/// toggled, every other cell keeps its value.
pub open spec fn draw_display(d: Seq<bool>, mem: Seq<u8>, i: int, vx: u8, vy: u8, n: int) -> Seq<
    bool,
> {
    Seq::new(d.len(), |idx: int| d[idx] != sprite_hit(mem, i, vx, vy, n, idx))
}

/// Whether the draw toggled an already-lit cell.
pub open spec fn draw_collision(d: Seq<bool>, mem: Seq<u8>, i: int, vx: u8, vy: u8, n: int) -> bool {
    exists|idx: int| 0 <= idx < d.len() && d[idx] && sprite_hit(mem, i, vx, vy, n, idx)
}

/// Dxyn: reads the `n` sprite rows at `I` — an error if they reach past
/// the end of memory — toggles the cells their set bits land on, and puts
/// the collision flag in `VF`.
pub open spec fn draw_step(s: MachineView, x: int, y: int, n: int) -> Result<
    MachineView,
    Chip8Error,
> {
    if n > 0 && s.i + n > MEMORY_SIZE {
        Err(Chip8Error::OutOfBounds)
    } else {
        let d2 = draw_display(s.display, s.memory, s.i as int, s.v[x], s.v[y], n);
        let col = draw_collision(s.display, s.memory, s.i as int, s.v[x], s.v[y], n);
        Ok(set_vf(MachineView { display: d2, ..s }, if col { 1 } else { 0 }))
    }
}

} // verus!
