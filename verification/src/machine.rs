//! The executable machine: the interpreter state and its operations, each
//! proved against the model in `model`.

use vstd::prelude::*;

use crate::Chip8Error;
use crate::draw::draw_sprite;
use crate::model::{
    MachineView, fetched_word, first_key_from, font, initial, initial_memory, instr_spec, loaded,
    step_spec, MEMORY_SIZE, PROGRAM_START, NUM_REGISTERS, STACK_DEPTH, DISPLAY_WIDTH,
    DISPLAY_HEIGHT, DISPLAY_CELLS, NUM_KEYS, FONT_BYTES,
};

verus! {

/// Relies on rand::random, which draws from the thread-local generator:
/// one byte, of whose value nothing is assumed.
#[verifier::external_body]
fn random_byte() -> u8 {
    rand::random::<u8>()
}

/// The CHIP-8 machine: memory, registers, index register, timers, program
/// counter, call stack, framebuffer and keypad. Its abstract value is a
/// `MachineView`; every operation's contract is stated over that view.
pub struct Chip8 {
    memory: Vec<u8>,
    v: Vec<u8>,
    i: u16,
    dt: u8,
    st: u8,
    pc: u16,
    sp: u8,
    stack: Vec<u16>,
    display: Vec<bool>,
    keypad: Vec<bool>,
}

impl View for Chip8 {
    type V = MachineView;

    closed spec fn view(&self) -> MachineView {
        MachineView {
            memory: self.memory@,
            v: self.v@,
            i: self.i,
            dt: self.dt,
            st: self.st,
            pc: self.pc,
            sp: self.sp,
            stack: self.stack@,
            display: self.display@,
            keypad: self.keypad@,
        }
    }
}

/// A vector of `n` copies of `val`.
fn filled<T: Copy>(n: usize, val: T) -> (r: Vec<T>)
    ensures
        r@ =~= Seq::new(n as nat, |j: int| val),
{
    let mut r: Vec<T> = Vec::new();
    while r.len() < n
        invariant
            r@.len() <= n,
            forall|j: int| 0 <= j < r@.len() ==> r@[j] == val,
        decreases n - r@.len(),
    {
        r.push(val);
    }
    r
}

/// The font table as an executable vector, equal to the model's `font()`.
fn font_table() -> (r: Vec<u8>)
    ensures
        r@ == font(),
{
    let mut t: Vec<u8> = Vec::new();
    t.push(0xF0);
    t.push(0x90);
    t.push(0x90);
    t.push(0x90);
    t.push(0xF0);
    t.push(0x20);
    t.push(0x60);
    t.push(0x20);
    t.push(0x20);
    t.push(0x70);
    t.push(0xF0);
    t.push(0x10);
    t.push(0xF0);
    t.push(0x80);
    t.push(0xF0);
    t.push(0xF0);
    t.push(0x10);
    t.push(0xF0);
    t.push(0x10);
    t.push(0xF0);
    t.push(0x90);
    t.push(0x90);
    t.push(0xF0);
    t.push(0x10);
    t.push(0x10);
    t.push(0xF0);
    t.push(0x80);
    t.push(0xF0);
    t.push(0x10);
    t.push(0xF0);
    t.push(0xF0);
    t.push(0x80);
    t.push(0xF0);
    t.push(0x90);
    t.push(0xF0);
    t.push(0xF0);
    t.push(0x10);
    t.push(0x20);
    t.push(0x40);
    t.push(0x40);
    t.push(0xF0);
    t.push(0x90);
    t.push(0xF0);
    t.push(0x90);
    t.push(0xF0);
    t.push(0xF0);
    t.push(0x90);
    t.push(0xF0);
    t.push(0x10);
    t.push(0xF0);
    t.push(0xF0);
    t.push(0x90);
    t.push(0xF0);
    t.push(0x90);
    t.push(0x90);
    t.push(0xE0);
    t.push(0x90);
    t.push(0xE0);
    t.push(0x90);
    t.push(0xE0);
    t.push(0xF0);
    t.push(0x80);
    t.push(0x80);
    t.push(0x80);
    t.push(0xF0);
    t.push(0xE0);
    t.push(0x90);
    t.push(0x90);
    t.push(0x90);
    t.push(0xE0);
    t.push(0xF0);
    t.push(0x80);
    t.push(0xF0);
    t.push(0x80);
    t.push(0xF0);
    t.push(0xF0);
    t.push(0x80);
    t.push(0xF0);
    t.push(0x80);
    t.push(0x80);
    proof {
        assert(t@ =~= font());
    }
    t
}

impl Chip8 {
    /// The shape invariant, stated over the view: every construction
    /// establishes it and every operation preserves it.
    pub open spec fn wf(&self) -> bool {
        self@.wf()
    }

    /// A fresh machine: zeroed memory but for the font in its first 80
    /// bytes, zeroed registers and timers, the program counter at the
    /// program start, an empty stack, a blank framebuffer, no key down.
    pub fn new() -> (c: Chip8)
        ensures
            c@ == initial(),
            c.wf(),
    {
        let font_tab = font_table();
        let mut memory = filled(MEMORY_SIZE, 0u8);
        let mut k: usize = 0;
        while k < FONT_BYTES
            invariant
                k <= FONT_BYTES,
                font_tab@ == font(),
                memory@.len() == MEMORY_SIZE,
                forall|j: int| 0 <= j < k ==> memory@[j] == font()[j],
                forall|j: int| k <= j < MEMORY_SIZE ==> memory@[j] == 0u8,
            decreases FONT_BYTES - k,
        {
            memory[k] = font_tab[k];
            k += 1;
        }
        let c = Chip8 {
            memory,
            v: filled(NUM_REGISTERS, 0u8),
            i: 0,
            dt: 0,
            st: 0,
            pc: 0x200,
            sp: 0,
            stack: filled(STACK_DEPTH, 0u16),
            display: filled(DISPLAY_CELLS, false),
            keypad: filled(NUM_KEYS, false),
        };
        proof {
            assert(c@.memory =~= initial_memory());
            assert(c@ =~= initial());
        }
        c
    }

    /// Fully resets the machine, then copies `rom` into memory starting at
    /// the program start address. The program must fit in memory.
    pub fn load_rom(&mut self, rom: &Vec<u8>)
        requires
            rom@.len() + PROGRAM_START <= MEMORY_SIZE,
        ensures
            final(self)@ == loaded(rom@),
            final(self).wf(),
    {
        *self = Chip8::new();
        let mut k: usize = 0;
        while k < rom.len()
            invariant
                k <= rom@.len(),
                rom@.len() + PROGRAM_START <= MEMORY_SIZE,
                self@ == (MachineView { memory: self@.memory, ..initial() }),
                self@.memory.len() == MEMORY_SIZE,
                forall|j: int|
                    PROGRAM_START <= j < PROGRAM_START + k ==> self@.memory[j] == rom@[j
                        - PROGRAM_START],
                forall|j: int|
                    (0 <= j < PROGRAM_START || PROGRAM_START + k <= j < MEMORY_SIZE)
                        ==> self@.memory[j] == initial_memory()[j],
            decreases rom@.len() - k,
        {
            self.memory[PROGRAM_START + k] = rom[k];
            k += 1;
        }
        proof {
            assert(self@.memory =~= loaded(rom@).memory);
            assert(self@ =~= loaded(rom@));
        }
    }

    /// Sets one keypad line. A key index outside the 16 lines is reported
    /// as `InvalidKey` and leaves the machine untouched.
    pub fn key_pressed(&mut self, key: u8, pressed: bool) -> (r: Result<(), Chip8Error>)
        requires
            old(self).wf(),
        ensures
            final(self).wf(),
            key < NUM_KEYS ==> r is Ok && final(self)@ == (MachineView {
                keypad: old(self)@.keypad.update(key as int, pressed),
                ..old(self)@
            }),
            key >= NUM_KEYS ==> r == Err::<(), Chip8Error>(Chip8Error::InvalidKey) && final(self)@
                == old(self)@,
    {
        if key >= 16 {
            return Err(Chip8Error::InvalidKey);
        }
        self.keypad[key as usize] = pressed;
        Ok(())
    }

    /// Framebuffer columns.
    pub fn width(&self) -> (w: u8)
        ensures
            w == DISPLAY_WIDTH,
    {
        64
    }

    /// Framebuffer rows.
    pub fn height(&self) -> (h: u8)
        ensures
            h == DISPLAY_HEIGHT,
    {
        32
    }

    /// A read view of the framebuffer: 2048 cells, row-major, `true` lit.
    pub fn display(&self) -> (d: &Vec<bool>)
        ensures
            d@ == self@.display,
    {
        &self.display
    }

    /// One 60 Hz tick: each timer that is above zero goes down by one, and
    /// the result says whether sound should currently be audible, that is,
    /// whether the sound timer is still above zero after the tick.
    pub fn handle_timers(&mut self) -> (sound: bool)
        ensures
            final(self)@ == (MachineView {
                dt: if old(self)@.dt > 0 {
                    (old(self)@.dt - 1) as u8
                } else {
                    0u8
                },
                st: if old(self)@.st > 0 {
                    (old(self)@.st - 1) as u8
                } else {
                    0u8
                },
                ..old(self)@
            }),
            sound == (final(self)@.st > 0),
            old(self).wf() ==> final(self).wf(),
    {
        if self.dt > 0 {
            self.dt = self.dt - 1;
        }
        if self.st > 0 {
            self.st = self.st - 1;
        }
        self.st > 0
    }

    /// One fetch-decode-execute cycle. On success the machine moves to the
    /// state `step_spec` gives, with the byte the random source handed to
    /// `Cxkk` existentially quantified — no other instruction reads it. On
    /// an error the machine is left exactly as it was, and `step_spec`
    /// reports that same error whatever byte the source would have drawn.
    pub fn step(&mut self) -> (r: Result<(), Chip8Error>)
        requires
            old(self).wf(),
        ensures
            final(self).wf(),
            r is Ok ==> exists|rb: u8|
                #[trigger] step_spec(old(self)@, rb) == Ok::<MachineView, Chip8Error>(
                    final(self)@,
                ),
            r is Err ==> final(self)@ == old(self)@ && (forall|rb: u8|
                #[trigger] step_spec(old(self)@, rb) == Err::<MachineView, Chip8Error>(r->Err_0)),
    {
        let ghost s0 = self@;
        if self.pc as usize + 1 >= MEMORY_SIZE {
            proof {
                assert forall|rb: u8| #[trigger] step_spec(s0, rb) == Err::<
                    MachineView,
                    Chip8Error,
                >(Chip8Error::OutOfBounds) by {}
            }
            return Err(Chip8Error::OutOfBounds);
        }
        let pc_old: u16 = self.pc;
        let hi = self.memory[self.pc as usize];
        let lo = self.memory[self.pc as usize + 1];
        let w: u16 = (hi as u16) * 256 + (lo as u16);
        let ghost wi = w as int;
        let x: usize = ((w as usize) / 0x100) % 0x10;
        let y: usize = ((w as usize) / 0x10) % 0x10;
        let n: usize = (w as usize) % 0x10;
        let kk: u8 = (w % 0x100) as u8;
        let nnn: u16 = w % 0x1000;
        let fam: u16 = w / 0x1000;
        self.pc = self.pc + 2;
        let ghost s1 = self@;
        proof {
            assert(wi == fetched_word(s0));
            assert(s1 =~= (MachineView { pc: (s0.pc + 2) as u16, ..s0 }));
            assert forall|rb: u8| #[trigger] step_spec(s0, rb) == instr_spec(s1, wi, rb) by {}
            assert(x as int == (wi / 0x100) % 0x10);
            assert(y as int == (wi / 0x10) % 0x10);
            assert(n as int == wi % 0x10);
            assert(kk == (wi % 0x100) as u8);
            assert(nnn == (wi % 0x1000) as u16);
            assert(fam as int == wi / 0x1000);
            assert(x < 16 && y < 16 && n < 16 && fam < 16);
        }
        match fam {
            0x0 => {
                if w == 0x00E0 {
                    self.display = filled(DISPLAY_CELLS, false);
                } else if w == 0x00EE {
                    if self.sp == 0 {
                        self.pc = pc_old;
                        proof {
                            assert(self@ =~= s0);
                            assert forall|rb: u8| #[trigger] step_spec(s0, rb) == Err::<
                                MachineView,
                                Chip8Error,
                            >(Chip8Error::OutOfBounds) by {}
                        }
                        return Err(Chip8Error::OutOfBounds);
                    }
                    self.sp = self.sp - 1;
                    let ret = self.stack[self.sp as usize];
                    self.pc = ret;
                } else {
                    self.pc = pc_old;
                    proof {
                        assert(self@ =~= s0);
                        assert forall|rb: u8| #[trigger] step_spec(s0, rb) == Err::<
                            MachineView,
                            Chip8Error,
                        >(Chip8Error::UnknownOpcode) by {}
                    }
                    return Err(Chip8Error::UnknownOpcode);
                }
            },
            0x1 => {
                self.pc = nnn;
            },
            0x2 => {
                if self.sp as usize >= STACK_DEPTH {
                    self.pc = pc_old;
                    proof {
                        assert(self@ =~= s0);
                        assert forall|rb: u8| #[trigger] step_spec(s0, rb) == Err::<
                            MachineView,
                            Chip8Error,
                        >(Chip8Error::OutOfBounds) by {}
                    }
                    return Err(Chip8Error::OutOfBounds);
                }
                let ret = self.pc;
                let spv = self.sp as usize;
                self.stack[spv] = ret;
                self.sp = self.sp + 1;
                self.pc = nnn;
            },
            0x3 => {
                if self.v[x] == kk {
                    self.pc = self.pc + 2;
                }
            },
            0x4 => {
                if self.v[x] != kk {
                    self.pc = self.pc + 2;
                }
            },
            0x5 => {
                if n != 0 {
                    self.pc = pc_old;
                    proof {
                        assert(self@ =~= s0);
                        assert forall|rb: u8| #[trigger] step_spec(s0, rb) == Err::<
                            MachineView,
                            Chip8Error,
                        >(Chip8Error::UnknownOpcode) by {}
                    }
                    return Err(Chip8Error::UnknownOpcode);
                }
                if self.v[x] == self.v[y] {
                    self.pc = self.pc + 2;
                }
            },
            0x6 => {
                self.v[x] = kk;
            },
            0x7 => {
                let vx = self.v[x];
                self.v[x] = ((vx as u16 + kk as u16) % 256) as u8;
            },
            0x8 => {
                let vx = self.v[x];
                let vy = self.v[y];
                match n {
                    0x0 => {
                        self.v[x] = vy;
                    },
                    0x1 => {
                        self.v[x] = vx | vy;
                    },
                    0x2 => {
                        self.v[x] = vx & vy;
                    },
                    0x3 => {
                        self.v[x] = vx ^ vy;
                    },
                    0x4 => {
                        let sum: u16 = vx as u16 + vy as u16;
                        self.v[x] = (sum % 256) as u8;
                        self.v[15] = if sum > 255 {
                            1
                        } else {
                            0
                        };
                    },
                    0x5 => {
                        let diff: u16 = vx as u16 + 256 - vy as u16;
                        self.v[x] = (diff % 256) as u8;
                        self.v[15] = if vx < vy {
                            1
                        } else {
                            0
                        };
                    },
                    0x6 => {
                        self.v[15] = vx & 1;
                        let cur = self.v[x];
                        self.v[x] = ((cur as u16 * 2) % 256) as u8;
                    },
                    0x7 => {
                        let diff: u16 = vy as u16 + 256 - vx as u16;
                        self.v[x] = (diff % 256) as u8;
                        self.v[15] = if vy < vx {
                            1
                        } else {
                            0
                        };
                    },
                    0xE => {
                        self.v[15] = if vx >= 128 {
                            1
                        } else {
                            0
                        };
                        let cur = self.v[x];
                        self.v[x] = ((cur as u16 * 2) % 256) as u8;
                    },
                    _ => {
                        self.pc = pc_old;
                        proof {
                            assert(self@ =~= s0);
                            assert forall|rb: u8| #[trigger] step_spec(s0, rb) == Err::<
                                MachineView,
                                Chip8Error,
                            >(Chip8Error::UnknownOpcode) by {}
                        }
                        return Err(Chip8Error::UnknownOpcode);
                    },
                }
            },
            0x9 => {
                if n != 0 {
                    self.pc = pc_old;
                    proof {
                        assert(self@ =~= s0);
                        assert forall|rb: u8| #[trigger] step_spec(s0, rb) == Err::<
                            MachineView,
                            Chip8Error,
                        >(Chip8Error::UnknownOpcode) by {}
                    }
                    return Err(Chip8Error::UnknownOpcode);
                }
                if self.v[x] != self.v[y] {
                    self.pc = self.pc + 2;
                }
            },
            0xA => {
                self.i = nnn;
            },
            0xB => {
                self.pc = self.v[0] as u16 + nnn;
            },
            0xC => {
                let rb = random_byte();
                self.v[x] = rb & kk;
                proof {
                    let t = instr_spec(s1, wi, rb);
                    assert(t is Ok);
                    assert(self@ =~= t->Ok_0);
                    assert(step_spec(s0, rb) == Ok::<MachineView, Chip8Error>(self@));
                }
                return Ok(());
            },
            0xD => {
                if n > 0 && self.i as usize + n > MEMORY_SIZE {
                    self.pc = pc_old;
                    proof {
                        assert(self@ =~= s0);
                        assert forall|rb: u8| #[trigger] step_spec(s0, rb) == Err::<
                            MachineView,
                            Chip8Error,
                        >(Chip8Error::OutOfBounds) by {}
                    }
                    return Err(Chip8Error::OutOfBounds);
                }
                let vx = self.v[x];
                let vy = self.v[y];
                let coll = draw_sprite(
                    &mut self.display,
                    &self.memory,
                    self.i as usize,
                    vx,
                    vy,
                    n as u8,
                );
                self.v[15] = if coll {
                    1
                } else {
                    0
                };
            },
            0xE => {
                let vx = self.v[x];
                if kk == 0x9E || kk == 0xA1 {
                    if vx as usize >= NUM_KEYS {
                        self.pc = pc_old;
                        proof {
                            assert(self@ =~= s0);
                            assert forall|rb: u8| #[trigger] step_spec(s0, rb) == Err::<
                                MachineView,
                                Chip8Error,
                            >(Chip8Error::OutOfBounds) by {}
                        }
                        return Err(Chip8Error::OutOfBounds);
                    }
                    let down = self.keypad[vx as usize];
                    if (kk == 0x9E && down) || (kk == 0xA1 && !down) {
                        self.pc = self.pc + 2;
                    }
                } else {
                    self.pc = pc_old;
                    proof {
                        assert(self@ =~= s0);
                        assert forall|rb: u8| #[trigger] step_spec(s0, rb) == Err::<
                            MachineView,
                            Chip8Error,
                        >(Chip8Error::UnknownOpcode) by {}
                    }
                    return Err(Chip8Error::UnknownOpcode);
                }
            },
            _ => {
                proof {
                    assert(fam == 0xF);
                }
                match kk {
                    0x07 => {
                        let dt = self.dt;
                        self.v[x] = dt;
                    },
                    0x0A => {
                        let mut k: usize = NUM_KEYS;
                        let mut j: usize = NUM_KEYS;
                        while j > 0
                            invariant
                                j <= NUM_KEYS,
                                self@ == s1,
                                s1.wf(),
                                k as int == first_key_from(s1.keypad, j as int),
                            decreases j,
                        {
                            j = j - 1;
                            if self.keypad[j] {
                                k = j;
                            }
                        }
                        if k < NUM_KEYS {
                            self.v[x] = k as u8;
                        } else {
                            self.pc = pc_old;
                            proof {
                                assert(self@ =~= (MachineView { pc: (s1.pc - 2) as u16, ..s1 }));
                            }
                        }
                    },
                    0x15 => {
                        let vx = self.v[x];
                        self.dt = vx;
                    },
                    0x18 => {
                        let vx = self.v[x];
                        self.st = vx;
                    },
                    0x1E => {
                        let sum: u32 = self.i as u32 + self.v[x] as u32;
                        self.i = (sum % 0x10000) as u16;
                    },
                    0x29 => {
                        let vx = self.v[x];
                        self.i = vx as u16 * 5;
                    },
                    0x33 => {
                        if self.i as usize + 3 > MEMORY_SIZE {
                            self.pc = pc_old;
                            proof {
                                assert(self@ =~= s0);
                                assert forall|rb: u8| #[trigger] step_spec(s0, rb) == Err::<
                                    MachineView,
                                    Chip8Error,
                                >(Chip8Error::OutOfBounds) by {}
                            }
                            return Err(Chip8Error::OutOfBounds);
                        }
                        let vx = self.v[x];
                        let base = self.i as usize;
                        self.memory[base] = vx / 100;
                        self.memory[base + 1] = (vx % 100) / 10;
                        self.memory[base + 2] = vx % 10;
                    },
                    0x55 => {
                        if self.i as usize + NUM_REGISTERS > MEMORY_SIZE {
                            self.pc = pc_old;
                            proof {
                                assert(self@ =~= s0);
                                assert forall|rb: u8| #[trigger] step_spec(s0, rb) == Err::<
                                    MachineView,
                                    Chip8Error,
                                >(Chip8Error::OutOfBounds) by {}
                            }
                            return Err(Chip8Error::OutOfBounds);
                        }
                        let base = self.i as usize;
                        let mut off: usize = 0;
                        while off < NUM_REGISTERS
                            invariant
                                off <= NUM_REGISTERS,
                                base + NUM_REGISTERS <= MEMORY_SIZE,
                                base == s1.i as int,
                                self@ == (MachineView { memory: self@.memory, ..s1 }),
                                self@.memory.len() == MEMORY_SIZE,
                                s1.wf(),
                                forall|j: int|
                                    base <= j < base + off ==> self@.memory[j] == s1.v[j - base],
                                forall|j: int|
                                    (0 <= j < base || base + off <= j < MEMORY_SIZE)
                                        ==> self@.memory[j] == s1.memory[j],
                            decreases NUM_REGISTERS - off,
                        {
                            let val = self.v[off];
                            self.memory[base + off] = val;
                            off = off + 1;
                        }
                        proof {
                            assert(self@.memory =~= Seq::new(
                                MEMORY_SIZE as nat,
                                |j: int|
                                    if s1.i <= j < s1.i + NUM_REGISTERS {
                                        s1.v[j - s1.i]
                                    } else {
                                        s1.memory[j]
                                    },
                            ));
                        }
                    },
                    0x65 => {
                        if self.i as usize + NUM_REGISTERS > MEMORY_SIZE {
                            self.pc = pc_old;
                            proof {
                                assert(self@ =~= s0);
                                assert forall|rb: u8| #[trigger] step_spec(s0, rb) == Err::<
                                    MachineView,
                                    Chip8Error,
                                >(Chip8Error::OutOfBounds) by {}
                            }
                            return Err(Chip8Error::OutOfBounds);
                        }
                        let base = self.i as usize;
                        let mut off: usize = 0;
                        while off < NUM_REGISTERS
                            invariant
                                off <= NUM_REGISTERS,
                                base + NUM_REGISTERS <= MEMORY_SIZE,
                                base == s1.i as int,
                                self@ == (MachineView { v: self@.v, ..s1 }),
                                self@.v.len() == NUM_REGISTERS,
                                s1.wf(),
                                forall|j: int| 0 <= j < off ==> self@.v[j] == s1.memory[base + j],
                                forall|j: int|
                                    off <= j < NUM_REGISTERS ==> self@.v[j] == s1.v[j],
                            decreases NUM_REGISTERS - off,
                        {
                            let val = self.memory[base + off];
                            self.v[off] = val;
                            off = off + 1;
                        }
                        proof {
                            assert(self@.v =~= Seq::new(
                                NUM_REGISTERS as nat,
                                |j: int| s1.memory[s1.i + j],
                            ));
                        }
                    },
                    _ => {
                        self.pc = pc_old;
                        proof {
                            assert(self@ =~= s0);
                            assert forall|rb: u8| #[trigger] step_spec(s0, rb) == Err::<
                                MachineView,
                                Chip8Error,
                            >(Chip8Error::UnknownOpcode) by {}
                        }
                        return Err(Chip8Error::UnknownOpcode);
                    },
                }
            },
        }
        proof {
            let t = instr_spec(s1, wi, 0);
            assert(t is Ok);
            assert(self@ =~= t->Ok_0);
            assert(step_spec(s0, 0) == Ok::<MachineView, Chip8Error>(self@));
        }
        Ok(())
    }

    /// One general-purpose register.
    pub fn register(&self, idx: u8) -> (r: u8)
        requires
            self.wf(),
            idx < NUM_REGISTERS,
        ensures
            r == self@.v[idx as int],
    {
        self.v[idx as usize]
    }

    /// The program counter.
    pub fn program_counter(&self) -> (r: u16)
        ensures
            r == self@.pc,
    {
        self.pc
    }

    /// The index register `I`.
    pub fn index_register(&self) -> (r: u16)
        ensures
            r == self@.i,
    {
        self.i
    }

    /// The delay timer.
    pub fn delay_timer(&self) -> (r: u8)
        ensures
            r == self@.dt,
    {
        self.dt
    }

    /// The sound timer.
    pub fn sound_timer(&self) -> (r: u8)
        ensures
            r == self@.st,
    {
        self.st
    }

    /// How many return addresses the call stack holds.
    pub fn stack_pointer(&self) -> (r: u8)
        ensures
            r == self@.sp,
    {
        self.sp
    }

    /// One memory byte.
    pub fn memory_byte(&self, addr: u16) -> (r: u8)
        requires
            self.wf(),
            addr < MEMORY_SIZE,
        ensures
            r == self@.memory[addr as int],
    {
        self.memory[addr as usize]
    }
}

} // verus!
