use vstd::prelude::*;

use rand::Rng;

use crate::error::Chip8Error;
use crate::mmu::{fault_addr, word_at, FONT_BASE_ADDR, MAX_ROM_SIZE, MMU, RAM_SIZE, ROM_BASE_ADDR};
use crate::model::{
    bit_mask, lemma_first_key_found_from, lemma_first_key_none_from, lemma_op_parts,
    lemma_pixel_toggle, lemma_wrap8, op_fam, op_n, op_nn, op_nnn, op_x, op_y, skip,
    spec_draw_bits, spec_draw_rows, spec_execute, spec_reset_view, spec_step, spec_wait, wrap8,
    wrap_index, CpuView,
};

verus! {

broadcast use vstd::array::group_array_axioms;

/// Framebuffer width in pixels.
pub const WIDTH: usize = 64;

/// Framebuffer height in pixels.
pub const HEIGHT: usize = 32;

/// Number of pixels, one byte each, row-major.
pub const VRAM_SIZE: usize = 64 * 32;

/// The register file. Register 15 doubles as a flag output for arithmetic,
/// shift and draw instructions, so programs should avoid storing to it.
pub struct Registers {
    pub v: [u8; 16],
    /// Index register, used by the memory-indexed instructions.
    pub i: usize,
    /// Program counter.
    pub pc: usize,
    /// Stack pointer: number of live return addresses.
    pub sp: usize,
    /// Countdown timer for game events; readable and writable by programs.
    pub delay: u8,
    /// Countdown timer gating the beep; the host sounds it while nonzero.
    pub sound: u8,
}

/// Keypad snapshot plus the key-wait state machine.
struct Keypad {
    state: [bool; 16],
    waiting: bool,
    register: usize,
}

/// Declares rand's thread-local generator type so the processor can hold
/// one; nothing is assumed of the values it produces.
#[verifier::external_type_specification]
#[verifier::external_body]
pub struct ExThreadRng(rand::rngs::ThreadRng);

/// Relies on rand::thread_rng: a handle to the thread-local generator.
#[verifier::external_body]
fn new_thread_rng() -> rand::rngs::ThreadRng {
    rand::thread_rng()
}

/// Relies on rand::Rng::gen: one random byte. Nothing is assumed of the
/// value; callers must be correct for every outcome.
#[verifier::external_body]
fn gen_random_byte(rng: &mut rand::rngs::ThreadRng) -> u8 {
    rng.gen::<u8>()
}

/// The processor: registers, return stack, framebuffer and keypad state,
/// together with its memory unit. One `step` call runs one virtual cycle.
pub struct CPU {
    pub mmu: MMU,
    pub vram: [u8; VRAM_SIZE],
    vram_changed: bool,
    pub registers: Registers,
    stack: [u16; 16],
    keypad: Keypad,
    rng: rand::rngs::ThreadRng,
}

impl View for CPU {
    type V = CpuView;

    closed spec fn view(&self) -> CpuView {
        CpuView {
            ram: self.mmu@.ram,
            rom: self.mmu@.rom,
            v: self.registers.v@,
            i: self.registers.i as int,
            pc: self.registers.pc as int,
            sp: self.registers.sp as int,
            stack: self.stack@,
            delay: self.registers.delay,
            sound: self.registers.sound,
            vram: self.vram@,
            dirty: self.vram_changed,
            keys: self.keypad.state@,
            waiting: self.keypad.waiting,
            wait_reg: self.keypad.register as int,
        }
    }
}

/// The sprite mask selecting bit `b`, highest bit first.
fn bit_mask_byte(b: usize) -> (r: u8)
    ensures
        r == bit_mask(b as int),
{
    match b {
        0 => 0x80,
        1 => 0x40,
        2 => 0x20,
        3 => 0x10,
        4 => 0x08,
        5 => 0x04,
        6 => 0x02,
        7 => 0x01,
        _ => 0,
    }
}

impl CPU {
    pub open spec fn wf(self) -> bool {
        self@.wf()
    }

    pub fn new(mmu: MMU) -> (r: CPU)
        requires
            mmu.wf(),
        ensures
            r.wf(),
            r@ == spec_reset_view(mmu@.rom),
    {
        let mut cpu = CPU {
            mmu,
            vram: [0; VRAM_SIZE],
            vram_changed: false,
            registers: Registers { v: [0; 16], i: 0, pc: 0, sp: 0, delay: 0, sound: 0 },
            stack: [0; 16],
            keypad: Keypad { state: [false; 16], waiting: false, register: 0 },
            rng: new_thread_rng(),
        };
        cpu.reset();
        cpu
    }

    pub fn reset(&mut self)
        requires
            old(self).wf(),
        ensures
            final(self).wf(),
            final(self)@ == spec_reset_view(old(self)@.rom),
    {
        self.mmu.reset();
        self.vram = [0; VRAM_SIZE];
        self.vram_changed = false;
        self.registers = Registers {
            v: [0; 16],
            i: 0,
            pc: ROM_BASE_ADDR,
            sp: 0,
            delay: 0,
            sound: 0,
        };
        self.stack = [0; 16];
        self.keypad = Keypad { state: [false; 16], waiting: false, register: 0 };
        proof {
            assert(self@ =~= spec_reset_view(old(self)@.rom));
        }
    }

    pub fn load_rom(&mut self, rom: Vec<u8>)
        requires
            old(self).wf(),
            rom@.len() <= MAX_ROM_SIZE,
        ensures
            final(self).wf(),
            final(self)@ == spec_reset_view(rom@),
    {
        let ghost romv = rom@;
        self.reset();
        self.mmu.load_rom(rom);
        proof {
            assert(self@ =~= spec_reset_view(romv));
        }
    }

    pub fn fetch_instruction(&self) -> (r: Result<u16, Chip8Error>)
        requires
            self.wf(),
        ensures
            self@.pc + 1 < RAM_SIZE ==> r == Ok::<u16, Chip8Error>(word_at(self@.ram, self@.pc)),
            self@.pc + 1 >= RAM_SIZE ==> r == Err::<u16, Chip8Error>(
                (Chip8Error::OutOfRangeAccess { addr: fault_addr(self@.pc) }),
            ),
    {
        self.mmu.read_word(self.registers.pc)
    }

    pub fn read_byte(&self, addr: u16) -> (r: Result<u8, Chip8Error>)
        ensures
            addr < RAM_SIZE ==> r == Ok::<u8, Chip8Error>(self@.ram[addr as int]),
            addr >= RAM_SIZE ==> r == Err::<u8, Chip8Error>(
                (Chip8Error::OutOfRangeAccess { addr: addr as usize }),
            ),
    {
        self.mmu.read_byte(addr as usize)
    }

    /// Decrement each timer toward zero, clamping at zero.
    pub fn update_timers(&mut self)
        ensures
            final(self)@ == (CpuView {
                delay: if old(self)@.delay > 0 { (old(self)@.delay - 1) as u8 } else { 0u8 },
                sound: if old(self)@.sound > 0 { (old(self)@.sound - 1) as u8 } else { 0u8 },
                ..old(self)@
            }),
    {
        if self.registers.delay > 0 {
            self.registers.delay = self.registers.delay - 1;
        }
        if self.registers.sound > 0 {
            self.registers.sound = self.registers.sound - 1;
        }
        proof {
            assert(self@ =~= (CpuView {
                delay: if old(self)@.delay > 0 { (old(self)@.delay - 1) as u8 } else { 0u8 },
                sound: if old(self)@.sound > 0 { (old(self)@.sound - 1) as u8 } else { 0u8 },
                ..old(self)@
            }));
        }
    }


    /// Run one virtual cycle against the supplied keypad snapshot. While a
    /// key wait is pending only the keypad scan runs; otherwise one opcode is
    /// fetched, the program counter moves past it, and it executes. On a
    /// fault the machine is left exactly as it stood before the instruction.
    pub fn step(&mut self, keypad: [bool; 16]) -> (r: Result<(), Chip8Error>)
        requires
            old(self).wf(),
        ensures
            final(self).wf(),
            exists|rnd: u8| #[trigger] spec_step(old(self)@, keypad@, rnd) == (final(self)@, r),
    {
        self.vram_changed = false;
        self.keypad.state = keypad;
        let ghost s = self@;
        proof {
            assert(s =~= (CpuView { keys: keypad@, dirty: false, ..old(self)@ }));
        }
        if self.keypad.waiting {
            let mut k: usize = 0;
            while k < 16
                invariant
                    k <= 16,
                    self@ == s,
                    s == (CpuView { keys: keypad@, dirty: false, ..old(self)@ }),
                    s.wf(),
                    s.waiting,
                    forall|j: int| 0 <= j < k ==> !s.keys[j],
                decreases 16 - k,
            {
                if self.keypad.state[k] {
                    self.keypad.waiting = false;
                    let reg = self.keypad.register;
                    self.registers.v[reg] = k as u8;
                    self.registers.pc = self.registers.pc + 2;
                    proof {
                        lemma_first_key_found_from(s.keys, 0, k as int);
                        assert(self@ =~= spec_wait(s));
                        assert(spec_step(old(self)@, keypad@, 0) == (self@, Ok::<(), Chip8Error>(())));
                    }
                    return Ok(());
                }
                k += 1;
            }
            proof {
                lemma_first_key_none_from(s.keys, 0);
                assert(spec_step(old(self)@, keypad@, 0) == (self@, Ok::<(), Chip8Error>(())));
            }
            Ok(())
        } else {
            let pc0 = self.registers.pc;
            if pc0 >= RAM_SIZE - 1 {
                let addr = if pc0 >= RAM_SIZE { pc0 } else { RAM_SIZE };
                let e = Chip8Error::OutOfRangeAccess { addr };
                proof {
                    assert(spec_step(old(self)@, keypad@, 0) == (self@, Err::<(), Chip8Error>(e)));
                }
                return Err(e);
            }
            let hi = self.mmu.get_byte(pc0);
            let lo = self.mmu.get_byte(pc0 + 1);
            let opcode: u16 = (hi as u16) * 256 + (lo as u16);
            proof {
                assert(opcode == word_at(s.ram, s.pc));
            }
            self.registers.pc = pc0 + 2;
            let ghost s1 = self@;
            proof {
                assert(s1 =~= (CpuView { pc: s.pc + 2, ..s }));
            }
            let res = self.execute(opcode);
            match res {
                Ok(_u) => {
                    proof {
                        let rnd = choose|rnd: u8|
                            spec_execute(s1, opcode, rnd) == Ok::<CpuView, Chip8Error>(self@);
                        assert(spec_step(old(self)@, keypad@, rnd) == (
                            self@,
                            Ok::<(), Chip8Error>(()),
                        ));
                    }
                    Ok(())
                }
                Err(e) => {
                    self.registers.pc = pc0;
                    proof {
                        assert(self@ =~= s);
                        assert(spec_step(old(self)@, keypad@, 0) == (self@, Err::<(), Chip8Error>(e)));
                    }
                    Err(e)
                }
            }
        }
    }

    /// Decode and execute one opcode; the program counter has already moved
    /// past it. On a fault nothing is changed.
    fn execute(&mut self, opcode: u16) -> (r: Result<(), Chip8Error>)
        requires
            old(self).wf(),
            !old(self)@.waiting,
            2 <= old(self)@.pc <= RAM_SIZE,
        ensures
            final(self).wf(),
            r is Ok ==> exists|rnd: u8| #[trigger] spec_execute(old(self)@, opcode, rnd)
                == Ok::<CpuView, Chip8Error>(final(self)@),
            r is Err ==> final(self)@ == old(self)@ && spec_execute(old(self)@, opcode, 0)
                == Err::<CpuView, Chip8Error>(r->Err_0),
    {
        let ghost s = self@;
        proof {
            lemma_op_parts(opcode);
        }
        let x = ((opcode >> 8) & 0xF) as usize;
        let y = ((opcode >> 4) & 0xF) as usize;
        let fam = opcode >> 12;
        if fam == 0x0 {
            if opcode == 0x00E0 {
                self.vram = [0; VRAM_SIZE];
                self.vram_changed = true;
                proof {
                    assert(self@.vram =~= Seq::new(2048, |p: int| 0u8));
                    assert(self@ =~= (CpuView {
                        vram: Seq::new(2048, |p: int| 0u8),
                        dirty: true,
                        ..s
                    }));
                    assert(spec_execute(s, opcode, 0) == Ok::<CpuView, Chip8Error>(self@));
                }
                Ok(())
            } else if opcode == 0x00EE {
                if self.registers.sp == 0 {
                    proof {
                        assert(spec_execute(s, opcode, 0) == Err::<CpuView, Chip8Error>(
                            Chip8Error::StackUnderflow,
                        ));
                    }
                    return Err(Chip8Error::StackUnderflow);
                }
                self.registers.sp = self.registers.sp - 1;
                self.registers.pc = self.stack[self.registers.sp] as usize;
                proof {
                    assert(self@ =~= (CpuView {
                        sp: s.sp - 1,
                        pc: s.stack[s.sp - 1] as int,
                        ..s
                    }));
                    assert(spec_execute(s, opcode, 0) == Ok::<CpuView, Chip8Error>(self@));
                }
                Ok(())
            } else {
                let e = Chip8Error::UnsupportedOpcode { opcode, pc: self.registers.pc - 2 };
                proof {
                    assert(spec_execute(s, opcode, 0) == Err::<CpuView, Chip8Error>(e));
                }
                Err(e)
            }
        } else if fam == 0x1 {
            self.registers.pc = (opcode & 0xFFF) as usize;
            proof {
                assert(self@ =~= (CpuView { pc: op_nnn(opcode), ..s }));
                assert(spec_execute(s, opcode, 0) == Ok::<CpuView, Chip8Error>(self@));
            }
            Ok(())
        } else if fam == 0x2 {
            if self.registers.sp >= 16 {
                proof {
                    assert(spec_execute(s, opcode, 0) == Err::<CpuView, Chip8Error>(
                        Chip8Error::StackOverflow,
                    ));
                }
                return Err(Chip8Error::StackOverflow);
            }
            let sp = self.registers.sp;
            self.stack[sp] = self.registers.pc as u16;
            self.registers.sp = sp + 1;
            self.registers.pc = (opcode & 0xFFF) as usize;
            proof {
                assert(self@ =~= (CpuView {
                    stack: s.stack.update(s.sp, s.pc as u16),
                    sp: s.sp + 1,
                    pc: op_nnn(opcode),
                    ..s
                }));
                assert(spec_execute(s, opcode, 0) == Ok::<CpuView, Chip8Error>(self@));
            }
            Ok(())
        } else if fam == 0x3 {
            let nn = (opcode & 0xFF) as u8;
            if self.registers.v[x] == nn {
                self.registers.pc = self.registers.pc + 2;
            }
            proof {
                assert(self@ =~= (if s.v[op_x(opcode)] == op_nn(opcode) { skip(s) } else { s }));
                assert(spec_execute(s, opcode, 0) == Ok::<CpuView, Chip8Error>(self@));
            }
            Ok(())
        } else if fam == 0x4 {
            let nn = (opcode & 0xFF) as u8;
            if self.registers.v[x] != nn {
                self.registers.pc = self.registers.pc + 2;
            }
            proof {
                assert(self@ =~= (if s.v[op_x(opcode)] != op_nn(opcode) { skip(s) } else { s }));
                assert(spec_execute(s, opcode, 0) == Ok::<CpuView, Chip8Error>(self@));
            }
            Ok(())
        } else if fam == 0x5 {
            if opcode & 0xF != 0 {
                let e = Chip8Error::UnsupportedOpcode { opcode, pc: self.registers.pc - 2 };
                proof {
                    assert(spec_execute(s, opcode, 0) == Err::<CpuView, Chip8Error>(e));
                }
                return Err(e);
            }
            if self.registers.v[x] == self.registers.v[y] {
                self.registers.pc = self.registers.pc + 2;
            }
            proof {
                assert(self@ =~= (if s.v[op_x(opcode)] == s.v[op_y(opcode)] {
                    skip(s)
                } else {
                    s
                }));
                assert(spec_execute(s, opcode, 0) == Ok::<CpuView, Chip8Error>(self@));
            }
            Ok(())
        } else if fam == 0x6 {
            let nn = (opcode & 0xFF) as u8;
            self.registers.v[x] = nn;
            proof {
                assert(self@ =~= (CpuView { v: s.v.update(op_x(opcode), op_nn(opcode)), ..s }));
                assert(spec_execute(s, opcode, 0) == Ok::<CpuView, Chip8Error>(self@));
            }
            Ok(())
        } else if fam == 0x7 {
            let nn = (opcode & 0xFF) as u8;
            let sum: u16 = self.registers.v[x] as u16 + nn as u16;
            self.registers.v[x] = (sum % 256) as u8;
            proof {
                assert(self@ =~= (CpuView {
                    v: s.v.update(op_x(opcode), wrap8(s.v[op_x(opcode)] + op_nn(opcode))),
                    ..s
                }));
                assert(spec_execute(s, opcode, 0) == Ok::<CpuView, Chip8Error>(self@));
            }
            Ok(())
        } else if fam == 0x8 {
            self.op_8xy(opcode, x, y)
        } else if fam == 0x9 {
            if opcode & 0xF != 0 {
                let e = Chip8Error::UnsupportedOpcode { opcode, pc: self.registers.pc - 2 };
                proof {
                    assert(spec_execute(s, opcode, 0) == Err::<CpuView, Chip8Error>(e));
                }
                return Err(e);
            }
            if self.registers.v[x] != self.registers.v[y] {
                self.registers.pc = self.registers.pc + 2;
            }
            proof {
                assert(self@ =~= (if s.v[op_x(opcode)] != s.v[op_y(opcode)] {
                    skip(s)
                } else {
                    s
                }));
                assert(spec_execute(s, opcode, 0) == Ok::<CpuView, Chip8Error>(self@));
            }
            Ok(())
        } else if fam == 0xA {
            self.registers.i = (opcode & 0xFFF) as usize;
            proof {
                assert(self@ =~= (CpuView { i: op_nnn(opcode), ..s }));
                assert(spec_execute(s, opcode, 0) == Ok::<CpuView, Chip8Error>(self@));
            }
            Ok(())
        } else if fam == 0xB {
            self.registers.pc = self.registers.v[0] as usize + ((opcode & 0xFFF) as usize);
            proof {
                assert(self@ =~= (CpuView { pc: s.v[0] + op_nnn(opcode), ..s }));
                assert(spec_execute(s, opcode, 0) == Ok::<CpuView, Chip8Error>(self@));
            }
            Ok(())
        } else if fam == 0xC {
            let rnd = gen_random_byte(&mut self.rng);
            let nn = (opcode & 0xFF) as u8;
            self.registers.v[x] = rnd & nn;
            proof {
                assert(self@ =~= (CpuView {
                    v: s.v.update(op_x(opcode), rnd & op_nn(opcode)),
                    ..s
                }));
                assert(spec_execute(s, opcode, rnd) == Ok::<CpuView, Chip8Error>(self@));
            }
            Ok(())
        } else if fam == 0xD {
            self.op_dxyn(opcode, x, y)
        } else if fam == 0xE {
            self.op_ex(opcode, x)
        } else {
            self.op_fx(opcode, x)
        }
    }


    /// Register-register operations, family 8.
    fn op_8xy(&mut self, opcode: u16, x: usize, y: usize) -> (r: Result<(), Chip8Error>)
        requires
            old(self).wf(),
            !old(self)@.waiting,
            2 <= old(self)@.pc <= RAM_SIZE,
            x == op_x(opcode),
            y == op_y(opcode),
            op_fam(opcode) == 0x8,
        ensures
            final(self).wf(),
            r is Ok ==> spec_execute(old(self)@, opcode, 0) == Ok::<CpuView, Chip8Error>(
                final(self)@,
            ),
            r is Err ==> final(self)@ == old(self)@ && spec_execute(old(self)@, opcode, 0)
                == Err::<CpuView, Chip8Error>(r->Err_0),
    {
        let ghost s = self@;
        proof {
            lemma_op_parts(opcode);
        }
        let k = opcode & 0xF;
        if k == 0x0 {
            self.registers.v[x] = self.registers.v[y];
            proof {
                assert(self@ =~= (CpuView { v: s.v.update(x as int, s.v[y as int]), ..s }));
                assert(spec_execute(s, opcode, 0) == Ok::<CpuView, Chip8Error>(self@));
            }
            Ok(())
        } else if k == 0x1 {
            let a = self.registers.v[x];
            let b = self.registers.v[y];
            self.registers.v[x] = a | b;
            proof {
                assert(self@ =~= (CpuView { v: s.v.update(x as int, a | b), ..s }));
                assert(spec_execute(s, opcode, 0) == Ok::<CpuView, Chip8Error>(self@));
            }
            Ok(())
        } else if k == 0x2 {
            let a = self.registers.v[x];
            let b = self.registers.v[y];
            self.registers.v[x] = a & b;
            proof {
                assert(self@ =~= (CpuView { v: s.v.update(x as int, a & b), ..s }));
                assert(spec_execute(s, opcode, 0) == Ok::<CpuView, Chip8Error>(self@));
            }
            Ok(())
        } else if k == 0x3 {
            let a = self.registers.v[x];
            let b = self.registers.v[y];
            self.registers.v[x] = a ^ b;
            proof {
                assert(self@ =~= (CpuView { v: s.v.update(x as int, a ^ b), ..s }));
                assert(spec_execute(s, opcode, 0) == Ok::<CpuView, Chip8Error>(self@));
            }
            Ok(())
        } else if k == 0x4 {
            let a = self.registers.v[x];
            let b = self.registers.v[y];
            let sum: u16 = a as u16 + b as u16;
            self.registers.v[x] = (sum % 256) as u8;
            self.registers.v[0xF] = if sum > 0xFF { 1 } else { 0 };
            proof {
                assert(self@ =~= (CpuView {
                    v: s.v.update(x as int, wrap8(a + b)).update(
                        15,
                        if a + b > 255 { 1u8 } else { 0u8 },
                    ),
                    ..s
                }));
                assert(spec_execute(s, opcode, 0) == Ok::<CpuView, Chip8Error>(self@));
            }
            Ok(())
        } else if k == 0x5 {
            let a = self.registers.v[x];
            let b = self.registers.v[y];
            self.registers.v[0xF] = if a > b { 1 } else { 0 };
            let a2 = self.registers.v[x];
            let b2 = self.registers.v[y];
            self.registers.v[x] = a2.wrapping_sub(b2);
            proof {
                lemma_wrap8(a2 - b2);
                let v1 = s.v.update(15, if a > b { 1u8 } else { 0u8 });
                assert(self@ =~= (CpuView { v: v1.update(x as int, wrap8(v1[x as int] - v1[y as int])), ..s }));
                assert(spec_execute(s, opcode, 0) == Ok::<CpuView, Chip8Error>(self@));
            }
            Ok(())
        } else if k == 0x6 {
            let a = self.registers.v[x];
            self.registers.v[0xF] = a & 1;
            let a2 = self.registers.v[x];
            self.registers.v[x] = a2 >> 1u8;
            proof {
                let v1 = s.v.update(15, s.v[x as int] & 1);
                assert(self@ =~= (CpuView { v: v1.update(x as int, v1[x as int] >> 1u8), ..s }));
                assert(spec_execute(s, opcode, 0) == Ok::<CpuView, Chip8Error>(self@));
            }
            Ok(())
        } else if k == 0x7 {
            let a = self.registers.v[x];
            let b = self.registers.v[y];
            self.registers.v[0xF] = if a > b { 0 } else { 1 };
            let a2 = self.registers.v[x];
            let b2 = self.registers.v[y];
            self.registers.v[x] = b2.wrapping_sub(a2);
            proof {
                lemma_wrap8(b2 - a2);
                let v1 = s.v.update(15, if a > b { 0u8 } else { 1u8 });
                assert(self@ =~= (CpuView { v: v1.update(x as int, wrap8(v1[y as int] - v1[x as int])), ..s }));
                assert(spec_execute(s, opcode, 0) == Ok::<CpuView, Chip8Error>(self@));
            }
            Ok(())
        } else if k == 0xE {
            let a = self.registers.v[x];
            self.registers.v[0xF] = (a >> 7u8) & 1;
            let a2 = self.registers.v[x];
            self.registers.v[x] = ((a2 as u16 * 2) % 256) as u8;
            proof {
                let v1 = s.v.update(15, (s.v[x as int] >> 7u8) & 1);
                assert(self@ =~= (CpuView { v: v1.update(x as int, wrap8(v1[x as int] * 2)), ..s }));
                assert(spec_execute(s, opcode, 0) == Ok::<CpuView, Chip8Error>(self@));
            }
            Ok(())
        } else {
            let e = Chip8Error::UnsupportedOpcode { opcode, pc: self.registers.pc - 2 };
            proof {
                assert(spec_execute(s, opcode, 0) == Err::<CpuView, Chip8Error>(e));
            }
            Err(e)
        }
    }

    /// Key-state skips, family E.
    fn op_ex(&mut self, opcode: u16, x: usize) -> (r: Result<(), Chip8Error>)
        requires
            old(self).wf(),
            !old(self)@.waiting,
            2 <= old(self)@.pc <= RAM_SIZE,
            x == op_x(opcode),
            op_fam(opcode) == 0xE,
        ensures
            final(self).wf(),
            r is Ok ==> spec_execute(old(self)@, opcode, 0) == Ok::<CpuView, Chip8Error>(
                final(self)@,
            ),
            r is Err ==> final(self)@ == old(self)@ && spec_execute(old(self)@, opcode, 0)
                == Err::<CpuView, Chip8Error>(r->Err_0),
    {
        let ghost s = self@;
        proof {
            lemma_op_parts(opcode);
        }
        let nn = opcode & 0xFF;
        if nn == 0x9E || nn == 0xA1 {
            let vx = self.registers.v[x];
            if vx >= 16 {
                let e = Chip8Error::InvalidKey { key: vx };
                proof {
                    assert(spec_execute(s, opcode, 0) == Err::<CpuView, Chip8Error>(e));
                }
                return Err(e);
            }
            let pressed = self.keypad.state[vx as usize];
            if (nn == 0x9E) == pressed {
                self.registers.pc = self.registers.pc + 2;
            }
            proof {
                assert(self@ =~= (if ((opcode & 0xFF) == 0x9E) == s.keys[s.v[op_x(opcode)] as int] {
                    skip(s)
                } else {
                    s
                }));
                assert(spec_execute(s, opcode, 0) == Ok::<CpuView, Chip8Error>(self@));
            }
            Ok(())
        } else {
            let e = Chip8Error::UnsupportedOpcode { opcode, pc: self.registers.pc - 2 };
            proof {
                assert(spec_execute(s, opcode, 0) == Err::<CpuView, Chip8Error>(e));
            }
            Err(e)
        }
    }


    /// Timer, key-wait, index and bulk memory operations, family F.
    fn op_fx(&mut self, opcode: u16, x: usize) -> (r: Result<(), Chip8Error>)
        requires
            old(self).wf(),
            !old(self)@.waiting,
            2 <= old(self)@.pc <= RAM_SIZE,
            x == op_x(opcode),
            op_fam(opcode) == 0xF,
        ensures
            final(self).wf(),
            r is Ok ==> spec_execute(old(self)@, opcode, 0) == Ok::<CpuView, Chip8Error>(
                final(self)@,
            ),
            r is Err ==> final(self)@ == old(self)@ && spec_execute(old(self)@, opcode, 0)
                == Err::<CpuView, Chip8Error>(r->Err_0),
    {
        let ghost s = self@;
        proof {
            lemma_op_parts(opcode);
        }
        let nn = opcode & 0xFF;
        if nn == 0x07 {
            self.registers.v[x] = self.registers.delay;
            proof {
                assert(self@ =~= (CpuView { v: s.v.update(x as int, s.delay), ..s }));
                assert(spec_execute(s, opcode, 0) == Ok::<CpuView, Chip8Error>(self@));
            }
            Ok(())
        } else if nn == 0x0A {
            self.keypad.waiting = true;
            self.keypad.register = x;
            proof {
                assert(self@ =~= (CpuView { waiting: true, wait_reg: x as int, ..s }));
                assert(spec_execute(s, opcode, 0) == Ok::<CpuView, Chip8Error>(self@));
            }
            Ok(())
        } else if nn == 0x15 {
            self.registers.delay = self.registers.v[x];
            proof {
                assert(self@ =~= (CpuView { delay: s.v[x as int], ..s }));
                assert(spec_execute(s, opcode, 0) == Ok::<CpuView, Chip8Error>(self@));
            }
            Ok(())
        } else if nn == 0x18 {
            self.registers.sound = self.registers.v[x];
            proof {
                assert(self@ =~= (CpuView { sound: s.v[x as int], ..s }));
                assert(spec_execute(s, opcode, 0) == Ok::<CpuView, Chip8Error>(self@));
            }
            Ok(())
        } else if nn == 0x1E {
            let vxu = self.registers.v[x] as usize;
            let iold = self.registers.i;
            let ni = if iold <= usize::MAX - vxu {
                iold + vxu
            } else {
                iold - (usize::MAX - vxu) - 1
            };
            self.registers.i = ni;
            self.registers.v[0xF] = if ni > 0xF00 { 1 } else { 0 };
            proof {
                assert(ni as int == wrap_index(s.i + s.v[x as int]));
                assert(self@ =~= (CpuView {
                    i: wrap_index(s.i + s.v[x as int]),
                    v: s.v.update(15, if wrap_index(s.i + s.v[x as int]) > 0xF00 { 1u8 } else { 0u8 }),
                    ..s
                }));
                assert(spec_execute(s, opcode, 0) == Ok::<CpuView, Chip8Error>(self@));
            }
            Ok(())
        } else if nn == 0x29 {
            self.registers.i = FONT_BASE_ADDR + (self.registers.v[x] as usize) * 5;
            proof {
                assert(self@ =~= (CpuView { i: FONT_BASE_ADDR + s.v[x as int] * 5, ..s }));
                assert(spec_execute(s, opcode, 0) == Ok::<CpuView, Chip8Error>(self@));
            }
            Ok(())
        } else if nn == 0x33 {
            let i0 = self.registers.i;
            if i0 >= RAM_SIZE - 2 {
                let addr = if i0 >= RAM_SIZE { i0 } else { RAM_SIZE };
                let e = Chip8Error::OutOfRangeAccess { addr };
                proof {
                    assert(spec_execute(s, opcode, 0) == Err::<CpuView, Chip8Error>(e));
                }
                return Err(e);
            }
            let val = self.registers.v[x];
            self.mmu.set_byte(i0, val / 100);
            self.mmu.set_byte(i0 + 1, (val % 100) / 10);
            self.mmu.set_byte(i0 + 2, val % 10);
            proof {
                let vx = s.v[x as int];
                assert(self@ =~= (CpuView {
                    ram: s.ram.update(s.i, vx / 100).update(s.i + 1, (vx % 100) / 10).update(
                        s.i + 2,
                        vx % 10,
                    ),
                    ..s
                }));
                assert(spec_execute(s, opcode, 0) == Ok::<CpuView, Chip8Error>(self@));
            }
            Ok(())
        } else if nn == 0x55 {
            let i0 = self.registers.i;
            if i0 >= RAM_SIZE - x {
                let addr = if i0 >= RAM_SIZE { i0 } else { RAM_SIZE };
                let e = Chip8Error::OutOfRangeAccess { addr };
                proof {
                    assert(spec_execute(s, opcode, 0) == Err::<CpuView, Chip8Error>(e));
                }
                return Err(e);
            }
            let mut k: usize = 0;
            while k <= x
                invariant
                    k <= x + 1,
                    x < 16,
                    i0 == s.i,
                    s.i + x < RAM_SIZE,
                    s.wf(),
                    self@ == (CpuView { ram: self@.ram, ..s }),
                    self@.ram.len() == RAM_SIZE,
                    forall|a: int|
                        0 <= a < RAM_SIZE ==> self@.ram[a] == (if s.i <= a < s.i + k {
                            s.v[a - s.i]
                        } else {
                            s.ram[a]
                        }),
                decreases x + 1 - k,
            {
                let b = self.registers.v[k];
                self.mmu.set_byte(i0 + k, b);
                k += 1;
            }
            proof {
                assert(self@.ram =~= Seq::new(
                    RAM_SIZE as nat,
                    |a: int| if s.i <= a <= s.i + x { s.v[a - s.i] } else { s.ram[a] },
                ));
                assert(self@ =~= (CpuView {
                    ram: Seq::new(
                        RAM_SIZE as nat,
                        |a: int| if s.i <= a <= s.i + op_x(opcode) { s.v[a - s.i] } else { s.ram[a] },
                    ),
                    ..s
                }));
                assert(spec_execute(s, opcode, 0) == Ok::<CpuView, Chip8Error>(self@));
            }
            Ok(())
        } else if nn == 0x65 {
            let i0 = self.registers.i;
            if i0 >= RAM_SIZE - x {
                let addr = if i0 >= RAM_SIZE { i0 } else { RAM_SIZE };
                let e = Chip8Error::OutOfRangeAccess { addr };
                proof {
                    assert(spec_execute(s, opcode, 0) == Err::<CpuView, Chip8Error>(e));
                }
                return Err(e);
            }
            let mut k: usize = 0;
            while k <= x
                invariant
                    k <= x + 1,
                    x < 16,
                    i0 == s.i,
                    s.i + x < RAM_SIZE,
                    s.wf(),
                    self@ == (CpuView { v: self@.v, ..s }),
                    self@.v.len() == 16,
                    forall|t: int|
                        0 <= t < 16 ==> self@.v[t] == (if 0 <= t < k {
                            s.ram[s.i + t]
                        } else {
                            s.v[t]
                        }),
                decreases x + 1 - k,
            {
                let b = self.mmu.get_byte(i0 + k);
                self.registers.v[k] = b;
                k += 1;
            }
            proof {
                assert(self@.v =~= Seq::new(
                    16,
                    |t: int| if t <= op_x(opcode) { s.ram[s.i + t] } else { s.v[t] },
                ));
                assert(self@ =~= (CpuView {
                    v: Seq::new(
                        16,
                        |t: int| if t <= op_x(opcode) { s.ram[s.i + t] } else { s.v[t] },
                    ),
                    ..s
                }));
                assert(spec_execute(s, opcode, 0) == Ok::<CpuView, Chip8Error>(self@));
            }
            Ok(())
        } else {
            let e = Chip8Error::UnsupportedOpcode { opcode, pc: self.registers.pc - 2 };
            proof {
                assert(spec_execute(s, opcode, 0) == Err::<CpuView, Chip8Error>(e));
            }
            Err(e)
        }
    }

    /// The draw instruction, family D.
    fn op_dxyn(&mut self, opcode: u16, x: usize, y: usize) -> (r: Result<(), Chip8Error>)
        requires
            old(self).wf(),
            !old(self)@.waiting,
            2 <= old(self)@.pc <= RAM_SIZE,
            x == op_x(opcode),
            y == op_y(opcode),
            op_fam(opcode) == 0xD,
        ensures
            final(self).wf(),
            r is Ok ==> spec_execute(old(self)@, opcode, 0) == Ok::<CpuView, Chip8Error>(
                final(self)@,
            ),
            r is Err ==> final(self)@ == old(self)@ && spec_execute(old(self)@, opcode, 0)
                == Err::<CpuView, Chip8Error>(r->Err_0),
    {
        let ghost s = self@;
        proof {
            lemma_op_parts(opcode);
        }
        let n = (opcode & 0xF) as usize;
        let i0 = self.registers.i;
        if n > 0 && (i0 >= RAM_SIZE || n > RAM_SIZE - i0) {
            let addr = if i0 >= RAM_SIZE { i0 } else { RAM_SIZE };
            let e = Chip8Error::OutOfRangeAccess { addr };
            proof {
                assert(spec_execute(s, opcode, 0) == Err::<CpuView, Chip8Error>(e));
            }
            return Err(e);
        }
        let vxu = self.registers.v[x] as usize;
        let vyu = self.registers.v[y] as usize;
        let ghost vx = s.v[x as int] as int;
        let ghost vy = s.v[y as int] as int;
        self.registers.v[0xF] = 0;
        proof {
            assert(self@.v =~= s.v.update(15, 0u8));
        }
        let mut row: usize = 0;
        while row < n
            invariant
                row <= n,
                n == op_n(opcode),
                n > 0 ==> s.i + n <= RAM_SIZE,
                i0 == s.i,
                vxu == vx,
                vyu == vy,
                vx == s.v[op_x(opcode)],
                vy == s.v[op_y(opcode)],
                0 <= vx < 256,
                0 <= vy < 256,
                s.wf(),
                self@ == (CpuView { vram: self@.vram, v: self@.v, ..s }),
                self@.v =~= s.v.update(15, self@.v[15]),
                self@.vram.len() == 2048,
                forall|p: int| 0 <= p < 2048 ==> self@.vram[p] == 0 || self@.vram[p] == 1,
                spec_draw_rows(s.vram, 0, s.ram, s.i, vx, vy, n as int, 0) == spec_draw_rows(
                    self@.vram,
                    self@.v[15],
                    s.ram,
                    s.i,
                    vx,
                    vy,
                    n as int,
                    row as int,
                ),
            decreases n - row,
        {
            let byte = self.mmu.get_byte(i0 + row);
            let py = (vyu + row) % HEIGHT;
            let ghost row_v = self@.vram;
            let ghost row_f = self@.v[15];
            let mut bit: usize = 0;
            while bit < 8
                invariant
                    bit <= 8,
                    py == (vy + row) % 32,
                    py < 32,
                    vxu == vx,
                    0 <= vx < 256,
                    byte == s.ram[s.i + row],
                    s.wf(),
                    self@ == (CpuView { vram: self@.vram, v: self@.v, ..s }),
                    self@.v =~= s.v.update(15, self@.v[15]),
                    self@.vram.len() == 2048,
                    forall|p: int| 0 <= p < 2048 ==> self@.vram[p] == 0 || self@.vram[p] == 1,
                    spec_draw_bits(row_v, row_f, byte, vx, py as int, 0) == spec_draw_bits(
                        self@.vram,
                        self@.v[15],
                        byte,
                        vx,
                        py as int,
                        bit as int,
                    ),
                decreases 8 - bit,
            {
                let ghost pre_vram = self@.vram;
                let ghost pre_f = self@.v[15];
                let mask = bit_mask_byte(bit);
                if byte & mask != 0 {
                    let px = (vxu + bit) % WIDTH;
                    let idx = px + py * WIDTH;
                    let p = self.vram[idx];
                    if p == 1 {
                        let f0 = self.registers.v[0xF];
                        self.registers.v[0xF] = f0 | 1;
                    }
                    let p2 = self.vram[idx];
                    self.vram[idx] = p2 ^ 1;
                    proof {
                        lemma_pixel_toggle(p2);
                        assert(idx as int == py * 64 + (vx + bit) % 64);
                        assert(self@.v =~= s.v.update(15, self@.v[15]));
                        assert(self@.vram == pre_vram.update(
                            py * 64 + (vx + bit) % 64,
                            pre_vram[py * 64 + (vx + bit) % 64] ^ 1,
                        ));
                        assert(spec_draw_bits(pre_vram, pre_f, byte, vx, py as int, bit as int)
                            == spec_draw_bits(self@.vram, self@.v[15], byte, vx, py as int, bit + 1));
                    }
                } else {
                    proof {
                        assert(spec_draw_bits(pre_vram, pre_f, byte, vx, py as int, bit as int)
                            == spec_draw_bits(self@.vram, self@.v[15], byte, vx, py as int, bit + 1));
                    }
                }
                bit += 1;
            }
            row += 1;
        }
        self.vram_changed = true;
        proof {
            let res = spec_draw_rows(s.vram, 0, s.ram, s.i, vx, vy, n as int, 0);
            assert(res == (self@.vram, self@.v[15]));
            assert(self@ =~= (CpuView {
                vram: res.0,
                v: s.v.update(15, res.1),
                dirty: true,
                ..s
            }));
            assert(spec_execute(s, opcode, 0) == Ok::<CpuView, Chip8Error>(self@));
        }
        Ok(())
    }

    /// A copy of the framebuffer, one byte (0 or 1) per pixel, row-major.
    pub fn get_vram(&self) -> (r: [u8; VRAM_SIZE])
        ensures
            r@ == self@.vram,
    {
        self.vram
    }

    pub fn should_redraw(&self) -> (r: bool)
        ensures
            r == self@.dirty,
    {
        self.vram_changed
    }

    pub fn should_beep(&self) -> (r: bool)
        ensures
            r == (self@.sound > 0),
    {
        self.registers.sound > 0
    }
}

} // verus!
