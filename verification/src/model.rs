use vstd::prelude::*;

use crate::error::Chip8Error;
use crate::mmu::{fault_addr, spec_reset_ram, word_at, FONT_BASE_ADDR, MAX_ROM_SIZE, RAM_SIZE};

verus! {

/// The observable state of the whole machine: memory, registers, return
/// stack, framebuffer, timers and keypad-wait bookkeeping. Every contract of
/// the interpreter speaks in terms of this state.
#[verifier::ext_equal]
pub ghost struct CpuView {
    pub ram: Seq<u8>,
    pub rom: Seq<u8>,
    /// The sixteen general registers; slot 15 doubles as the flag register.
    pub v: Seq<u8>,
    /// Index register.
    pub i: int,
    /// Program counter.
    pub pc: int,
    /// Stack pointer: number of live return addresses.
    pub sp: int,
    pub stack: Seq<u16>,
    pub delay: u8,
    pub sound: u8,
    /// 64x32 one-bit pixels, row-major, one byte (0 or 1) per pixel.
    pub vram: Seq<u8>,
    /// Set by any framebuffer mutation during the latest step.
    pub dirty: bool,
    pub keys: Seq<bool>,
    /// True while a key-wait instruction suspends execution.
    pub waiting: bool,
    /// Register that receives the key index when the wait ends.
    pub wait_reg: int,
}

impl CpuView {
    /// Shape constraints that construction establishes and every step keeps.
    pub open spec fn wf(self) -> bool {
        &&& self.ram.len() == RAM_SIZE
        &&& self.rom.len() <= MAX_ROM_SIZE
        &&& self.v.len() == 16
        &&& self.stack.len() == 16
        &&& 0 <= self.sp <= 16
        &&& self.keys.len() == 16
        &&& 0 <= self.wait_reg < 16
        &&& self.vram.len() == 2048
        &&& (forall|p: int| 0 <= p < 2048 ==> self.vram[p] == 0 || self.vram[p] == 1)
        &&& 0 <= self.i <= usize::MAX
        &&& 0 <= self.pc <= 0xFFFF
        &&& (self.waiting ==> self.pc <= RAM_SIZE)
    }
}

/// Top nibble of an opcode: the instruction family.
pub open spec fn op_fam(op: u16) -> u16 {
    op >> 12
}

/// The X register selector: bits 8..12.
pub open spec fn op_x(op: u16) -> int {
    ((op >> 8) & 0xF) as int
}

/// The Y register selector: bits 4..8.
pub open spec fn op_y(op: u16) -> int {
    ((op >> 4) & 0xF) as int
}

/// The low nibble.
pub open spec fn op_n(op: u16) -> int {
    (op & 0xF) as int
}

/// The low byte: an immediate operand.
pub open spec fn op_nn(op: u16) -> u8 {
    (op & 0xFF) as u8
}

/// The low twelve bits: an address operand.
pub open spec fn op_nnn(op: u16) -> int {
    (op & 0xFFF) as int
}

/// Reduction of an integer to one byte, as 8-bit wraparound does.
pub open spec fn wrap8(n: int) -> u8 {
    (n % 256) as u8
}

/// Index-register addition wraps around the machine word like the
/// unchecked addition it models.
pub open spec fn wrap_index(n: int) -> int {
    if n <= usize::MAX { n } else { n - (usize::MAX + 1) }
}

/// The sprite mask selecting bit `b`, highest bit first.
pub open spec fn bit_mask(b: int) -> u8 {
    if b == 0 { 0x80 } else if b == 1 { 0x40 } else if b == 2 { 0x20 } else if b == 3 { 0x10 }
    else if b == 4 { 0x08 } else if b == 5 { 0x04 } else if b == 6 { 0x02 } else if b == 7 { 0x01 }
    else { 0 }
}

/// The lowest pressed key index at or above `k`, scanning upward.
pub open spec fn first_key(keys: Seq<bool>, k: int) -> Option<int>
    decreases 16 - k,
{
    if k >= 16 {
        Option::None
    } else if keys[k] {
        Option::Some(k)
    } else {
        first_key(keys, k + 1)
    }
}

/// The state right after a reset of a machine holding program image `rom`:
/// memory reseeded from the image, everything else at its construction-time
/// default.
pub open spec fn spec_reset_view(rom: Seq<u8>) -> CpuView {
    CpuView {
        ram: spec_reset_ram(rom),
        rom: rom,
        v: Seq::new(16, |r: int| 0u8),
        i: 0,
        pc: crate::mmu::ROM_BASE_ADDR as int,
        sp: 0,
        stack: Seq::new(16, |k: int| 0u16),
        delay: 0,
        sound: 0,
        vram: Seq::new(2048, |p: int| 0u8),
        dirty: false,
        keys: Seq::new(16, |k: int| false),
        waiting: false,
        wait_reg: 0,
    }
}

/// A reset leaves the machine in the reset state of its own program image.
pub open spec fn spec_reset(s: CpuView) -> CpuView {
    spec_reset_view(s.rom)
}

/// The unsupported-instruction fault for the opcode fetched at `s.pc - 2`
/// (the program counter has already moved past it).
pub open spec fn unsupported(s: CpuView, op: u16) -> Chip8Error {
    Chip8Error::UnsupportedOpcode { opcode: op, pc: (s.pc - 2) as usize }
}

/// A skipped next instruction: the program counter moves one more slot.
pub open spec fn skip(s: CpuView) -> CpuView {
    CpuView { pc: s.pc + 2, ..s }
}

/// Register-register operations, family 8. Updates are sequential: a flag
/// write lands before the destination is read again, exactly as executed.
pub open spec fn spec_alu(s: CpuView, op: u16) -> Result<CpuView, Chip8Error> {
    let x = op_x(op);
    let y = op_y(op);
    let k = op & 0xF;
    let vx = s.v[x];
    let vy = s.v[y];
    if k == 0x0 {
        Ok(CpuView { v: s.v.update(x, vy), ..s })
    } else if k == 0x1 {
        Ok(CpuView { v: s.v.update(x, vx | vy), ..s })
    } else if k == 0x2 {
        Ok(CpuView { v: s.v.update(x, vx & vy), ..s })
    } else if k == 0x3 {
        Ok(CpuView { v: s.v.update(x, vx ^ vy), ..s })
    } else if k == 0x4 {
        let sum = vx + vy;
        Ok(
            CpuView {
                v: s.v.update(x, wrap8(sum)).update(15, if sum > 255 { 1u8 } else { 0u8 }),
                ..s
            },
        )
    } else if k == 0x5 {
        let v1 = s.v.update(15, if vx > vy { 1u8 } else { 0u8 });
        Ok(CpuView { v: v1.update(x, wrap8(v1[x] - v1[y])), ..s })
    } else if k == 0x6 {
        let v1 = s.v.update(15, vx & 1);
        Ok(CpuView { v: v1.update(x, v1[x] >> 1u8), ..s })
    } else if k == 0x7 {
        let v1 = s.v.update(15, if vx > vy { 0u8 } else { 1u8 });
        Ok(CpuView { v: v1.update(x, wrap8(v1[y] - v1[x])), ..s })
    } else if k == 0xE {
        let v1 = s.v.update(15, (vx >> 7u8) & 1);
        Ok(CpuView { v: v1.update(x, wrap8(v1[x] * 2)), ..s })
    } else {
        Err(unsupported(s, op))
    }
}

/// One sprite row from bit `b` on: each set bit lands at column
/// `(vx + b) % 64` of row `py`, records a collision if the pixel is lit, and
/// toggles it.
pub open spec fn spec_draw_bits(
    vram: Seq<u8>,
    flag: u8,
    byte: u8,
    vx: int,
    py: int,
    b: int,
) -> (Seq<u8>, u8)
    decreases 8 - b,
{
    if b >= 8 {
        (vram, flag)
    } else {
        let idx = py * 64 + (vx + b) % 64;
        if byte & bit_mask(b) != 0 {
            let f2 = if vram[idx] == 1 { flag | 1 } else { flag };
            spec_draw_bits(vram.update(idx, vram[idx] ^ 1), f2, byte, vx, py, b + 1)
        } else {
            spec_draw_bits(vram, flag, byte, vx, py, b + 1)
        }
    }
}

/// Sprite rows from `r` on: row `r` is the byte at `i + r`, drawn at screen
/// row `(vy + r) % 32`.
pub open spec fn spec_draw_rows(
    vram: Seq<u8>,
    flag: u8,
    ram: Seq<u8>,
    i: int,
    vx: int,
    vy: int,
    n: int,
    r: int,
) -> (Seq<u8>, u8)
    decreases n - r,
{
    if r >= n {
        (vram, flag)
    } else {
        let row = spec_draw_bits(vram, flag, ram[i + r], vx, (vy + r) % 32, 0);
        spec_draw_rows(row.0, row.1, ram, i, vx, vy, n, r + 1)
    }
}

/// The draw instruction: an N-row sprite at the index register, drawn at
/// (V[X], V[Y]) with wraparound; the flag register reports any collision and
/// the framebuffer is marked dirty unconditionally.
pub open spec fn spec_draw_op(s: CpuView, op: u16) -> Result<CpuView, Chip8Error> {
    let n = op_n(op);
    let vx = s.v[op_x(op)] as int;
    let vy = s.v[op_y(op)] as int;
    if n > 0 && s.i + n > RAM_SIZE {
        Err(Chip8Error::OutOfRangeAccess { addr: fault_addr(s.i) })
    } else {
        let res = spec_draw_rows(s.vram, 0, s.ram, s.i, vx, vy, n, 0);
        Ok(CpuView { vram: res.0, v: s.v.update(15, res.1), dirty: true, ..s })
    }
}

/// Timer, key-wait, index and bulk memory operations, family F.
pub open spec fn spec_fx(s: CpuView, op: u16) -> Result<CpuView, Chip8Error> {
    let x = op_x(op);
    let nn = op & 0xFF;
    if nn == 0x07 {
        Ok(CpuView { v: s.v.update(x, s.delay), ..s })
    } else if nn == 0x0A {
        Ok(CpuView { waiting: true, wait_reg: x, ..s })
    } else if nn == 0x15 {
        Ok(CpuView { delay: s.v[x], ..s })
    } else if nn == 0x18 {
        Ok(CpuView { sound: s.v[x], ..s })
    } else if nn == 0x1E {
        let ni = wrap_index(s.i + s.v[x]);
        Ok(CpuView { i: ni, v: s.v.update(15, if ni > 0xF00 { 1u8 } else { 0u8 }), ..s })
    } else if nn == 0x29 {
        Ok(CpuView { i: FONT_BASE_ADDR + s.v[x] * 5, ..s })
    } else if nn == 0x33 {
        if s.i + 2 >= RAM_SIZE {
            Err(Chip8Error::OutOfRangeAccess { addr: fault_addr(s.i) })
        } else {
            let vx = s.v[x];
            Ok(
                CpuView {
                    ram: s.ram.update(s.i, vx / 100).update(s.i + 1, (vx % 100) / 10).update(
                        s.i + 2,
                        vx % 10,
                    ),
                    ..s
                },
            )
        }
    } else if nn == 0x55 {
        if s.i + x >= RAM_SIZE {
            Err(Chip8Error::OutOfRangeAccess { addr: fault_addr(s.i) })
        } else {
            Ok(
                CpuView {
                    ram: Seq::new(
                        RAM_SIZE as nat,
                        |a: int| if s.i <= a <= s.i + x { s.v[a - s.i] } else { s.ram[a] },
                    ),
                    ..s
                },
            )
        }
    } else if nn == 0x65 {
        if s.i + x >= RAM_SIZE {
            Err(Chip8Error::OutOfRangeAccess { addr: fault_addr(s.i) })
        } else {
            Ok(
                CpuView {
                    v: Seq::new(
                        16,
                        |r: int| if r <= x { s.ram[s.i + r] } else { s.v[r] },
                    ),
                    ..s
                },
            )
        }
    } else {
        Err(unsupported(s, op))
    }
}

/// Decode and execute one opcode. `s` already has the program counter moved
/// past the instruction; `rnd` is the byte the random source produced, used
/// only by family C.
pub open spec fn spec_execute(s: CpuView, op: u16, rnd: u8) -> Result<CpuView, Chip8Error> {
    let fam = op_fam(op);
    let x = op_x(op);
    let y = op_y(op);
    if fam == 0x0 {
        if op == 0x00E0 {
            Ok(CpuView { vram: Seq::new(2048, |p: int| 0u8), dirty: true, ..s })
        } else if op == 0x00EE {
            if s.sp <= 0 {
                Err(Chip8Error::StackUnderflow)
            } else {
                Ok(CpuView { sp: s.sp - 1, pc: s.stack[s.sp - 1] as int, ..s })
            }
        } else {
            Err(unsupported(s, op))
        }
    } else if fam == 0x1 {
        Ok(CpuView { pc: op_nnn(op), ..s })
    } else if fam == 0x2 {
        if s.sp >= 16 {
            Err(Chip8Error::StackOverflow)
        } else {
            Ok(
                CpuView {
                    stack: s.stack.update(s.sp, s.pc as u16),
                    sp: s.sp + 1,
                    pc: op_nnn(op),
                    ..s
                },
            )
        }
    } else if fam == 0x3 {
        Ok(if s.v[x] == op_nn(op) { skip(s) } else { s })
    } else if fam == 0x4 {
        Ok(if s.v[x] != op_nn(op) { skip(s) } else { s })
    } else if fam == 0x5 {
        if op & 0xF == 0 {
            Ok(if s.v[x] == s.v[y] { skip(s) } else { s })
        } else {
            Err(unsupported(s, op))
        }
    } else if fam == 0x6 {
        Ok(CpuView { v: s.v.update(x, op_nn(op)), ..s })
    } else if fam == 0x7 {
        Ok(CpuView { v: s.v.update(x, wrap8(s.v[x] + op_nn(op))), ..s })
    } else if fam == 0x8 {
        spec_alu(s, op)
    } else if fam == 0x9 {
        if op & 0xF == 0 {
            Ok(if s.v[x] != s.v[y] { skip(s) } else { s })
        } else {
            Err(unsupported(s, op))
        }
    } else if fam == 0xA {
        Ok(CpuView { i: op_nnn(op), ..s })
    } else if fam == 0xB {
        Ok(CpuView { pc: s.v[0] + op_nnn(op), ..s })
    } else if fam == 0xC {
        Ok(CpuView { v: s.v.update(x, rnd & op_nn(op)), ..s })
    } else if fam == 0xD {
        spec_draw_op(s, op)
    } else if fam == 0xE {
        let nn = op & 0xFF;
        if nn == 0x9E || nn == 0xA1 {
            if s.v[x] >= 16 {
                Err(Chip8Error::InvalidKey { key: s.v[x] })
            } else {
                let pressed = s.keys[s.v[x] as int];
                Ok(if (nn == 0x9E) == pressed { skip(s) } else { s })
            }
        } else {
            Err(unsupported(s, op))
        }
    } else {
        spec_fx(s, op)
    }
}

/// The key-wait scan: the lowest pressed key lands in the wait register and
/// execution resumes; with no key pressed nothing changes.
pub open spec fn spec_wait(s: CpuView) -> CpuView {
    match first_key(s.keys, 0) {
        Option::Some(k) => CpuView {
            v: s.v.update(s.wait_reg, k as u8),
            pc: s.pc + 2,
            waiting: false,
            ..s
        },
        Option::None => s,
    }
}

/// One whole step: take the keypad snapshot, clear the dirty flag, then
/// either poll the key wait or fetch, advance and execute. On a fault the
/// machine is left exactly as it was before the instruction, fit for
/// inspection.
pub open spec fn spec_step(pre: CpuView, keys: Seq<bool>, rnd: u8) -> (CpuView, Result<
    (),
    Chip8Error,
>) {
    let s = CpuView { keys: keys, dirty: false, ..pre };
    if s.waiting {
        (spec_wait(s), Ok(()))
    } else if s.pc + 1 >= RAM_SIZE {
        (s, Err(Chip8Error::OutOfRangeAccess { addr: fault_addr(s.pc) }))
    } else {
        let op = word_at(s.ram, s.pc);
        let s1 = CpuView { pc: s.pc + 2, ..s };
        match spec_execute(s1, op, rnd) {
            Ok(s2) => (s2, Ok(())),
            Err(e) => (s, Err(e)),
        }
    }
}


/// The nibble and byte fields of an opcode lie in their ranges.
pub proof fn lemma_op_parts(op: u16)
    ensures
        0 <= op_x(op) < 16,
        0 <= op_y(op) < 16,
        0 <= op_n(op) < 16,
        0 <= op_nnn(op) < 4096,
        0 <= op_fam(op) < 16,
{
    assert(((op >> 8) & 0xF) < 16) by (bit_vector);
    assert(((op >> 4) & 0xF) < 16) by (bit_vector);
    assert((op & 0xF) < 16) by (bit_vector);
    assert((op & 0xFFF) < 4096) by (bit_vector);
    assert((op >> 12) < 16) by (bit_vector);
}

/// How byte wraparound acts on the sums and differences that arise from
/// two byte operands.
pub proof fn lemma_wrap8(n: int)
    requires
        -256 <= n < 512,
    ensures
        0 <= n < 256 ==> wrap8(n) == n,
        n < 0 ==> wrap8(n) == n + 256,
        n >= 256 ==> wrap8(n) == n - 256,
{
}

/// With no key pressed at or above `j`, the scan from `j` finds nothing.
pub proof fn lemma_first_key_none_from(keys: Seq<bool>, j: int)
    requires
        0 <= j <= 16,
        forall|t: int| j <= t < 16 ==> !keys[t],
    ensures
        first_key(keys, j) is None,
    decreases 16 - j,
{
    if j < 16 {
        lemma_first_key_none_from(keys, j + 1);
    }
}

/// With key `k` pressed and none below it from `j` on, the scan from `j`
/// finds exactly `k`.
pub proof fn lemma_first_key_found_from(keys: Seq<bool>, j: int, k: int)
    requires
        0 <= j <= k < 16,
        keys[k],
        forall|t: int| j <= t < k ==> !keys[t],
    ensures
        first_key(keys, j) == Option::Some(k),
    decreases k - j,
{
    if j < k {
        lemma_first_key_found_from(keys, j + 1, k);
    }
}


/// Toggling a one-bit pixel flips it between 0 and 1.
pub proof fn lemma_pixel_toggle(p: u8)
    requires
        p == 0 || p == 1,
    ensures
        p ^ 1 == (if p == 0 { 1u8 } else { 0u8 }),
{
    assert((0u8 ^ 1u8) == 1u8) by (bit_vector);
    assert((1u8 ^ 1u8) == 0u8) by (bit_vector);
}

} // verus!
