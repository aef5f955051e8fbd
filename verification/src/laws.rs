use vstd::prelude::*;

use vstd::arithmetic::div_mod::{lemma_mod_equivalence, lemma_small_mod};

use crate::mmu::RAM_SIZE;
use crate::model::{
    bit_mask, first_key, lemma_first_key_none_from, lemma_op_parts, lemma_pixel_toggle, op_fam,
    op_n, op_x, op_y, spec_draw_bits, spec_draw_rows, spec_execute, spec_reset, spec_step,
    spec_wait, CpuView,
};

verus! {

/// Adding register Y into register X carries into the flag register: when
/// the true sum reaches 256 the flag is 1 and the destination wraps to
/// `sum % 256`; below 256 the flag is 0 and the destination is the sum.
pub proof fn lemma_add_with_carry(s: CpuView, op: u16, rnd: u8)
    requires
        s.wf(),
        op_fam(op) == 0x8,
        op & 0xF == 0x4,
    ensures
        spec_execute(s, op, rnd) is Ok,
        ({
            let s2 = spec_execute(s, op, rnd)->Ok_0;
            let sum = s.v[op_x(op)] + s.v[op_y(op)];
            &&& s2.v[15] == (if sum >= 256 { 1u8 } else { 0u8 })
            &&& (op_x(op) != 15 ==> s2.v[op_x(op)] == sum % 256)
        }),
{
    lemma_op_parts(op);
}

/// The lowest pressed key at or above `j`, when one exists: the scan finds
/// it, it is pressed, and nothing below it is.
pub proof fn lemma_first_key_some(keys: Seq<bool>, j: int)
    requires
        keys.len() == 16,
        0 <= j <= 16,
        exists|k: int| j <= k < 16 && keys[k],
    ensures
        first_key(keys, j) is Some,
        ({
            let k = first_key(keys, j)->0;
            &&& j <= k < 16
            &&& keys[k]
            &&& forall|t: int| j <= t < k ==> !keys[t]
        }),
    decreases 16 - j,
{
    if keys[j] {
    } else {
        assert(exists|k: int| j + 1 <= k < 16 && keys[k]) by {
            let k0 = choose|k: int| j <= k < 16 && keys[k];
            assert(j + 1 <= k0 < 16 && keys[k0]);
        }
        lemma_first_key_some(keys, j + 1);
    }
}

/// While a key wait is pending, a step with no key pressed changes nothing
/// but the keypad snapshot; the first step that sees a pressed key stores
/// the lowest pressed index in the wait register and advances the program
/// counter by exactly 2.
pub proof fn lemma_key_wait(s: CpuView, keys: Seq<bool>, rnd: u8)
    requires
        s.wf(),
        s.waiting,
        keys.len() == 16,
    ensures
        spec_step(s, keys, rnd).1 is Ok,
        (forall|k: int| 0 <= k < 16 ==> !keys[k]) ==> spec_step(s, keys, rnd).0 == (CpuView {
            keys: keys,
            dirty: false,
            ..s
        }),
        (exists|k: int| 0 <= k < 16 && keys[k]) ==> ({
            let s2 = spec_step(s, keys, rnd).0;
            let k = first_key(keys, 0)->0;
            &&& 0 <= k < 16
            &&& keys[k]
            &&& (forall|t: int| 0 <= t < k ==> !keys[t])
            &&& s2 == (CpuView {
                v: s.v.update(s.wait_reg, k as u8),
                pc: s.pc + 2,
                waiting: false,
                keys: keys,
                dirty: false,
                ..s
            })
        }),
{
    let sk = CpuView { keys: keys, dirty: false, ..s };
    if forall|k: int| 0 <= k < 16 ==> !keys[k] {
        lemma_first_key_none_from(keys, 0);
        assert(spec_wait(sk) == sk);
    } else {
        assert(exists|k: int| 0 <= k < 16 && keys[k]) by {
            let k0 = choose|k: int| !(0 <= k < 16 ==> !keys[k]);
            assert(0 <= k0 < 16 && keys[k0]);
        }
        lemma_first_key_some(keys, 0);
    }
}

/// A reset is idempotent: resetting a freshly reset machine is the same
/// reset, since a reset keeps the program image and determines every other
/// part of the state from it alone.
pub proof fn lemma_reset_idempotent(s: CpuView)
    ensures
        spec_reset(spec_reset(s)) == spec_reset(s),
{
    assert(spec_reset(spec_reset(s)) =~= spec_reset(s));
}

/// Bulk-storing registers 0..=X at the index register and then bulk-loading
/// the same range from the same place restores every register.
pub proof fn lemma_store_load_roundtrip(s: CpuView, op55: u16, op65: u16, rnd: u8)
    requires
        s.wf(),
        op_fam(op55) == 0xF,
        op55 & 0xFF == 0x55,
        op_fam(op65) == 0xF,
        op65 & 0xFF == 0x65,
        op_x(op65) == op_x(op55),
        s.i + op_x(op55) < RAM_SIZE,
    ensures
        spec_execute(s, op55, rnd) is Ok,
        ({
            let s1 = spec_execute(s, op55, rnd)->Ok_0;
            &&& spec_execute(s1, op65, rnd) is Ok
            &&& spec_execute(s1, op65, rnd)->Ok_0.v == s.v
            &&& spec_execute(s1, op65, rnd)->Ok_0 == (CpuView { v: s.v, ..s1 })
        }),
{
    lemma_op_parts(op55);
    lemma_op_parts(op65);
    let x = op_x(op55);
    let s1 = spec_execute(s, op55, rnd)->Ok_0;
    let s2 = spec_execute(s1, op65, rnd)->Ok_0;
    assert(s2.v =~= s.v);
    assert(s2 =~= (CpuView { v: s.v, ..s1 }));
}


/// Two distinct bits of one sprite row land in distinct columns: their
/// offsets differ by less than the screen width.
proof fn lemma_col_distinct(vx: int, b1: int, b2: int)
    requires
        0 <= vx,
        0 <= b1 < b2 < 8,
    ensures
        (vx + b1) % 64 != (vx + b2) % 64,
{
    if (vx + b1) % 64 == (vx + b2) % 64 {
        lemma_mod_equivalence(vx + b2, vx + b1, 64);
        lemma_small_mod((b2 - b1) as nat, 64);
        assert(false);
    }
}

/// What one sprite row does, pixel by pixel: a pixel is toggled exactly when
/// some set bit of the row lands on it, and the flag records whether any set
/// bit landed on a lit pixel. Each set bit lands on its own pixel, so the
/// state a bit sees is the starting state.
pub proof fn lemma_draw_bits_pointwise(
    vram: Seq<u8>,
    flag: u8,
    byte: u8,
    vx: int,
    py: int,
    b: int,
)
    requires
        vram.len() == 2048,
        0 <= py < 32,
        0 <= vx,
        0 <= b <= 8,
    ensures
        ({
            let r = spec_draw_bits(vram, flag, byte, vx, py, b);
            &&& r.0.len() == 2048
            &&& (forall|p: int|
                0 <= p < 2048 ==> r.0[p] == (if exists|b2: int|
                    b <= b2 < 8 && byte & #[trigger] bit_mask(b2) != 0 && p == py * 64 + (vx + b2)
                        % 64 {
                    vram[p] ^ 1
                } else {
                    vram[p]
                }))
            &&& r.1 == (if exists|b2: int|
                b <= b2 < 8 && byte & #[trigger] bit_mask(b2) != 0 && vram[py * 64 + (vx + b2)
                    % 64] == 1 {
                flag | 1
            } else {
                flag
            })
        }),
    decreases 8 - b,
{
    let r = spec_draw_bits(vram, flag, byte, vx, py, b);
    if b == 8 {
    } else {
        let col = (vx + b) % 64;
        assert(0 <= col < 64);
        let idx = py * 64 + col;
        assert forall|b2: int| b < b2 < 8 implies py * 64 + #[trigger] ((vx + b2) % 64) != idx by {
            lemma_col_distinct(vx, b, b2);
        }
        if byte & bit_mask(b) != 0 {
            let v2 = vram.update(idx, vram[idx] ^ 1);
            let f2 = if vram[idx] == 1 { flag | 1 } else { flag };
            lemma_draw_bits_pointwise(v2, f2, byte, vx, py, b + 1);
            let r2 = spec_draw_bits(v2, f2, byte, vx, py, b + 1);
            assert(r == r2);
            assert forall|p: int| 0 <= p < 2048 implies r.0[p] == (if exists|b2: int|
                b <= b2 < 8 && byte & #[trigger] bit_mask(b2) != 0 && p == py * 64 + (vx + b2)
                    % 64 {
                vram[p] ^ 1
            } else {
                vram[p]
            }) by {
                if p == idx {
                    assert(!(exists|b2: int|
                        b + 1 <= b2 < 8 && byte & #[trigger] bit_mask(b2) != 0 && p == py * 64 + (
                        vx + b2) % 64));
                    assert(r.0[p] == v2[p]);
                    assert(b <= b < 8 && byte & bit_mask(b) != 0 && p == py * 64 + (vx + b) % 64);
                } else {
                    assert(v2[p] == vram[p]);
                    if exists|b2: int|
                        b <= b2 < 8 && byte & #[trigger] bit_mask(b2) != 0 && p == py * 64 + (vx
                        + b2) % 64 {
                        let w = choose|b2: int|
                            b <= b2 < 8 && byte & #[trigger] bit_mask(b2) != 0 && p == py * 64 + (
                            vx + b2) % 64;
                        assert(w != b);
                        assert(b + 1 <= w < 8 && byte & bit_mask(w) != 0 && p == py * 64 + (vx + w)
                            % 64);
                    }
                }
            }
            assert(((flag | 1) | 1) == (flag | 1)) by (bit_vector);
            if vram[idx] == 1 {
                assert(b <= b < 8 && byte & bit_mask(b) != 0 && vram[py * 64 + (vx + b) % 64]
                    == 1);
                if exists|b2: int|
                    b + 1 <= b2 < 8 && byte & #[trigger] bit_mask(b2) != 0 && v2[py * 64 + (vx
                    + b2) % 64] == 1 {
                    assert(r.1 == f2 | 1);
                } else {
                    assert(r.1 == f2);
                }
                assert(r.1 == flag | 1);
            } else {
                assert forall|b2: int| b <= b2 < 8 && byte & #[trigger] bit_mask(b2) != 0 implies (
                vram[py * 64 + (vx + b2) % 64] == 1) == (b + 1 <= b2 < 8 && byte & bit_mask(b2)
                    != 0 && v2[py * 64 + (vx + b2) % 64] == 1) by {
                    if b2 == b {
                    } else {
                        assert(py * 64 + (vx + b2) % 64 != idx);
                        assert(v2[py * 64 + (vx + b2) % 64] == vram[py * 64 + (vx + b2) % 64]);
                    }
                }
                if exists|b2: int|
                    b <= b2 < 8 && byte & #[trigger] bit_mask(b2) != 0 && vram[py * 64 + (vx + b2)
                    % 64] == 1 {
                    let w = choose|b2: int|
                        b <= b2 < 8 && byte & #[trigger] bit_mask(b2) != 0 && vram[py * 64 + (vx
                        + b2) % 64] == 1;
                    assert(w != b);
                    assert(py * 64 + (vx + w) % 64 != idx);
                    assert(b + 1 <= w < 8 && byte & bit_mask(w) != 0 && v2[py * 64 + (vx + w) % 64]
                        == 1);
                    assert(r.1 == flag | 1);
                } else {
                    if exists|b2: int|
                        b + 1 <= b2 < 8 && byte & #[trigger] bit_mask(b2) != 0 && v2[py * 64 + (vx
                        + b2) % 64] == 1 {
                        let w = choose|b2: int|
                            b + 1 <= b2 < 8 && byte & #[trigger] bit_mask(b2) != 0 && v2[py * 64
                            + (vx + b2) % 64] == 1;
                        assert(py * 64 + (vx + w) % 64 != idx);
                        assert(vram[py * 64 + (vx + w) % 64] == 1);
                        assert(false);
                    }
                    assert(r.1 == flag);
                }
            }
        } else {
            lemma_draw_bits_pointwise(vram, flag, byte, vx, py, b + 1);
            assert forall|p: int| 0 <= p < 2048 implies r.0[p] == (if exists|b2: int|
                b <= b2 < 8 && byte & #[trigger] bit_mask(b2) != 0 && p == py * 64 + (vx + b2)
                    % 64 {
                vram[p] ^ 1
            } else {
                vram[p]
            }) by {
                if exists|b2: int|
                    b <= b2 < 8 && byte & #[trigger] bit_mask(b2) != 0 && p == py * 64 + (vx + b2)
                    % 64 {
                    let w = choose|b2: int|
                        b <= b2 < 8 && byte & #[trigger] bit_mask(b2) != 0 && p == py * 64 + (vx
                        + b2) % 64;
                    assert(w != b);
                    assert(b + 1 <= w < 8 && byte & bit_mask(w) != 0 && p == py * 64 + (vx + w)
                        % 64);
                } else {
                    if exists|b2: int|
                        b + 1 <= b2 < 8 && byte & #[trigger] bit_mask(b2) != 0 && p == py * 64 + (
                        vx + b2) % 64 {
                        let w = choose|b2: int|
                            b + 1 <= b2 < 8 && byte & #[trigger] bit_mask(b2) != 0 && p == py * 64
                            + (vx + b2) % 64;
                        assert(b <= w < 8 && byte & bit_mask(w) != 0 && p == py * 64 + (vx + w)
                            % 64);
                        assert(false);
                    }
                }
            }
            assert((exists|b2: int|
                b <= b2 < 8 && byte & #[trigger] bit_mask(b2) != 0 && vram[py * 64 + (vx + b2)
                    % 64] == 1) == (exists|b2: int|
                b + 1 <= b2 < 8 && byte & #[trigger] bit_mask(b2) != 0 && vram[py * 64 + (vx + b2)
                    % 64] == 1)) by {
                if exists|b2: int|
                    b <= b2 < 8 && byte & #[trigger] bit_mask(b2) != 0 && vram[py * 64 + (vx + b2)
                    % 64] == 1 {
                    let w = choose|b2: int|
                        b <= b2 < 8 && byte & #[trigger] bit_mask(b2) != 0 && vram[py * 64 + (vx
                        + b2) % 64] == 1;
                    assert(w != b);
                }
            }
        }
    }
}


/// A nonzero byte has at least one set sprite bit.
proof fn lemma_byte_has_bit(byte: u8)
    requires
        byte != 0,
    ensures
        exists|b: int| 0 <= b < 8 && byte & #[trigger] bit_mask(b) != 0,
{
    assert((byte & 0x80 == 0 && byte & 0x40 == 0 && byte & 0x20 == 0 && byte & 0x10 == 0 && byte
        & 0x08 == 0 && byte & 0x04 == 0 && byte & 0x02 == 0 && byte & 0x01 == 0) ==> byte == 0)
        by (bit_vector);
    if byte & 0x80 != 0 {
        assert(byte & bit_mask(0) != 0);
    } else if byte & 0x40 != 0 {
        assert(byte & bit_mask(1) != 0);
    } else if byte & 0x20 != 0 {
        assert(byte & bit_mask(2) != 0);
    } else if byte & 0x10 != 0 {
        assert(byte & bit_mask(3) != 0);
    } else if byte & 0x08 != 0 {
        assert(byte & bit_mask(4) != 0);
    } else if byte & 0x04 != 0 {
        assert(byte & bit_mask(5) != 0);
    } else if byte & 0x02 != 0 {
        assert(byte & bit_mask(6) != 0);
    } else {
        assert(byte & bit_mask(7) != 0);
    }
}

/// Drawing one 8x1 sprite row twice at the same spot, over pixels that
/// start clear, first lights exactly the sprite's set bits with no
/// collision, then toggles them all off again; the second draw reports a
/// collision exactly when the sprite has any set bit, since every pixel it
/// touches was lit by the first draw.
#[verifier::rlimit(100)]
pub proof fn lemma_draw_twice_collision(s: CpuView, op: u16, rnd: u8)
    requires
        s.wf(),
        op_fam(op) == 0xD,
        op_n(op) == 1,
        op_x(op) != 15,
        op_y(op) != 15,
        s.i + 1 <= RAM_SIZE,
        forall|b: int|
            0 <= b < 8 && s.ram[s.i] & #[trigger] bit_mask(b) != 0 ==> s.vram[(s.v[op_y(op)] % 32)
                * 64 + (s.v[op_x(op)] + b) % 64] == 0,
    ensures
        spec_execute(s, op, rnd) is Ok,
        ({
            let s1 = spec_execute(s, op, rnd)->Ok_0;
            &&& s1.v[15] == 0
            &&& spec_execute(s1, op, rnd) is Ok
            &&& ({
                let s2 = spec_execute(s1, op, rnd)->Ok_0;
                &&& s2.vram == s.vram
                &&& s2.v[15] == (if s.ram[s.i] == 0 { 0u8 } else { 1u8 })
            })
        }),
{
    lemma_op_parts(op);
    let byte = s.ram[s.i];
    let vx = s.v[op_x(op)] as int;
    let vy = s.v[op_y(op)] as int;
    let py = vy % 32;
    assert(0 <= py < 32);
    let d1 = spec_draw_bits(s.vram, 0, byte, vx, py, 0);
    reveal_with_fuel(spec_draw_rows, 3);
    assert(spec_draw_rows(s.vram, 0, s.ram, s.i, vx, vy, 1, 0) == d1);
    lemma_draw_bits_pointwise(s.vram, 0, byte, vx, py, 0);
    // no set bit lands on a lit pixel, so the first draw reports no collision
    if exists|b2: int|
        0 <= b2 < 8 && byte & #[trigger] bit_mask(b2) != 0 && s.vram[py * 64 + (vx + b2) % 64]
        == 1 {
        let w = choose|b2: int|
            0 <= b2 < 8 && byte & #[trigger] bit_mask(b2) != 0 && s.vram[py * 64 + (vx + b2) % 64]
            == 1;
        assert(false);
    }
    assert(d1.1 == 0);
    let s1 = spec_execute(s, op, rnd)->Ok_0;
    assert(s1.vram == d1.0);
    assert(s1.v[15] == 0);
    assert(s1.v[op_x(op)] == s.v[op_x(op)] && s1.v[op_y(op)] == s.v[op_y(op)]);
    assert(s1.ram == s.ram && s1.i == s.i);
    // the first draw lit exactly the touched pixels
    assert forall|b2: int| 0 <= b2 < 8 && byte & #[trigger] bit_mask(b2) != 0 implies d1.0[py * 64
        + (vx + b2) % 64] == 1 by {
        let p = py * 64 + (vx + b2) % 64;
        assert(0 <= (vx + b2) % 64 < 64);
        assert(d1.0[p] == s.vram[p] ^ 1);
        lemma_pixel_toggle(s.vram[p]);
    }
    let d2 = spec_draw_bits(d1.0, 0, byte, vx, py, 0);
    assert(spec_draw_rows(d1.0, 0, s.ram, s.i, vx, vy, 1, 0) == d2);
    lemma_draw_bits_pointwise(d1.0, 0, byte, vx, py, 0);
    let s2 = spec_execute(s1, op, rnd)->Ok_0;
    assert(s2.vram == d2.0);
    // the second draw toggles every touched pixel back off
    assert forall|p: int| 0 <= p < 2048 implies d2.0[p] == s.vram[p] by {
        if exists|b2: int|
            0 <= b2 < 8 && byte & #[trigger] bit_mask(b2) != 0 && p == py * 64 + (vx + b2) % 64 {
            let w = choose|b2: int|
                0 <= b2 < 8 && byte & #[trigger] bit_mask(b2) != 0 && p == py * 64 + (vx + b2)
                    % 64;
            assert(s.vram[p] == 0);
            lemma_pixel_toggle(s.vram[p]);
            assert(d1.0[p] == 1);
            lemma_pixel_toggle(d1.0[p]);
            assert(d2.0[p] == d1.0[p] ^ 1);
        } else {
            assert(d2.0[p] == d1.0[p]);
            assert(d1.0[p] == s.vram[p]);
        }
    }
    assert(d2.0 =~= s.vram);
    // and collides exactly when the sprite has a set bit
    if byte == 0 {
        assert forall|b2: int| 0 <= b2 < 8 implies byte & #[trigger] bit_mask(b2) == 0 by {
            let m = bit_mask(b2);
            assert(0u8 & m == 0) by (bit_vector);
        }
        if exists|b2: int|
            0 <= b2 < 8 && byte & #[trigger] bit_mask(b2) != 0 && d1.0[py * 64 + (vx + b2) % 64]
            == 1 {
            let w = choose|b2: int|
                0 <= b2 < 8 && byte & #[trigger] bit_mask(b2) != 0 && d1.0[py * 64 + (vx + b2)
                    % 64] == 1;
            assert(false);
        }
        assert(d2.1 == 0);
    } else {
        lemma_byte_has_bit(byte);
        let w = choose|b: int| 0 <= b < 8 && byte & #[trigger] bit_mask(b) != 0;
        assert(d1.0[py * 64 + (vx + w) % 64] == 1);
        assert(0u8 | 1u8 == 1u8) by (bit_vector);
        assert(d2.1 == 1);
    }
}

} // verus!
