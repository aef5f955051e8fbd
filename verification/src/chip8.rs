use vstd::prelude::*;

use crate::cpu::{CPU, VRAM_SIZE};
use crate::error::Chip8Error;
use crate::mmu::{MAX_ROM_SIZE, MMU};
use crate::model::{spec_reset_view, spec_step, CpuView};

verus! {

broadcast use vstd::array::group_array_axioms;

/// Framebuffer width in pixels.
pub const WIDTH: usize = 64;

/// Framebuffer height in pixels.
pub const HEIGHT: usize = 32;

/// The machine as the host drives it: the processor plus the keypad snapshot
/// the host last supplied, handed to every step.
pub struct Interpreter {
    /// Open so an external debugger can inspect and single-step the processor.
    pub cpu: CPU,
    keypad: [bool; 16],
}

#[verifier::ext_equal]
pub ghost struct InterpView {
    pub cpu: CpuView,
    pub keypad: Seq<bool>,
}

impl View for Interpreter {
    type V = InterpView;

    closed spec fn view(&self) -> InterpView {
        InterpView { cpu: self.cpu@, keypad: self.keypad@ }
    }
}

impl Interpreter {
    pub open spec fn wf(self) -> bool {
        &&& self@.cpu.wf()
        &&& self@.keypad.len() == 16
    }

    pub fn new(rom: Vec<u8>) -> (r: Interpreter)
        requires
            rom@.len() <= MAX_ROM_SIZE,
        ensures
            r.wf(),
            r@.cpu == spec_reset_view(rom@),
            r@.keypad == Seq::new(16, |k: int| false),
    {
        let mmu = MMU::new(rom);
        let cpu = CPU::new(mmu);
        let r = Interpreter { cpu, keypad: [false; 16] };
        proof {
            assert(r@.keypad =~= Seq::new(16, |k: int| false));
        }
        r
    }

    /// Overwrite the keypad snapshot handed to subsequent steps.
    pub fn update_keypad(&mut self, keypad: [bool; 16])
        ensures
            final(self)@ == (InterpView { keypad: keypad@, ..old(self)@ }),
    {
        self.keypad = keypad;
        proof {
            assert(self@ =~= (InterpView { keypad: keypad@, ..old(self)@ }));
        }
    }

    /// Run one virtual cycle against the stored keypad snapshot.
    pub fn step(&mut self) -> (r: Result<(), Chip8Error>)
        requires
            old(self).wf(),
        ensures
            final(self).wf(),
            final(self)@.keypad == old(self)@.keypad,
            exists|rnd: u8| #[trigger] spec_step(old(self)@.cpu, old(self)@.keypad, rnd) == (
                final(self)@.cpu,
                r,
            ),
    {
        self.cpu.step(self.keypad)
    }

    pub fn should_redraw(&self) -> (r: bool)
        ensures
            r == self@.cpu.dirty,
    {
        self.cpu.should_redraw()
    }

    pub fn should_beep(&self) -> (r: bool)
        ensures
            r == (self@.cpu.sound > 0),
    {
        self.cpu.should_beep()
    }

    /// Decrement both timers toward zero; driven by the host once per tick.
    pub fn update_timers(&mut self)
        ensures
            final(self)@ == (InterpView {
                cpu: CpuView {
                    delay: if old(self)@.cpu.delay > 0 {
                        (old(self)@.cpu.delay - 1) as u8
                    } else {
                        0u8
                    },
                    sound: if old(self)@.cpu.sound > 0 {
                        (old(self)@.cpu.sound - 1) as u8
                    } else {
                        0u8
                    },
                    ..old(self)@.cpu
                },
                ..old(self)@
            }),
    {
        self.cpu.update_timers();
        proof {
            assert(self@ =~= (InterpView {
                cpu: CpuView {
                    delay: if old(self)@.cpu.delay > 0 {
                        (old(self)@.cpu.delay - 1) as u8
                    } else {
                        0u8
                    },
                    sound: if old(self)@.cpu.sound > 0 {
                        (old(self)@.cpu.sound - 1) as u8
                    } else {
                        0u8
                    },
                    ..old(self)@.cpu
                },
                ..old(self)@
            }));
        }
    }

    /// A read-only copy of the framebuffer, one byte (0 or 1) per pixel,
    /// row-major.
    pub fn get_vram(&self) -> (r: [u8; VRAM_SIZE])
        ensures
            r@ == self@.cpu.vram,
    {
        self.cpu.get_vram()
    }

    /// Reload memory from the current program image and return every
    /// register, the stack, the framebuffer and the wait state to their
    /// construction-time defaults. The stored keypad snapshot is the host's
    /// and stays.
    pub fn reset(&mut self)
        requires
            old(self).wf(),
        ensures
            final(self).wf(),
            final(self)@.cpu == spec_reset_view(old(self)@.cpu.rom),
            final(self)@.keypad == old(self)@.keypad,
    {
        self.cpu.reset()
    }

    /// Replace the program image and reset.
    pub fn load_rom(&mut self, rom: Vec<u8>)
        requires
            old(self).wf(),
            rom@.len() <= MAX_ROM_SIZE,
        ensures
            final(self).wf(),
            final(self)@.cpu == spec_reset_view(rom@),
            final(self)@.keypad == old(self)@.keypad,
    {
        self.cpu.load_rom(rom);
    }
}

} // verus!
