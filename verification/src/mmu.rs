use vstd::prelude::*;

use crate::error::Chip8Error;

verus! {

broadcast use vstd::array::group_array_axioms;

/// Base address of the built-in font table (16 glyphs of 5 bytes each).
pub const FONT_BASE_ADDR: usize = 0x050;

/// Base address at which the program image is loaded.
pub const ROM_BASE_ADDR: usize = 0x200;

/// Number of addressable bytes in the machine's memory.
pub const RAM_SIZE: usize = 0x1000;

/// Number of bytes in the font table.
pub const FONT_SIZE: usize = 80;

/// Largest program image that fits between the load base and the end of memory.
pub const MAX_ROM_SIZE: usize = RAM_SIZE - ROM_BASE_ADDR;

/// The byte at offset `j` of the font table: glyph `j / 5`, row `j % 5`.
pub open spec fn font_at(j: int) -> u8 {
    if j == 0 { 0xF0 } else
    if j == 1 { 0x90 } else
    if j == 2 { 0x90 } else
    if j == 3 { 0x90 } else
    if j == 4 { 0xF0 } else
    if j == 5 { 0x20 } else
    if j == 6 { 0x60 } else
    if j == 7 { 0x20 } else
    if j == 8 { 0x20 } else
    if j == 9 { 0x70 } else
    if j == 10 { 0xF0 } else
    if j == 11 { 0x10 } else
    if j == 12 { 0xF0 } else
    if j == 13 { 0x80 } else
    if j == 14 { 0xF0 } else
    if j == 15 { 0xF0 } else
    if j == 16 { 0x10 } else
    if j == 17 { 0xF0 } else
    if j == 18 { 0x10 } else
    if j == 19 { 0xF0 } else
    if j == 20 { 0x90 } else
    if j == 21 { 0x90 } else
    if j == 22 { 0xF0 } else
    if j == 23 { 0x10 } else
    if j == 24 { 0x10 } else
    if j == 25 { 0xF0 } else
    if j == 26 { 0x80 } else
    if j == 27 { 0xF0 } else
    if j == 28 { 0x10 } else
    if j == 29 { 0xF0 } else
    if j == 30 { 0xF0 } else
    if j == 31 { 0x80 } else
    if j == 32 { 0xF0 } else
    if j == 33 { 0x90 } else
    if j == 34 { 0xF0 } else
    if j == 35 { 0xF0 } else
    if j == 36 { 0x10 } else
    if j == 37 { 0x20 } else
    if j == 38 { 0x40 } else
    if j == 39 { 0x40 } else
    if j == 40 { 0xF0 } else
    if j == 41 { 0x90 } else
    if j == 42 { 0xF0 } else
    if j == 43 { 0x90 } else
    if j == 44 { 0xF0 } else
    if j == 45 { 0xF0 } else
    if j == 46 { 0x90 } else
    if j == 47 { 0xF0 } else
    if j == 48 { 0x10 } else
    if j == 49 { 0xF0 } else
    if j == 50 { 0xF0 } else
    if j == 51 { 0x90 } else
    if j == 52 { 0xF0 } else
    if j == 53 { 0x90 } else
    if j == 54 { 0x90 } else
    if j == 55 { 0xE0 } else
    if j == 56 { 0x90 } else
    if j == 57 { 0xE0 } else
    if j == 58 { 0x90 } else
    if j == 59 { 0xE0 } else
    if j == 60 { 0xF0 } else
    if j == 61 { 0x80 } else
    if j == 62 { 0x80 } else
    if j == 63 { 0x80 } else
    if j == 64 { 0xF0 } else
    if j == 65 { 0xE0 } else
    if j == 66 { 0x90 } else
    if j == 67 { 0x90 } else
    if j == 68 { 0x90 } else
    if j == 69 { 0xE0 } else
    if j == 70 { 0xF0 } else
    if j == 71 { 0x80 } else
    if j == 72 { 0xF0 } else
    if j == 73 { 0x80 } else
    if j == 74 { 0xF0 } else
    if j == 75 { 0xF0 } else
    if j == 76 { 0x80 } else
    if j == 77 { 0xF0 } else
    if j == 78 { 0x80 } else
    if j == 79 { 0x80 } else { 0 }
}

/// Mathematical contents of memory right after a reset: the font table at its
/// base, the program image at its base, and zero everywhere else.
pub open spec fn spec_reset_byte(rom: Seq<u8>, a: int) -> u8 {
    if FONT_BASE_ADDR <= a < FONT_BASE_ADDR + FONT_SIZE {
        font_at(a - FONT_BASE_ADDR)
    } else if ROM_BASE_ADDR <= a < ROM_BASE_ADDR + rom.len() {
        rom[a - ROM_BASE_ADDR]
    } else {
        0
    }
}

pub open spec fn spec_reset_ram(rom: Seq<u8>) -> Seq<u8> {
    Seq::new(RAM_SIZE as nat, |a: int| spec_reset_byte(rom, a))
}

/// The big-endian 16-bit word formed by the bytes at `a` and `a + 1`.
pub open spec fn word_at(ram: Seq<u8>, a: int) -> u16 {
    (ram[a] * 256 + ram[a + 1]) as u16
}

/// The first address of an ascending access run starting at `start` that lies
/// outside the address space (meaningful only when the run does leave it).
pub open spec fn fault_addr(start: int) -> usize {
    if start >= RAM_SIZE { start as usize } else { RAM_SIZE }
}

fn font_byte(j: usize) -> (r: u8)
    ensures
        r == font_at(j as int),
{
    match j {
        0 => 0xF0,
        1 => 0x90,
        2 => 0x90,
        3 => 0x90,
        4 => 0xF0,
        5 => 0x20,
        6 => 0x60,
        7 => 0x20,
        8 => 0x20,
        9 => 0x70,
        10 => 0xF0,
        11 => 0x10,
        12 => 0xF0,
        13 => 0x80,
        14 => 0xF0,
        15 => 0xF0,
        16 => 0x10,
        17 => 0xF0,
        18 => 0x10,
        19 => 0xF0,
        20 => 0x90,
        21 => 0x90,
        22 => 0xF0,
        23 => 0x10,
        24 => 0x10,
        25 => 0xF0,
        26 => 0x80,
        27 => 0xF0,
        28 => 0x10,
        29 => 0xF0,
        30 => 0xF0,
        31 => 0x80,
        32 => 0xF0,
        33 => 0x90,
        34 => 0xF0,
        35 => 0xF0,
        36 => 0x10,
        37 => 0x20,
        38 => 0x40,
        39 => 0x40,
        40 => 0xF0,
        41 => 0x90,
        42 => 0xF0,
        43 => 0x90,
        44 => 0xF0,
        45 => 0xF0,
        46 => 0x90,
        47 => 0xF0,
        48 => 0x10,
        49 => 0xF0,
        50 => 0xF0,
        51 => 0x90,
        52 => 0xF0,
        53 => 0x90,
        54 => 0x90,
        55 => 0xE0,
        56 => 0x90,
        57 => 0xE0,
        58 => 0x90,
        59 => 0xE0,
        60 => 0xF0,
        61 => 0x80,
        62 => 0x80,
        63 => 0x80,
        64 => 0xF0,
        65 => 0xE0,
        66 => 0x90,
        67 => 0x90,
        68 => 0x90,
        69 => 0xE0,
        70 => 0xF0,
        71 => 0x80,
        72 => 0xF0,
        73 => 0x80,
        74 => 0xF0,
        75 => 0xF0,
        76 => 0x80,
        77 => 0xF0,
        78 => 0x80,
        79 => 0x80,
        _ => 0,
    }
}

/// The memory unit: the 4096-byte address space together with the program
/// image it was loaded from, kept so that a reset can reload it.
pub struct MMU {
    rom: Vec<u8>,
    ram: [u8; RAM_SIZE],
}

pub ghost struct MmuView {
    pub ram: Seq<u8>,
    pub rom: Seq<u8>,
}

impl View for MMU {
    type V = MmuView;

    closed spec fn view(&self) -> MmuView {
        MmuView { ram: self.ram@, rom: self.rom@ }
    }
}

impl MMU {
    pub open spec fn wf(self) -> bool {
        &&& self@.ram.len() == RAM_SIZE
        &&& self@.rom.len() <= MAX_ROM_SIZE
    }

    pub fn new(rom: Vec<u8>) -> (r: MMU)
        requires
            rom@.len() <= MAX_ROM_SIZE,
        ensures
            r.wf(),
            r@.rom == rom@,
            r@.ram == spec_reset_ram(rom@),
    {
        let mut mmu = MMU { rom, ram: [0; RAM_SIZE] };
        mmu.reset();
        mmu
    }

    pub fn load_rom(&mut self, rom: Vec<u8>)
        requires
            rom@.len() <= MAX_ROM_SIZE,
        ensures
            final(self).wf(),
            final(self)@.rom == rom@,
            final(self)@.ram == spec_reset_ram(rom@),
    {
        self.rom = rom;
        self.reset();
    }

    pub fn reset(&mut self)
        requires
            old(self).wf(),
        ensures
            final(self).wf(),
            final(self)@.rom == old(self)@.rom,
            final(self)@.ram == spec_reset_ram(old(self)@.rom),
    {
        self.ram = [0; RAM_SIZE];
        let mut j: usize = 0;
        while j < FONT_SIZE
            invariant
                j <= FONT_SIZE,
                self.rom@ == old(self)@.rom,
                self.rom@.len() <= MAX_ROM_SIZE,
                forall|a: int|
                    0 <= a < RAM_SIZE ==> self.ram@[a] == (if FONT_BASE_ADDR <= a
                        < FONT_BASE_ADDR + j {
                        font_at(a - FONT_BASE_ADDR)
                    } else {
                        0u8
                    }),
            decreases FONT_SIZE - j,
        {
            let b = font_byte(j);
            self.ram[FONT_BASE_ADDR + j] = b;
            j += 1;
        }
        let mut k: usize = 0;
        while k < self.rom.len()
            invariant
                k <= self.rom@.len(),
                self.rom@ == old(self)@.rom,
                self.rom@.len() <= MAX_ROM_SIZE,
                forall|a: int|
                    0 <= a < RAM_SIZE ==> self.ram@[a] == (if ROM_BASE_ADDR <= a < ROM_BASE_ADDR
                        + k {
                        self.rom@[a - ROM_BASE_ADDR]
                    } else {
                        spec_reset_byte(Seq::<u8>::empty(), a)
                    }),
            decreases self.rom@.len() - k,
        {
            let b = self.rom[k];
            self.ram[ROM_BASE_ADDR + k] = b;
            k += 1;
        }
        proof {
            assert(self.ram@ =~= spec_reset_ram(self.rom@));
        }
    }

    pub fn read_byte(&self, addr: usize) -> (r: Result<u8, Chip8Error>)
        ensures
            addr < RAM_SIZE ==> r == Ok::<u8, Chip8Error>(self@.ram[addr as int]),
            addr >= RAM_SIZE ==> r == Err::<u8, Chip8Error>(
                (Chip8Error::OutOfRangeAccess { addr }),
            ),
    {
        if addr < RAM_SIZE {
            Ok(self.ram[addr])
        } else {
            Err(Chip8Error::OutOfRangeAccess { addr })
        }
    }

    pub fn write_byte(&mut self, addr: usize, value: u8) -> (r: Result<(), Chip8Error>)
        ensures
            addr < RAM_SIZE ==> r is Ok && final(self)@.ram == old(self)@.ram.update(
                addr as int,
                value,
            ) && final(self)@.rom == old(self)@.rom,
            addr >= RAM_SIZE ==> r == Err::<(), Chip8Error>(
                (Chip8Error::OutOfRangeAccess { addr }),
            ) && final(self)@ == old(self)@,
    {
        if addr < RAM_SIZE {
            self.ram[addr] = value;
            Ok(())
        } else {
            Err(Chip8Error::OutOfRangeAccess { addr })
        }
    }

    pub fn read_word(&self, addr: usize) -> (r: Result<u16, Chip8Error>)
        ensures
            addr + 1 < RAM_SIZE ==> r == Ok::<u16, Chip8Error>(word_at(self@.ram, addr as int)),
            addr + 1 >= RAM_SIZE ==> r == Err::<u16, Chip8Error>(
                (Chip8Error::OutOfRangeAccess { addr: fault_addr(addr as int) }),
            ),
    {
        if addr < RAM_SIZE - 1 {
            let hi = self.ram[addr];
            let lo = self.ram[addr + 1];
            Ok((hi as u16) * 256 + (lo as u16))
        } else if addr >= RAM_SIZE {
            Err(Chip8Error::OutOfRangeAccess { addr })
        } else {
            Err(Chip8Error::OutOfRangeAccess { addr: RAM_SIZE })
        }
    }

    /// Unchecked read for verified callers that have proved the address in range.
    pub(crate) fn get_byte(&self, addr: usize) -> (r: u8)
        requires
            addr < RAM_SIZE,
        ensures
            r == self@.ram[addr as int],
    {
        self.ram[addr]
    }

    /// Unchecked write for verified callers that have proved the address in range.
    pub(crate) fn set_byte(&mut self, addr: usize, value: u8)
        requires
            addr < RAM_SIZE,
        ensures
            final(self)@.ram == old(self)@.ram.update(addr as int, value),
            final(self)@.rom == old(self)@.rom,
    {
        self.ram[addr] = value;
    }
}

} // verus!
