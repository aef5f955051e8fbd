use chipolata::error::Chip8Error;
use chipolata::mmu::MMU;

#[test]
fn font_table_seeded_on_reset() {
    let mut mmu = MMU::new(vec![]);
    // glyph 0 and glyph F, first and last rows
    assert_eq!(mmu.read_byte(0x050).unwrap(), 0xF0);
    assert_eq!(mmu.read_byte(0x054).unwrap(), 0xF0);
    assert_eq!(mmu.read_byte(0x09B).unwrap(), 0xF0);
    assert_eq!(mmu.read_byte(0x09F).unwrap(), 0x80);
    // outside font and program: zero
    assert_eq!(mmu.read_byte(0x000).unwrap(), 0);
    assert_eq!(mmu.read_byte(0x04F).unwrap(), 0);
    assert_eq!(mmu.read_byte(0x0A0).unwrap(), 0);
    // writes round-trip
    mmu.write_byte(0x700, 0xAB).unwrap();
    assert_eq!(mmu.read_byte(0x700).unwrap(), 0xAB);
}

#[test]
fn program_image_loaded_at_base() {
    let mut mmu = MMU::new(vec![0x12, 0x34, 0x56]);
    assert_eq!(mmu.read_byte(0x200).unwrap(), 0x12);
    assert_eq!(mmu.read_byte(0x201).unwrap(), 0x34);
    assert_eq!(mmu.read_byte(0x202).unwrap(), 0x56);
    assert_eq!(mmu.read_byte(0x203).unwrap(), 0);
    mmu.load_rom(vec![0x99]);
    assert_eq!(mmu.read_byte(0x200).unwrap(), 0x99);
    assert_eq!(mmu.read_byte(0x201).unwrap(), 0);
}

#[test]
fn read_word_is_big_endian() {
    let mmu = MMU::new(vec![0xAB, 0xCD]);
    assert_eq!(mmu.read_word(0x200).unwrap(), 0xABCD);
}

#[test]
fn out_of_range_accesses_fault() {
    let mut mmu = MMU::new(vec![]);
    assert_eq!(
        mmu.read_byte(0x1000).unwrap_err(),
        Chip8Error::OutOfRangeAccess { addr: 0x1000 }
    );
    assert_eq!(
        mmu.write_byte(0x2345, 1).unwrap_err(),
        Chip8Error::OutOfRangeAccess { addr: 0x2345 }
    );
    // a word read straddling the end faults at the first bad address
    assert_eq!(
        mmu.read_word(0xFFF).unwrap_err(),
        Chip8Error::OutOfRangeAccess { addr: 0x1000 }
    );
    assert_eq!(
        mmu.read_word(0x1000).unwrap_err(),
        Chip8Error::OutOfRangeAccess { addr: 0x1000 }
    );
    // the last valid word
    assert!(mmu.read_word(0xFFE).is_ok());
}

#[test]
fn reset_clears_written_bytes() {
    let mut mmu = MMU::new(vec![0x01]);
    mmu.write_byte(0x800, 0x77).unwrap();
    mmu.reset();
    assert_eq!(mmu.read_byte(0x800).unwrap(), 0);
    assert_eq!(mmu.read_byte(0x200).unwrap(), 0x01);
}
