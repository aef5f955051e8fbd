pub mod chip8;
pub mod cpu;
pub mod error;
pub mod laws;
pub mod mmu;
pub mod model;
