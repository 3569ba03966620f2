#![allow(non_camel_case_types)]
//! A static binary-analysis front end for a MIPS-family CPU with
//! multimedia and vector extensions.
//!
//! - `cpu` holds the typed instruction hierarchy and the control-flow
//!   classification of each instruction;
//! - `trans` decodes any 32-bit word into it, totally, table by table;
//! - `grapher` builds maximal basic blocks from raw code bytes and
//!   reconstructs the control-flow graph by a work-queue traversal from
//!   the program entry point, splitting blocks that later targets land in;
//! - `rmap` holds the contracts under which the graph keeps its blocks in
//!   an outside range map.
//!
//! The caller supplies the raw bytes of one executable code region, the
//! virtual address of its first byte, and the entry address; locating that
//! region inside a container format is no concern of this crate.

pub mod cpu;
pub mod trans;
pub mod grapher;
pub mod rmap;
