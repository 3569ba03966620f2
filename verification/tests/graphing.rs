use eetran::grapher::{Block, BlockError, ConstructionError, ProgAnalysis};

const NOP: u32 = 0x08 << 26;  // ADDI: carries on sequentially

fn words(ws: &[u32]) -> Vec<u8> {
    let mut v = Vec::new();
    for w in ws {
        v.extend_from_slice(&w.to_le_bytes());
    }
    v
}

fn jump(target: u64) -> u32 {
    (0x02 << 26) | ((target as u32 & 0x0FFF_FFFF) >> 2)
}

fn beq(imm: u16) -> u32 {
    (0x04 << 26) | imm as u32
}

// Block extraction: non-terminator words followed by one unconditional
// jump yield a single block that ends right after the jump, and its one
// successor is exactly the segment-preserving jump target.
#[test]
fn block_extraction_with_jump() {
    let code = words(&[NOP, NOP, NOP, jump(0x10), NOP, NOP]);
    let mut pa = ProgAnalysis::new();
    assert!(pa.graph(&code, 0, 0).is_ok());
    let a = pa.block_at(0).unwrap();
    assert_eq!(a.start, 0);
    assert_eq!(a.end, 16);
    assert_eq!(a.insts.len(), 4);
    assert_eq!(a.next, vec![0x10]);
    // the jump target became a block of its own, ending by exhaustion
    let b = pa.block_at(0x10).unwrap();
    assert_eq!(b.start, 0x10);
    assert_eq!(b.end, 24);
    assert_eq!(b.next, Vec::<u64>::new());
    assert_eq!(b.prev, vec![0]);
    assert_eq!(pa.block_starts(), vec![0, 0x10]);
}

// Split correctness: a first-discovered block covering [0, 40) and a jump
// target of 20 leave exactly two blocks [0, 20) and [20, 40), an edge from
// the first to the second, and the jump resolves to the second, never to
// the discarded block.
#[test]
fn split_rebuilds_two_blocks() {
    let code = words(&[
        NOP, NOP, NOP, NOP, NOP, NOP, NOP, NOP, NOP, jump(20),
    ]);
    let mut pa = ProgAnalysis::new();
    assert!(pa.graph(&code, 0, 0).is_ok());
    assert_eq!(pa.block_starts(), vec![0, 20]);
    let a = pa.block_at(0).unwrap();
    assert_eq!((a.start, a.end), (0, 20));
    assert_eq!(a.next, vec![20]);
    let b = pa.block_at(20).unwrap();
    assert_eq!((b.start, b.end), (20, 40));
    assert_eq!(b.next, vec![20]);
    // the jump lands on the suffix block, which is also its own
    // predecessor through the self edge
    assert_eq!(b.prev, vec![0, 20]);
    // an address strictly inside a block resolves to its block
    assert_eq!(pa.block_at(24).unwrap().start, 20);
    assert!(pa.block_at(40).is_none());
}

// Idempotence: a target that is already an exact block boundary, reached
// twice, produces no duplicate block and no duplicate edge.
#[test]
fn duplicate_targets_make_no_duplicates() {
    let code = words(&[jump(8), NOP, jump(8), NOP]);
    let mut pa = ProgAnalysis::new();
    assert!(pa.graph(&code, 0, 0).is_ok());
    assert_eq!(pa.block_starts(), vec![0, 8]);
    let b = pa.block_at(8).unwrap();
    assert_eq!((b.start, b.end), (8, 12));
    assert_eq!(b.next, vec![8]);
    assert_eq!(b.prev, vec![0, 8]);
}

// Conditional branches: two successors when target and fall-through both
// lie inside the region, branch target first.
#[test]
fn branch_two_successors() {
    let code = words(&[beq(1), NOP, NOP, NOP]);
    let mut pa = ProgAnalysis::new();
    assert!(pa.graph(&code, 0, 0).is_ok());
    let a = pa.block_at(0).unwrap();
    assert_eq!((a.start, a.end), (0, 4));
    // target = end + 4 + (1 << 2) = 12, fall-through = end + 4 = 8
    assert_eq!(a.next, vec![12, 8]);
}

// Exactly one successor when only the fall-through lies inside, and zero
// when both fall outside: open edges, not errors.
#[test]
fn branch_successors_clipped_to_region() {
    let code = words(&[NOP, beq(10), NOP, NOP]);
    let mut pa = ProgAnalysis::new();
    assert!(pa.graph(&code, 0, 0).is_ok());
    let a = pa.block_at(0).unwrap();
    assert_eq!((a.start, a.end), (0, 8));
    assert_eq!(a.next, vec![12]);

    let code = words(&[beq(100)]);
    let mut pa = ProgAnalysis::new();
    assert!(pa.graph(&code, 0, 0).is_ok());
    let a = pa.block_at(0).unwrap();
    assert_eq!(a.next, Vec::<u64>::new());
}

// Register-indirect jumps and syscalls end a block with no statically
// known successor.
#[test]
fn open_edges_have_no_successor() {
    let code = words(&[NOP, 0x08, NOP, NOP]);  // JR
    let mut pa = ProgAnalysis::new();
    assert!(pa.graph(&code, 0, 0).is_ok());
    let a = pa.block_at(0).unwrap();
    assert_eq!((a.start, a.end), (0, 8));
    assert_eq!(a.next, Vec::<u64>::new());

    let code = words(&[0x0C, NOP]);  // SYSCALL
    let mut pa = ProgAnalysis::new();
    assert!(pa.graph(&code, 0, 0).is_ok());
    assert_eq!(pa.block_at(0).unwrap().next, Vec::<u64>::new());
}

// The documented scenario: entry 0x100000, four sequential words and a
// conditional branch with an offset of +2 instructions.  One block
// [0x100000, 0x100014) with fall-through 0x100018 and branch target
// 0x100014 + 4 + (2 << 2) = 0x100020, exactly.
#[test]
fn branch_scenario_exact_targets() {
    let mut ws = vec![NOP, NOP, NOP, NOP, beq(2)];
    ws.extend_from_slice(&[NOP; 7]);
    let code = words(&ws);
    let base = 0x100000;
    let mut pa = ProgAnalysis::new();
    assert!(pa.graph(&code, base, 0x100000).is_ok());
    let a = pa.block_at(0x100000).unwrap();
    assert_eq!((a.start, a.end), (0x100000, 0x100014));
    assert_eq!(a.insts.len(), 5);
    assert_eq!(a.next, vec![0x100020, 0x100018]);
    // the delay slot after the branch belongs to no block
    assert!(pa.block_at(0x100014).is_none());
    assert_eq!(pa.block_at(0x100018).unwrap().start, 0x100018);
    assert_eq!(pa.block_at(0x100020).unwrap().start, 0x100020);
}

// A 13-byte buffer decodes exactly 3 full words; the trailing byte is
// ignored, and exhaustion at the true end raises nothing.
#[test]
fn trailing_bytes_are_benign() {
    let mut code = words(&[NOP, NOP, NOP]);
    code.push(0xAB);
    let mut pa = ProgAnalysis::new();
    assert!(pa.graph(&code, 0, 0).is_ok());
    let a = pa.block_at(0).unwrap();
    assert_eq!((a.start, a.end), (0, 12));
    assert_eq!(a.insts.len(), 3);
    assert_eq!(a.next, Vec::<u64>::new());
}

#[test]
fn block_new_direct() {
    let mut buf = words(&[NOP, NOP, NOP]);
    buf.push(0xAB);
    let (b, off) = Block::new(&buf).unwrap();
    assert_eq!(off, 12);
    assert_eq!(b.insts.len(), 3);
    assert_eq!(b.next, Vec::<u64>::new());
    assert_eq!(b.prev, Vec::<u64>::new());

    // fewer bytes than one instruction: an incomplete block
    assert_eq!(Block::new(&[1, 2, 3]).unwrap_err(), BlockError::IncompleteBlock);
    assert_eq!(Block::new(&[]).unwrap_err(), BlockError::IncompleteBlock);
}

#[test]
fn split_block_direct() {
    let buf = words(&[NOP; 10]);
    let (mut b, off) = Block::new(&buf).unwrap();
    assert_eq!(off, 40);
    b.start = 0;
    b.end = 40;
    let (lo, hi) = b.split_block(20, &buf);
    let (lo, lo_off) = lo.unwrap();
    let (hi, hi_off) = hi.unwrap();
    assert_eq!(lo_off, 20);
    assert_eq!(hi_off, 20);
    assert_eq!(lo.insts.len(), 5);
    assert_eq!(hi.insts.len(), 5);
}

// The absolute jump keeps the high-order segment bits of the jump's own
// address and replaces only the low 28 bits.
#[test]
fn jump_preserves_segment_bits() {
    let base: u64 = 0x1_0000_0000;
    let code = words(&[jump(8), NOP, NOP]);
    let mut pa = ProgAnalysis::new();
    assert!(pa.graph(&code, base, base).is_ok());
    let a = pa.block_at(base).unwrap();
    assert_eq!(a.next, vec![base + 8]);
}

// An entry below the region, past its end or off the word grid is a hard
// construction error carrying the offending address; an entry in the
// trailing partial word is benign and yields an empty graph.
#[test]
fn entry_validation() {
    let code = words(&[NOP, NOP]);
    let mut pa = ProgAnalysis::new();
    assert_eq!(
        pa.graph(&code, 0x1000, 0x800).unwrap_err(),
        ConstructionError::IncompleteBlock(0x800)
    );
    assert_eq!(
        pa.graph(&code, 0x1000, 0x2000).unwrap_err(),
        ConstructionError::IncompleteBlock(0x2000)
    );
    assert_eq!(
        pa.graph(&code, 0x1000, 0x1002).unwrap_err(),
        ConstructionError::IncompleteBlock(0x1002)
    );
    // exactly at the true end: benign, empty graph
    assert!(pa.graph(&code, 0x1000, 0x1008).is_ok());
    assert_eq!(pa.block_starts(), Vec::<u64>::new());
    assert!(pa.block_at(0x1000).is_none());
}

#[test]
fn symbols_are_stored_and_found() {
    let mut pa = ProgAnalysis::new();
    pa.add_symbol(0x4000, String::from("start"));
    pa.add_symbol(0x4010, String::from("loop_head"));
    assert_eq!(pa.symbol(0x4000).unwrap().as_str(), "start");
    assert_eq!(pa.symbol(0x4010).unwrap().as_str(), "loop_head");
    assert!(pa.symbol(0x4004).is_none());
    // the symbol table survives graph construction
    let code = words(&[NOP, NOP]);
    assert!(pa.graph(&code, 0, 0).is_ok());
    assert_eq!(pa.symbol(0x4000).unwrap().as_str(), "start");
}

// A tight self loop: a branch whose target is its own block start.
#[test]
fn self_loop_block() {
    let code = words(&[jump(0), NOP]);
    let mut pa = ProgAnalysis::new();
    assert!(pa.graph(&code, 0, 0).is_ok());
    assert_eq!(pa.block_starts(), vec![0]);
    let a = pa.block_at(0).unwrap();
    assert_eq!(a.next, vec![0]);
    assert_eq!(a.prev, vec![0]);
}
