use crate::cpu::{class_of, is_block_terminator, CfClass, Cop0, Cop1, Cop2, Mmi, Regimm, Special, EE};
use crate::rmap::{rm_contents, rm_entries, rm_first_covered, rm_get, rm_insert, rm_new};
use crate::trans::Trans;
use std::collections::HashMap;
use std::collections::VecDeque;
use vstd::prelude::*;
use vstd::slice::slice_subrange;

verus! {

/// Failure of the block builder: the window holds fewer bytes than one full
/// instruction, and no terminator was seen.  A truncated or misaligned
/// input shows up this way.
#[derive(Clone, Copy, Debug, PartialEq, Eq, Structural)]
pub enum BlockError {
    IncompleteBlock,
}

/// Failure of the whole construction: a block had to start at the carried
/// address, but fewer bytes than one full instruction lie there.
#[derive(Clone, Copy, Debug, PartialEq, Eq, Structural)]
pub enum ConstructionError {
    IncompleteBlock(u64),
}

/// The little-endian 32-bit word that starts at byte `off` of `code`.
pub open spec fn word_at_byte(code: Seq<u8>, off: int) -> u32
    recommends
        0 <= off,
        off + 4 <= code.len(),
{
    (code[off] as u32) | ((code[off + 1] as u32) << 8) | ((code[off + 2] as u32) << 16) | ((
    code[off + 3] as u32) << 24)
}

/// The little-endian 32-bit word that starts at byte `4 * j` of `code`.
pub open spec fn word_at(code: Seq<u8>, j: int) -> u32
    recommends
        0 <= j,
        4 * j + 4 <= code.len(),
{
    word_at_byte(code, 4 * j)
}

/// The instruction decoded from word `j` of `code`.
pub open spec fn decoded_at(code: Seq<u8>, j: int) -> EE {
    EE::spec_translate(word_at(code, j))
}

/// True when a whole instruction lies at address `a` of the code region
/// that starts at `base` and holds `len` bytes.  Successor addresses are
/// recorded only when they satisfy this: a target outside the region, or in
/// its trailing partial word, is an open edge, not an error.
pub open spec fn in_region(base: u64, len: int, a: int) -> bool {
    base <= a && a + 4 <= base + len
}

/// The sign-extended 16-bit immediate field of a branch word.
pub open spec fn branch_imm(w: u32) -> int {
    if (w & 0xFFFF) >= 0x8000 {
        (w & 0xFFFF) - 0x10000
    } else {
        (w & 0xFFFF) as int
    }
}

/// The target of a PC-relative branch that ends its block at `end`.  The
/// delay slot lies at `end`; the program counter the offset applies to is
/// the word after it, `end + 4`.
pub open spec fn branch_target(w: u32, end: u64) -> int {
    end + 4 + 4 * branch_imm(w)
}

/// The target of an absolute jump whose own address is `end - 4`: the jump
/// keeps the high-order segment bits of its own address and replaces the
/// low 28 bits with the shifted 26-bit field.
pub open spec fn jump_target(w: u32, end: u64) -> int
    recommends
        end >= 4,
{
    ((((end - 4) as u64) & 0xFFFF_FFFF_F000_0000u64) | (((w & 0x03FF_FFFF) as u64) << 2)) as int
}

/// Successors of a block ending at `end` with an absolute jump.
pub open spec fn jump_succs(w: u32, end: u64, base: u64, len: int) -> Seq<u64> {
    let t = jump_target(w, end);
    if in_region(base, len, t) {
        seq![t as u64]
    } else {
        Seq::<u64>::empty()
    }
}

/// Successors of a block ending at `end` with a conditional branch: the
/// branch target first, then the fall-through address `end + 4` (the word
/// after the delay slot), each only when it lies in the region, and only
/// once when the two coincide.
pub open spec fn branch_succs(w: u32, end: u64, base: u64, len: int) -> Seq<u64> {
    let t = branch_target(w, end);
    let ft = end + 4;
    if in_region(base, len, t) && in_region(base, len, ft) {
        if t == ft {
            seq![t as u64]
        } else {
            seq![t as u64, ft as u64]
        }
    } else if in_region(base, len, t) {
        seq![t as u64]
    } else if in_region(base, len, ft) {
        seq![ft as u64]
    } else {
        Seq::<u64>::empty()
    }
}

/// Successor of a block that ended without a terminator: it falls through
/// to `end` when another whole instruction lies there, and has none when
/// the window was exhausted at the true end of the region.
pub open spec fn fall_succs(end: u64, base: u64, len: int) -> Seq<u64> {
    if in_region(base, len, end as int) {
        seq![end]
    } else {
        Seq::<u64>::empty()
    }
}

/// The statically known successor addresses of a block over
/// `[start, end)` whose last instruction is `last`, decoded from the word
/// `w`.  Register-indirect jumps and traps have none: their targets are
/// only known at run time, an intentional open edge.
pub open spec fn block_successors(last: EE, w: u32, end: u64, base: u64, len: int) -> Seq<u64> {
    match class_of(last) {
        CfClass::UnconditionalJump => jump_succs(w, end, base, len),
        CfClass::CallLink => jump_succs(w, end, base, len),
        CfClass::UnconditionalJumpRegister => Seq::<u64>::empty(),
        CfClass::Trap => Seq::<u64>::empty(),
        CfClass::ConditionalBranch => branch_succs(w, end, base, len),
        CfClass::ConditionalBranchLikely => branch_succs(w, end, base, len),
        CfClass::Sequential => fall_succs(end, base, len),
        CfClass::Illegal => fall_succs(end, base, len),
    }
}

/// Computes the successor set of a block ending at `end` whose last
/// instruction is `last`, decoded from `w`.  Exactly two successors come
/// out of a conditional branch when target and fall-through both lie in the
/// region and differ, one when only one does, none when neither.
pub fn compute_successors(last: &EE, w: u32, end: u64, base: u64, len: usize) -> (r: Vec<u64>)
    requires
        base + len <= u64::MAX,
        base + 4 <= end <= base + len,
    ensures
        r@ == block_successors(*last, w, end, base, len as int),
{
    let limit: u64 = base + (len as u64 - 4);
    let mut r: Vec<u64> = Vec::new();
    match last.classification() {
        CfClass::UnconditionalJump | CfClass::CallLink => {
            let t: u64 = ((end - 4) & 0xFFFF_FFFF_F000_0000u64) | (((w & 0x03FF_FFFF) as u64) << 2);
            if base <= t && t <= limit {
                r.push(t);
            }
            proof {
                assert(r@ =~= jump_succs(w, end, base, len as int));
            }
        },
        CfClass::UnconditionalJumpRegister | CfClass::Trap => {},
        CfClass::ConditionalBranch | CfClass::ConditionalBranchLikely => {
            let imm: u64 = (w & 0xFFFF) as u64;
            let off: i128 = if imm >= 0x8000 {
                imm as i128 - 0x10000
            } else {
                imm as i128
            };
            let t: i128 = end as i128 + 4 + 4 * off;
            let ft: i128 = end as i128 + 4;
            let t_in = base as i128 <= t && t <= limit as i128;
            let ft_in = base as i128 <= ft && ft <= limit as i128;
            if t_in {
                r.push(t as u64);
            }
            if ft_in && !(t_in && t == ft) {
                r.push(ft as u64);
            }
            proof {
                assert(r@ =~= branch_succs(w, end, base, len as int));
            }
        },
        CfClass::Sequential | CfClass::Illegal => {
            if end <= limit {
                r.push(end);
            }
            proof {
                assert(r@ =~= fall_succs(end, base, len as int));
            }
        },
    }
    r
}

/// Every address covered by the range map points at a valid block of the
/// arena that contains it, and that block's whole range is covered and
/// points back at the same block.  Since the contents are a map, two
/// distinct blocks can never claim one address: ranges either coincide or
/// are disjoint, never partially overlapped.
pub open spec fn valid_cover(m: Map<u64, u64>, blocks: Seq<Block>, a: u64) -> bool {
    let i = m[a] as int;
    &&& i < blocks.len()
    &&& blocks[i].start <= a < blocks[i].end
    &&& forall|c: u64|
        blocks[i].start <= c < blocks[i].end ==> #[trigger] m.dom().contains(c) && m[c] == m[a]
}

/// A block agrees with the code region: its range lies in the region on
/// the word grid, its instructions are the total decoding of the words of
/// its range, only its last instruction may be a terminator, and its
/// successor set is exactly the statically resolvable one.
pub open spec fn block_ok(b: Block, code: Seq<u8>, base: u64) -> bool {
    let len = code.len() as int;
    &&& base <= b.start < b.end <= base + len
    &&& b.start % 4 == 0 && b.end % 4 == 0
    &&& b.insts@.len() * 4 == b.end - b.start
    &&& forall|j: int|
        0 <= j < b.insts@.len() ==> b.insts@[j] == EE::spec_translate(
            word_at_byte(code, b.start - base + 4 * j),
        )
    &&& forall|j: int| 0 <= j < b.insts@.len() - 1 ==> !is_block_terminator(b.insts@[j])
    &&& b.next@ == block_successors(
        b.insts@[b.insts@.len() - 1],
        word_at_byte(code, b.end - base - 4),
        b.end,
        base,
        len,
    )
}

/// The construction invariant: every covered address points at a valid,
/// covering, code-consistent block, and the ghost sequence `gs` lists the
/// start addresses of the live blocks in strictly ascending order.
pub open spec fn graph_inv(
    m: Map<u64, u64>,
    blocks: Seq<Block>,
    gs: Seq<u64>,
    code: Seq<u8>,
    base: u64,
) -> bool {
    &&& forall|a: u64| #[trigger] m.dom().contains(a) ==> valid_cover(m, blocks, a)
    &&& forall|a: u64| #[trigger] m.dom().contains(a) ==> block_ok(blocks[m[a] as int], code, base)
    &&& forall|a: u64|
        #[trigger] m.dom().contains(a) ==> exists|k: int|
            0 <= k < gs.len() && gs[k] == blocks[m[a] as int].start
    &&& forall|k1: int, k2: int| 0 <= k1 < k2 < gs.len() ==> gs[k1] < gs[k2]
    &&& forall|k: int|
        0 <= k < gs.len() ==> #[trigger] m.dom().contains(gs[k]) && blocks[m[gs[k]] as int].start
            == gs[k]
}

/// Every pending address of the work queue lies in the region on the word
/// grid.
pub open spec fn queue_ok(q: Seq<u64>, base: u64, len: int) -> bool {
    forall|qi: int|
        0 <= qi < q.len() ==> in_region(base, len, #[trigger] q[qi] as int) && q[qi] % 4 == 0
}

/// Every successor of every live block is either resolved already (covered
/// by the map) or still waiting in the queue.  With an empty queue this is
/// the closure property of the finished graph.
pub open spec fn succs_pending(m: Map<u64, u64>, blocks: Seq<Block>, q: Seq<u64>) -> bool {
    forall|a: u64, si: int|
        #![trigger m.dom().contains(a), blocks[m[a] as int].next@[si]]
        m.dom().contains(a) && 0 <= si < blocks[m[a] as int].next@.len() ==> m.dom().contains(
            blocks[m[a] as int].next@[si],
        ) || q.contains(blocks[m[a] as int].next@[si])
}

/// Whatever the class of the last instruction, a block's statically
/// resolved successors lie in the region on the word grid, and there are
/// at most two of them, distinct.
pub proof fn lemma_successors_ok(last: EE, w: u32, end: u64, base: u64, len: int)
    requires
        end % 4 == 0,
        end >= 4,
        base + len <= u64::MAX,
    ensures
        forall|si: int|
            0 <= si < block_successors(last, w, end, base, len).len() ==> in_region(
                base,
                len,
                #[trigger] block_successors(last, w, end, base, len)[si] as int,
            ) && block_successors(last, w, end, base, len)[si] % 4 == 0,
        block_successors(last, w, end, base, len).len() <= 2,
        block_successors(last, w, end, base, len).len() == 2 ==> block_successors(
            last,
            w,
            end,
            base,
            len,
        )[0] != block_successors(last, w, end, base, len)[1],
{
    let e4: u64 = (end - 4) as u64;
    let wf: u64 = (w & 0x03FF_FFFF) as u64;
    assert(((e4 & 0xFFFF_FFFF_F000_0000u64) | (wf << 2)) % 4 == 0) by (bit_vector);
    let s = block_successors(last, w, end, base, len);
    let cls = class_of(last);
    if cls == CfClass::UnconditionalJump || cls == CfClass::CallLink {
        let t = jump_target(w, end);
        assert(t == ((e4 & 0xFFFF_FFFF_F000_0000u64) | (wf << 2)) as int);
        assert(t % 4 == 0);
        if in_region(base, len, t) {
            assert(s[0] == t as u64);
            assert(s[0] as int == t);
        }
    } else if cls == CfClass::ConditionalBranch || cls == CfClass::ConditionalBranchLikely {
        let t = branch_target(w, end);
        let ft = end + 4;
        assert(t % 4 == 0);
        assert(ft % 4 == 0);
        if in_region(base, len, t) && in_region(base, len, ft) {
            if t != ft {
                assert(s[0] as int == t && s[1] as int == ft);
            } else {
                assert(s[0] as int == t);
            }
        } else if in_region(base, len, t) {
            assert(s[0] as int == t);
        } else if in_region(base, len, ft) {
            assert(s[0] as int == ft);
        }
    } else if cls == CfClass::Sequential || cls == CfClass::Illegal {
        if in_region(base, len, end as int) {
            assert(s[0] == end);
        }
    }
}

/// Inserts a fresh value into a strictly ascending sequence, keeping it
/// strictly ascending.
pub proof fn sorted_insert(gs: Seq<u64>, t: u64) -> (r: Seq<u64>)
    requires
        forall|k1: int, k2: int| 0 <= k1 < k2 < gs.len() ==> gs[k1] < gs[k2],
        forall|k: int| 0 <= k < gs.len() ==> gs[k] != t,
    ensures
        r.len() == gs.len() + 1,
        forall|k1: int, k2: int| 0 <= k1 < k2 < r.len() ==> r[k1] < r[k2],
        forall|x: u64| r.contains(x) <==> gs.contains(x) || x == t,
        forall|k: int| 0 <= k < r.len() ==> gs.contains(#[trigger] r[k]) || r[k] == t,
        forall|k: int| 0 <= k < gs.len() ==> r.contains(#[trigger] gs[k]),
        r.contains(t),
    decreases gs.len(),
{
    if gs.len() == 0 {
        let r = seq![t];
        assert(r[0] == t);
        r
    } else if t < gs[0] {
        let r = seq![t] + gs;
        assert forall|x: u64| r.contains(x) implies gs.contains(x) || x == t by {
            let k = choose|k: int| 0 <= k < r.len() && r[k] == x;
            if k > 0 {
                assert(gs[k - 1] == x);
            }
        }
        assert forall|x: u64| gs.contains(x) || x == t implies r.contains(x) by {
            if x == t {
                assert(r[0] == x);
            } else {
                let k = choose|k: int| 0 <= k < gs.len() && gs[k] == x;
                assert(r[k + 1] == x);
            }
        }
        r
    } else {
        let tail = gs.subrange(1, gs.len() as int);
        assert(t != gs[0]);
        let tr = sorted_insert(tail, t);
        let r = seq![gs[0]] + tr;
        assert forall|k1: int, k2: int| 0 <= k1 < k2 < r.len() implies r[k1] < r[k2] by {
            if k1 == 0 {
                assert(r[k2] == tr[k2 - 1]);
                assert(tail.contains(tr[k2 - 1]) || tr[k2 - 1] == t);
                if tail.contains(tr[k2 - 1]) {
                    let j = choose|j: int| 0 <= j < tail.len() && tail[j] == tr[k2 - 1];
                    assert(gs[j + 1] == tail[j]);
                }
            } else {
                assert(r[k1] == tr[k1 - 1] && r[k2] == tr[k2 - 1]);
            }
        }
        assert forall|x: u64| r.contains(x) implies gs.contains(x) || x == t by {
            let k = choose|k: int| 0 <= k < r.len() && r[k] == x;
            if k == 0 {
                assert(gs[0] == x);
            } else {
                assert(tr[k - 1] == x);
                assert(tr.contains(x));
                if tail.contains(x) {
                    let j = choose|j: int| 0 <= j < tail.len() && tail[j] == x;
                    assert(gs[j + 1] == x);
                }
            }
        }
        assert forall|x: u64| gs.contains(x) || x == t implies r.contains(x) by {
            if x == t {
                assert(tr.contains(x));
                let j = choose|j: int| 0 <= j < tr.len() && tr[j] == x;
                assert(r[j + 1] == x);
            } else {
                let k = choose|k: int| 0 <= k < gs.len() && gs[k] == x;
                if k == 0 {
                    assert(r[0] == x);
                } else {
                    assert(tail[k - 1] == x);
                    assert(tail.contains(x));
                    assert(tr.contains(x));
                    let j = choose|j: int| 0 <= j < tr.len() && tr[j] == x;
                    assert(r[j + 1] == x);
                }
            }
        }
        assert forall|k: int| 0 <= k < r.len() implies gs.contains(#[trigger] r[k]) || r[k] == t by {
            assert(r.contains(r[k]));
        }
        assert forall|k: int| 0 <= k < gs.len() implies r.contains(#[trigger] gs[k]) by {
            assert(gs.contains(gs[k]));
        }
        r
    }
}

/// A strictly ascending sequence of word-aligned addresses inside a region
/// of `len` bytes holds at most one address per word of the region.
pub proof fn lemma_sorted_starts_bound(gs: Seq<u64>, base: int, len: int)
    requires
        len >= 0,
        forall|k1: int, k2: int| 0 <= k1 < k2 < gs.len() ==> gs[k1] < gs[k2],
        forall|k: int| 0 <= k < gs.len() ==> base <= #[trigger] gs[k] && gs[k] + 4 <= base + len,
        forall|k: int| 0 <= k < gs.len() ==> #[trigger] gs[k] % 4 == 0,
    ensures
        4 * gs.len() <= len,
    decreases gs.len(),
{
    if gs.len() > 0 {
        let tail = gs.subrange(1, gs.len() as int);
        let b2 = gs[0] + 4;
        assert forall|k: int| 0 <= k < tail.len() implies b2 <= #[trigger] tail[k] && tail[k] + 4
            <= b2 + (len - 4) by {
            assert(tail[k] == gs[k + 1]);
            assert(gs[0] < gs[k + 1]);
            assert(gs[0] % 4 == 0 && gs[k + 1] % 4 == 0);
            assert(gs[k + 1] >= gs[0] + 4);
        }
        lemma_sorted_starts_bound(tail, b2, len - 4);
    }
}

/// One maximal basic block: the decoded instructions covering the half-open
/// address range `[start, end)`, with the start addresses of its successor
/// and predecessor blocks.  Every instruction before the last one is a
/// non-terminator; the last one is either a terminator or the block ended
/// because its window was exhausted.
#[derive(Debug)]
pub struct Block {
    pub start: u64,
    pub end: u64,
    pub insts: Vec<EE>,
    pub next: Vec<u64>,
    pub prev: Vec<u64>,
}

/// How a block's instructions relate to the byte window it was decoded
/// from: the window is exactly covered by whole words, each instruction is
/// the total decoding of its word, and only the last instruction may be a
/// terminator.
pub open spec fn block_code_wf(b: Block, win: Seq<u8>) -> bool {
    &&& b.start < b.end
    &&& b.end - b.start == win.len()
    &&& b.insts@.len() * 4 == win.len()
    &&& forall|j: int| 0 <= j < b.insts@.len() ==> b.insts@[j] == decoded_at(win, j)
    &&& forall|j: int| 0 <= j < b.insts@.len() - 1 ==> !is_block_terminator(b.insts@[j])
}

/// Reads the little-endian word at byte offset `off`.
fn read_word_at(buf: &[u8], off: usize) -> (w: u32)
    requires
        off + 4 <= buf@.len(),
    ensures
        w == word_at_byte(buf@, off as int),
{
    let l = buf.len();
    let b0 = buf[off];
    let b1 = buf[off + 1];
    let b2 = buf[off + 2];
    let b3 = buf[off + 3];
    (b0 as u32) | ((b1 as u32) << 8) | ((b2 as u32) << 16) | ((b3 as u32) << 24)
}

impl Block {
    /// Scans whole words from the start of `buf`, decoding each one, and
    /// stops at the first terminator (included) or when fewer bytes than one
    /// word remain.  Returns the block, over the range `[0, off)` relative
    /// to the window, together with `off`, the count of bytes consumed.  A
    /// trailing remainder of 1 to 3 bytes is ignored; a window that holds no
    /// full word at all is an incomplete block.  The successor and
    /// predecessor sets of a fresh block are empty: the graph fills them.
    pub fn new(buf: &[u8]) -> (r: Result<(Block, u64), BlockError>)
        ensures
            match r {
                Ok(p) => {
                    let b = p.0;
                    let off = p.1;
                    &&& 4 <= off <= buf@.len()
                    &&& off % 4 == 0
                    &&& b.start == 0
                    &&& b.end == off
                    &&& b.insts@.len() * 4 == off
                    &&& forall|j: int|
                        0 <= j < b.insts@.len() ==> b.insts@[j] == decoded_at(buf@, j)
                    &&& forall|j: int|
                        0 <= j < b.insts@.len() - 1 ==> !is_block_terminator(b.insts@[j])
                    &&& (is_block_terminator(b.insts@[b.insts@.len() - 1]) || off + 4 > buf@.len())
                    &&& b.next@.len() == 0
                    &&& b.prev@.len() == 0
                },
                Err(e) => e == BlockError::IncompleteBlock && buf@.len() < 4,
            },
            buf@.len() < 4 <==> r is Err,
    {
        if buf.len() < 4 {
            return Err(BlockError::IncompleteBlock);
        }
        let n: usize = buf.len() / 4;
        let mut insts: Vec<EE> = Vec::new();
        let mut i: usize = 0;
        while i < n
            invariant
                4 <= buf@.len() <= usize::MAX,
                n == buf@.len() as int / 4,
                i <= n,
                insts@.len() == i,
                forall|j: int| 0 <= j < i ==> insts@[j] == decoded_at(buf@, j),
                forall|j: int| 0 <= j < i ==> !is_block_terminator(insts@[j]),
            decreases n - i,
        {
            let w = read_word_at(buf, 4 * i);
            let d = EE::translate(w);
            insts.push(d);
            if d.is_terminator() {
                let off: u64 = ((i + 1) * 4) as u64;
                return Ok(
                    (
                        Block {
                            start: 0,
                            end: off,
                            insts,
                            next: Vec::new(),
                            prev: Vec::new(),
                        },
                        off,
                    ),
                );
            }
            i += 1;
        }
        let off: u64 = (n * 4) as u64;
        Ok(
            (
                Block {
                    start: 0,
                    end: off,
                    insts,
                    next: Vec::new(),
                    prev: Vec::new(),
                },
                off,
            ),
        )
    }
    /// Splits this block at `target`, an address strictly inside its range:
    /// the two halves are rebuilt from scratch over `[start, target)` and
    /// `[target, end)` of `buf`, this block's own byte window.  Instruction
    /// boundaries are fixed at word width, so re-decoding each half
    /// independently always yields exactly the original instructions, cut at
    /// the word the target lands on; both rebuilds succeed.  The block
    /// itself is left to be discarded by the caller, never reused.
    pub fn split_block(&self, target: u64, buf: &[u8]) -> (r: (
        Result<(Block, u64), BlockError>,
        Result<(Block, u64), BlockError>,
    ))
        requires
            block_code_wf(*self, buf@),
            self.start < target < self.end,
            (target - self.start) % 4 == 0,
        ensures
            ({
                let cut = target - self.start;
                let k = cut as int / 4;
                let n = self.insts@.len() as int;
                &&& r.0 matches Ok(p) && {
                    let b = p.0;
                    &&& p.1 == cut
                    &&& b.start == 0
                    &&& b.end == cut
                    &&& b.insts@ =~= self.insts@.subrange(0, k)
                    &&& b.next@.len() == 0
                    &&& b.prev@.len() == 0
                }
                &&& r.1 matches Ok(p) && {
                    let b = p.0;
                    &&& p.1 == self.end - target
                    &&& b.start == 0
                    &&& b.end == self.end - target
                    &&& b.insts@ =~= self.insts@.subrange(k, n)
                    &&& b.next@.len() == 0
                    &&& b.prev@.len() == 0
                }
            }),
    {
        let l = buf.len();
        let cut: usize = (target - self.start) as usize;
        let lo = slice_subrange(buf, 0, cut);
        let hi = slice_subrange(buf, cut, l);
        let ghost k = cut as int / 4;
        let ghost n = self.insts@.len() as int;
        proof {
            assert(4 * k == cut as int);
            assert(4 * n == buf@.len());
            assert forall|j: int| 0 <= j < k implies decoded_at(lo@, j) == self.insts@[j] by {
                assert(0 <= 4 * j && 4 * j + 4 <= cut as int);
                assert(lo@[4 * j] == buf@[4 * j]);
                assert(lo@[4 * j + 1] == buf@[4 * j + 1]);
                assert(lo@[4 * j + 2] == buf@[4 * j + 2]);
                assert(lo@[4 * j + 3] == buf@[4 * j + 3]);
                assert(word_at(lo@, j) == word_at(buf@, j));
                assert(self.insts@[j] == decoded_at(buf@, j));
            }
            assert forall|j: int| 0 <= j < n - k implies decoded_at(hi@, j) == self.insts@[j + k] by {
                assert(0 <= 4 * j && 4 * j + 4 <= hi@.len());
                assert(hi@[4 * j] == buf@[4 * (j + k)]);
                assert(hi@[4 * j + 1] == buf@[4 * (j + k) + 1]);
                assert(hi@[4 * j + 2] == buf@[4 * (j + k) + 2]);
                assert(hi@[4 * j + 3] == buf@[4 * (j + k) + 3]);
                assert(word_at(hi@, j) == word_at(buf@, j + k));
                assert(self.insts@[j + k] == decoded_at(buf@, j + k));
            }
        }
        let a = Block::new(lo);
        let b = Block::new(hi);
        proof {
            assert(a is Ok);
            let offa = a->Ok_0.1 as int;
            let la = a->Ok_0.0.insts@.len() as int;
            assert(la * 4 == offa);
            assert forall|j: int| 0 <= j < la implies a->Ok_0.0.insts@[j] == self.insts@[j] by {
                assert(a->Ok_0.0.insts@[j] == decoded_at(lo@, j));
                assert(decoded_at(lo@, j) == self.insts@[j]);
            }
            if offa < cut as int {
                assert(a->Ok_0.0.insts@[la - 1] == self.insts@[la - 1]);
                assert(la - 1 < k <= n - 1);
                assert(!is_block_terminator(a->Ok_0.0.insts@[la - 1]));
                assert(offa + 4 <= lo@.len());
                assert(false);
            }
            assert(offa == cut as int);
            assert(a->Ok_0.0.insts@ =~= self.insts@.subrange(0, k));

            assert(b is Ok);
            let offb = b->Ok_0.1 as int;
            let m = b->Ok_0.0.insts@.len() as int;
            assert(m * 4 == offb);
            assert forall|j: int| 0 <= j < m implies b->Ok_0.0.insts@[j] == self.insts@[j + k] by {
                assert(b->Ok_0.0.insts@[j] == decoded_at(hi@, j));
                assert(decoded_at(hi@, j) == self.insts@[j + k]);
            }
            if offb < hi@.len() {
                assert(m < n - k);
                assert(b->Ok_0.0.insts@[m - 1] == self.insts@[m - 1 + k]);
                assert(m - 1 + k < n - 1);
                assert(!is_block_terminator(b->Ok_0.0.insts@[m - 1]));
                assert(offb + 4 <= hi@.len());
                assert(false);
            }
            assert(offb == hi@.len());
            assert(b->Ok_0.0.insts@ =~= self.insts@.subrange(k, n));
        }
        (a, b)
    }
}

/// Re-establishes the construction invariant after a fresh block `gb` over
/// `[t, bend)` was appended to the arena at index `ib`, its range was
/// inserted into the map, and its successors were appended to the queue.
#[verifier::rlimit(60)]
proof fn lemma_record_block(
    m0: Map<u64, u64>,
    m1: Map<u64, u64>,
    bl0: Seq<Block>,
    bl1: Seq<Block>,
    gs0: Seq<u64>,
    gs2: Seq<u64>,
    q0: Seq<u64>,
    q1: Seq<u64>,
    gb: Block,
    t: u64,
    bend: u64,
    code: Seq<u8>,
    base: u64,
)
    requires
        graph_inv(m0, bl0, gs0, code, base),
        queue_ok(q0, base, code.len() as int),
        succs_pending(m0, bl0, q0.push(t)),
        base + code.len() <= u64::MAX,
        bl0.len() <= u64::MAX,
        t < bend,
        !m0.dom().contains(t),
        forall|c: u64| t <= c < bend ==> !(#[trigger] m0.dom().contains(c)),
        bl1 == bl0.push(gb),
        gb.start == t && gb.end == bend,
        block_ok(gb, code, base),
        forall|a: u64|
            t <= a < bend ==> #[trigger] m1.dom().contains(a) && m1[a] == bl0.len() as u64,
        forall|a: u64|
            !(t <= a < bend) ==> (#[trigger] m1.dom().contains(a) <==> m0.dom().contains(a)),
        forall|a: u64|
            !(t <= a < bend) && m0.dom().contains(a) ==> #[trigger] m1[a] == m0[a],
        q1 == q0 + gb.next@,
        gs2.len() == gs0.len() + 1,
        forall|k1: int, k2: int| 0 <= k1 < k2 < gs2.len() ==> gs2[k1] < gs2[k2],
        forall|k: int| 0 <= k < gs2.len() ==> gs0.contains(#[trigger] gs2[k]) || gs2[k] == t,
        forall|k: int| 0 <= k < gs0.len() ==> gs2.contains(#[trigger] gs0[k]),
        gs2.contains(t),
    ensures
        graph_inv(m1, bl1, gs2, code, base),
        queue_ok(q1, base, code.len() as int),
        succs_pending(m1, bl1, q1),
        m1.dom().contains(t),
        bl1[m1[t] as int].start == t,
        forall|a: u64|
            #[trigger] m0.dom().contains(a) && bl0[m0[a] as int].start == a ==> m1.dom().contains(
                a,
            ) && bl1[m1[a] as int].start == a,
{
    let len = code.len() as int;
    let ib = bl0.len() as int;
    assert(m1.dom().contains(t) && m1[t] == ib as u64);
    assert(bl1[ib].start == t);
    lemma_successors_ok(
        gb.insts@[gb.insts@.len() - 1],
        word_at_byte(code, gb.end - base - 4),
        bend,
        base,
        len,
    );
    assert(gb.next@.len() <= 2);
    // each covered address still points at a valid covering block
    assert forall|a: u64| #[trigger] m1.dom().contains(a) implies valid_cover(m1, bl1, a)
        && block_ok(bl1[m1[a] as int], code, base) by {
        if t <= a < bend {
            assert(m1[a] == ib as u64);
            assert(bl1[ib] == gb);
            assert forall|c: u64| gb.start <= c < gb.end implies #[trigger] m1.dom().contains(c)
                && m1[c] == m1[a] by {
                assert(t <= c < bend);
            }
        } else {
            assert(m0.dom().contains(a));
            assert(valid_cover(m0, bl0, a));
            assert(block_ok(bl0[m0[a] as int], code, base));
            let i = m0[a] as int;
            assert(i < bl0.len());
            assert(bl1[i] == bl0[i]);
            assert(m1[a] == m0[a]);
            assert forall|c: u64| bl1[i].start <= c < bl1[i].end implies #[trigger] m1.dom()
                .contains(c) && m1[c] == m1[a] by {
                assert(m0.dom().contains(c) && m0[c] == m0[a]);
                assert(!(t <= c < bend));
            }
        }
    }
    // the ghost start list still matches the live blocks
    assert forall|a: u64| #[trigger] m1.dom().contains(a) implies exists|k: int|
        0 <= k < gs2.len() && gs2[k] == bl1[m1[a] as int].start by {
        if t <= a < bend {
            let k = choose|k: int| 0 <= k < gs2.len() && gs2[k] == t;
            assert(gs2[k] == bl1[m1[a] as int].start);
        } else {
            assert(m0.dom().contains(a));
            assert(valid_cover(m0, bl0, a));
            let k0 = choose|k: int| 0 <= k < gs0.len() && gs0[k] == bl0[m0[a] as int].start;
            assert(gs2.contains(gs0[k0]));
            let k = choose|k: int| 0 <= k < gs2.len() && gs2[k] == gs0[k0];
            assert(m1[a] == m0[a]);
            assert(bl1[m1[a] as int] == bl0[m0[a] as int]);
            assert(gs2[k] == bl1[m1[a] as int].start);
        }
    }
    assert forall|k: int| 0 <= k < gs2.len() implies #[trigger] m1.dom().contains(gs2[k])
        && bl1[m1[gs2[k]] as int].start == gs2[k] by {
        if gs2[k] == t {
            assert(m1[t] == ib as u64);
        } else {
            assert(gs0.contains(gs2[k]));
            let k0 = choose|j: int| 0 <= j < gs0.len() && gs0[j] == gs2[k];
            assert(m0.dom().contains(gs2[k]) && bl0[m0[gs2[k]] as int].start == gs2[k]);
            assert(!(t <= gs2[k] < bend));
            assert(m1[gs2[k]] == m0[gs2[k]]);
            assert(valid_cover(m0, bl0, gs2[k]));
            assert(bl1[m1[gs2[k]] as int] == bl0[m0[gs2[k]] as int]);
        }
    }
    // the queue still holds only region addresses on the word grid
    assert forall|qi: int| 0 <= qi < q1.len() implies in_region(
        base,
        len,
        #[trigger] q1[qi] as int,
    ) && q1[qi] % 4 == 0 by {
        if qi < q0.len() {
            assert(q1[qi] == q0[qi]);
        } else {
            assert(q1[qi] == gb.next@[qi - q0.len()]);
        }
    }
    // every successor of every live block is resolved or pending
    assert forall|a: u64, si: int|
        #![trigger m1.dom().contains(a), bl1[m1[a] as int].next@[si]]
        m1.dom().contains(a) && 0 <= si < bl1[m1[a] as int].next@.len() implies m1.dom().contains(
        bl1[m1[a] as int].next@[si],
    ) || q1.contains(bl1[m1[a] as int].next@[si]) by {
        if t <= a < bend {
            assert(bl1[m1[a] as int] == gb);
            assert(q1[q0.len() + si] == gb.next@[si]);
        } else {
            assert(m0.dom().contains(a));
            assert(m1[a] == m0[a]);
            assert(bl1[m1[a] as int] == bl0[m0[a] as int]);
            let s = bl0[m0[a] as int].next@[si];
            assert(m0.dom().contains(s) || q0.push(t).contains(s));
            if m0.dom().contains(s) {
                if t <= s < bend {
                    assert(false);
                }
                assert(m1.dom().contains(s));
            } else {
                let qi = choose|qi: int| 0 <= qi < q0.push(t).len() && q0.push(t)[qi] == s;
                if qi == q0.len() {
                    assert(s == t);
                    assert(m1.dom().contains(t));
                } else {
                    assert(q0[qi] == s);
                    assert(q1[qi] == q0[qi]);
                }
            }
        }
    }
    assert forall|a: u64|
        #[trigger] m0.dom().contains(a) && bl0[m0[a] as int].start == a implies m1.dom().contains(
        a,
    ) && bl1[m1[a] as int].start == a by {
        assert(valid_cover(m0, bl0, a));
        assert(!(t <= a < bend));
        assert(m1[a] == m0[a]);
        assert(bl1[m0[a] as int] == bl0[m0[a] as int]);
    }
}

/// Re-establishes the construction invariant after the block at arena
/// index `idx`, covering `[bstart, bend)`, was replaced by the two fresh
/// blocks `pb` over `[bstart, t)` and `sb` over `[t, bend)`, appended at
/// indices `i1` and `i2`: the old block's range was overwritten in the map
/// by the two new ranges, and the discarded block is never referenced
/// again.
#[verifier::rlimit(100)]
proof fn lemma_split_record(
    m0: Map<u64, u64>,
    m1: Map<u64, u64>,
    bl0: Seq<Block>,
    bl1: Seq<Block>,
    gs0: Seq<u64>,
    gs2: Seq<u64>,
    q0: Seq<u64>,
    pb: Block,
    sb: Block,
    bstart: u64,
    t: u64,
    bend: u64,
    idx: u64,
    i1v: u64,
    i2v: u64,
    code: Seq<u8>,
    base: u64,
)
    requires
        graph_inv(m0, bl0, gs0, code, base),
        succs_pending(m0, bl0, q0.push(t)),
        i1v == bl0.len() as u64,
        i2v == bl0.len() as u64 + 1,
        base + code.len() <= u64::MAX,
        bl0.len() + 2 <= u64::MAX,
        bstart < t < bend,
        m0.dom().contains(t) && m0[t] == idx,
        idx < bl0.len(),
        bl0[idx as int].start == bstart && bl0[idx as int].end == bend,
        bl1 == bl0.push(pb).push(sb),
        pb.start == bstart && pb.end == t,
        sb.start == t && sb.end == bend,
        block_ok(pb, code, base),
        block_ok(sb, code, base),
        sb.next@ == bl0[idx as int].next@,
        pb.next@ =~= seq![t],
        forall|a: u64|
            bstart <= a < t ==> #[trigger] m1.dom().contains(a) && m1[a] == i1v,
        forall|a: u64|
            t <= a < bend ==> #[trigger] m1.dom().contains(a) && m1[a] == i2v,
        forall|a: u64|
            !(bstart <= a < bend) ==> (#[trigger] m1.dom().contains(a) <==> m0.dom().contains(a)),
        forall|a: u64|
            !(bstart <= a < bend) && m0.dom().contains(a) ==> #[trigger] m1[a] == m0[a],
        gs2.len() == gs0.len() + 1,
        forall|k1: int, k2: int| 0 <= k1 < k2 < gs2.len() ==> gs2[k1] < gs2[k2],
        forall|k: int| 0 <= k < gs2.len() ==> gs0.contains(#[trigger] gs2[k]) || gs2[k] == t,
        forall|k: int| 0 <= k < gs0.len() ==> gs2.contains(#[trigger] gs0[k]),
        gs2.contains(t),
    ensures
        graph_inv(m1, bl1, gs2, code, base),
        succs_pending(m1, bl1, q0),
        forall|a: u64| #[trigger] m0.dom().contains(a) <==> m1.dom().contains(a),
        m1.dom().contains(t) && bl1[m1[t] as int].start == t,
        forall|a: u64|
            #[trigger] m0.dom().contains(a) && bl0[m0[a] as int].start == a ==> m1.dom().contains(
                a,
            ) && bl1[m1[a] as int].start == a,
{
    let i1 = bl0.len() as int;
    let i2 = bl0.len() as int + 1;
    assert(bl1[i1] == pb && bl1[i2] == sb);
    assert(forall|i: int| 0 <= i < bl0.len() ==> bl1[i] == bl0[i]);
    assert(valid_cover(m0, bl0, t));
    // the old block claims exactly [bstart, bend), and no other block
    // reaches into it
    assert forall|c: u64| bstart <= c < bend implies #[trigger] m0.dom().contains(c) && m0[c]
        == idx by {
        assert(bl0[idx as int].start <= c < bl0[idx as int].end);
    }
    // dom is unchanged as a set
    assert forall|a: u64| #[trigger] m0.dom().contains(a) <==> m1.dom().contains(a) by {
        if bstart <= a < bend {
            assert(m0.dom().contains(a));
            assert(m1.dom().contains(a));
        }
    }
    assert(m1.dom().contains(t) && m1[t] == i2 as u64);
    // covered addresses outside the split block are untouched, and their
    // blocks never reach into the split range
    assert forall|a: u64|
        #[trigger] m1.dom().contains(a) && !(bstart <= a < bend) implies m1[a] == m0[a] && m0[a]
        != idx && valid_cover(m0, bl0, a) by {
        assert(m0.dom().contains(a));
        if m0[a] == idx {
            assert(bl0[idx as int].start <= a < bl0[idx as int].end);
            assert(false);
        }
    }
    assert forall|a: u64| #[trigger] m1.dom().contains(a) implies valid_cover(m1, bl1, a)
        && block_ok(bl1[m1[a] as int], code, base) by {
        if bstart <= a < t {
            assert(m1[a] == i1 as u64);
            assert(m1[a] as int == i1);
            assert(bl1[i1] == pb);
            assert forall|c: u64| pb.start <= c < pb.end implies #[trigger] m1.dom().contains(c)
                && m1[c] == m1[a] by {
                assert(bstart <= c < t);
                assert(m1.dom().contains(c));
                assert(m1[c] == bl0.len() as u64);
            }
            assert(valid_cover(m1, bl1, a));
            assert(block_ok(bl1[m1[a] as int], code, base));
        } else if t <= a < bend {
            assert(m1[a] == i2 as u64);
            assert(m1[a] as int == i2);
            assert(bl1[i2] == sb);
            assert forall|c: u64| sb.start <= c < sb.end implies #[trigger] m1.dom().contains(c)
                && m1[c] == m1[a] by {
                assert(t <= c < bend);
                assert(m1.dom().contains(c));
                assert(m1[c] == bl0.len() as u64 + 1);
                assert(m1[a] == bl0.len() as u64 + 1);
            }
            assert(valid_cover(m1, bl1, a));
            assert(block_ok(bl1[m1[a] as int], code, base));
        } else {
            let i = m0[a] as int;
            assert(valid_cover(m0, bl0, a));
            assert(block_ok(bl0[i], code, base));
            assert(bl1[i] == bl0[i]);
            assert(m1[a] == m0[a]);
            assert forall|c: u64| bl1[i].start <= c < bl1[i].end implies #[trigger] m1.dom()
                .contains(c) && m1[c] == m1[a] by {
                assert(m0.dom().contains(c) && m0[c] == m0[a]);
                if bstart <= c < bend {
                    assert(m0[c] == idx);
                    assert(false);
                }
                assert(m1.dom().contains(c));
                assert(m1[c] == m0[c]);
            }
            assert(valid_cover(m1, bl1, a));
            assert(block_ok(bl1[m1[a] as int], code, base));
        }
    }
    // the ghost start list still matches the live blocks
    assert forall|a: u64| #[trigger] m1.dom().contains(a) implies exists|k: int|
        0 <= k < gs2.len() && gs2[k] == bl1[m1[a] as int].start by {
        if bstart <= a < t {
            assert(m0.dom().contains(bstart));
            assert(valid_cover(m0, bl0, bstart));
            assert(bl0[m0[bstart] as int].start == bstart);
            let k0 = choose|k: int| 0 <= k < gs0.len() && gs0[k] == bl0[m0[bstart] as int].start;
            assert(gs2.contains(gs0[k0]));
            let k = choose|k: int| 0 <= k < gs2.len() && gs2[k] == gs0[k0];
            assert(gs2[k] == bl1[m1[a] as int].start);
        } else if t <= a < bend {
            let k = choose|k: int| 0 <= k < gs2.len() && gs2[k] == t;
            assert(gs2[k] == bl1[m1[a] as int].start);
        } else {
            assert(m0.dom().contains(a));
            let k0 = choose|k: int| 0 <= k < gs0.len() && gs0[k] == bl0[m0[a] as int].start;
            assert(gs2.contains(gs0[k0]));
            let k = choose|k: int| 0 <= k < gs2.len() && gs2[k] == gs0[k0];
            assert(bl1[m1[a] as int] == bl0[m0[a] as int]);
            assert(gs2[k] == bl1[m1[a] as int].start);
        }
    }
    assert forall|k: int| 0 <= k < gs2.len() implies #[trigger] m1.dom().contains(gs2[k])
        && bl1[m1[gs2[k]] as int].start == gs2[k] by {
        if gs2[k] == t {
            assert(m1[t] == i2 as u64);
        } else if gs2[k] == bstart {
            assert(m1.dom().contains(bstart));
            assert(m1[bstart] == i1 as u64);
        } else {
            assert(gs0.contains(gs2[k]));
            let k0 = choose|j: int| 0 <= j < gs0.len() && gs0[j] == gs2[k];
            lemma_inv_start(m0, bl0, gs0, code, base, k0);
            assert(m0.dom().contains(gs2[k]) && bl0[m0[gs2[k]] as int].start == gs2[k]);
            if bstart <= gs2[k] < bend {
                assert(m0[gs2[k]] == idx);
                assert(bl0[idx as int].start == bstart);
                assert(false);
            }
            assert(m1[gs2[k]] == m0[gs2[k]]);
            assert(bl1[m1[gs2[k]] as int] == bl0[m0[gs2[k]] as int]);
        }
    }
    // every successor of every live block is resolved or pending
    assert forall|a: u64, si: int|
        #![trigger m1.dom().contains(a), bl1[m1[a] as int].next@[si]]
        m1.dom().contains(a) && 0 <= si < bl1[m1[a] as int].next@.len() implies m1.dom().contains(
        bl1[m1[a] as int].next@[si],
    ) || q0.contains(bl1[m1[a] as int].next@[si]) by {
        if bstart <= a < t {
            assert(bl1[m1[a] as int] == pb);
            assert(pb.next@[si] == t);
            assert(m1.dom().contains(t));
        } else if t <= a < bend {
            assert(bl1[m1[a] as int] == sb);
            let s = sb.next@[si];
            assert(s == bl0[idx as int].next@[si]);
            assert(m0.dom().contains(t));
            assert(m0.dom().contains(bl0[m0[t] as int].next@[si]) || q0.push(t).contains(
                bl0[m0[t] as int].next@[si],
            ));
            if !m0.dom().contains(s) {
                let qi = choose|qi: int| 0 <= qi < q0.push(t).len() && q0.push(t)[qi] == s;
                if qi == q0.len() {
                    assert(s == t);
                    assert(m1.dom().contains(t));
                } else {
                    assert(q0[qi] == s);
                }
            }
        } else {
            assert(m0.dom().contains(a));
            assert(m1[a] == m0[a]);
            assert(bl1[m1[a] as int] == bl0[m0[a] as int]);
            let s = bl0[m0[a] as int].next@[si];
            assert(m0.dom().contains(s) || q0.push(t).contains(s));
            if !m0.dom().contains(s) {
                let qi = choose|qi: int| 0 <= qi < q0.push(t).len() && q0.push(t)[qi] == s;
                if qi == q0.len() {
                    assert(s == t);
                    assert(m1.dom().contains(t));
                } else {
                    assert(q0[qi] == s);
                }
            }
        }
    }
    // old block boundaries survive the split
    assert forall|a: u64|
        #[trigger] m0.dom().contains(a) && bl0[m0[a] as int].start == a implies m1.dom().contains(
        a,
    ) && bl1[m1[a] as int].start == a by {
        if bstart <= a < bend {
            assert(m0[a] == idx);
            assert(a == bstart);
            assert(m1[a] == i1 as u64);
        }
    }
}

/// A covered address's block has a covered start that points back at the
/// same block.
proof fn lemma_cover_start(m: Map<u64, u64>, blocks: Seq<Block>, a: u64)
    requires
        m.dom().contains(a),
        valid_cover(m, blocks, a),
    ensures
        blocks[m[a] as int].start <= a < blocks[m[a] as int].end,
        m.dom().contains(blocks[m[a] as int].start),
        m[blocks[m[a] as int].start] == m[a],
{
    let i = m[a] as int;
    let bs = blocks[i].start;
    assert(blocks[i].start <= a < blocks[i].end);
    assert(blocks[i].start <= bs < blocks[i].end);
    assert(m.dom().contains(bs) && m[bs] == m[a]);
}

/// An element of the ghost start list is a covered block start.
proof fn lemma_inv_start(
    m: Map<u64, u64>,
    blocks: Seq<Block>,
    gs: Seq<u64>,
    code: Seq<u8>,
    base: u64,
    k: int,
)
    requires
        graph_inv(m, blocks, gs, code, base),
        0 <= k < gs.len(),
    ensures
        m.dom().contains(gs[k]),
        blocks[m[gs[k]] as int].start == gs[k],
{
    assert(m.dom().contains(gs[k]) && blocks[m[gs[k]] as int].start == gs[k]);
}

/// Pending successors stay pending in any queue that holds at least the
/// same addresses.
proof fn lemma_pending_mono(m: Map<u64, u64>, blocks: Seq<Block>, q1: Seq<u64>, q2: Seq<u64>)
    requires
        succs_pending(m, blocks, q1),
        forall|x: u64| q1.contains(x) ==> #[trigger] q2.contains(x),
    ensures
        succs_pending(m, blocks, q2),
{
}

/// A pending address that the map already covers can leave the queue.
proof fn lemma_pending_resolved(m: Map<u64, u64>, blocks: Seq<Block>, q: Seq<u64>, t: u64)
    requires
        succs_pending(m, blocks, q.push(t)),
        m.dom().contains(t),
    ensures
        succs_pending(m, blocks, q),
{
    assert forall|a: u64, si: int|
        #![trigger m.dom().contains(a), blocks[m[a] as int].next@[si]]
        m.dom().contains(a) && 0 <= si < blocks[m[a] as int].next@.len() implies m.dom().contains(
        blocks[m[a] as int].next@[si],
    ) || q.contains(blocks[m[a] as int].next@[si]) by {
        let s = blocks[m[a] as int].next@[si];
        assert(m.dom().contains(s) || q.push(t).contains(s));
        if !m.dom().contains(s) {
            let qi = choose|qi: int| 0 <= qi < q.push(t).len() && q.push(t)[qi] == s;
            if qi == q.len() {
                assert(s == t);
                assert(false);
            }
            assert(q[qi] == s);
        }
    }
}

/// Composes the pointwise effect of two range insertions over the two
/// halves of one split range.
proof fn lemma_two_inserts(
    m0: Map<u64, u64>,
    mmid: Map<u64, u64>,
    m1: Map<u64, u64>,
    bstart: u64,
    t: u64,
    bend: u64,
    i1v: u64,
    i2v: u64,
)
    requires
        bstart < t < bend,
        forall|a: u64| bstart <= a < t ==> #[trigger] mmid.dom().contains(a) && mmid[a] == i1v,
        forall|a: u64|
            !(bstart <= a < t) ==> (#[trigger] mmid.dom().contains(a) <==> m0.dom().contains(a)),
        forall|a: u64| !(bstart <= a < t) && m0.dom().contains(a) ==> #[trigger] mmid[a] == m0[a],
        forall|a: u64| t <= a < bend ==> #[trigger] m1.dom().contains(a) && m1[a] == i2v,
        forall|a: u64|
            !(t <= a < bend) ==> (#[trigger] m1.dom().contains(a) <==> mmid.dom().contains(a)),
        forall|a: u64| !(t <= a < bend) && mmid.dom().contains(a) ==> #[trigger] m1[a] == mmid[a],
    ensures
        forall|a: u64| bstart <= a < t ==> #[trigger] m1.dom().contains(a) && m1[a] == i1v,
        forall|a: u64| t <= a < bend ==> #[trigger] m1.dom().contains(a) && m1[a] == i2v,
        forall|a: u64|
            !(bstart <= a < bend) ==> (#[trigger] m1.dom().contains(a) <==> m0.dom().contains(a)),
        forall|a: u64| !(bstart <= a < bend) && m0.dom().contains(a) ==> #[trigger] m1[a] == m0[a],
{

}

/// Arena index `i` holds a live block: the map sends the block's own start
/// address back to `i`.  A block discarded by a split is never live again.
pub open spec fn live_block(m: Map<u64, u64>, blocks: Seq<Block>, i: int) -> bool {
    &&& 0 <= i < blocks.len()
    &&& m.dom().contains(blocks[i].start)
    &&& m[blocks[i].start] == i as u64
}

/// `p` is the start of a live block whose successor set holds the start of
/// the block at arena index `i`.
pub open spec fn is_pred(m: Map<u64, u64>, blocks: Seq<Block>, p: u64, i: int) -> bool {
    &&& m.dom().contains(p)
    &&& blocks[m[p] as int].start == p
    &&& blocks[m[p] as int].next@.contains(blocks[i].start)
}

/// Two blocks that agree on everything but their predecessor list.
pub open spec fn same_core(b1: Block, b2: Block) -> bool {
    &&& b1.start == b2.start
    &&& b1.end == b2.end
    &&& b1.insts@ == b2.insts@
    &&& b1.next@ == b2.next@
}

/// The finished analysis of one code region: an address-ordered collection
/// of basic blocks held in a range map from address ranges to indices into
/// a block arena, plus a symbol table filled once from the outside.
pub struct ProgAnalysis {
    pub symbol_table: HashMap<u64, String>,
    pub map: rangemap::RangeMap<u64, u64>,
    pub blocks: Vec<Block>,
    pub gstarts: Ghost<Seq<u64>>,
}

impl ProgAnalysis {
    /// An empty analysis: no blocks, no symbols.
    pub fn new() -> (r: ProgAnalysis)
        ensures
            forall|a: u64| !(#[trigger] rm_contents(r.map).dom().contains(a)),
            r.blocks@.len() == 0,
            r.symbol_table@ == Map::<u64, String>::empty(),
            r.gstarts@.len() == 0,
    {
        ProgAnalysis {
            symbol_table: HashMap::new(),
            map: rm_new(),
            blocks: Vec::new(),
            gstarts: Ghost(Seq::empty()),
        }
    }

    /// Builds a fresh block at `t`, an uncovered address of the region: the
    /// scan window runs to the next existing block start, so the new range
    /// never overlaps an existing one.  The new block's statically resolved
    /// successors are enqueued.
    #[verifier::rlimit(100)]
    fn build_at(&mut self, t: u64, code: &[u8], base: u64, queue: &mut VecDeque<u64>)
        requires
            base + code@.len() <= u64::MAX,
            in_region(base, code@.len() as int, t as int),
            t % 4 == 0,
            !rm_contents(old(self).map).dom().contains(t),
            graph_inv(
                rm_contents(old(self).map),
                old(self).blocks@,
                old(self).gstarts@,
                code@,
                base,
            ),
            queue_ok(old(queue)@, base, code@.len() as int),
            succs_pending(rm_contents(old(self).map), old(self).blocks@, old(queue)@.push(t)),
        ensures
            graph_inv(
                rm_contents(final(self).map),
                final(self).blocks@,
                final(self).gstarts@,
                code@,
                base,
            ),
            queue_ok(final(queue)@, base, code@.len() as int),
            succs_pending(rm_contents(final(self).map), final(self).blocks@, final(queue)@),
            rm_contents(final(self).map).dom().contains(t),
            final(self).blocks@[rm_contents(final(self).map)[t] as int].start == t,
            final(self).gstarts@.len() == old(self).gstarts@.len() + 1,
            final(queue)@.len() <= old(queue)@.len() + 2,
            forall|a: u64|
                #[trigger] rm_contents(old(self).map).dom().contains(a) ==> rm_contents(
                    final(self).map,
                ).dom().contains(a) && rm_contents(final(self).map)[a] == rm_contents(
                    old(self).map,
                )[a],
            forall|i: int|
                0 <= i < old(self).blocks@.len() ==> final(self).blocks@[i] == old(self).blocks@[i],
            forall|a: u64|
                #[trigger] rm_contents(old(self).map).dom().contains(a) && old(
                    self,
                ).blocks@[rm_contents(old(self).map)[a] as int].start == a ==> rm_contents(
                    final(self).map,
                ).dom().contains(a) && final(self).blocks@[rm_contents(final(self).map)[a] as int].start
                    == a,
            forall|x: u64|
                old(queue)@.contains(x) ==> #[trigger] final(queue)@.contains(x),
            final(self).symbol_table == old(self).symbol_table,
    {
        let ghost m0 = rm_contents(self.map);
        let ghost bl0 = self.blocks@;
        let ghost gs0 = self.gstarts@;
        let ghost q0 = queue@;
        let len = code.len();
        let hi: u64 = base + len as u64;
        let wend: u64 = match rm_first_covered(&self.map, t, hi) {
            Some(s) => {
                proof {
                    assert(m0.dom().contains(s));
                    let i = m0[s] as int;
                    assert(valid_cover(m0, bl0, s));
                    lemma_cover_start(m0, bl0, s);
                    let bs = bl0[i].start;
                    assert(m0.dom().contains(bs) && m0[bs] == m0[s]);
                    if bs <= t {
                        assert(m0.dom().contains(t));
                        assert(false);
                    }
                    assert(bs == s);
                    assert(block_ok(bl0[i], code@, base));
                    assert(s % 4 == 0);
                }
                s
            },
            None => hi,
        };
        proof {
            assert(t + 4 <= wend);
            assert(forall|a: u64| t <= a < wend ==> !(#[trigger] m0.dom().contains(a)));
        }
        let woff = (t - base) as usize;
        let wendoff = (wend - base) as usize;
        let win = slice_subrange(code, woff, wendoff);
        let r = Block::new(win);
        let (mut b, off) = r.unwrap();
        b.start = t;
        let bend: u64 = t + off;
        b.end = bend;
        proof {
            assert(bend <= wend);
            assert forall|j: int| 0 <= j < b.insts@.len() implies b.insts@[j] == EE::spec_translate(
                word_at_byte(code@, t - base + 4 * j),
            ) by {
                assert(b.insts@[j] == decoded_at(win@, j));
                assert(0 <= 4 * j && 4 * j + 4 <= win@.len());
                assert(win@[4 * j] == code@[woff + 4 * j]);
                assert(win@[4 * j + 1] == code@[woff + 4 * j + 1]);
                assert(win@[4 * j + 2] == code@[woff + 4 * j + 2]);
                assert(win@[4 * j + 3] == code@[woff + 4 * j + 3]);
                assert(word_at_byte(win@, 4 * j) == word_at_byte(code@, woff + 4 * j));
            }
        }
        let nb = b.insts.len();
        let w = read_word_at(code, (bend - 4 - base) as usize);
        let li = b.insts[nb - 1];
        proof {
            assert(t - base + 4 * (nb - 1) == bend - 4 - base);
            assert(w == word_at_byte(code@, bend - base - 4));
        }
        let succs = compute_successors(&li, w, bend, base, len);
        b.next = succs;
        let ghost gb = b;
        let ib = self.blocks.len();
        proof {
            assert(block_ok(gb, code@, base));
        }
        self.blocks.push(b);
        rm_insert(&mut self.map, t, bend, ib as u64);
        let nsucc = self.blocks[ib].next.len();
        if nsucc >= 1 {
            let s0 = self.blocks[ib].next[0];
            queue.push_back(s0);
        }
        if nsucc >= 2 {
            let s1 = self.blocks[ib].next[1];
            queue.push_back(s1);
        }
        proof {
            assert forall|k: int| 0 <= k < gs0.len() implies gs0[k] != t by {
                assert(m0.dom().contains(gs0[k]));
            }
            let gs2 = sorted_insert(gs0, t);
            self.gstarts@ = gs2;
            assert(queue@ =~= q0 + gb.next@);
            assert forall|x: u64| q0.contains(x) implies #[trigger] queue@.contains(x) by {
                let qi = choose|qi: int| 0 <= qi < q0.len() && q0[qi] == x;
                assert(queue@[qi] == q0[qi]);
            }
            assert(self.blocks@ == bl0.push(gb));
            assert(w == word_at_byte(code@, gb.end - base - 4));
            lemma_record_block(
                m0,
                rm_contents(self.map),
                bl0,
                self.blocks@,
                gs0,
                gs2,
                q0,
                queue@,
                gb,
                t,
                bend,
                code@,
                base,
            );
        }
    }

    /// Splits the block at arena index `idx` at the address `t`, which lies
    /// strictly inside its range: the old block is discarded, two fresh
    /// blocks are rebuilt from scratch over its two halves, and the map now
    /// sends the two half-ranges to them.  The prefix's one successor is
    /// the suffix's start; the suffix keeps the old block's successors, so
    /// the edge that caused the split resolves to the suffix, never to the
    /// discarded block.  Nothing is enqueued: the suffix's successors were
    /// enqueued when the old block was built.
    #[verifier::rlimit(100)]
    #[verifier::spinoff_prover]
    fn split_at(
        &mut self,
        t: u64,
        idx: usize,
        code: &[u8],
        base: u64,
        Ghost(q0): Ghost<Seq<u64>>,
    )
        requires
            base + code@.len() <= u64::MAX,
            rm_contents(old(self).map).dom().contains(t),
            rm_contents(old(self).map)[t] == idx as u64,
            idx < old(self).blocks@.len(),
            old(self).blocks@[idx as int].start < t,
            t % 4 == 0,
            graph_inv(
                rm_contents(old(self).map),
                old(self).blocks@,
                old(self).gstarts@,
                code@,
                base,
            ),
            succs_pending(rm_contents(old(self).map), old(self).blocks@, q0.push(t)),
        ensures
            graph_inv(
                rm_contents(final(self).map),
                final(self).blocks@,
                final(self).gstarts@,
                code@,
                base,
            ),
            succs_pending(rm_contents(final(self).map), final(self).blocks@, q0),
            final(self).gstarts@.len() == old(self).gstarts@.len() + 1,
            rm_contents(final(self).map).dom().contains(t),
            final(self).blocks@[rm_contents(final(self).map)[t] as int].start == t,
            forall|a: u64|
                #[trigger] rm_contents(old(self).map).dom().contains(a) <==> rm_contents(
                    final(self).map,
                ).dom().contains(a),
            forall|a: u64|
                #[trigger] rm_contents(old(self).map).dom().contains(a) && old(
                    self,
                ).blocks@[rm_contents(old(self).map)[a] as int].start == a ==> rm_contents(
                    final(self).map,
                ).dom().contains(a) && final(self).blocks@[rm_contents(final(self).map)[a] as int].start
                    == a,
            final(self).symbol_table == old(self).symbol_table,
    {
        let ghost m0 = rm_contents(self.map);
        let ghost bl0 = self.blocks@;
        let ghost gs0 = self.gstarts@;
        let len = code.len();
        let bstart = self.blocks[idx].start;
        let bend = self.blocks[idx].end;
        proof {
            assert(valid_cover(m0, bl0, t));
            assert(block_ok(bl0[idx as int], code@, base));
            assert(bstart <= t < bend);
        }
        let woff = (bstart - base) as usize;
        let wendoff = (bend - base) as usize;
        let win = slice_subrange(code, woff, wendoff);
        proof {
            // the block's instructions decode from its own byte window
            assert forall|j: int| 0 <= j < self.blocks@[idx as int].insts@.len() implies
                self.blocks@[idx as int].insts@[j] == decoded_at(win@, j) by {
                assert(self.blocks@[idx as int].insts@[j] == EE::spec_translate(
                    word_at_byte(code@, bstart - base + 4 * j),
                ));
                assert(0 <= 4 * j && 4 * j + 4 <= win@.len());
                assert(win@[4 * j] == code@[woff + 4 * j]);
                assert(win@[4 * j + 1] == code@[woff + 4 * j + 1]);
                assert(win@[4 * j + 2] == code@[woff + 4 * j + 2]);
                assert(win@[4 * j + 3] == code@[woff + 4 * j + 3]);
                assert(word_at_byte(win@, 4 * j) == word_at_byte(code@, woff + 4 * j));
            }
            assert(block_code_wf(self.blocks@[idx as int], win@));
        }
        let (ra, rb) = self.blocks[idx].split_block(t, win);
        let (mut pb, offa) = ra.unwrap();
        let (mut sb, offb) = rb.unwrap();
        let ghost k = (t - bstart) as int / 4;
        let ghost n = bl0[idx as int].insts@.len() as int;
        pb.start = bstart;
        pb.end = t;
        sb.start = t;
        sb.end = bend;
        proof {
            // both halves decode from the region, at their own offsets
            assert forall|j: int| 0 <= j < pb.insts@.len() implies pb.insts@[j]
                == EE::spec_translate(word_at_byte(code@, bstart - base + 4 * j)) by {
                assert(pb.insts@[j] == bl0[idx as int].insts@[j]);
            }
            assert forall|j: int| 0 <= j < sb.insts@.len() implies sb.insts@[j]
                == EE::spec_translate(word_at_byte(code@, t - base + 4 * j)) by {
                assert(sb.insts@[j] == bl0[idx as int].insts@[j + k]);
                assert(bstart - base + 4 * (j + k) == t - base + 4 * j);
            }
            assert forall|j: int| 0 <= j < pb.insts@.len() - 1 implies !is_block_terminator(
                pb.insts@[j],
            ) by {
                assert(pb.insts@[j] == bl0[idx as int].insts@[j]);
            }
            assert forall|j: int| 0 <= j < sb.insts@.len() - 1 implies !is_block_terminator(
                sb.insts@[j],
            ) by {
                assert(sb.insts@[j] == bl0[idx as int].insts@[j + k]);
                assert(j + k < n - 1);
            }
            // the prefix ends on a non-terminator: it was an inner word
            assert(pb.insts@[pb.insts@.len() - 1] == bl0[idx as int].insts@[k - 1]);
            assert(!is_block_terminator(pb.insts@[pb.insts@.len() - 1]));
            assert(sb.insts@[sb.insts@.len() - 1] == bl0[idx as int].insts@[n - 1]);
        }
        let np = pb.insts.len();
        let lp = pb.insts[np - 1];
        let w1 = read_word_at(code, (t - 4 - base) as usize);
        let succ1 = compute_successors(&lp, w1, t, base, len);
        pb.next = succ1;
        let ns = sb.insts.len();
        let ls = sb.insts[ns - 1];
        let w2 = read_word_at(code, (bend - 4 - base) as usize);
        let succ2 = compute_successors(&ls, w2, bend, base, len);
        sb.next = succ2;
        proof {
            assert(t - base + 4 * (ns - 1) == bend - 4 - base);
            assert(bstart - base + 4 * (np - 1) == t - 4 - base);
            assert(block_ok(pb, code@, base));
            assert(block_ok(sb, code@, base));
            // the prefix falls through to the suffix, and the suffix keeps
            // the old block's successor set
            assert(class_of(lp) == CfClass::Sequential || class_of(lp) == CfClass::Illegal);
            assert(in_region(base, code@.len() as int, t as int));
            assert(pb.next@ =~= seq![t]);
            assert(sb.next@ == bl0[idx as int].next@);
        }
        let ghost gpb = pb;
        let ghost gsb = sb;
        self.blocks.push(pb);
        self.blocks.push(sb);
        let nbl = self.blocks.len();
        rm_insert(&mut self.map, bstart, t, (nbl - 2) as u64);
        let ghost mmid = rm_contents(self.map);
        rm_insert(&mut self.map, t, bend, (nbl - 1) as u64);
        proof {
            // the two insertions' pointwise effects, restated here so the
            // composition below can pick them up
            let m1 = rm_contents(self.map);
            let i1x: u64 = (nbl - 2) as u64;
            let i2x: u64 = (nbl - 1) as u64;
            assert(forall|a: u64| bstart <= a < t ==> #[trigger] mmid.dom().contains(a) && mmid[a] == i1x);
            assert(forall|a: u64|
                !(bstart <= a < t) ==> (#[trigger] mmid.dom().contains(a) <==> m0.dom().contains(a)));
            assert(forall|a: u64| !(bstart <= a < t) && m0.dom().contains(a) ==> #[trigger] mmid[a] == m0[a]);
            assert(forall|a: u64| t <= a < bend ==> #[trigger] m1.dom().contains(a) && m1[a] == i2x);
            assert(forall|a: u64|
                !(t <= a < bend) ==> (#[trigger] m1.dom().contains(a) <==> mmid.dom().contains(a)));
            assert(forall|a: u64| !(t <= a < bend) && mmid.dom().contains(a) ==> #[trigger] m1[a] == mmid[a]);
            lemma_two_inserts(
                m0,
                mmid,
                rm_contents(self.map),
                bstart,
                t,
                bend,
                (nbl - 2) as u64,
                (nbl - 1) as u64,
            );
            assert((nbl - 2) as u64 == bl0.len() as u64);
            assert((nbl - 1) as u64 == bl0.len() as u64 + 1);
        }
        proof {
            assert forall|j: int| 0 <= j < gs0.len() implies gs0[j] != t by {
                assert(m0.dom().contains(gs0[j]) && bl0[m0[gs0[j]] as int].start == gs0[j]);
                if gs0[j] == t {
                    assert(bl0[m0[t] as int].start == bstart);
                }
            }
            let gs2 = sorted_insert(gs0, t);
            self.gstarts@ = gs2;
            lemma_split_record(
                m0,
                rm_contents(self.map),
                bl0,
                self.blocks@,
                gs0,
                gs2,
                q0,
                gpb,
                gsb,
                bstart,
                t,
                bend,
                idx as u64,
                (nbl - 2) as u64,
                (nbl - 1) as u64,
                code@,
                base,
            );
        }
    }

    /// Resolves one address popped from the work queue.  If it is an
    /// existing block boundary, nothing at all changes: resolving a target
    /// twice is idempotent, no duplicate block and no duplicate edge comes
    /// out of it.  If it lies strictly inside an existing block, that block
    /// is split.  Otherwise a fresh block is built there and its successors
    /// are enqueued.
    pub fn resolve_addr(&mut self, t: u64, code: &[u8], base: u64, queue: &mut VecDeque<u64>)
        requires
            base + code@.len() <= u64::MAX,
            in_region(base, code@.len() as int, t as int),
            t % 4 == 0,
            graph_inv(
                rm_contents(old(self).map),
                old(self).blocks@,
                old(self).gstarts@,
                code@,
                base,
            ),
            queue_ok(old(queue)@, base, code@.len() as int),
            succs_pending(rm_contents(old(self).map), old(self).blocks@, old(queue)@.push(t)),
        ensures
            graph_inv(
                rm_contents(final(self).map),
                final(self).blocks@,
                final(self).gstarts@,
                code@,
                base,
            ),
            queue_ok(final(queue)@, base, code@.len() as int),
            succs_pending(rm_contents(final(self).map), final(self).blocks@, final(queue)@),
            rm_contents(final(self).map).dom().contains(t),
            final(self).blocks@[rm_contents(final(self).map)[t] as int].start == t,
            old(self).gstarts@.len() <= final(self).gstarts@.len() <= old(self).gstarts@.len() + 1,
            final(self).gstarts@.len() == old(self).gstarts@.len() ==> final(queue)@ == old(
                queue,
            )@,
            final(queue)@.len() <= old(queue)@.len() + 2,
            rm_contents(old(self).map).dom().contains(t) && old(self).blocks@[rm_contents(
                old(self).map,
            )[t] as int].start == t ==> *final(self) == *old(self) && final(queue)@ == old(queue)@,
            forall|a: u64|
                #[trigger] rm_contents(old(self).map).dom().contains(a) && old(
                    self,
                ).blocks@[rm_contents(old(self).map)[a] as int].start == a ==> rm_contents(
                    final(self).map,
                ).dom().contains(a) && final(self).blocks@[rm_contents(final(self).map)[a] as int].start
                    == a,
            forall|x: u64|
                old(queue)@.contains(x) ==> #[trigger] final(queue)@.contains(x),
            final(self).symbol_table == old(self).symbol_table,
    {
        let ghost m0 = rm_contents(self.map);
        let ghost bl0 = self.blocks@;
        match rm_get(&self.map, t) {
            None => {
                self.build_at(t, code, base, queue);
            },
            Some(i) => {
                let nb0 = self.blocks.len();
                proof {
                    assert(valid_cover(m0, bl0, t));
                    assert((m0[t] as int) < bl0.len());
                    assert(bl0.len() == nb0 as int);
                    assert((i as int) < nb0 as int);
                }
                let idx = i as usize;
                proof {
                    assert(idx as int == i as int && i as int == m0[t] as int);
                }
                if self.blocks[idx].start == t {
                    // already resolved: leave everything untouched
                    proof {
                        assert(bl0[m0[t] as int].start == t);
                        lemma_pending_resolved(m0, bl0, queue@, t);
                    }
                } else {
                    proof {
                        assert(bl0[m0[t] as int].start < t);
                    }
                    self.split_at(t, idx, code, base, Ghost(queue@));
                }
            },
        }
    }

    /// Reconstructs the control-flow graph of the code region that starts
    /// at virtual address `base`, by a work-queue traversal seeded with the
    /// program entry address.  An entry below the region, past its end or
    /// off the word grid is a hard construction error; an entry in the
    /// trailing partial word of the region is benign exhaustion at the true
    /// end, and yields an empty graph.  On success the blocks partition the
    /// discovered addresses, every block decodes from the code with its
    /// exact successor set, every recorded successor has a block, and the
    /// entry address starts one.  The symbol table is not touched.
    pub fn graph(&mut self, code: &[u8], base: u64, entry: u64) -> (r: Result<
        (),
        ConstructionError,
    >)
        requires
            base + code@.len() <= u64::MAX,
        ensures
            r is Err <==> !(base <= entry && entry - base <= code@.len() && entry % 4 == 0),
            r is Err ==> r == Result::<(), ConstructionError>::Err(
                ConstructionError::IncompleteBlock(entry),
            ),
            r is Ok ==> graph_inv(
                rm_contents(final(self).map),
                final(self).blocks@,
                final(self).gstarts@,
                code@,
                base,
            ),
            r is Ok ==> succs_pending(
                rm_contents(final(self).map),
                final(self).blocks@,
                Seq::<u64>::empty(),
            ),
            r is Ok && in_region(base, code@.len() as int, entry as int) ==> rm_contents(
                final(self).map,
            ).dom().contains(entry) && final(self).blocks@[rm_contents(final(self).map)[entry] as int].start
                == entry,
            r is Ok && !in_region(base, code@.len() as int, entry as int) ==> forall|a: u64|
                !(#[trigger] rm_contents(final(self).map).dom().contains(a)),
            r is Ok ==> forall|i: int, pi: int|
                0 <= i < final(self).blocks@.len() && 0 <= pi
                    < final(self).blocks@[i].prev@.len() ==> is_pred(
                    rm_contents(final(self).map),
                    final(self).blocks@,
                    #[trigger] final(self).blocks@[i].prev@[pi],
                    i,
                ),
            r is Ok ==> forall|i: int, c: int|
                live_block(rm_contents(final(self).map), final(self).blocks@, i) && live_block(
                    rm_contents(final(self).map),
                    final(self).blocks@,
                    c,
                ) && #[trigger] final(self).blocks@[c].next@.contains(final(self).blocks@[i].start)
                    ==> #[trigger] final(self).blocks@[i].prev@.contains(
                    final(self).blocks@[c].start,
                ),
            r is Ok ==> forall|i: int, p1: int, p2: int|
                #![trigger final(self).blocks@[i].prev@[p1], final(self).blocks@[i].prev@[p2]]
                0 <= i < final(self).blocks@.len() && 0 <= p1 < p2
                    < final(self).blocks@[i].prev@.len() ==> final(self).blocks@[i].prev@[p1]
                    != final(self).blocks@[i].prev@[p2],
            final(self).symbol_table == old(self).symbol_table,
    {
        self.map = rm_new();
        self.blocks = Vec::new();
        self.gstarts = Ghost(Seq::empty());
        let ghost syms0 = self.symbol_table;
        let len = code.len();
        if entry < base || entry - base > len as u64 || entry % 4 != 0 {
            return Err(ConstructionError::IncompleteBlock(entry));
        }
        if len as u64 - (entry - base) < 4 {
            // fewer bytes than one instruction at the entry: benign
            // exhaustion at the true end of the region
            return Ok(());
        }
        let mut queue: VecDeque<u64> = VecDeque::new();
        queue.push_back(entry);
        proof {
            assert(queue@[0] == entry);
            assert(queue@.contains(entry));
        }
        while queue.len() > 0
            invariant
                base + code@.len() <= u64::MAX,
                graph_inv(rm_contents(self.map), self.blocks@, self.gstarts@, code@, base),
                queue_ok(queue@, base, code@.len() as int),
                succs_pending(rm_contents(self.map), self.blocks@, queue@),
                4 * self.gstarts@.len() <= code@.len(),
                (rm_contents(self.map).dom().contains(entry) && self.blocks@[rm_contents(
                    self.map,
                )[entry] as int].start == entry) || queue@.contains(entry),
                self.symbol_table == syms0,
            decreases code@.len() / 4 - self.gstarts@.len(), queue@.len(),
        {
            let ghost qa = queue@;
            let t = queue.pop_front().unwrap();
            let ghost qb = queue@;
            proof {
                assert(qa[0] == t);
                assert(in_region(base, code@.len() as int, t as int) && t % 4 == 0);
                assert forall|qi: int| 0 <= qi < queue@.len() implies in_region(
                    base,
                    code@.len() as int,
                    #[trigger] queue@[qi] as int,
                ) && queue@[qi] % 4 == 0 by {
                    assert(queue@[qi] == qa[qi + 1]);
                }
                assert forall|x: u64| qa.contains(x) implies #[trigger] qb.push(t).contains(
                    x,
                ) by {
                    let qi = choose|qi: int| 0 <= qi < qa.len() && qa[qi] == x;
                    if qi == 0 {
                        assert(qb.push(t)[qb.len() as int] == x);
                    } else {
                        assert(qb.push(t)[qi - 1] == x);
                    }
                }
                lemma_pending_mono(
                    rm_contents(self.map),
                    self.blocks@,
                    qa,
                    qb.push(t),
                );
            }
            self.resolve_addr(t, code, base, &mut queue);
            proof {
                let m1 = rm_contents(self.map);
                let bl1 = self.blocks@;
                let gs1 = self.gstarts@;
                // the start-list bound still holds
                assert forall|k: int| 0 <= k < gs1.len() implies base as int <= #[trigger] gs1[k]
                    && gs1[k] + 4 <= base + code@.len() && gs1[k] % 4 == 0 by {
                    lemma_inv_start(m1, bl1, gs1, code@, base, k);
                    assert(m1.dom().contains(gs1[k]));
                    assert(block_ok(bl1[m1[gs1[k]] as int], code@, base));
                    assert(valid_cover(m1, bl1, gs1[k]));
                    let b = bl1[m1[gs1[k]] as int];
                    assert(b.start < b.end && b.insts@.len() * 4 == b.end - b.start);
                    assert(b.start + 4 <= b.end);
                }
                lemma_sorted_starts_bound(gs1, base as int, code@.len() as int);
                // the entry is still resolved or pending
                if m1.dom().contains(entry) && bl1[m1[entry] as int].start == entry {
                } else {
                    assert(!(rm_contents(self.map).dom().contains(entry) && self.blocks@[
                        rm_contents(self.map)[entry] as int].start == entry));
                    if t == entry {
                        assert(false);
                    }
                    assert(qa.contains(entry));
                    let qi = choose|qi: int| 0 <= qi < qa.len() && qa[qi] == entry;
                    assert(qi != 0);
                    assert(qb[qi - 1] == qa[qi]);
                    assert(qb.contains(entry));
                    assert(queue@.contains(entry));
                }
            }
        }
        proof {
            assert(queue@ =~= Seq::<u64>::empty());
        }
        let ghost blpre = self.blocks@;
        let ghost mpre = rm_contents(self.map);
        self.fill_prev();
        proof {
            lemma_inv_core(
                rm_contents(self.map),
                blpre,
                self.blocks@,
                self.gstarts@,
                code@,
                base,
            );
            if in_region(base, code@.len() as int, entry as int) {
                assert(same_core(self.blocks@[mpre[entry] as int], blpre[mpre[entry] as int]));
            }
        }
        Ok(())
    }

    /// The lookup structure is consistent: every covered address points at
    /// a valid block of the arena that covers it.  `graph` establishes
    /// this; the lookup functions rely on it.
    pub open spec fn wf(self) -> bool {
        forall|a: u64|
            #[trigger] rm_contents(self.map).dom().contains(a) ==> valid_cover(
                rm_contents(self.map),
                self.blocks@,
                a,
            )
    }

    /// Range lookup: the block whose range covers `addr`, or nothing when
    /// the address lies outside every discovered block.
    pub fn block_at(&self, addr: u64) -> (r: Option<&Block>)
        requires
            self.wf(),
        ensures
            match r {
                Some(b) => rm_contents(self.map).dom().contains(addr) && *b == self.blocks@[
                    rm_contents(self.map)[addr] as int] && b.start <= addr < b.end,
                None => !rm_contents(self.map).dom().contains(addr),
            },
    {
        let ghost m0 = rm_contents(self.map);
        match rm_get(&self.map, addr) {
            None => None,
            Some(i) => {
                let nb0 = self.blocks.len();
                proof {
                    assert(valid_cover(m0, self.blocks@, addr));
                    assert((m0[addr] as int) < self.blocks@.len());
                    assert(self.blocks@.len() == nb0 as int);
                }
                let idx = i as usize;
                Some(&self.blocks[idx])
            },
        }
    }

    /// The start addresses of the discovered blocks, in strictly ascending
    /// order: one for every live block, none for anything else.
    #[verifier::loop_isolation(false)]
    #[verifier::rlimit(100)]
    pub fn block_starts(&self) -> (r: Vec<u64>)
        requires
            self.wf(),
        ensures
            forall|k1: int, k2: int| 0 <= k1 < k2 < r@.len() ==> r@[k1] < r@[k2],
            forall|k: int|
                0 <= k < r@.len() ==> #[trigger] rm_contents(self.map).dom().contains(r@[k])
                    && self.blocks@[rm_contents(self.map)[r@[k]] as int].start == r@[k],
            forall|a: u64|
                #[trigger] rm_contents(self.map).dom().contains(a) ==> r@.contains(
                    self.blocks@[rm_contents(self.map)[a] as int].start,
                ),
    {
        let ghost m0 = rm_contents(self.map);
        let es = rm_entries(&self.map);
        let mut r: Vec<u64> = Vec::new();
        let mut k: usize = 0;
        while k < es.len()
            invariant
                k <= es@.len(),
                forall|j1: int, j2: int| 0 <= j1 < j2 < r@.len() ==> r@[j1] < r@[j2],
                forall|j: int|
                    0 <= j < r@.len() ==> #[trigger] m0.dom().contains(r@[j]) && self.blocks@[m0[
                        r@[j]] as int].start == r@[j],
                forall|j: int| 0 <= j < r@.len() ==> exists|e: int|
                    0 <= e < k && #[trigger] r@[j] == es@[e].0,
                forall|e: int|
                    0 <= e < k && es@[e].0 == self.blocks@[m0[es@[e].0] as int].start
                        ==> r@.contains(#[trigger] es@[e].0),
            decreases es@.len() - k,
        {
            let s = es[k].0;
            let ghost rpre = r@;
            proof {
                assert(es@[k as int].0 < es@[k as int].1);
                assert(m0.dom().contains(s));
                assert(m0[s] == es@[k as int].2);
                assert(valid_cover(m0, self.blocks@, s));
                assert((m0[s] as int) < self.blocks@.len());
            }
            let nb0 = self.blocks.len();
            let i = es[k].2 as usize;
            proof {
                assert(i as int == m0[s] as int);
            }
            if self.blocks[i].start == s {
                r.push(s);
                proof {
                    lemma_entry_starts_ascending(es@, m0);
                    assert forall|j1: int, j2: int| 0 <= j1 < j2 < r@.len() implies r@[j1]
                        < r@[j2] by {
                        if j2 == r@.len() - 1 {
                            assert(r@[j1] == rpre[j1]);
                            assert(r@[j2] == s);
                            let e = choose|e: int| 0 <= e < k && rpre[j1] == es@[e].0;
                            assert(es@[e].0 < es@[k as int].0);
                        } else {
                            assert(r@[j1] == rpre[j1] && r@[j2] == rpre[j2]);
                        }
                    }
                    assert forall|j: int| 0 <= j < r@.len() implies #[trigger] m0.dom().contains(
                        r@[j],
                    ) && self.blocks@[m0[r@[j]] as int].start == r@[j] by {
                        if j < rpre.len() {
                            assert(r@[j] == rpre[j]);
                        } else {
                            assert(r@[j] == s);
                        }
                    }
                }
            }
            proof {
                assert forall|j: int| 0 <= j < r@.len() implies exists|e: int|
                    0 <= e < k + 1 && #[trigger] r@[j] == es@[e].0 by {
                    if j < rpre.len() {
                        let e = choose|e: int| 0 <= e < k && rpre[j] == es@[e].0;
                        assert(r@[j] == es@[e].0);
                    } else {
                        assert(r@[j] == es@[k as int].0);
                    }
                }
                assert forall|e: int|
                    0 <= e < k + 1 && es@[e].0 == self.blocks@[m0[es@[e].0] as int].start implies
                    r@.contains(#[trigger] es@[e].0) by {
                    if e < k {
                        assert(rpre.contains(es@[e].0));
                        let j = choose|j: int| 0 <= j < rpre.len() && rpre[j] == es@[e].0;
                        assert(r@[j] == es@[e].0);
                    } else {
                        assert(r@[r@.len() - 1] == s);
                    }
                }
            }
            k += 1;
        }
        proof {
            assert forall|a: u64| #[trigger] m0.dom().contains(a) implies r@.contains(
                self.blocks@[m0[a] as int].start,
            ) by {
                assert(valid_cover(m0, self.blocks@, a));
                let sc = self.blocks@[m0[a] as int].start;
                lemma_cover_start(m0, self.blocks@, a);
                assert(m0.dom().contains(sc));
                let e = choose|e: int| 0 <= e < es@.len() && es@[e].0 <= sc && sc < es@[e].1;
                assert(es@[e].0 < es@[e].1);
                assert(m0.dom().contains(es@[e].0));
                assert(m0[es@[e].0] == es@[e].2);
                assert(m0[sc] == es@[e].2);
                assert(valid_cover(m0, self.blocks@, es@[e].0));
                assert(m0[sc] == m0[a]);
                assert(self.blocks@[m0[es@[e].0] as int].start <= es@[e].0);
                assert(es@[e].0 == sc);
                assert(r@.contains(es@[e].0));
            }
        }
        r
    }

    /// Records one symbol: the name that belongs to an address.  The
    /// symbol table is filled once from the outside and only read
    /// afterwards; it never affects graph construction.
    pub fn add_symbol(&mut self, addr: u64, name: String)
        ensures
            final(self).symbol_table@ == old(self).symbol_table@.insert(addr, name),
            final(self).map == old(self).map,
            final(self).blocks@ == old(self).blocks@,
            final(self).gstarts == old(self).gstarts,
    {
        self.symbol_table.insert(addr, name);
    }

    /// Symbol lookup by address.
    pub fn symbol(&self, addr: u64) -> (r: Option<&String>)
        ensures
            match r {
                Some(n) => self.symbol_table@.contains_key(addr) && *n
                    == self.symbol_table@[addr],
                None => !self.symbol_table@.contains_key(addr),
            },
    {
        self.symbol_table.get(&addr)
    }

    /// Fills every live block's predecessor list: the start addresses of
    /// exactly the live blocks whose successor set holds this block's
    /// start.  The graph runs it once, after the work queue has emptied and
    /// the edge set is final.
    #[verifier::loop_isolation(false)]
    fn fill_prev(&mut self)
        requires
            forall|a: u64|
                #[trigger] rm_contents(old(self).map).dom().contains(a) ==> valid_cover(
                    rm_contents(old(self).map),
                    old(self).blocks@,
                    a,
                ),
        ensures
            final(self).map == old(self).map,
            final(self).gstarts == old(self).gstarts,
            final(self).symbol_table == old(self).symbol_table,
            final(self).blocks@.len() == old(self).blocks@.len(),
            forall|i: int|
                0 <= i < old(self).blocks@.len() ==> same_core(
                    #[trigger] final(self).blocks@[i],
                    old(self).blocks@[i],
                ),
            forall|i: int, pi: int|
                0 <= i < final(self).blocks@.len() && 0 <= pi
                    < final(self).blocks@[i].prev@.len() ==> is_pred(
                    rm_contents(old(self).map),
                    final(self).blocks@,
                    #[trigger] final(self).blocks@[i].prev@[pi],
                    i,
                ),
            forall|i: int, p1: int, p2: int|
                #![trigger final(self).blocks@[i].prev@[p1], final(self).blocks@[i].prev@[p2]]
                0 <= i < final(self).blocks@.len() && 0 <= p1 < p2
                    < final(self).blocks@[i].prev@.len() ==> final(self).blocks@[i].prev@[p1]
                    != final(self).blocks@[i].prev@[p2],
            forall|i: int, c: int|
                live_block(rm_contents(old(self).map), final(self).blocks@, i) && live_block(
                    rm_contents(old(self).map),
                    final(self).blocks@,
                    c,
                ) && #[trigger] final(self).blocks@[c].next@.contains(final(self).blocks@[i].start)
                    ==> #[trigger] final(self).blocks@[i].prev@.contains(
                    final(self).blocks@[c].start,
                ),
    {
        let n = self.blocks.len();
        let ghost m0 = rm_contents(self.map);
        let ghost bl0 = self.blocks@;
        let mut pvs: Vec<Vec<u64>> = Vec::new();
        let mut i: usize = 0;
        while i < n
            invariant
                i <= n,
                pvs@.len() == i,
                forall|k: int, pi: int|
                    0 <= k < i && 0 <= pi < pvs@[k]@.len() ==> is_pred(
                        m0,
                        bl0,
                        #[trigger] pvs@[k]@[pi],
                        k,
                    ),
                forall|k: int, p1: int, p2: int|
                    #![trigger pvs@[k]@[p1], pvs@[k]@[p2]]
                    0 <= k < i && 0 <= p1 < p2 < pvs@[k]@.len() ==> pvs@[k]@[p1] != pvs@[k]@[p2],
                forall|k: int, c: int|
                    0 <= k < i && live_block(m0, bl0, k) && live_block(m0, bl0, c)
                        && #[trigger] bl0[c].next@.contains(bl0[k].start) ==> pvs@[k]@.contains(
                        bl0[c].start,
                    ),
            decreases n - i,
        {
            let bstart = self.blocks[i].start;
            let mut pv: Vec<u64> = Vec::new();
            let live = match rm_get(&self.map, bstart) {
                Some(v) => v == i as u64,
                None => false,
            };
            if live {
                let mut c: usize = 0;
                while c < n
                    invariant
                        c <= n,
                        pv@.len() <= c,
                        forall|pi: int|
                            0 <= pi < pv@.len() ==> is_pred(m0, bl0, #[trigger] pv@[pi], i as int),
                        forall|pi: int|
                            0 <= pi < pv@.len() ==> (m0[#[trigger] pv@[pi]] as int) < c,
                        forall|p1: int, p2: int|
                            0 <= p1 < p2 < pv@.len() ==> pv@[p1] != pv@[p2],
                        forall|cc: int|
                            0 <= cc < c && live_block(m0, bl0, cc) && #[trigger] bl0[cc].next@.contains(
                                bl0[i as int].start,
                            ) ==> pv@.contains(bl0[cc].start),
                    decreases n - c,
                {
                    let cstart = self.blocks[c].start;
                    let clive = match rm_get(&self.map, cstart) {
                        Some(v) => v == c as u64,
                        None => false,
                    };
                    let ghost pv0 = pv@;
                    if clive {
                        if vec_contains(&self.blocks[c].next, bstart) {
                            pv.push(cstart);
                            proof {
                                assert(is_pred(m0, bl0, cstart, i as int));
                                assert(m0[cstart] == c as u64);
                                assert forall|p1: int, p2: int|
                                    0 <= p1 < p2 < pv@.len() implies pv@[p1] != pv@[p2] by {
                                    if p2 == pv@.len() - 1 {
                                        assert(pv@[p2] == cstart);
                                        assert((m0[pv@[p1]] as int) < c);
                                    }
                                }
                            }
                        }
                    }
                    proof {
                        assert forall|cc: int|
                            0 <= cc < c + 1 && live_block(m0, bl0, cc)
                                && #[trigger] bl0[cc].next@.contains(
                                bl0[i as int].start,
                            ) implies pv@.contains(bl0[cc].start) by {
                            if cc == c {
                                assert(clive);
                                assert(pv@[pv@.len() - 1] == cstart);
                                assert(pv@.contains(bl0[cc].start));
                            } else {
                                assert(pv0.contains(bl0[cc].start));
                                let jj = choose|jj: int|
                                    0 <= jj < pv0.len() && pv0[jj] == bl0[cc].start;
                                assert(pv@[jj] == bl0[cc].start);
                                assert(pv@.contains(bl0[cc].start));
                            }
                        }
                    }
                    c += 1;
                }
            }
            pvs.push(pv);
            i += 1;
        }
        let ghost pvs0 = pvs@;
        let mut nb: Vec<Block> = Vec::new();
        let mut j: usize = 0;
        while j < n
            invariant
                j <= n,
                nb@.len() == j,
                self.map == old(self).map,
                self.symbol_table == old(self).symbol_table,
                self.gstarts == old(self).gstarts,
                self.blocks@ =~= bl0.subrange(j as int, n as int),
                pvs@ =~= pvs0.subrange(j as int, n as int),
                forall|k: int|
                    0 <= k < j ==> same_core(#[trigger] nb@[k], bl0[k]) && nb@[k].prev@
                        == pvs0[k]@,
            decreases n - j,
        {
            let b = self.blocks.remove(0);
            let pv = pvs.remove(0);
            nb.push(
                Block {
                    start: b.start,
                    end: b.end,
                    insts: b.insts,
                    next: b.next,
                    prev: pv,
                },
            );
            proof {
                assert(self.blocks@ =~= bl0.subrange(j + 1, n as int));
                assert(pvs@ =~= pvs0.subrange(j + 1, n as int));
            }
            j += 1;
        }
        self.blocks = nb;
        proof {
            let bl1 = self.blocks@;
            assert forall|i2: int, pi: int|
                0 <= i2 < bl1.len() && 0 <= pi < bl1[i2].prev@.len() implies is_pred(
                m0,
                bl1,
                #[trigger] bl1[i2].prev@[pi],
                i2,
            ) by {
                assert(bl1[i2].prev@ == pvs0[i2]@);
                let p = bl1[i2].prev@[pi];
                assert(is_pred(m0, bl0, p, i2));
                assert(same_core(bl1[m0[p] as int], bl0[m0[p] as int]));
                assert(same_core(bl1[i2], bl0[i2]));
            }
            assert forall|i2: int, p1: int, p2: int|
                #![trigger bl1[i2].prev@[p1], bl1[i2].prev@[p2]]
                0 <= i2 < bl1.len() && 0 <= p1 < p2 < bl1[i2].prev@.len() implies bl1[i2].prev@[p1]
                != bl1[i2].prev@[p2] by {
                assert(bl1[i2].prev@ == pvs0[i2]@);
            }
            assert forall|i2: int, c: int|
                live_block(m0, bl1, i2) && live_block(m0, bl1, c)
                    && #[trigger] bl1[c].next@.contains(bl1[i2].start) implies #[trigger] bl1[i2].prev@.contains(
                bl1[c].start,
            ) by {
                assert(same_core(bl1[i2], bl0[i2]));
                assert(same_core(bl1[c], bl0[c]));
                assert(live_block(m0, bl0, i2) && live_block(m0, bl0, c));
                assert(bl0[c].next@.contains(bl0[i2].start));
                assert(pvs0[i2]@.contains(bl0[c].start));
            }
        }
    }
}

/// When a block's last instruction is an unconditional absolute jump whose
/// target lies in the region, the block's one successor is exactly that
/// target, as the segment-preserving formula computes it.
pub proof fn lemma_jump_block_successor(b: Block, code: Seq<u8>, base: u64, w: u32)
    requires
        block_ok(b, code, base),
        class_of(b.insts@[b.insts@.len() - 1]) == CfClass::UnconditionalJump,
        w == word_at_byte(code, b.end - base - 4),
        in_region(base, code.len() as int, jump_target(w, b.end)),
    ensures
        b.next@ =~= seq![jump_target(w, b.end) as u64],
{
}

/// Block extraction is pinned: when the words of a window up to index `n`
/// are non-terminators and word `n` is a terminator, any block meeting the
/// builder's contract over that window holds exactly the first `n + 1`
/// words — the terminator included, nothing before it, nothing after it.
pub proof fn lemma_block_extent(b: Block, off: u64, buf: Seq<u8>, n: int)
    requires
        4 <= off <= buf.len(),
        off % 4 == 0,
        b.insts@.len() * 4 == off,
        forall|j: int| 0 <= j < b.insts@.len() ==> b.insts@[j] == decoded_at(buf, j),
        forall|j: int| 0 <= j < b.insts@.len() - 1 ==> !is_block_terminator(b.insts@[j]),
        is_block_terminator(b.insts@[b.insts@.len() - 1]) || off + 4 > buf.len(),
        0 <= n,
        4 * (n + 1) <= buf.len(),
        forall|j: int| 0 <= j < n ==> !is_block_terminator(decoded_at(buf, j)),
        is_block_terminator(decoded_at(buf, n)),
    ensures
        b.insts@.len() == n + 1,
        off == 4 * (n + 1),
{
    let m = b.insts@.len() as int;
    if m < n + 1 {
        // the scan cannot have stopped earlier: the last word taken is no
        // terminator, and a whole further word remains
        assert(b.insts@[m - 1] == decoded_at(buf, m - 1));
        assert(!is_block_terminator(decoded_at(buf, m - 1)));
        assert(off + 4 <= buf.len());
        assert(false);
    }
    if m > n + 1 {
        // nor later: the terminator would sit before the last instruction
        assert(b.insts@[n] == decoded_at(buf, n));
        assert(!is_block_terminator(b.insts@[n]));
        assert(false);
    }
}

/// No block carries a duplicate edge: its successor set holds at most the
/// branch target and the fall-through address, and only once when the two
/// coincide.
pub proof fn lemma_no_duplicate_edges(b: Block, code: Seq<u8>, base: u64)
    requires
        block_ok(b, code, base),
        base + code.len() <= u64::MAX,
    ensures
        b.next@.len() <= 2,
        forall|i: int, j: int| 0 <= i < j < b.next@.len() ==> b.next@[i] != b.next@[j],
{
    lemma_successors_ok(
        b.insts@[b.insts@.len() - 1],
        word_at_byte(code, b.end - base - 4),
        b.end,
        base,
        code.len() as int,
    );
}

/// A block ending in a conditional branch has exactly two successors when
/// branch target and fall-through both lie in the region and differ — the
/// target first — exactly one when only one of them does or when they
/// coincide, and none when both fall outside: open edges, not errors.
pub proof fn lemma_branch_successor_count(b: Block, code: Seq<u8>, base: u64, w: u32)
    requires
        block_ok(b, code, base),
        w == word_at_byte(code, b.end - base - 4),
        base + code.len() <= u64::MAX,
        class_of(b.insts@[b.insts@.len() - 1]) == CfClass::ConditionalBranch || class_of(
            b.insts@[b.insts@.len() - 1],
        ) == CfClass::ConditionalBranchLikely,
    ensures
        ({
            let bt = branch_target(w, b.end);
            let ft = b.end + 4;
            let len = code.len() as int;
            &&& (in_region(base, len, bt) && in_region(base, len, ft) && bt != ft ==> b.next@.len()
                == 2 && b.next@[0] as int == bt && b.next@[1] as int == ft)
            &&& (in_region(base, len, bt) && in_region(base, len, ft) && bt == ft ==> b.next@.len()
                == 1 && b.next@[0] as int == bt)
            &&& (in_region(base, len, bt) && !in_region(base, len, ft) ==> b.next@.len() == 1
                && b.next@[0] as int == bt)
            &&& (!in_region(base, len, bt) && in_region(base, len, ft) ==> b.next@.len() == 1
                && b.next@[0] as int == ft)
            &&& (!in_region(base, len, bt) && !in_region(base, len, ft) ==> b.next@.len() == 0)
        }),
{
    let bt = branch_target(w, b.end);
    let ft = b.end + 4;
    let len = code.len() as int;
    assert(b.next@ == branch_succs(w, b.end, base, len));
    if in_region(base, len, bt) {
        assert(bt == bt as u64 as int);
    }
    if in_region(base, len, ft) {
        assert(ft == (ft as u64) as int);
    }
}

/// An inner `ILLEGAL` propagates upward as `ILLEGAL`: a word whose primary
/// opcode delegates to a sub-table that rejects it is never coerced into
/// an unrelated instruction.
pub proof fn lemma_illegal_propagates(w: u32)
    ensures
        w >> 26 == 0x00 && Special::spec_translate(w) == Special::ILLEGAL ==> EE::spec_translate(w)
            == EE::ILLEGAL,
        w >> 26 == 0x01 && Regimm::spec_translate(w) == Regimm::ILLEGAL ==> EE::spec_translate(w)
            == EE::ILLEGAL,
        w >> 26 == 0x10 && Cop0::spec_translate(w) == Cop0::ILLEGAL ==> EE::spec_translate(w)
            == EE::ILLEGAL,
        w >> 26 == 0x11 && Cop1::spec_translate(w) == Cop1::ILLEGAL ==> EE::spec_translate(w)
            == EE::ILLEGAL,
        w >> 26 == 0x12 && Cop2::spec_translate(w) == Cop2::ILLEGAL ==> EE::spec_translate(w)
            == EE::ILLEGAL,
        w >> 26 == 0x1C && Mmi::spec_translate(w) == Mmi::ILLEGAL ==> EE::spec_translate(w)
            == EE::ILLEGAL,
{
}

/// Carries the construction invariant across a change that leaves every
/// block's range, instructions and successors untouched.
proof fn lemma_inv_core(
    m: Map<u64, u64>,
    bl0: Seq<Block>,
    bl1: Seq<Block>,
    gs: Seq<u64>,
    code: Seq<u8>,
    base: u64,
)
    requires
        graph_inv(m, bl0, gs, code, base),
        bl1.len() == bl0.len(),
        forall|i: int| 0 <= i < bl0.len() ==> same_core(#[trigger] bl1[i], bl0[i]),
    ensures
        graph_inv(m, bl1, gs, code, base),
        succs_pending(m, bl0, Seq::<u64>::empty()) ==> succs_pending(m, bl1, Seq::<u64>::empty()),
{
    assert forall|a: u64| #[trigger] m.dom().contains(a) implies valid_cover(m, bl1, a)
        && block_ok(bl1[m[a] as int], code, base) by {
        assert(valid_cover(m, bl0, a));
        assert(block_ok(bl0[m[a] as int], code, base));
        assert(same_core(bl1[m[a] as int], bl0[m[a] as int]));
        assert forall|c: u64| bl1[m[a] as int].start <= c < bl1[m[a] as int].end implies
            #[trigger] m.dom().contains(c) && m[c] == m[a] by {
            assert(bl0[m[a] as int].start <= c < bl0[m[a] as int].end);
        }
    }
    assert forall|a: u64| #[trigger] m.dom().contains(a) implies exists|k: int|
        0 <= k < gs.len() && gs[k] == bl1[m[a] as int].start by {
        let k = choose|k: int| 0 <= k < gs.len() && gs[k] == bl0[m[a] as int].start;
        assert(same_core(bl1[m[a] as int], bl0[m[a] as int]));
        assert(gs[k] == bl1[m[a] as int].start);
    }
    assert forall|k: int| 0 <= k < gs.len() implies #[trigger] m.dom().contains(gs[k])
        && bl1[m[gs[k]] as int].start == gs[k] by {
        lemma_inv_start(m, bl0, gs, code, base, k);
        assert(same_core(bl1[m[gs[k]] as int], bl0[m[gs[k]] as int]));
    }
    if succs_pending(m, bl0, Seq::<u64>::empty()) {
        assert forall|a: u64, si: int|
            #![trigger m.dom().contains(a), bl1[m[a] as int].next@[si]]
            m.dom().contains(a) && 0 <= si < bl1[m[a] as int].next@.len() implies m.dom().contains(
            bl1[m[a] as int].next@[si],
        ) || Seq::<u64>::empty().contains(bl1[m[a] as int].next@[si]) by {
            assert(valid_cover(m, bl0, a));
            assert(same_core(bl1[m[a] as int], bl0[m[a] as int]));
            assert(m.dom().contains(bl0[m[a] as int].next@[si]) || Seq::<u64>::empty().contains(
                bl0[m[a] as int].next@[si],
            ));
        }
    }
}

/// The starts of the stored ranges ascend strictly: each range is
/// non-empty and ends no later than the next one starts.
proof fn lemma_entry_starts_ascending(es: Seq<(u64, u64, u64)>, m: Map<u64, u64>)
    requires
        forall|i: int| 0 <= i < es.len() ==> (#[trigger] es[i]).0 < es[i].1,
        forall|i: int| 0 <= i < es.len() - 1 ==> (#[trigger] es[i]).1 <= es[i + 1].0,
    ensures
        forall|i: int, j: int| 0 <= i < j < es.len() ==> (#[trigger] es[i]).0 < (#[trigger] es[j]).0,
{
    assert forall|i: int, j: int| 0 <= i < j < es.len() implies (#[trigger] es[i]).0 < (
    #[trigger] es[j]).0 by {
        lemma_entry_starts_step(es, i, j);
    }
}

/// Chains the adjacent ordering of stored ranges up to any pair.
proof fn lemma_entry_starts_step(es: Seq<(u64, u64, u64)>, i: int, j: int)
    requires
        forall|k: int| 0 <= k < es.len() ==> (#[trigger] es[k]).0 < es[k].1,
        forall|k: int| 0 <= k < es.len() - 1 ==> (#[trigger] es[k]).1 <= es[k + 1].0,
        0 <= i < j < es.len(),
    ensures
        es[i].0 < es[j].0,
    decreases j - i,
{
    if j == i + 1 {
        assert(es[i].0 < es[i].1 && es[i].1 <= es[j].0);
    } else {
        lemma_entry_starts_step(es, i, j - 1);
        assert(es[j - 1].0 < es[j - 1].1 && es[j - 1].1 <= es[j].0);
    }
}

/// Whether `v` holds `x`.
fn vec_contains(v: &Vec<u64>, x: u64) -> (b: bool)
    ensures
        b == v@.contains(x),
{
    let mut i: usize = 0;
    while i < v.len()
        invariant
            i <= v@.len(),
            forall|j: int| 0 <= j < i ==> v@[j] != x,
        decreases v@.len() - i,
    {
        if v[i] == x {
            proof {
                assert(v@[i as int] == x);
            }
            return true;
        }
        i += 1;
    }
    proof {
        if v@.contains(x) {
            let j = choose|j: int| 0 <= j < v@.len() && v@[j] == x;
            assert(false);
        }
    }
    false
}

} // verus!
