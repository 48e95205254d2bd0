//! Translation of one guest block: up to 64 instructions are decoded and
//! lowered until one ends the block; a block that does not end in a control
//! transfer gets the guest state written back, the next pc set and a return;
//! then the passes run and the registers are allocated.
use crate::frontend::Frontend;
use crate::ir::{block_pcs, no_regs, BlockId, BlockView, BuilderView, Endian, IrBlock, IrBuilder, IrOp, OpView, VOperand};
use crate::passes::{const_fold_spec, dead_code_spec, run_all};
use crate::regalloc::{compute_intervals, intervals_of, lemma_scan_spill_bound, linear_scan, scan_spec, Allocation};
use vstd::prelude::*;

verus! {

/// Instructions decoded at most per block.
pub const MAX_BLOCK_INSNS: usize = 64;

/// Bytes per guest instruction (both guests are fixed-width).
pub const GUEST_INSN_BYTES: usize = 4;

/// A fresh builder for a guest of the given byte order, holding one empty
/// block at `guest_pc`.
pub open spec fn initial_view(endian: Endian, guest_pc: u64) -> BuilderView {
    BuilderView {
        blocks: seq![BlockView { guest_pc, ops: Seq::empty() }],
        next_vreg: 0,
        endian,
        current_pc: 0,
        insn_len: 4,
        gpr: no_regs(),
        fpr: no_regs(),
        vec: no_regs(),
        cr: None,
        lr: None,
        ctr: None,
        xer: None,
    }
}

/// Lowering from the `i`-th instruction on, at `cursor`: each instruction is
/// decoded from its four bytes of `code`, lowered at its own pc, and the
/// cursor moves on four bytes (wrapping); a terminator or the 64th
/// instruction ends the block. Yields the builder and the pc after the block.
pub open spec fn lower_from<F: Frontend>(f: F, m: BuilderView, code: Seq<u8>, cursor: u64, i: nat) -> (BuilderView, u64)
    decreases 64 - i,
{
    if i >= 64 {
        (m, cursor)
    } else {
        let insn = f.decode_spec(code.subrange(4 * i as int, 4 * i as int + 4), cursor);
        let m1 = f.lower_spec(BuilderView { current_pc: cursor, insn_len: 4, ..m }, insn, BlockId(0));
        let next = vstd::wrapping::u64_specs::wrapping_add(cursor, 4);
        if f.terminates(insn) {
            (m1, next)
        } else {
            lower_from(f, m1, code, next, i + 1)
        }
    }
}

/// A block that does not already end in a control transfer gets the guest
/// state written back, the pc set to `end` and a return.
pub open spec fn finished(m: BuilderView, end: u64) -> BuilderView {
    let ops = m.blocks[0].ops;
    if ops.len() > 0 && ops.last().is_control_flow() {
        m
    } else {
        m.flush_guest_state(BlockId(0)).emit_set_pc(BlockId(0), VOperand::Imm(end as i64)).push(BlockId(0), OpView::Return)
    }
}

/// Every finished block ends in a control transfer.
pub proof fn lemma_finished_ends_in_control_flow(m: BuilderView, end: u64)
    requires
        m.blocks.len() >= 1,
    ensures
        finished(m, end).blocks[0].ops.len() > 0,
        finished(m, end).blocks[0].ops.last().is_control_flow(),
{
    broadcast use crate::ir::lemma_flush_indices_frame;

    let ops = m.blocks[0].ops;
    if !(ops.len() > 0 && ops.last().is_control_flow()) {
        let m1 = m.flush_guest_state(BlockId(0)).emit_set_pc(BlockId(0), VOperand::Imm(end as i64));
        assert(m1.blocks.len() == m.blocks.len());
        assert(m1.push(BlockId(0), OpView::Return).blocks[0].ops == m1.blocks[0].ops.push(OpView::Return));
    }
}

/// The block lowered from `code` at `guest_pc`, before the passes, and the pc after it.
pub open spec fn lowered_block<F: Frontend>(f: F, code: Seq<u8>, guest_pc: u64) -> (BlockView, u64) {
    let (m, end) = lower_from(f, initial_view(f.guest_endian(), guest_pc), code, guest_pc, 0);
    (finished(m, end).blocks[0], end)
}

/// The optimised ops of the block lowered from `code` at `guest_pc`.
pub open spec fn translated_ops<F: Frontend>(f: F, code: Seq<u8>, guest_pc: u64) -> Seq<OpView> {
    dead_code_spec(const_fold_spec(lowered_block(f, code, guest_pc).0.ops))
}

/// Translates the block at `guest_pc` from `code`, the guest bytes from
/// `guest_pc` on: the optimised block, its allocation, and the pc after it.
/// `None` when the block has more live values than spill offsets can address.
pub fn translate_block<F: Frontend>(frontend: &F, code: &[u8], guest_pc: u64) -> (r: Option<(IrBlock, Allocation, u64)>)
    requires
        code@.len() >= MAX_BLOCK_INSNS * GUEST_INSN_BYTES,
    ensures
        ({
            let ops = translated_ops(*frontend, code@, guest_pc);
            let end = lowered_block(*frontend, code@, guest_pc).1;
            &&& lowered_block(*frontend, code@, guest_pc).0.ops.last().is_control_flow()
            &&& (r is Some <==> 8 * intervals_of(ops).len() <= u32::MAX)
            &&& (r matches Some((b, a, e)) ==> b@.ops == ops && b@.guest_pc == guest_pc && a.map@ == scan_spec(ops).map
                && e == end)
        }),
{
    let mut builder = IrBuilder::new();
    builder.endian = frontend.endianness();
    builder.insn_len = 4;
    let block_id = builder.new_block(guest_pc);
    proof {
        assert(builder@.blocks =~= seq![BlockView { guest_pc, ops: Seq::empty() }]);
        assert(block_pcs(builder@) =~= seq![guest_pc]);
        assert(builder@ == initial_view(frontend.guest_endian(), guest_pc));
    }
    let ghost start = builder@;
    let mut cursor_pc = guest_pc;
    let mut i: usize = 0;
    let mut done = false;
    while i < MAX_BLOCK_INSNS && !done
        invariant
            i <= 64,
            builder.wf(),
            builder@.blocks.len() == 1,
            block_pcs(builder@) == seq![guest_pc],
            block_id == BlockId(0),
            builder@.next_vreg <= 32 * i,
            code@.len() >= 256,
            done ==> lower_from(*frontend, start, code@, guest_pc, 0) == (builder@, cursor_pc),
            !done ==> lower_from(*frontend, start, code@, guest_pc, 0) == lower_from(
                *frontend,
                builder@,
                code@,
                cursor_pc,
                i as nat,
            ),
        decreases 64 - i,
    {
        let raw_bytes: [u8; 4] = [code[4 * i], code[4 * i + 1], code[4 * i + 2], code[4 * i + 3]];
        assert(raw_bytes@.subrange(0, 4) =~= code@.subrange(4 * i, 4 * i + 4));
        let (decoded, len) = frontend.decode(raw_bytes.as_slice(), cursor_pc);
        builder.current_pc = cursor_pc;
        builder.insn_len = len as u64;
        proof {
            frontend.lemma_lower_bounds(builder@, decoded, block_id);
        }
        frontend.lower_to_ir(&decoded, &mut builder, block_id);
        let terminated = frontend.is_block_terminator(&decoded);
        cursor_pc = cursor_pc.wrapping_add(len as u64);
        if terminated {
            done = true;
        }
        i = i + 1;
    }
    proof {
        if !done {
            assert(lower_from(*frontend, builder@, code@, cursor_pc, i as nat) == (builder@, cursor_pc));
        }
    }
    let ghost lowered = builder@;
    assert(lowered_block(*frontend, code@, guest_pc) == (finished(lowered, cursor_pc).blocks[0], cursor_pc));
    let n = builder.blocks[0].ops.len();
    let last_is_cf = n > 0 && builder.blocks[0].ops[n - 1].is_control_flow();
    proof {
        assert(builder@.blocks[0].ops.len() == n);
        if n > 0 {
            assert(builder@.blocks[0].ops.last() == builder.blocks@[0].ops@[n - 1]@);
        }
    }
    if !last_is_cf {
        builder.flush_guest_state(block_id);
        builder.emit_set_pc(block_id, VOperand::Imm(cursor_pc as i64));
        builder.push(block_id, IrOp::Return);
    }
    assert(builder@ == finished(lowered, cursor_pc));
    proof {
        lemma_finished_ends_in_control_flow(lowered, cursor_pc);
        broadcast use crate::ir::lemma_flush_indices_frame, crate::ir::lemma_push_keeps_pcs;

        if !last_is_cf {
            assert(lowered.flush_guest_state(BlockId(0)).blocks.len() == 1);
        }
        assert(block_pcs(builder@) == seq![guest_pc]);
        assert(block_pcs(builder@)[0] == builder@.blocks[0].guest_pc);
        assert(builder@.blocks.len() == 1);
        assert(builder.blocks@.len() == 1);
    }
    let mut ir_block = match builder.blocks.pop() {
        Some(b) => b,
        None => {
            proof {
                assert(false);
            }
            return None;
        },
    };
    assert(ir_block@ == finished(lowered, cursor_pc).blocks[0]);
    assert(ir_block@.guest_pc == guest_pc);
    run_all(&mut ir_block);
    assert(ir_block@.guest_pc == guest_pc);
    let ivs = compute_intervals(&ir_block);
    if ivs.len() > (u32::MAX / 8) as usize {
        return None;
    }
    proof {
        lemma_scan_spill_bound(ivs@, ivs@.len() as nat);
    }
    let alloc = linear_scan(&ir_block);
    Some((ir_block, alloc, cursor_pc))
}

} // verus!
