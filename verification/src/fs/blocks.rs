//! File content as a row of blocks.
use vstd::prelude::*;
use vstd::slice::slice_subrange;

use crate::fs::tables::Tables;
use crate::fs::types::{DbStmt, Stmt, StmtView, BLOCK_SIZE};

verus! {

/// The number of the block that holds the byte at `pos`.
pub open spec fn block_no(pos: int) -> i64 {
    (pos / BLOCK_SIZE as int) as i64
}

/// The place of the byte at `pos` within its block.
pub open spec fn block_off(pos: int) -> int {
    pos % BLOCK_SIZE as int
}

/// The byte at `off`; what a block does not hold is zero.
pub open spec fn byte_of(block: Seq<u8>, off: int) -> u8 {
    if 0 <= off < block.len() {
        block[off]
    } else {
        0
    }
}

/// The `len` bytes of a block from `off` on.
pub open spec fn chunk_of(block: Seq<u8>, off: int, len: nat) -> Seq<u8> {
    Seq::new(len, |i: int| byte_of(block, off + i))
}

/// A block after `chunk` was written into it at `off`.
pub open spec fn patched(block: Seq<u8>, off: int, chunk: Seq<u8>) -> Seq<u8> {
    let len = if block.len() < off + chunk.len() {
        (off + chunk.len()) as nat
    } else {
        block.len()
    };
    Seq::new(
        len,
        |i: int|
            if off <= i < off + chunk.len() {
                chunk[i - off]
            } else {
                byte_of(block, i)
            },
    )
}

/// A block cut off at `off`.
pub open spec fn cut(block: Seq<u8>, off: int) -> Seq<u8> {
    if block.len() > off {
        block.take(off)
    } else {
        block
    }
}

/// The statement that stores a block; an empty one is not kept.
pub open spec fn storing(ino: u64, block_no: i64, content: Seq<u8>) -> StmtView {
    if content.len() == 0 {
        Stmt::DeleteBlock { ino, block_no }
    } else {
        Stmt::PutBlock { ino, block_no, content }
    }
}

pub fn put_block<'a>(ino: u64, block_no: i64, content: Vec<u8>) -> (stmt: DbStmt<'a>)
    ensures
        stmt@ == storing(ino, block_no, content@),
{
    if content.len() == 0 {
        Stmt::DeleteBlock { ino, block_no }
    } else {
        Stmt::PutBlock { ino, block_no, content }
    }
}

/// How many bytes at `pos` lie in one block, `left` at most.
pub open spec fn span(pos: int, left: int) -> int {
    if BLOCK_SIZE - block_off(pos) < left {
        BLOCK_SIZE - block_off(pos)
    } else {
        left
    }
}

pub fn split_pos(pos: u64) -> (r: (i64, usize))
    ensures
        r.0 == block_no(pos as int),
        r.1 == block_off(pos as int),
{
    ((pos / BLOCK_SIZE) as i64, (pos % BLOCK_SIZE) as usize)
}

/// The block after the bytes of `data` from `from` on, `take` of them, were
/// written into it at `off`.
pub fn patch_block(block: Vec<u8>, off: usize, data: &[u8], from: usize, take: usize) -> (r: Vec<u8>)
    requires
        off + take <= BLOCK_SIZE,
        from + take <= data@.len(),
    ensures
        r@ == patched(block@, off as int, data@.subrange(from as int, from + take)),
{
    let mut buf = block;
    let need_len: usize = off + take;
    if buf.len() < need_len {
        buf.resize(need_len, 0);
        assert forall|j: int| 0 <= j < block@.len() implies buf@[j] == block@[j] by {
            assert(buf@.subrange(0, block@.len() as int)[j] == buf@[j]);
        }
    }
    let ghost full = buf@;
    let ghost chunk = data@.subrange(from as int, from + take);
    let data_len: usize = data.len();
    let mut i: usize = 0;
    while i < take
        invariant
            i <= take,
            off + take <= BLOCK_SIZE,
            from + take <= data_len == data@.len(),
            off + take <= full.len(),
            buf@.len() == full.len(),
            chunk == data@.subrange(from as int, from + take),
            forall|j: int|
                0 <= j < full.len() ==> #[trigger] buf@[j] == (if off <= j < off + i {
                    chunk[j - off]
                } else {
                    full[j]
                }),
        decreases take - i,
    {
        buf.set(off + i, data[from + i]);
        i += 1;
    }
    assert(buf@ =~= patched(block@, off as int, chunk));
    buf
}

/// Puts the `len` bytes of a block from `off` on behind what is there.
pub fn append_chunk(out: &mut Vec<u8>, block: &Vec<u8>, off: usize, len: usize)
    requires
        old(out)@.len() + len <= usize::MAX,
    ensures
        final(out)@ == old(out)@ + chunk_of(block@, off as int, len as nat),
{
    let ghost before = out@;
    let total: usize = out.len() + len;
    if off < block.len() {
        let avail: usize = if len < block.len() - off { len } else { block.len() - off };
        out.extend_from_slice(slice_subrange(block.as_slice(), off, off + avail));
    }
    let ghost filled = out@;
    out.resize(total, 0);
    assert forall|j: int| 0 <= j < filled.len() implies out@[j] == filled[j] by {
        assert(out@.subrange(0, filled.len() as int)[j] == out@[j]);
    }
    assert forall|j: int| 0 <= j < total implies out@[j] == (before + chunk_of(
        block@,
        off as int,
        len as nat,
    ))[j] by {
        if j < filled.len() {
            assert(out@[j] == filled[j]);
        }
    }
    assert(out@ =~= before + chunk_of(block@, off as int, len as nat));
}

impl Tables {
    /// The byte of a file at `pos`.
    pub open spec fn byte_at(self, ino: u64, pos: int) -> u8 {
        byte_of(self.block(ino, block_no(pos)), block_off(pos))
    }

    /// What is in a file: as many bytes as its row says. A byte that no block
    /// holds is zero.
    pub open spec fn content(self, ino: u64) -> Seq<u8> {
        Seq::new(self.inodes[ino].row.size as nat, |i: int| self.byte_at(ino, i))
    }
}

} // verus!
