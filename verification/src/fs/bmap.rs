//! Free-block bitmap: bit `i` of a bitmap block is 1 when the `i`-th
//! block it covers is in use.

use vstd::prelude::*;

use crate::bytes::{get_u32, le32};
use crate::layout::{BPB, NDIRECT, NINDIRECT};

verus! {

/// Bit `i` of bitmap block `b` is set.
pub open spec fn bit(b: Seq<u8>, i: int) -> bool {
    b[i / 8] & (1u8 << ((i % 8) as u8)) != 0
}

/// Bit `i` of a bitmap block is bit `i % 8` of byte `i / 8`, counting
/// from the least significant bit: `(byte >> (i % 8)) % 2 == 1`.
pub proof fn law_bitmap_bit(b: Seq<u8>, i: int)
    requires
        0 <= i,
        i / 8 < b.len(),
    ensures
        bit(b, i) == ((b[i / 8] >> ((i % 8) as u8)) % 2 == 1),
{
    let x = b[i / 8];
    let k = (i % 8) as u8;
    assert((x & (1u8 << k) != 0) == ((x >> k) % 2 == 1)) by (bit_vector)
        requires
            k < 8,
    ;
}

proof fn lemma_set_bit(x: u8, k: u8)
    requires
        k < 8,
    ensures
        forall|j: u8| j < 8 ==> (#[trigger] ((x | (1u8 << k)) & (1u8 << j)) != 0) == (j == k || x & (1u8 << j) != 0),
{
    assert(forall|j: u8| j < 8 ==> (#[trigger] ((x | (1u8 << k)) & (1u8 << j)) != 0) == (j == k || x & (1u8 << j) != 0))
        by (bit_vector)
        requires
            k < 8,
    ;
}

proof fn lemma_clear_bit(x: u8, k: u8)
    requires
        k < 8,
    ensures
        forall|j: u8| j < 8 ==> (#[trigger] ((x & !(1u8 << k)) & (1u8 << j)) != 0) == (j != k && x & (1u8 << j) != 0),
        x & (1u8 << k) == 0 ==> (x | (1u8 << k)) & !(1u8 << k) == x,
{
    assert(forall|j: u8| j < 8 ==> (#[trigger] ((x & !(1u8 << k)) & (1u8 << j)) != 0) == (j != k && x & (1u8 << j) != 0))
        by (bit_vector)
        requires
            k < 8,
    ;
    assert(x & (1u8 << k) == 0 ==> (x | (1u8 << k)) & !(1u8 << k) == x) by (bit_vector);
}

/// Claims the first free bit below `upto` in bitmap block `buf`;
/// returns its index, or `None` when all are in use.
pub fn bitmap_claim(buf: &mut Vec<u8>, upto: u32) -> (r: Option<u32>)
    requires
        upto <= BPB,
        old(buf)@.len() * 8 >= BPB,
    ensures
        final(buf)@.len() == old(buf)@.len(),
        match r {
            Some(bi) => {
                &&& bi < upto
                &&& !bit(old(buf)@, bi as int)
                &&& forall|j: int| 0 <= j < bi ==> #[trigger] bit(old(buf)@, j)
                &&& bit(final(buf)@, bi as int)
                &&& forall|j: int| 0 <= j < BPB && j != bi ==> #[trigger] bit(final(buf)@, j) == bit(old(buf)@, j)
                &&& final(buf)@ == old(buf)@.update((bi / 8) as int, old(buf)@[(bi / 8) as int] | (1u8 << ((bi % 8) as u8)))
            },
            None => final(buf)@ == old(buf)@ && forall|j: int| 0 <= j < upto ==> #[trigger] bit(old(buf)@, j),
        },
{
    let _len: usize = buf.len();
    let mut bi: u32 = 0;
    while bi < upto
        invariant
            upto <= BPB,
            buf@.len() * 8 >= BPB,
            buf@ == old(buf)@,
            bi <= upto,
            forall|j: int| 0 <= j < bi ==> #[trigger] bit(buf@, j),
        decreases upto - bi,
    {
        let m: u8 = 1u8 << ((bi % 8) as u8);
        let idx: usize = (bi / 8) as usize;
        if buf[idx] & m == 0 {
            let x = buf[idx];
            buf.set(idx, x | m);
            proof {
                lemma_set_bit(x, (bi % 8) as u8);
                assert forall|j: int| 0 <= j < BPB && j != bi implies #[trigger] bit(buf@, j) == bit(old(buf)@, j) by {
                    if j / 8 == bi / 8 {
                        assert(((j % 8) as u8) != ((bi % 8) as u8));
                        assert(((x | (1u8 << ((bi % 8) as u8))) & (1u8 << ((j % 8) as u8))) != 0 == (x & (1u8 << ((j
                            % 8) as u8)) != 0));
                    }
                }
                assert(((x | m) & m) != 0);
            }
            return Some(bi);
        }
        bi = bi + 1;
    }
    None
}

/// Frees bit `bi` of bitmap block `buf` (it must be in use).
pub fn bitmap_release(buf: &mut Vec<u8>, bi: u32)
    requires
        bi < BPB,
        old(buf)@.len() * 8 >= BPB,
        bit(old(buf)@, bi as int),
    ensures
        final(buf)@.len() == old(buf)@.len(),
        !bit(final(buf)@, bi as int),
        forall|j: int| 0 <= j < BPB && j != bi ==> #[trigger] bit(final(buf)@, j) == bit(old(buf)@, j),
        final(buf)@ == old(buf)@.update((bi / 8) as int, old(buf)@[(bi / 8) as int] & !(1u8 << ((bi % 8) as u8))),
{
    let _len: usize = buf.len();
    let m: u8 = 1u8 << ((bi % 8) as u8);
    let idx: usize = (bi / 8) as usize;
    let x = buf[idx];
    buf.set(idx, x & !m);
    proof {
        lemma_clear_bit(x, (bi % 8) as u8);
        assert forall|j: int| 0 <= j < BPB && j != bi implies #[trigger] bit(buf@, j) == bit(old(buf)@, j) by {
            if j / 8 == bi / 8 {
                assert(((j % 8) as u8) != ((bi % 8) as u8));
                assert(((x & !(1u8 << ((bi % 8) as u8))) & (1u8 << ((j % 8) as u8))) != 0 == (x & (1u8 << ((j % 8)
                    as u8)) != 0));
            }
        }
        assert(((x & !m) & m) == 0);
    }
}

/// Freeing the block that was just claimed gives back the bitmap block
/// as it was.
pub proof fn law_claim_release(before: Seq<u8>, bi: u32)
    requires
        bi < BPB,
        before.len() * 8 >= BPB,
        !bit(before, bi as int),
    ensures
        ({
            let m = 1u8 << ((bi % 8) as u8);
            let claimed = before.update((bi / 8) as int, before[(bi / 8) as int] | m);
            claimed.update((bi / 8) as int, claimed[(bi / 8) as int] & !m) == before
        }),
{
    let m = 1u8 << ((bi % 8) as u8);
    lemma_clear_bit(before[(bi / 8) as int], (bi % 8) as u8);
    let claimed = before.update((bi / 8) as int, before[(bi / 8) as int] | m);
    assert(claimed.update((bi / 8) as int, claimed[(bi / 8) as int] & !m) =~= before);
}

/// Bits of the block group starting at block `b` that a scan may use:
/// `BPB`, or fewer in the last group.
pub fn scan_limit(size: u32, b: u32) -> (r: u32)
    requires
        b < size,
    ensures
        r == (if BPB < size - b {
            BPB as int
        } else {
            size - b
        }),
{
    if BPB < size - b {
        BPB
    } else {
        size - b
    }
}


/// The nonzero block numbers of `s`, in order.
pub open spec fn nonzero_blocks(s: Seq<u32>) -> Seq<u32>
    decreases s.len(),
{
    if s.len() == 0 {
        Seq::empty()
    } else if s.last() != 0 {
        nonzero_blocks(s.drop_last()).push(s.last())
    } else {
        nonzero_blocks(s.drop_last())
    }
}

/// The block numbers held by an indirect block.
pub open spec fn indirect_words(ind: Seq<u8>) -> Seq<u32> {
    Seq::new(NINDIRECT as nat, |j: int| le32(ind, 4 * j) as u32)
}

/// The blocks that truncating an inode with block addresses `addrs`
/// frees, in the order they are freed: the direct blocks, then (when
/// there is an indirect block) the blocks it lists and the indirect
/// block itself. `ind` is the indirect block's content.
pub open spec fn itrunc_blocks(addrs: Seq<u32>, ind: Seq<u8>) -> Seq<u32> {
    nonzero_blocks(addrs.take(NDIRECT as int)) + if addrs[NDIRECT as int] != 0 {
        nonzero_blocks(indirect_words(ind)).push(addrs[NDIRECT as int])
    } else {
        Seq::empty()
    }
}

/// How many entries of `s` are nonzero.
pub open spec fn count_nonzero(s: Seq<u32>) -> nat
    decreases s.len(),
{
    if s.len() == 0 {
        0
    } else {
        count_nonzero(s.drop_last()) + if s.last() != 0 {
            1nat
        } else {
            0
        }
    }
}

/// Keeping the nonzero entries keeps every nonzero entry and nothing
/// else, one result per nonzero entry.
proof fn lemma_nonzero_blocks(s: Seq<u32>)
    ensures
        forall|k: int| 0 <= k < s.len() && s[k] != 0 ==> #[trigger] nonzero_blocks(s).contains(s[k]),
        forall|x: u32| #[trigger] nonzero_blocks(s).contains(x) ==> x != 0 && s.contains(x),
        nonzero_blocks(s).len() == count_nonzero(s),
    decreases s.len(),
{
    if s.len() > 0 {
        let d = s.drop_last();
        lemma_nonzero_blocks(d);
        let r = nonzero_blocks(s);
        let rd = nonzero_blocks(d);
        assert forall|k: int| 0 <= k < s.len() && s[k] != 0 implies #[trigger] r.contains(s[k]) by {
            if k < s.len() - 1 {
                assert(d[k] == s[k]);
                assert(rd.contains(d[k]));
                let j = choose|j: int| 0 <= j < rd.len() && rd[j] == d[k];
                if s.last() != 0 {
                    assert(r[j] == rd[j]);
                }
            } else {
                assert(r[r.len() - 1] == s.last());
            }
        }
        assert forall|x: u32| #[trigger] r.contains(x) implies x != 0 && s.contains(x) by {
            let j = choose|j: int| 0 <= j < r.len() && r[j] == x;
            if s.last() != 0 && j == r.len() - 1 {
                assert(s[s.len() - 1] == x);
            } else {
                assert(rd[j] == x);
                assert(rd.contains(x));
                let i = choose|i: int| 0 <= i < d.len() && d[i] == x;
                assert(s[i] == x);
            }
        }
    }
}

/// Word `j` of an indirect block: the block number it lists there.
pub open spec fn ind_word(ind: Seq<u8>, j: int) -> u32 {
    le32(ind, 4 * j) as u32
}

/// Truncating an inode frees every block it holds, once each, and no
/// other: each nonzero one of the `NDIRECT` (12) direct addresses; when
/// there is an indirect block, each nonzero block number it lists and,
/// last, the indirect block itself. Nothing freed is block 0.
pub proof fn law_itrunc_frees_all_blocks(addrs: Seq<u32>, ind: Seq<u8>)
    requires
        addrs.len() == 13,
        ind.len() == 512,
    ensures
        ({
            let r = itrunc_blocks(addrs, ind);
            &&& forall|i: int| 0 <= i < 12 && addrs[i] != 0 ==> #[trigger] r.contains(addrs[i])
            &&& addrs[12] != 0 ==> r.last() == addrs[12]
            &&& addrs[12] != 0 ==> forall|j: int|
                0 <= j < 128 && ind_word(ind, j) != 0 ==> #[trigger] r.contains(ind_word(ind, j))
            &&& forall|x: u32|
                #[trigger] r.contains(x) ==> x != 0 && (addrs.subrange(0, 12).contains(x) || (addrs[12] != 0 && (x
                    == addrs[12] || exists|j: int| 0 <= j < 128 && #[trigger] ind_word(ind, j) == x)))
            &&& r.len() == count_nonzero(addrs.subrange(0, 12)) + if addrs[12] != 0 {
                count_nonzero(Seq::new(128, |j: int| ind_word(ind, j))) + 1
            } else {
                0
            }
        }),
{
    let direct = addrs.take(12);
    let words = indirect_words(ind);
    assert(direct =~= addrs.subrange(0, 12));
    assert(words =~= Seq::new(128, |j: int| ind_word(ind, j)));
    lemma_nonzero_blocks(direct);
    lemma_nonzero_blocks(words);
    let r = itrunc_blocks(addrs, ind);
    let a = nonzero_blocks(direct);
    assert forall|i: int| 0 <= i < 12 && addrs[i] != 0 implies #[trigger] r.contains(addrs[i]) by {
        assert(direct[i] == addrs[i]);
        assert(a.contains(direct[i]));
        let k = choose|k: int| 0 <= k < a.len() && a[k] == addrs[i];
        assert(r[k] == a[k]);
    }
    if addrs[12] != 0 {
        let b = nonzero_blocks(words).push(addrs[12]);
        assert(r == a + b);
        assert forall|j: int| 0 <= j < 128 && ind_word(ind, j) != 0 implies #[trigger] r.contains(
                ind_word(ind, j),
        ) by {
            assert(words[j] == ind_word(ind, j));
            assert(nonzero_blocks(words).contains(words[j]));
            let k = choose|k: int| 0 <= k < nonzero_blocks(words).len() && nonzero_blocks(words)[k] == words[j];
            assert(r[a.len() + k] == b[k]);
        }
        assert forall|x: u32| #[trigger] r.contains(x) implies x != 0 && (addrs.subrange(0, 12).contains(x) || (
        addrs[12] != 0 && (x == addrs[12] || exists|j: int| 0 <= j < 128 && #[trigger] ind_word(ind, j) == x))) by {
            let k = choose|k: int| 0 <= k < r.len() && r[k] == x;
            if k < a.len() {
                assert(a[k] == x);
                assert(a.contains(x));
            } else if k < r.len() - 1 {
                let m = k - a.len();
                assert(nonzero_blocks(words)[m] == x);
                assert(nonzero_blocks(words).contains(x));
                let j = choose|j: int| 0 <= j < words.len() && words[j] == x;
                assert(ind_word(ind, j) == x);
            }
        }
    } else {
        assert(r =~= a);
    }
}

/// Lists the blocks to free when an inode is truncated to nothing.
pub fn itrunc_plan(addrs: &[u32; 13], ind: &[u8]) -> (r: Vec<u32>)
    requires
        ind@.len() == crate::layout::BSIZE,
    ensures
        r@ == itrunc_blocks(addrs@, ind@),
{
    let mut out: Vec<u32> = Vec::new();
    let mut i: usize = 0;
    while i < NDIRECT
        invariant
            i <= NDIRECT,
            out@ == nonzero_blocks(addrs@.take(i as int)),
        decreases NDIRECT - i,
    {
        proof {
            assert(addrs@.take(i + 1).drop_last() =~= addrs@.take(i as int));
        }
        if addrs[i] != 0 {
            out.push(addrs[i]);
        }
        i = i + 1;
    }
    if addrs[NDIRECT] == 0 {
        proof {
            assert(out@ =~= itrunc_blocks(addrs@, ind@));
        }
        return out;
    }
    let ghost direct = out@;
    let ghost words = indirect_words(ind@);
    let mut ind_out: Vec<u32> = Vec::new();
    let mut j: usize = 0;
    while j < NINDIRECT
        invariant
            j <= NINDIRECT,
            ind@.len() == crate::layout::BSIZE,
            words == indirect_words(ind@),
            ind_out@ == nonzero_blocks(words.take(j as int)),
        decreases NINDIRECT - j,
    {
        let b: u32 = get_u32(ind, 4 * j);
        proof {
            assert(words.take(j + 1).drop_last() =~= words.take(j as int));
            assert(words[j as int] == b);
        }
        if b != 0 {
            ind_out.push(b);
        }
        j = j + 1;
    }
    proof {
        assert(words.take(NINDIRECT as int) =~= words);
    }
    ind_out.push(addrs[NDIRECT]);
    out.append(&mut ind_out);
    out
}
} // verus!
