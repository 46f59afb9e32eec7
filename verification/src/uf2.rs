//! UF2 images for the RP2040 boot ROM: building them from a flat binary,
//! combining the bootloader with the application, and recovering the
//! application partition from a UF2 file.

use vstd::prelude::*;
use crate::bytes::{le_bytes, le_u32, lemma_le_bytes_roundtrip, push_le_u32, read_le_u32};
use crate::config::ACTIVE_START;

verus! {

/// First magic word of every UF2 block.
pub const UF2_MAGIC0: u32 = 0x0A324655;
/// Second magic word of every UF2 block.
pub const UF2_MAGIC1: u32 = 0x9E5D5157;
/// Magic word that closes every UF2 block.
pub const UF2_MAGIC_END: u32 = 0x0AB16F30;
/// Flag: the family-ID field is present.
pub const UF2_FLAG_FAMILY: u32 = 0x00002000;
/// UF2 family ID of the RP2040.
pub const RP2040_FAMILY_ID: u32 = 0xe48bff56;
/// Payload bytes carried by each block.
pub const UF2_PAYLOAD_SIZE: usize = 256;
/// Size of a UF2 block.
pub const UF2_BLOCK_SIZE: usize = 512;
/// Offset of the application within the combined flash image.
pub const APP_FLASH_OFFSET: usize = 0x7000;
/// Address at which the flash is mapped.
pub const FLASH_BASE: u32 = 0x10000000;

/// Number of 256-byte payloads needed for `len` bytes.
pub open spec fn block_count(len: int) -> int {
    (len + 255) / 256
}

/// Payload of block `i`: the `i`-th 256-byte chunk of `data`, zero-padded.
pub open spec fn block_payload(data: Seq<u8>, i: int) -> Seq<u8> {
    Seq::new(256, |t: int| if 256 * i + t < data.len() { data[256 * i + t] } else { 0u8 })
}

/// The 32-byte header of block `i` of `n`, targeting `base + 256 * i`.
pub open spec fn block_header(base: u32, i: int, n: int) -> Seq<u8> {
    le_bytes(UF2_MAGIC0) + le_bytes(UF2_MAGIC1) + le_bytes(UF2_FLAG_FAMILY) + le_bytes(
        (base + 256 * i) as u32,
    ) + le_bytes(256) + le_bytes(i as u32) + le_bytes(n as u32) + le_bytes(RP2040_FAMILY_ID)
}

/// Block `i` of `n`: header, zero-padded payload, zeros, closing magic.
pub open spec fn uf2_block(data: Seq<u8>, base: u32, i: int, n: int) -> Seq<u8> {
    block_header(base, i, n) + block_payload(data, i) + Seq::new(220, |t: int| 0u8) + le_bytes(
        UF2_MAGIC_END,
    )
}

/// The UF2 encoding of `data` loaded at `base`: one 512-byte block per
/// 256-byte chunk.
pub open spec fn uf2_image(data: Seq<u8>, base: u32) -> Seq<u8> {
    let n = block_count(data.len() as int);
    Seq::new((512 * n) as nat, |p: int| uf2_block(data, base, p / 512, n)[p % 512])
}

/// The block addresses of `data` at `base` fit in 32 bits.
pub open spec fn fits_address_space(len: int, base: u32) -> bool {
    len == 0 || base + 256 * (block_count(len) - 1) <= u32::MAX
}

proof fn lemma_block_index(p: int, i: int)
    requires
        512 * i <= p < 512 * i + 512,
    ensures
        p / 512 == i,
        p % 512 == p - 512 * i,
{
    assert(p / 512 == i && p % 512 == p - 512 * i) by (nonlinear_arith)
        requires
            512 * i <= p < 512 * i + 512,
    ;
}

fn uf2_block_bytes(data: &[u8], base_addr: u32, i: usize, n: usize) -> (v: Vec<u8>)
    requires
        i < n,
        n == block_count(data@.len() as int),
        base_addr + 256 * (n - 1) <= u32::MAX,
    ensures
        v@ == uf2_block(data@, base_addr, i as int, n as int),
{
    let mut v: Vec<u8> = Vec::new();
    let addr = base_addr + (i * 256) as u32;
    push_le_u32(&mut v, UF2_MAGIC0);
    push_le_u32(&mut v, UF2_MAGIC1);
    push_le_u32(&mut v, UF2_FLAG_FAMILY);
    push_le_u32(&mut v, addr);
    push_le_u32(&mut v, UF2_PAYLOAD_SIZE as u32);
    push_le_u32(&mut v, i as u32);
    push_le_u32(&mut v, n as u32);
    push_le_u32(&mut v, RP2040_FAMILY_ID);
    let ghost header = v@;
    assert(header =~= block_header(base_addr, i as int, n as int));
    let start = i * 256;
    let mut t: usize = 0;
    while t < 256
        invariant
            t <= 256,
            start == 256 * i,
            i < n,
            n == block_count(data@.len() as int),
            v@ =~= header + block_payload(data@, i as int).take(t as int),
        decreases 256 - t,
    {
        if start + t < data.len() {
            v.push(data[start + t]);
        } else {
            v.push(0);
        }
        t = t + 1;
    }
    assert(block_payload(data@, i as int).take(256) =~= block_payload(data@, i as int));
    let ghost with_payload = v@;
    let mut z: usize = 0;
    while z < 220
        invariant
            z <= 220,
            v@ =~= with_payload + Seq::new(z as nat, |q: int| 0u8),
        decreases 220 - z,
    {
        v.push(0);
        z = z + 1;
    }
    push_le_u32(&mut v, UF2_MAGIC_END);
    v
}

/// Converts a flat binary image to UF2 blocks for the RP2040, the first
/// payload targeting `base_addr`; the last chunk is zero-padded.
pub fn binary_to_uf2(data: &[u8], base_addr: u32) -> (r: Vec<u8>)
    requires
        fits_address_space(data@.len() as int, base_addr),
    ensures
        r@ == uf2_image(data@, base_addr),
{
    let num_blocks = data.len() / UF2_PAYLOAD_SIZE + if data.len() % UF2_PAYLOAD_SIZE == 0 {
        0
    } else {
        1
    };
    assert(num_blocks == block_count(data@.len() as int)) by (nonlinear_arith)
        requires
            num_blocks == data@.len() / 256 + if data@.len() % 256 == 0 { 0int } else { 1int },
    ;
    let mut uf2: Vec<u8> = Vec::new();
    let mut i: usize = 0;
    while i < num_blocks
        invariant
            i <= num_blocks,
            num_blocks == block_count(data@.len() as int),
            fits_address_space(data@.len() as int, base_addr),
            uf2@ =~= Seq::new(
                (512 * i) as nat,
                |p: int| uf2_block(data@, base_addr, p / 512, num_blocks as int)[p % 512],
            ),
        decreases num_blocks - i,
    {
        let block = uf2_block_bytes(data, base_addr, i, num_blocks);
        let ghost before = uf2@;
        let mut q: usize = 0;
        while q < 512
            invariant
                q <= 512,
                block@ == uf2_block(data@, base_addr, i as int, num_blocks as int),
                block@.len() == 512,
                uf2@ =~= before + block@.take(q as int),
            decreases 512 - q,
        {
            uf2.push(block[q]);
            q = q + 1;
        }
        assert forall|p: int| 512 * i <= p < 512 * (i + 1) implies #[trigger] uf2@[p]
            == uf2_block(data@, base_addr, p / 512, num_blocks as int)[p % 512] by {
            lemma_block_index(p, i as int);
        }
        assert(uf2@ =~= Seq::new(
            (512 * (i + 1)) as nat,
            |p: int| uf2_block(data@, base_addr, p / 512, num_blocks as int)[p % 512],
        ));
        i = i + 1;
    }
    uf2
}

/// Why two flat images could not be combined.
#[derive(Debug, PartialEq, Eq, Structural)]
pub enum CombineError {
    /// The bootloader image (of this many bytes) reaches into the application region.
    BootloaderTooLarge(usize),
}

/// Size of the combined flash image: the bootloader region, extended to the
/// end of the application image.
pub open spec fn combined_len(app_len: int) -> int {
    if app_len > 0x7000 {
        app_len
    } else {
        0x7000
    }
}

/// The combined flash image, both images taken relative to the flash base:
/// the bootloader from offset 0, `0xFF` up to the active partition at
/// `APP_FLASH_OFFSET`, and from there each application byte at its own
/// offset (the application image's bytes below the partition are left to
/// the bootloader).
pub open spec fn combined_image(bl: Seq<u8>, app: Seq<u8>) -> Seq<u8> {
    Seq::new(
        combined_len(app.len() as int) as nat,
        |j: int|
            if j < bl.len() {
                bl[j]
            } else if j < 0x7000 {
                0xFFu8
            } else {
                app[j]
            },
    )
}

/// Combines the bootloader and application images (both flattened relative
/// to the flash base) into one UF2 file for the whole flash: fails exactly
/// when the bootloader reaches into the application region.
pub fn combine(bl_bin: &[u8], app_bin: &[u8]) -> (r: Result<Vec<u8>, CombineError>)
    requires
        bl_bin@.len() <= 0x7000 ==> app_bin@.len() <= 0xF000_0000,
    ensures
        bl_bin@.len() > 0x7000 ==> r == Err::<Vec<u8>, CombineError>(
            CombineError::BootloaderTooLarge(bl_bin@.len() as usize),
        ),
        bl_bin@.len() <= 0x7000 ==> (r matches Ok(uf2) && uf2@ == uf2_image(
            combined_image(bl_bin@, app_bin@),
            FLASH_BASE,
        )),
{
    if bl_bin.len() > APP_FLASH_OFFSET {
        return Err(CombineError::BootloaderTooLarge(bl_bin.len()));
    }
    let combined_size = if app_bin.len() > APP_FLASH_OFFSET {
        app_bin.len()
    } else {
        APP_FLASH_OFFSET
    };
    let mut combined: Vec<u8> = Vec::new();
    let mut j: usize = 0;
    while j < combined_size
        invariant
            j <= combined_size,
            combined_size == combined_len(app_bin@.len() as int),
            bl_bin@.len() <= 0x7000,
            combined@ =~= combined_image(bl_bin@, app_bin@).take(j as int),
        decreases combined_size - j,
    {
        if j < bl_bin.len() {
            combined.push(bl_bin[j]);
        } else if j < APP_FLASH_OFFSET {
            combined.push(0xFF);
        } else {
            combined.push(app_bin[j]);
        }
        j = j + 1;
    }
    assert(combined@ =~= combined_image(bl_bin@, app_bin@));
    assert(fits_address_space(combined@.len() as int, FLASH_BASE)) by (nonlinear_arith)
        requires
            combined@.len() <= 0xF000_0000,
    ;
    Ok(binary_to_uf2(&combined, FLASH_BASE))
}

/// Every application byte at or above the active partition sits at its own
/// flash offset in the combined image, and the bootloader region holds the
/// bootloader followed by erased bytes.
pub proof fn lemma_combined_layout(bl: Seq<u8>, app: Seq<u8>)
    requires
        bl.len() <= 0x7000,
    ensures
        forall|j: int| 0x7000 <= j < app.len() ==> #[trigger] combined_image(bl, app)[j] == app[j],
        forall|j: int| 0 <= j < bl.len() ==> #[trigger] combined_image(bl, app)[j] == bl[j],
        forall|j: int| bl.len() <= j < 0x7000 ==> #[trigger] combined_image(bl, app)[j] == 0xFFu8,
        combined_image(bl, app).len() == combined_len(app.len() as int),
{
}

/// Why no application image could be recovered from a UF2 file.
#[derive(Debug, PartialEq, Eq, Structural)]
pub enum Uf2Error {
    /// No block targets the active partition.
    NoActiveBlocks,
}

/// The blocks among the first `k` full 512-byte blocks of `uf2` that carry
/// both magic words and target an address at or above `ACTIVE_START`, in
/// file order, each as its target address and 256-byte payload.
pub open spec fn active_blocks(uf2: Seq<u8>, k: int) -> Seq<(u32, Seq<u8>)>
    decreases k,
{
    if k <= 0 {
        Seq::empty()
    } else {
        let prev = active_blocks(uf2, k - 1);
        let o = 512 * (k - 1);
        let addr = le_u32(uf2, o + 12);
        if le_u32(uf2, o) == UF2_MAGIC0 && le_u32(uf2, o + 4) == UF2_MAGIC1 && addr
            >= ACTIVE_START {
            prev.push((addr as u32, uf2.subrange(o + 32, o + 288)))
        } else {
            prev
        }
    }
}

/// Lowest target address among the blocks.
pub open spec fn lowest_address(blocks: Seq<(u32, Seq<u8>)>) -> u32
    decreases blocks.len(),
{
    if blocks.len() <= 1 {
        blocks[0].0
    } else {
        let rest = lowest_address(blocks.drop_last());
        if blocks.last().0 < rest {
            blocks.last().0
        } else {
            rest
        }
    }
}

/// Highest target address among the blocks.
pub open spec fn highest_address(blocks: Seq<(u32, Seq<u8>)>) -> u32
    decreases blocks.len(),
{
    if blocks.len() <= 1 {
        blocks[0].0
    } else {
        let rest = highest_address(blocks.drop_last());
        if blocks.last().0 > rest {
            blocks.last().0
        } else {
            rest
        }
    }
}

/// A block at `addr` replaces the current winner `prev` of a byte.
pub open spec fn outranks(addr: u32, prev: Option<(u32, u8)>) -> bool {
    match prev {
        None => true,
        Some(w) => addr >= w.0,
    }
}

/// Which block supplies byte `j` of the image that starts at address `first`
/// (its address and the byte), when the blocks are written in ascending
/// address order and blocks with equal addresses in file order: among the
/// blocks covering `j`, the one with the highest address, and of those the
/// last in the file.
pub open spec fn covering_block(blocks: Seq<(u32, Seq<u8>)>, first: int, j: int) -> Option<(u32, u8)>
    decreases blocks.len(),
{
    if blocks.len() == 0 {
        None
    } else {
        let prev = covering_block(blocks.drop_last(), first, j);
        let b = blocks.last();
        let off = b.0 - first;
        if off <= j < off + 256 && outranks(b.0, prev) {
            Some((b.0, b.1[j - off]))
        } else {
            prev
        }
    }
}

/// The raw application image held by a UF2 file: from the lowest to the
/// highest active block address plus one payload, gaps `0xFF`.
pub open spec fn active_image(uf2: Seq<u8>) -> Result<Seq<u8>, Uf2Error> {
    let blocks = active_blocks(uf2, (uf2.len() / 512) as int);
    if blocks.len() == 0 {
        Err(Uf2Error::NoActiveBlocks)
    } else {
        let first = lowest_address(blocks);
        let last = highest_address(blocks);
        Ok(
            Seq::new(
                (last - first + 256) as nat,
                |j: int|
                    match covering_block(blocks, first as int, j) {
                        Some(w) => w.1,
                        None => 0xFFu8,
                    },
            ),
        )
    }
}

proof fn lemma_active_blocks_step(uf2: Seq<u8>, k: int)
    requires
        k >= 0,
    ensures
        active_blocks(uf2, k + 1) == (if le_u32(uf2, 512 * k) == UF2_MAGIC0 && le_u32(uf2, 512 * k + 4)
            == UF2_MAGIC1 && le_u32(uf2, 512 * k + 12) >= ACTIVE_START {
            active_blocks(uf2, k).push(
                (le_u32(uf2, 512 * k + 12) as u32, uf2.subrange(512 * k + 32, 512 * k + 288)),
            )
        } else {
            active_blocks(uf2, k)
        }),
{
}

proof fn lemma_full_block(k: int, len: int)
    requires
        0 <= k < len / 512,
        len >= 0,
    ensures
        512 * k + 512 <= len,
{
    assert(512 * k + 512 <= len) by (nonlinear_arith)
        requires
            0 <= k < len / 512,
            len >= 0,
    ;
}

spec fn blocks_view(uf2: Seq<u8>, found: Seq<(u32, usize)>) -> Seq<(u32, Seq<u8>)> {
    Seq::new(found.len(), |q: int| (found[q].0, uf2.subrange(found[q].1 + 32, found[q].1 + 288)))
}

proof fn lemma_address_bounds(blocks: Seq<(u32, Seq<u8>)>)
    requires
        blocks.len() > 0,
    ensures
        forall|q: int| 0 <= q < blocks.len() ==> lowest_address(blocks) <= #[trigger] blocks[q].0 <= highest_address(blocks),
    decreases blocks.len(),
{
    if blocks.len() > 1 {
        lemma_address_bounds(blocks.drop_last());
        assert forall|q: int| 0 <= q < blocks.len() implies lowest_address(blocks) <= #[trigger] blocks[q].0 <= highest_address(blocks) by {
            if q < blocks.len() - 1 {
                assert(blocks.drop_last()[q] == blocks[q]);
            }
        }
    }
}

/// Recovers the flat image of the active partition from a UF2 file: the
/// payloads of the well-formed blocks at or above `ACTIVE_START`, placed at
/// their address relative to the lowest such block; where blocks overlap the
/// one with the higher address wins (equal addresses: the later one in the
/// file), and gaps are `0xFF`.
pub fn uf2_to_active_binary(uf2_data: &[u8]) -> (r: Result<Vec<u8>, Uf2Error>)
    ensures
        match r {
            Ok(bin) => active_image(uf2_data@) == Ok::<Seq<u8>, Uf2Error>(bin@),
            Err(e) => active_image(uf2_data@) == Err::<Seq<u8>, Uf2Error>(e),
        },
{
    let full = uf2_data.len() / UF2_BLOCK_SIZE;
    let mut found: Vec<(u32, usize)> = Vec::new();
    let mut k: usize = 0;
    let mut o: usize = 0;
    while k < full
        invariant
            k <= full,
            o == 512 * k,
            full == uf2_data@.len() / 512,
            forall|q: int| 0 <= q < found@.len() ==> (#[trigger] found@[q]).1 + 512 <= uf2_data.len() && found@[q].0 >= ACTIVE_START,
            blocks_view(uf2_data@, found@) =~= active_blocks(uf2_data@, k as int),
        decreases full - k,
    {
        proof {
            lemma_full_block(k as int, uf2_data.len() as int);
            lemma_active_blocks_step(uf2_data@, k as int);
        }
        let m0 = read_le_u32(uf2_data, o);
        let m1 = read_le_u32(uf2_data, o + 4);
        let addr = read_le_u32(uf2_data, o + 12);
        let ghost before = found@;
        if m0 == UF2_MAGIC0 && m1 == UF2_MAGIC1 && addr >= ACTIVE_START {
            found.push((addr, o));
            proof {
                assert(blocks_view(uf2_data@, found@) =~= blocks_view(uf2_data@, before).push(
                    (addr, uf2_data@.subrange(o + 32, o + 288)),
                ));
            }
        }
        k = k + 1;
        o = o + 512;
    }
    if found.len() == 0 {
        return Err(Uf2Error::NoActiveBlocks);
    }
    let ghost blocks = blocks_view(uf2_data@, found@);
    let mut first = found[0].0;
    let mut last = found[0].0;
    let mut q: usize = 1;
    while q < found.len()
        invariant
            1 <= q <= found@.len(),
            blocks == blocks_view(uf2_data@, found@),
            first == lowest_address(blocks.take(q as int)),
            last == highest_address(blocks.take(q as int)),
            first >= ACTIVE_START,
            forall|x: int| 0 <= x < found@.len() ==> (#[trigger] found@[x]).0 >= ACTIVE_START,
        decreases found@.len() - q,
    {
        assert(blocks.take(q + 1).drop_last() =~= blocks.take(q as int));
        if found[q].0 < first {
            first = found[q].0;
        }
        if found[q].0 > last {
            last = found[q].0;
        }
        q = q + 1;
    }
    assert(blocks.take(found@.len() as int) =~= blocks);
    proof {
        lemma_address_bounds(blocks);
    }
    let bin_size = (last - first) as usize + UF2_PAYLOAD_SIZE;
    let mut bin: Vec<u8> = Vec::new();
    let mut win: Vec<u32> = Vec::new();
    let mut j: usize = 0;
    while j < bin_size
        invariant
            j <= bin_size,
            bin@.len() == j,
            win@.len() == j,
            forall|x: int| 0 <= x < j ==> (#[trigger] bin@[x]) == 0xFF,
            forall|x: int| 0 <= x < j ==> (#[trigger] win@[x]) == 0,
        decreases bin_size - j,
    {
        bin.push(0xFF);
        win.push(0);
        j = j + 1;
    }
    assert(blocks.take(0) =~= Seq::<(u32, Seq<u8>)>::empty());
    assert forall|x: int| 0 <= x < bin_size implies match #[trigger] covering_block(blocks.take(0), first as int, x) {
        Some(w) => win@[x] == w.0 && bin@[x] == w.1,
        None => win@[x] == 0 && bin@[x] == 0xFF,
    } by {
        assert(covering_block(blocks.take(0), first as int, x) is None);
        assert(bin@[x] == 0xFF && win@[x] == 0);
    }
    let mut q: usize = 0;
    while q < found.len()
        invariant
            q <= found@.len(),
            blocks == blocks_view(uf2_data@, found@),
            first == lowest_address(blocks),
            last == highest_address(blocks),
            bin_size == last - first + 256,
            bin@.len() == bin_size,
            win@.len() == bin_size,
            forall|x: int| 0 <= x < found@.len() ==> lowest_address(blocks) <= #[trigger] blocks[x].0 <= highest_address(blocks),
            forall|x: int| 0 <= x < found@.len() ==> (#[trigger] found@[x]).1 + 512 <= uf2_data.len() && found@[x].0 >= ACTIVE_START,
            forall|x: int| 0 <= x < bin_size ==> match #[trigger] covering_block(blocks.take(q as int), first as int, x) {
                Some(w) => win@[x] == w.0 && bin@[x] == w.1,
                None => win@[x] == 0 && bin@[x] == 0xFF,
            },
        decreases found@.len() - q,
    {
        let addr = found[q].0;
        let o = found[q].1;
        assert(blocks[q as int].0 == addr);
        let base = (addr - first) as usize;
        let ghost prev_bin = bin@;
        let ghost prev_win = win@;
        let mut t: usize = 0;
        while t < UF2_PAYLOAD_SIZE
            invariant
                t <= 256,
                q < found@.len(),
                addr == found@[q as int].0,
                o == found@[q as int].1,
                addr >= ACTIVE_START,
                o + 512 <= uf2_data.len(),
                base == addr - first,
                base + 256 <= bin_size,
                bin@.len() == bin_size,
                win@.len() == bin_size,
                forall|x: int| 0 <= x < bin_size ==> #[trigger] bin@[x] == if base <= x < base + t && addr >= prev_win[x] {
                    uf2_data@[o + 32 + (x - base)]
                } else {
                    prev_bin[x]
                },
                forall|x: int| 0 <= x < bin_size ==> #[trigger] win@[x] == if base <= x < base + t && addr >= prev_win[x] {
                    addr
                } else {
                    prev_win[x]
                },
            decreases 256 - t,
        {
            let pos = base + t;
            if addr >= win[pos] {
                bin.set(pos, uf2_data[o + 32 + t]);
                win.set(pos, addr);
            }
            t = t + 1;
        }
        proof {
            let taken = blocks.take(q + 1);
            assert(taken.drop_last() =~= blocks.take(q as int));
            assert(taken.last() == blocks[q as int]);
            assert forall|x: int| 0 <= x < bin_size implies match #[trigger] covering_block(blocks.take(q + 1), first as int, x) {
                Some(w) => win@[x] == w.0 && bin@[x] == w.1,
                None => win@[x] == 0 && bin@[x] == 0xFF,
            } by {
                let prev = covering_block(blocks.take(q as int), first as int, x);
                if base <= x < base + 256 {
                    assert(blocks[q as int].1[x - base] == uf2_data@[o + 32 + (x - base)]);
                }
            }
        }
        q = q + 1;
    }
    proof {
        assert(blocks.take(found@.len() as int) =~= blocks);
        assert(bin@ =~= Seq::new(
            (last - first + 256) as nat,
            |x: int|
                match covering_block(blocks, first as int, x) {
                    Some(w) => w.1,
                    None => 0xFFu8,
                },
        ));
    }
    Ok(bin)
}

/// The data zero-padded to whole 256-byte payloads.
pub open spec fn padded_payloads(data: Seq<u8>) -> Seq<u8> {
    Seq::new((256 * block_count(data.len() as int)) as nat, |j: int| if j < data.len() { data[j] } else { 0u8 })
}

proof fn lemma_block_fields(data: Seq<u8>, base: u32, i: int, n: int)
    requires
        0 <= i < n,
        n <= u32::MAX,
        base + 256 * i <= u32::MAX,
    ensures
        uf2_block(data, base, i, n).len() == 512,
        le_u32(uf2_block(data, base, i, n), 0) == UF2_MAGIC0,
        le_u32(uf2_block(data, base, i, n), 4) == UF2_MAGIC1,
        le_u32(uf2_block(data, base, i, n), 12) == base + 256 * i,
        uf2_block(data, base, i, n).subrange(32, 288) == block_payload(data, i),
{
    let b = uf2_block(data, base, i, n);
    lemma_le_bytes_roundtrip(UF2_MAGIC0);
    lemma_le_bytes_roundtrip(UF2_MAGIC1);
    lemma_le_bytes_roundtrip((base + 256 * i) as u32);
    let h = block_header(base, i, n);
    assert(h.len() == 32);
    assert(b.subrange(0, 4) =~= le_bytes(UF2_MAGIC0));
    assert(b.subrange(4, 8) =~= le_bytes(UF2_MAGIC1));
    assert(b.subrange(12, 16) =~= le_bytes((base + 256 * i) as u32));
    assert(b.subrange(32, 288) =~= block_payload(data, i));
    assert(le_u32(b, 0) == le_u32(b.subrange(0, 4), 0));
    assert(le_u32(b, 4) == le_u32(b.subrange(4, 8), 0));
    assert(le_u32(b, 12) == le_u32(b.subrange(12, 16), 0));
}

proof fn lemma_word_at(b: Seq<u8>, o: int, x: u32)
    requires
        0 <= o,
        o + 4 <= b.len(),
        b.subrange(o, o + 4) == le_bytes(x),
    ensures
        le_u32(b, o) == x,
{
    lemma_le_bytes_roundtrip(x);
    assert(le_u32(b, o) == le_u32(b.subrange(o, o + 4), 0));
}

#[verifier::spinoff_prover]
proof fn lemma_block_other_fields(data: Seq<u8>, base: u32, i: int, n: int)
    requires
        0 <= i < n,
        n <= u32::MAX,
        base + 256 * i <= u32::MAX,
    ensures
        le_u32(uf2_block(data, base, i, n), 8) == UF2_FLAG_FAMILY,
        le_u32(uf2_block(data, base, i, n), 16) == 256,
        le_u32(uf2_block(data, base, i, n), 20) == i,
        le_u32(uf2_block(data, base, i, n), 24) == n,
        le_u32(uf2_block(data, base, i, n), 28) == RP2040_FAMILY_ID,
        le_u32(uf2_block(data, base, i, n), 508) == UF2_MAGIC_END,
{
    let b = uf2_block(data, base, i, n);
    let h = block_header(base, i, n);
    assert(h.len() == 32);
    assert(b.len() == 512);
    assert(b.subrange(8, 12) =~= le_bytes(UF2_FLAG_FAMILY));
    lemma_word_at(b, 8, UF2_FLAG_FAMILY);
    assert(b.subrange(16, 20) =~= le_bytes(256));
    lemma_word_at(b, 16, 256);
    assert(b.subrange(20, 24) =~= le_bytes(i as u32));
    lemma_word_at(b, 20, i as u32);
    assert(b.subrange(24, 28) =~= le_bytes(n as u32));
    lemma_word_at(b, 24, n as u32);
    assert(b.subrange(28, 32) =~= le_bytes(RP2040_FAMILY_ID));
    lemma_word_at(b, 28, RP2040_FAMILY_ID);
    assert(b.subrange(508, 512) =~= le_bytes(UF2_MAGIC_END));
    lemma_word_at(b, 508, UF2_MAGIC_END);
}

/// Every block of a UF2 image carries the fixed UF2 words for the RP2040:
/// both start magics, the family flag, its target address, a payload size
/// of 256, its index, the block count, the RP2040 family ID and the end
/// magic, with the block's chunk of the data as its payload.
pub proof fn lemma_uf2_block_header(data: Seq<u8>, base: u32, i: int)
    requires
        0 <= i < block_count(data.len() as int),
        fits_address_space(data.len() as int, base),
    ensures
        le_u32(uf2_image(data, base), 512 * i) == UF2_MAGIC0,
        le_u32(uf2_image(data, base), 512 * i + 4) == UF2_MAGIC1,
        le_u32(uf2_image(data, base), 512 * i + 8) == UF2_FLAG_FAMILY,
        le_u32(uf2_image(data, base), 512 * i + 12) == base + 256 * i,
        le_u32(uf2_image(data, base), 512 * i + 16) == 256,
        le_u32(uf2_image(data, base), 512 * i + 20) == i,
        le_u32(uf2_image(data, base), 512 * i + 24) == block_count(data.len() as int),
        le_u32(uf2_image(data, base), 512 * i + 28) == RP2040_FAMILY_ID,
        le_u32(uf2_image(data, base), 512 * i + 508) == UF2_MAGIC_END,
        uf2_image(data, base).subrange(512 * i + 32, 512 * i + 288) == block_payload(data, i),
{
    let n = block_count(data.len() as int);
    let img = uf2_image(data, base);
    lemma_image_block_fields(data, base, i);
    lemma_image_block(data, base, i);
    assert(n <= u32::MAX) by (nonlinear_arith)
        requires
            n == block_count(data.len() as int),
            base + 256 * (n - 1) <= u32::MAX,
            n >= 1,
    ;
    lemma_block_other_fields(data, base, i, n);
    let blk = img.subrange(512 * i, 512 * i + 512);
    assert(512 * i + 512 <= img.len()) by (nonlinear_arith)
        requires
            0 <= i < n,
            img.len() == 512 * n,
    ;
    lemma_le_u32_window(img, blk, 512 * i, 8);
    lemma_le_u32_window(img, blk, 512 * i, 16);
    lemma_le_u32_window(img, blk, 512 * i, 20);
    lemma_le_u32_window(img, blk, 512 * i, 24);
    lemma_le_u32_window(img, blk, 512 * i, 28);
    lemma_le_u32_window(img, blk, 512 * i, 508);
}

proof fn lemma_image_block(data: Seq<u8>, base: u32, i: int)
    requires
        0 <= i < block_count(data.len() as int),
    ensures
        uf2_image(data, base).subrange(512 * i, 512 * i + 512) == uf2_block(
            data,
            base,
            i,
            block_count(data.len() as int),
        ),
{
    let n = block_count(data.len() as int);
    let img = uf2_image(data, base);
    assert(512 * i + 512 <= 512 * n) by (nonlinear_arith)
        requires
            0 <= i < n,
    ;
    assert forall|t: int| 0 <= t < 512 implies #[trigger] img.subrange(512 * i, 512 * i + 512)[t]
        == uf2_block(data, base, i, n)[t] by {
        lemma_block_index(512 * i + t, i);
    }
    assert(uf2_block(data, base, i, n).len() == 512);
    assert(img.subrange(512 * i, 512 * i + 512) =~= uf2_block(data, base, i, n));
}

#[verifier::spinoff_prover]
proof fn lemma_image_block_fields(data: Seq<u8>, base: u32, i: int)
    requires
        0 <= i < block_count(data.len() as int),
        fits_address_space(data.len() as int, base),
    ensures
        le_u32(uf2_image(data, base), 512 * i) == UF2_MAGIC0,
        le_u32(uf2_image(data, base), 512 * i + 4) == UF2_MAGIC1,
        le_u32(uf2_image(data, base), 512 * i + 12) == base + 256 * i,
        uf2_image(data, base).subrange(512 * i + 32, 512 * i + 288) == block_payload(data, i),
{
    let n = block_count(data.len() as int);
    let img = uf2_image(data, base);
    lemma_image_block(data, base, i);
    assert(base + 256 * i <= u32::MAX);
    assert(n <= u32::MAX) by (nonlinear_arith)
        requires
            n == block_count(data.len() as int),
            base + 256 * (n - 1) <= u32::MAX,
            n >= 1,
    ;
    lemma_block_fields(data, base, i, n);
    let blk = img.subrange(512 * i, 512 * i + 512);
    lemma_le_u32_window(img, blk, 512 * i, 0);
    lemma_le_u32_window(img, blk, 512 * i, 4);
    lemma_le_u32_window(img, blk, 512 * i, 12);
    assert(img.subrange(512 * i + 32, 512 * i + 288) =~= blk.subrange(32, 288));
}

proof fn lemma_le_u32_window(s: Seq<u8>, w: Seq<u8>, start: int, o: int)
    requires
        0 <= start,
        0 <= o,
        o + 4 <= w.len(),
        start + w.len() <= s.len(),
        w == s.subrange(start, start + w.len()),
    ensures
        le_u32(s, start + o) == le_u32(w, o),
{
    assert(w[o] == s[start + o]);
    assert(w[o + 1] == s[start + o + 1]);
    assert(w[o + 2] == s[start + o + 2]);
    assert(w[o + 3] == s[start + o + 3]);
}

#[verifier::rlimit(40)]
proof fn lemma_image_active_blocks(data: Seq<u8>, base: u32, k: int)
    requires
        0 <= k <= block_count(data.len() as int),
        base >= ACTIVE_START,
        fits_address_space(data.len() as int, base),
    ensures
        active_blocks(uf2_image(data, base), k) == Seq::new(
            k as nat,
            |i: int| (((base + 256 * i) as u32), block_payload(data, i)),
        ),
    decreases k,
{
    let img = uf2_image(data, base);
    if k > 0 {
        lemma_image_active_blocks(data, base, k - 1);
        let i = k - 1;
        lemma_image_block_fields(data, base, i);
        lemma_active_blocks_step(img, i);
        let prev = active_blocks(img, i);
        let entry = (((base + 256 * i) as u32), block_payload(data, i));
        assert(active_blocks(img, k) == prev.push(entry));
        assert(prev.push(entry) =~= Seq::new(
            k as nat,
            |q: int| (((base + 256 * q) as u32), block_payload(data, q)),
        ));
    } else {
        assert(active_blocks(img, 0) =~= Seq::new(
            0 as nat,
            |q: int| (((base + 256 * q) as u32), block_payload(data, q)),
        ));
    }
}

proof fn lemma_ascending_extremes(blocks: Seq<(u32, Seq<u8>)>, base: u32)
    requires
        blocks.len() > 0,
        forall|q: int| 0 <= q < blocks.len() ==> #[trigger] blocks[q].0 == base + 256 * q,
    ensures
        lowest_address(blocks) == base,
        highest_address(blocks) == base + 256 * (blocks.len() - 1),
    decreases blocks.len(),
{
    if blocks.len() > 1 {
        let rest = blocks.drop_last();
        assert forall|q: int| 0 <= q < rest.len() implies #[trigger] rest[q].0 == base + 256 * q by {
            assert(rest[q] == blocks[q]);
        }
        lemma_ascending_extremes(rest, base);
    }
}

proof fn lemma_ascending_cover(blocks: Seq<(u32, Seq<u8>)>, base: u32, data: Seq<u8>, j: int)
    requires
        forall|q: int| 0 <= q < blocks.len() ==> #[trigger] blocks[q] == (((base + 256 * q) as u32), block_payload(data, q)),
        blocks.len() == 0 || base + 256 * (blocks.len() - 1) <= u32::MAX,
        0 <= j,
    ensures
        covering_block(blocks, base as int, j) == if j < 256 * blocks.len() {
            Some((((base + 256 * (j / 256)) as u32), block_payload(data, j / 256)[j % 256]))
        } else {
            None::<(u32, u8)>
        },
    decreases blocks.len(),
{
    if blocks.len() > 0 {
        let rest = blocks.drop_last();
        assert forall|q: int| 0 <= q < rest.len() implies #[trigger] rest[q] == (((base + 256 * q) as u32), block_payload(data, q)) by {
            assert(rest[q] == blocks[q]);
        }
        lemma_ascending_cover(rest, base, data, j);
        let last = blocks.len() - 1;
        let b = blocks[last];
        assert(b.0 - base == 256 * last);
        if 256 * last <= j < 256 * last + 256 {
            assert(j / 256 == last && j % 256 == j - 256 * last) by (nonlinear_arith)
                requires
                    256 * last <= j < 256 * last + 256,
            ;
        } else if j < 256 * last {
            assert(j / 256 < last) by (nonlinear_arith)
                requires
                    0 <= j < 256 * last,
            ;
        }
    }
}

proof fn lemma_active_image_of_ascending(uf2: Seq<u8>, data: Seq<u8>, base: u32)
    requires
        data.len() > 0,
        fits_address_space(data.len() as int, base),
        active_blocks(uf2, (uf2.len() / 512) as int) == Seq::new(
            block_count(data.len() as int) as nat,
            |i: int| (((base + 256 * i) as u32), block_payload(data, i)),
        ),
    ensures
        active_image(uf2) == Ok::<Seq<u8>, Uf2Error>(padded_payloads(data)),
{
    let n = block_count(data.len() as int);
    let blocks = active_blocks(uf2, (uf2.len() / 512) as int);
    assert(n >= 1);
    assert forall|q: int| 0 <= q < blocks.len() implies #[trigger] blocks[q].0 == base + 256 * q by {}
    lemma_ascending_extremes(blocks, base);
    let first = lowest_address(blocks);
    let last = highest_address(blocks);
    assert forall|j: int| 0 <= j < last - first + 256 implies (match #[trigger] covering_block(blocks, first as int, j) {
        Some(w) => w.1,
        None => 0xFFu8,
    }) == padded_payloads(data)[j] by {
        lemma_ascending_cover(blocks, base, data, j);
        assert(j / 256 < n && j % 256 < 256 && 256 * (j / 256) + j % 256 == j) by (nonlinear_arith)
            requires
                0 <= j < 256 * n,
        ;
    }
    assert(active_image(uf2)->Ok_0 =~= padded_payloads(data));
}

/// Reading back a UF2 image built for the active partition gives the data,
/// zero-padded to whole payloads.
pub proof fn lemma_uf2_roundtrip(data: Seq<u8>, base: u32)
    requires
        data.len() > 0,
        base >= ACTIVE_START,
        fits_address_space(data.len() as int, base),
    ensures
        active_image(uf2_image(data, base)) == Ok::<Seq<u8>, Uf2Error>(padded_payloads(data)),
{
    let n = block_count(data.len() as int);
    let img = uf2_image(data, base);
    assert(n >= 1);
    assert(img.len() / 512 == n) by (nonlinear_arith)
        requires
            img.len() == 512 * n,
            n >= 1,
    ;
    lemma_image_active_blocks(data, base, n);
    lemma_active_image_of_ascending(img, data, base);
}

/// Number of UF2 blocks that hold the bootloader region of a combined image.
pub open spec fn boot_blocks() -> int {
    0x7000int / 256
}

proof fn lemma_combined_payload(bl: Seq<u8>, app: Seq<u8>, i: int)
    requires
        bl.len() <= 0x7000,
        app.len() > 0x7000,
        i >= boot_blocks(),
    ensures
        block_payload(combined_image(bl, app), i) == block_payload(app.skip(0x7000), i - boot_blocks()),
{
    let data = combined_image(bl, app);
    let act = app.skip(0x7000);
    assert forall|t: int| 0 <= t < 256 implies #[trigger] block_payload(data, i)[t] == block_payload(
        act,
        i - boot_blocks(),
    )[t] by {
        assert(256 * (i - boot_blocks()) + t + 0x7000 == 256 * i + t);
    }
    assert(block_payload(data, i) =~= block_payload(act, i - boot_blocks()));
}

#[verifier::rlimit(40)]
proof fn lemma_combined_active_blocks(bl: Seq<u8>, app: Seq<u8>, k: int)
    requires
        bl.len() <= 0x7000,
        0x7000 < app.len() <= 0xF000_0000,
        0 <= k <= block_count(app.len() as int),
    ensures
        active_blocks(uf2_image(combined_image(bl, app), FLASH_BASE), k) == if k <= boot_blocks() {
            Seq::<(u32, Seq<u8>)>::empty()
        } else {
            Seq::new(
                (k - boot_blocks()) as nat,
                |q: int| (((ACTIVE_START + 256 * q) as u32), block_payload(app.skip(0x7000), q)),
            )
        },
    decreases k,
{
    let data = combined_image(bl, app);
    let img = uf2_image(data, FLASH_BASE);
    if k > 0 {
        lemma_combined_active_blocks(bl, app, k - 1);
        let i = k - 1;
        assert(fits_address_space(data.len() as int, FLASH_BASE)) by (nonlinear_arith)
            requires
                data.len() <= 0xF000_0000,
        ;
        lemma_image_block_fields(data, FLASH_BASE, i);
        lemma_active_blocks_step(img, i);
        if k > boot_blocks() {
            lemma_combined_payload(bl, app, i);
            let prev = active_blocks(img, i);
            let entry = (
                ((ACTIVE_START + 256 * (i - boot_blocks())) as u32),
                block_payload(app.skip(0x7000), i - boot_blocks()),
            );
            assert(active_blocks(img, k) == prev.push(entry));
            assert(prev.push(entry) =~= Seq::new(
                (k - boot_blocks()) as nat,
                |q: int| (((ACTIVE_START + 256 * q) as u32), block_payload(app.skip(0x7000), q)),
            ));
        }
    }
}

/// The application read back from the combined UF2 image is the part of the
/// application image from the active partition on, zero-padded to whole
/// payloads: the bootloader blocks lie below the active partition and are
/// left out.
pub proof fn lemma_combined_roundtrip(bl: Seq<u8>, app: Seq<u8>)
    requires
        bl.len() <= 0x7000,
        0x7000 < app.len() <= 0xF000_0000,
    ensures
        active_image(uf2_image(combined_image(bl, app), FLASH_BASE)) == Ok::<Seq<u8>, Uf2Error>(
            padded_payloads(app.skip(0x7000)),
        ),
{
    let data = combined_image(bl, app);
    let act = app.skip(0x7000);
    let n = block_count(data.len() as int);
    let m = block_count(act.len() as int);
    let img = uf2_image(data, FLASH_BASE);
    assert(data.len() == app.len());
    assert(n == boot_blocks() + m && m >= 1);
    assert(img.len() / 512 == n) by (nonlinear_arith)
        requires
            img.len() == 512 * n,
            n >= 1,
    ;
    lemma_combined_active_blocks(bl, app, n);
    assert(fits_address_space(act.len() as int, ACTIVE_START));
    lemma_active_image_of_ascending(img, act, ACTIVE_START);
}

} // verus!
