//! Flattening the loadable segments of a 32-bit little-endian ELF file into
//! a flash image.

use vstd::prelude::*;
use crate::bytes::{le_u16, le_u32, read_le_u16, read_le_u32};

verus! {

/// Why an ELF file could not be flattened.
#[derive(Debug, PartialEq, Eq, Structural)]
pub enum ElfError {
    /// Shorter than an ELF header, or the magic `\x7fELF` is missing.
    NotElf,
    /// A loadable segment at this physical address reaches past the end of the file.
    SegmentPastEnd(u32),
    /// No segment is loadable at or above the base address.
    NoLoadableSegments,
}

/// A segment to place in the image: its offset from the base address and its bytes.
pub type ImageSegment = (int, Seq<u8>);

/// The file starts with a complete ELF header carrying the ELF magic.
pub open spec fn has_elf_header(elf: Seq<u8>) -> bool {
    &&& elf.len() >= 0x34
    &&& elf[0] == 0x7f
    &&& elf[1] == 0x45
    &&& elf[2] == 0x4c
    &&& elf[3] == 0x46
}

/// Number of program headers (`e_phnum`).
pub open spec fn ph_count(elf: Seq<u8>) -> int {
    le_u16(elf, 0x2c)
}

/// File offset of program header `i` (`e_phoff + 32 * i`).
pub open spec fn ph_start(elf: Seq<u8>, i: int) -> int {
    le_u32(elf, 0x1c) + 32 * i
}

/// The segments taken from program headers `i`, `i + 1`, ... in order: a
/// `PT_LOAD` header with a physical address at or above `base` and a non-empty
/// file image yields one segment. The scan stops at the last header or at the
/// first header that does not lie wholly inside the file.
pub open spec fn load_segments_from(elf: Seq<u8>, base: u32, i: int) -> Result<Seq<ImageSegment>, ElfError>
    decreases ph_count(elf) - i,
{
    let ph = ph_start(elf, i);
    if i < 0 || i >= ph_count(elf) || ph + 32 > elf.len() {
        Ok(Seq::empty())
    } else {
        let p_type = le_u32(elf, ph);
        let p_offset = le_u32(elf, ph + 4);
        let p_paddr = le_u32(elf, ph + 12);
        let p_filesz = le_u32(elf, ph + 16);
        if p_type != 1 || p_paddr < base || p_filesz == 0 {
            load_segments_from(elf, base, i + 1)
        } else if p_offset + p_filesz > elf.len() {
            Err(ElfError::SegmentPastEnd(p_paddr as u32))
        } else {
            match load_segments_from(elf, base, i + 1) {
                Ok(rest) => Ok(
                    seq![(p_paddr - base, elf.subrange(p_offset, p_offset + p_filesz))] + rest,
                ),
                Err(e) => Err(e),
            }
        }
    }
}

/// One past the highest image offset that any of the segments covers.
pub open spec fn image_extent(segs: Seq<ImageSegment>) -> int
    decreases segs.len(),
{
    if segs.len() == 0 {
        0
    } else {
        let last = segs.last();
        let rest = image_extent(segs.drop_last());
        if last.0 + last.1.len() > rest {
            last.0 + last.1.len()
        } else {
            rest
        }
    }
}

/// The byte at offset `j` after writing the segments in order over an erased
/// (`0xFF`) image: the last segment that covers `j` wins.
pub open spec fn painted_byte(segs: Seq<ImageSegment>, j: int) -> u8
    decreases segs.len(),
{
    if segs.len() == 0 {
        0xFF
    } else {
        let last = segs.last();
        if last.0 <= j < last.0 + last.1.len() {
            last.1[j - last.0]
        } else {
            painted_byte(segs.drop_last(), j)
        }
    }
}

/// The flat image of an ELF file relative to `base`.
pub open spec fn elf_image(elf: Seq<u8>, base: u32) -> Result<Seq<u8>, ElfError> {
    if !has_elf_header(elf) {
        Err(ElfError::NotElf)
    } else {
        match load_segments_from(elf, base, 0) {
            Err(e) => Err(e),
            Ok(segs) => if segs.len() == 0 {
                Err(ElfError::NoLoadableSegments)
            } else {
                Ok(Seq::new(image_extent(segs) as nat, |j: int| painted_byte(segs, j)))
            },
        }
    }
}

/// A loadable segment found in the file: where it goes in the image, and
/// where its bytes lie in the file.
struct Segment {
    offset: u64,
    start: usize,
    len: usize,
}

spec fn segment_view(elf: Seq<u8>, s: Segment) -> ImageSegment {
    (s.offset as int, elf.subrange(s.start as int, s.start + s.len))
}

spec fn segments_view(elf: Seq<u8>, segs: Seq<Segment>) -> Seq<ImageSegment> {
    Seq::new(segs.len(), |k: int| segment_view(elf, segs[k]))
}

proof fn lemma_extent_bounds(segs: Seq<ImageSegment>)
    ensures
        image_extent(segs) >= 0,
        forall|k: int| 0 <= k < segs.len() ==> #[trigger] segs[k].0 + segs[k].1.len() <= image_extent(segs),
    decreases segs.len(),
{
    if segs.len() > 0 {
        lemma_extent_bounds(segs.drop_last());
        assert forall|k: int| 0 <= k < segs.len() implies #[trigger] segs[k].0 + segs[k].1.len() <= image_extent(segs) by {
            if k < segs.len() - 1 {
                assert(segs.drop_last()[k] == segs[k]);
            }
        }
    }
}

/// Flattens the loadable segments of an ELF file into a binary image relative
/// to `base_addr`: a segment at physical address `p` lands at offset
/// `p - base_addr`, later segments overwrite earlier ones where they overlap,
/// and bytes that no segment covers are `0xFF`.
pub fn elf_to_binary(elf: &[u8], base_addr: u32) -> (r: Result<Vec<u8>, ElfError>)
    requires
        elf_image(elf@, base_addr) matches Ok(img) ==> img.len() <= usize::MAX,
    ensures
        match r {
            Ok(bin) => elf_image(elf@, base_addr) == Ok::<Seq<u8>, ElfError>(bin@),
            Err(e) => elf_image(elf@, base_addr) == Err::<Seq<u8>, ElfError>(e),
        },
{
    if elf.len() < 0x34 || elf[0] != 0x7f || elf[1] != 0x45 || elf[2] != 0x4c || elf[3] != 0x46 {
        return Err(ElfError::NotElf);
    }
    let e_phoff = read_le_u32(elf, 0x1c) as u64;
    let e_phnum = read_le_u16(elf, 0x2c) as u64;
    let len = elf.len() as u64;

    let mut segments: Vec<Segment> = Vec::new();
    let mut max_extent: u64 = 0;
    let mut i: u64 = 0;
    let ghost whole = elf@;

    while i < e_phnum
        invariant_except_break
            i <= e_phnum,
        invariant
            whole == elf@,
            has_elf_header(elf@),
            e_phoff == le_u32(elf@, 0x1c),
            e_phnum == ph_count(elf@),
            len == elf@.len(),
            max_extent == image_extent(segments_view(elf@, segments@)),
            forall|k: int| 0 <= k < segments@.len() ==> #[trigger] segments@[k].start + segments@[k].len <= elf@.len(),
            load_segments_from(elf@, base_addr, 0) == match load_segments_from(elf@, base_addr, i as int) {
                Ok(rest) => Ok::<Seq<ImageSegment>, ElfError>(segments_view(elf@, segments@) + rest),
                Err(e) => Err::<Seq<ImageSegment>, ElfError>(e),
            },
        ensures
            load_segments_from(elf@, base_addr, i as int) == Ok::<Seq<ImageSegment>, ElfError>(Seq::<ImageSegment>::empty()),
        decreases e_phnum - i,
    {
        let ph = e_phoff + i * 32;
        if ph + 32 > len {
            assert(load_segments_from(elf@, base_addr, i as int) == Ok::<Seq<ImageSegment>, ElfError>(Seq::<ImageSegment>::empty()));
            break;
        }
        let ph = ph as usize;
        assert(ph + 32 <= elf.len());
        let p_type = read_le_u32(elf, ph);
        let p_offset = read_le_u32(elf, ph + 4) as u64;
        let p_paddr = read_le_u32(elf, ph + 12);
        let p_filesz = read_le_u32(elf, ph + 16) as u64;
        if p_type != 1 || p_paddr < base_addr || p_filesz == 0 {
            i = i + 1;
            continue;
        }
        let off = (p_paddr - base_addr) as u64;
        let end = p_offset + p_filesz;
        if end > len {
            return Err(ElfError::SegmentPastEnd(p_paddr));
        }
        let ghost old_segs = segments@;
        let seg = Segment { offset: off, start: p_offset as usize, len: p_filesz as usize };
        segments.push(seg);
        proof {
            let sv_old = segments_view(elf@, old_segs);
            let sv_new = segments_view(elf@, segments@);
            assert(sv_new.drop_last() =~= sv_old);
            assert(sv_new.last() == segment_view(elf@, seg));
            let rest_next = load_segments_from(elf@, base_addr, i + 1);
            if let Ok(rest) = rest_next {
                assert(sv_old + (seq![segment_view(elf@, seg)] + rest) =~= sv_new + rest);
            }
        }
        let reach = off + p_filesz;
        if reach > max_extent {
            max_extent = reach;
        }
        i = i + 1;
    }

    if segments.len() == 0 {
        return Err(ElfError::NoLoadableSegments);
    }
    proof {
        assert(segments_view(elf@, segments@) + Seq::<ImageSegment>::empty() =~= segments_view(elf@, segments@));
    }

    let ghost segs = segments_view(elf@, segments@);
    proof {
        lemma_extent_bounds(segs);
        assert(elf_image(elf@, base_addr) == Ok::<Seq<u8>, ElfError>(
            Seq::new(image_extent(segs) as nat, |x: int| painted_byte(segs, x)),
        ));
    }
    let max_extent = max_extent as usize;
    let mut bin: Vec<u8> = Vec::new();
    let mut j: usize = 0;
    while j < max_extent
        invariant
            j <= max_extent,
            bin@.len() == j,
            forall|t: int| 0 <= t < j ==> #[trigger] bin@[t] == 0xFF,
        decreases max_extent - j,
    {
        bin.push(0xFF);
        j = j + 1;
    }

    let mut k: usize = 0;
    while k < segments.len()
        invariant
            k <= segments@.len(),
            segs == segments_view(elf@, segments@),
            max_extent == image_extent(segs),
            bin@.len() == max_extent,
            forall|q: int| 0 <= q < segments@.len() ==> #[trigger] segments@[q].start + segments@[q].len <= elf@.len(),
            forall|q: int| 0 <= q < segs.len() ==> #[trigger] segs[q].0 + segs[q].1.len() <= image_extent(segs),
            forall|t: int| 0 <= t < max_extent ==> #[trigger] bin@[t] == painted_byte(segs.take(k as int), t),
        decreases segments@.len() - k,
    {
        let off = segments[k].offset as usize;
        let start = segments[k].start;
        let n = segments[k].len;
        assert(segs[k as int].0 + segs[k as int].1.len() <= image_extent(segs));
        let mut t: usize = 0;
        while t < n
            invariant
                t <= n,
                k < segments@.len(),
                off as int == segments@[k as int].offset,
                start == segments@[k as int].start,
                n == segments@[k as int].len,
                start + n <= elf.len(),
                off + n <= max_extent,
                bin@.len() == max_extent,
                forall|x: int| 0 <= x < max_extent ==> #[trigger] bin@[x] == if off <= x < off + t {
                    elf@[start + (x - off)]
                } else {
                    painted_byte(segs.take(k as int), x)
                },
            decreases n - t,
        {
            bin.set(off + t, elf[start + t]);
            t = t + 1;
        }
        proof {
            let taken = segs.take(k + 1);
            assert(taken.drop_last() =~= segs.take(k as int));
            assert(taken.last() == segs[k as int]);
            assert forall|x: int| 0 <= x < max_extent implies #[trigger] bin@[x] == painted_byte(segs.take(k + 1), x) by {
                if off <= x < off + n {
                    assert(segs[k as int].1[x - off] == elf@[start + (x - off)]);
                }
            }
        }
        k = k + 1;
    }
    proof {
        assert(segs.take(segments@.len() as int) =~= segs);
        assert(bin@ =~= Seq::new(image_extent(segs) as nat, |x: int| painted_byte(segs, x)));
    }
    Ok(bin)
}

/// A file with a single program header describing a loadable segment
/// (`PT_LOAD`, physical address at or above `base`, non-empty file image
/// inside the file) flattens to that segment alone: `0xFF` up to
/// `p_paddr - base`, then exactly its `p_filesz` file bytes from
/// `p_offset`; the header's other fields, `p_memsz` among them, play no
/// part.
pub proof fn lemma_single_segment_image(elf: Seq<u8>, base: u32)
    requires
        has_elf_header(elf),
        le_u16(elf, 0x2c) == 1,
        le_u32(elf, 0x1c) + 32 <= elf.len(),
        le_u32(elf, le_u32(elf, 0x1c)) == 1,
        le_u32(elf, le_u32(elf, 0x1c) + 12) >= base,
        le_u32(elf, le_u32(elf, 0x1c) + 16) > 0,
        le_u32(elf, le_u32(elf, 0x1c) + 4) + le_u32(elf, le_u32(elf, 0x1c) + 16) <= elf.len(),
    ensures
        ({
            let ph = le_u32(elf, 0x1c);
            let p_offset = le_u32(elf, ph + 4);
            let at = le_u32(elf, ph + 12) - base;
            let p_filesz = le_u32(elf, ph + 16);
            elf_image(elf, base) == Ok::<Seq<u8>, ElfError>(
                Seq::new(
                    (at + p_filesz) as nat,
                    |j: int| if j < at { 0xFFu8 } else { elf[p_offset + (j - at)] },
                ),
            )
        }),
{
    let ph = le_u32(elf, 0x1c);
    let p_offset = le_u32(elf, ph + 4);
    let at = le_u32(elf, ph + 12) - base;
    let p_filesz = le_u32(elf, ph + 16);
    assert(ph_start(elf, 0) == ph);
    assert(load_segments_from(elf, base, 1) == Ok::<Seq<ImageSegment>, ElfError>(Seq::empty()));
    let seg = (at, elf.subrange(p_offset, p_offset + p_filesz));
    assert(load_segments_from(elf, base, 0) == Ok::<Seq<ImageSegment>, ElfError>(seq![seg] + Seq::empty()));
    let segs = seq![seg] + Seq::<ImageSegment>::empty();
    assert(segs.drop_last() =~= Seq::<ImageSegment>::empty());
    assert(segs.last() == seg);
    assert(seg.1.len() == p_filesz);
    assert(image_extent(Seq::<ImageSegment>::empty()) == 0);
    assert(image_extent(segs) == at + p_filesz);
    let img = Seq::new(image_extent(segs) as nat, |j: int| painted_byte(segs, j));
    assert forall|j: int| 0 <= j < at + p_filesz implies #[trigger] painted_byte(segs, j) == (if j < at {
        0xFFu8
    } else {
        elf[p_offset + (j - at)]
    }) by {
        assert(painted_byte(Seq::<ImageSegment>::empty(), j) == 0xFF);
        if j >= at {
            assert(seg.1[j - at] == elf[p_offset + (j - at)]);
        }
    }
    assert(img =~= Seq::new(
        (at + p_filesz) as nat,
        |j: int| if j < at { 0xFFu8 } else { elf[p_offset + (j - at)] },
    ));
}

} // verus!
