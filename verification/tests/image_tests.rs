use cropduster::elf::{elf_to_binary, ElfError};
use cropduster::uf2::{
    binary_to_uf2, combine, uf2_to_active_binary, CombineError, Uf2Error, APP_FLASH_OFFSET,
    FLASH_BASE, RP2040_FAMILY_ID, UF2_MAGIC0, UF2_MAGIC1, UF2_MAGIC_END,
};

fn le32(b: &[u8], at: usize) -> u32 {
    u32::from_le_bytes([b[at], b[at + 1], b[at + 2], b[at + 3]])
}

/// A minimal 32-bit ELF: header, `phnum` program headers at 0x34, then data.
fn elf_with(headers: &[(u32, u32, u32, u32)], data: &[u8]) -> Vec<u8> {
    let phoff: u32 = 0x34;
    let mut elf = vec![0u8; 0x34];
    elf[0..4].copy_from_slice(b"\x7fELF");
    elf[0x1c..0x20].copy_from_slice(&phoff.to_le_bytes());
    elf[0x2c..0x2e].copy_from_slice(&(headers.len() as u16).to_le_bytes());
    for &(p_type, p_offset, p_paddr, p_filesz) in headers {
        let mut ph = [0u8; 32];
        ph[0..4].copy_from_slice(&p_type.to_le_bytes());
        ph[4..8].copy_from_slice(&p_offset.to_le_bytes());
        ph[12..16].copy_from_slice(&p_paddr.to_le_bytes());
        ph[16..20].copy_from_slice(&p_filesz.to_le_bytes());
        elf.extend_from_slice(&ph);
    }
    elf.extend_from_slice(data);
    elf
}

#[test]
fn elf_segments_are_placed_relative_to_base() {
    // data starts at 0x34 + 3 * 32 = 0x94
    let data = [1u8, 2, 3, 4, 5, 6];
    let elf = elf_with(
        &[
            (1, 0x94, 0x1000_0004, 2), // bytes 1,2 at offset 4
            (2, 0x96, 0x1000_0000, 2), // not PT_LOAD: ignored
            (1, 0x98, 0x1000_0000, 2), // bytes 5,6 at offset 0
        ],
        &data,
    );
    let bin = elf_to_binary(&elf, 0x1000_0000).unwrap();
    assert_eq!(bin, vec![5, 6, 0xFF, 0xFF, 1, 2]);
}

#[test]
fn elf_later_segment_overwrites_earlier() {
    let data = [0xAAu8, 0xBB, 0xCC];
    let elf = elf_with(&[(1, 0x74, 0x2000, 3), (1, 0x76, 0x2001, 1)], &data);
    assert_eq!(elf_to_binary(&elf, 0x2000).unwrap(), vec![0xAA, 0xCC, 0xCC]);
}

#[test]
fn elf_skips_segments_below_base_and_empty_ones() {
    let data = [7u8, 8];
    let elf = elf_with(&[(1, 0x94, 0x0FFF_FFFF, 1), (1, 0x94, 0x1000_0000, 0), (1, 0x95, 0x1000_0001, 1)], &data);
    assert_eq!(elf_to_binary(&elf, 0x1000_0000).unwrap(), vec![0xFF, 8]);
}

#[test]
fn elf_rejects_bad_magic_and_short_files() {
    assert_eq!(elf_to_binary(&[0u8; 0x40], 0), Err(ElfError::NotElf));
    assert_eq!(elf_to_binary(b"\x7fELF", 0), Err(ElfError::NotElf));
}

#[test]
fn elf_rejects_segment_past_end() {
    let elf = elf_with(&[(1, 0x54, 0x1000_0000, 100)], &[1, 2, 3]);
    assert_eq!(elf_to_binary(&elf, 0x1000_0000), Err(ElfError::SegmentPastEnd(0x1000_0000)));
}

#[test]
fn elf_without_loadable_segments_is_refused() {
    let elf = elf_with(&[(2, 0x54, 0x1000_0000, 1)], &[1]);
    assert_eq!(elf_to_binary(&elf, 0x1000_0000), Err(ElfError::NoLoadableSegments));
}

#[test]
fn elf_stops_at_header_outside_the_file() {
    // phnum claims 3 headers but only one fits; the one that fits is used
    let mut elf = elf_with(&[(1, 0x54, 0x3000, 1)], &[9]);
    elf[0x2c] = 3;
    assert_eq!(elf_to_binary(&elf, 0x3000).unwrap(), vec![9]);
}

#[test]
fn uf2_blocks_have_rp2040_headers() {
    let data: Vec<u8> = (0..300u32).map(|i| i as u8).collect();
    let uf2 = binary_to_uf2(&data, 0x1000_7000);
    assert_eq!(uf2.len(), 1024);
    for (i, block) in uf2.chunks(512).enumerate() {
        assert_eq!(le32(block, 0), UF2_MAGIC0);
        assert_eq!(le32(block, 4), UF2_MAGIC1);
        assert_eq!(le32(block, 8), 0x2000);
        assert_eq!(le32(block, 12), 0x1000_7000 + 256 * i as u32);
        assert_eq!(le32(block, 16), 256);
        assert_eq!(le32(block, 20), i as u32);
        assert_eq!(le32(block, 24), 2);
        assert_eq!(le32(block, 28), RP2040_FAMILY_ID);
        assert_eq!(le32(block, 508), UF2_MAGIC_END);
        assert!(block[288..508].iter().all(|&b| b == 0));
    }
    assert_eq!(&uf2[32..288], &data[..256]);
    assert_eq!(&uf2[512 + 32..512 + 32 + 44], &data[256..]);
    assert!(uf2[512 + 32 + 44..512 + 288].iter().all(|&b| b == 0));
}

#[test]
fn uf2_of_empty_binary_is_empty() {
    assert!(binary_to_uf2(&[], FLASH_BASE).is_empty());
}

#[test]
fn uf2_roundtrip_pads_last_payload() {
    let data: Vec<u8> = (0..600u32).map(|i| (i * 7) as u8).collect();
    let uf2 = binary_to_uf2(&data, 0x1000_7000);
    let back = uf2_to_active_binary(&uf2).unwrap();
    assert_eq!(back.len(), 768);
    assert_eq!(&back[..600], &data[..]);
    assert!(back[600..].iter().all(|&b| b == 0));
}

#[test]
fn uf2_reader_skips_boot_blocks_and_sorts_by_address() {
    let boot = binary_to_uf2(&[0x11u8; 256], FLASH_BASE);
    let high = binary_to_uf2(&[0x22u8; 256], 0x1000_7200);
    let low = binary_to_uf2(&[0x33u8; 256], 0x1000_7000);
    let mut file = Vec::new();
    file.extend_from_slice(&boot);
    file.extend_from_slice(&high);
    file.extend_from_slice(&low);
    file.extend_from_slice(&[0u8; 100]); // trailing partial block is ignored
    let bin = uf2_to_active_binary(&file).unwrap();
    assert_eq!(bin.len(), 0x300);
    assert!(bin[..256].iter().all(|&b| b == 0x33));
    assert!(bin[256..512].iter().all(|&b| b == 0xFF));
    assert!(bin[512..].iter().all(|&b| b == 0x22));
}

#[test]
fn uf2_overlapping_blocks_higher_address_wins() {
    let a = binary_to_uf2(&[0xAAu8; 256], 0x1000_7080);
    let b = binary_to_uf2(&[0xBBu8; 256], 0x1000_7000);
    let mut file = a.clone();
    file.extend_from_slice(&b);
    let bin = uf2_to_active_binary(&file).unwrap();
    assert_eq!(bin.len(), 0x180);
    assert!(bin[..0x80].iter().all(|&x| x == 0xBB));
    assert!(bin[0x80..].iter().all(|&x| x == 0xAA));
}

#[test]
fn uf2_equal_addresses_later_block_wins() {
    let mut file = binary_to_uf2(&[1u8; 256], 0x1000_8000);
    file.extend_from_slice(&binary_to_uf2(&[2u8; 256], 0x1000_8000));
    assert_eq!(uf2_to_active_binary(&file).unwrap(), vec![2u8; 256]);
}

#[test]
fn uf2_without_active_blocks_is_refused() {
    let boot = binary_to_uf2(&[0x11u8; 512], FLASH_BASE);
    assert_eq!(uf2_to_active_binary(&boot), Err(Uf2Error::NoActiveBlocks));
    let mut bad = binary_to_uf2(&[1u8; 256], 0x1000_7000);
    bad[0] ^= 1;
    assert_eq!(uf2_to_active_binary(&bad), Err(Uf2Error::NoActiveBlocks));
}

#[test]
fn combine_places_application_at_its_own_offset() {
    let bl = [0x55u8; 10];
    // Application image relative to the flash base: boot code at 0, the
    // application proper from the active partition on.
    let mut app = vec![0xFFu8; APP_FLASH_OFFSET + 300];
    app[..256].copy_from_slice(&[0x11u8; 256]);
    for b in &mut app[APP_FLASH_OFFSET..] {
        *b = 0x66;
    }
    let uf2 = combine(&bl, &app).unwrap();
    let blocks = (APP_FLASH_OFFSET + 300 + 255) / 256;
    assert_eq!(uf2.len(), blocks * 512);
    let mut flat = Vec::new();
    for block in uf2.chunks(512) {
        flat.extend_from_slice(&block[32..288]);
    }
    assert_eq!(&flat[..10], &bl);
    assert!(flat[10..APP_FLASH_OFFSET].iter().all(|&b| b == 0xFF));
    assert!(flat[APP_FLASH_OFFSET..APP_FLASH_OFFSET + 300].iter().all(|&b| b == 0x66));
    assert_eq!(le32(&uf2, 12), FLASH_BASE);
}

#[test]
fn single_byte_at_active_start_lands_at_its_offset() {
    let mut app = vec![0xFFu8; APP_FLASH_OFFSET + 1];
    app[APP_FLASH_OFFSET] = 0x42;
    let uf2 = combine(&[0u8; 4], &app).unwrap();
    let block = APP_FLASH_OFFSET / 256;
    assert_eq!(uf2[block * 512 + 32], 0x42);
    assert_eq!(le32(&uf2, block * 512 + 12), FLASH_BASE + APP_FLASH_OFFSET as u32);
    assert_eq!(uf2.len() / 512, block + 1);
}

#[test]
fn combine_with_no_application_bytes_is_the_bootloader_region() {
    let uf2 = combine(&[7u8; 3], &[1u8; 5]).unwrap();
    assert_eq!(uf2.len(), (APP_FLASH_OFFSET / 256) * 512);
    assert_eq!(&uf2[32..36], &[7, 7, 7, 0xFF]);
}

#[test]
fn combine_refuses_oversized_bootloader() {
    let bl = vec![0u8; APP_FLASH_OFFSET + 1];
    assert_eq!(combine(&bl, &[1]), Err(CombineError::BootloaderTooLarge(APP_FLASH_OFFSET + 1)));
    assert!(combine(&vec![0u8; APP_FLASH_OFFSET], &[1]).is_ok());
}

#[test]
fn application_read_back_from_combined_image() {
    let bl = [0x55u8; 0x6FFF];
    let mut app = vec![0xAAu8; APP_FLASH_OFFSET];
    app.extend((0..700u32).map(|i| (i * 7 % 251) as u8));
    let uf2 = combine(&bl, &app).unwrap();
    let back = uf2_to_active_binary(&uf2).unwrap();
    assert_eq!(back.len(), 768);
    assert_eq!(&back[..700], &app[APP_FLASH_OFFSET..]);
    assert!(back[700..].iter().all(|&b| b == 0));
}
