use hypervisor_fw::block::{Error as BlockError, SectorRead};
use hypervisor_fw::part::{find_header, Error};

/// A disk of a few sectors held in memory.
struct FakeDisk {
    data: Vec<u8>,
}

impl SectorRead for FakeDisk {
    fn read(&self, sector: u64, data: &mut [u8]) -> Result<(), BlockError> {
        let start = sector as usize * 512;
        if start + 512 > self.data.len() {
            return Err(BlockError::BlockIOError);
        }
        data.copy_from_slice(&self.data[start..start + 512]);
        Ok(())
    }
}

/// A disk with a protective MBR and a GPT header at sector 1.
fn gpt_disk() -> FakeDisk {
    let mut data = vec![0u8; 34 * 512];
    data[510] = 0x55;
    data[511] = 0xaa;
    data[512..520].copy_from_slice(b"EFI PART");
    data[520..524].copy_from_slice(&0x0001_0000u32.to_le_bytes());
    data[524..528].copy_from_slice(&92u32.to_le_bytes());
    FakeDisk { data }
}

#[test]
fn test_find_part_header() {
    let d = gpt_disk();
    assert!(find_header(&d).is_ok(), "header should exist");
}

#[test]
fn part_header_missing() {
    let mut d = gpt_disk();
    d.data[512] = b'X';
    assert_eq!(find_header(&d), Err(Error::HeaderNotFound));
}

#[test]
fn part_header_unreadable() {
    let d = FakeDisk { data: vec![0u8; 512] };
    assert_eq!(find_header(&d), Err(Error::BlockError));
}
