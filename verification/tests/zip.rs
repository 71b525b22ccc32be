use xteink::zip::{EpubArchive, Error, MemorySource};

#[test]
fn an_empty_zip_parses_with_no_entries() {
    let mut eocd = vec![0x50u8, 0x4B, 0x05, 0x06];
    eocd.extend_from_slice(&[0u8; 18]);
    let mut archive = EpubArchive::<4, 64>::new();
    assert!(archive.parse(&MemorySource::new(&eocd)).is_ok());
    assert_eq!(archive.len(), 0);
    assert_eq!(archive.central_directory_size(), 0);
}

#[test]
fn a_short_non_zip_payload_has_no_trailer() {
    let data = [0x50u8, 0x4B, 0x03];
    let mut archive = EpubArchive::<4, 64>::new();
    assert!(matches!(archive.parse(&MemorySource::new(&data)), Err(Error::EocdNotFound)));
    assert_eq!(archive.len(), 0);
}
