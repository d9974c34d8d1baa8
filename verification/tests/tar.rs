use flate2::read::GzDecoder;
use std::io::Read;
use tallytail::tar::{
    create_compressed_data_backup, create_data_backup_archive, ArchiveEntry, append_file_to_tar, append_tar_directory, directory_entry_path, write_tar_checksum,
    write_tar_end, write_tar_header, write_tar_octal, write_tar_padding, write_tar_string, TarError,
};

fn tar_entry_names(tar_bytes: &[u8]) -> Vec<String> {
    let mut names = Vec::new();
    let mut offset = 0;
    while offset + 512 <= tar_bytes.len() {
        let header = &tar_bytes[offset..offset + 512];
        if header.iter().all(|byte| *byte == 0) {
            break;
        }
        let name_end = header[0..100].iter().position(|byte| *byte == 0).unwrap_or(100);
        names.push(String::from_utf8(header[0..name_end].to_vec()).unwrap());
        let size_end = header[124..136]
            .iter()
            .position(|byte| *byte == 0 || *byte == b' ')
            .unwrap_or(12);
        let size = u64::from_str_radix(
            std::str::from_utf8(&header[124..124 + size_end]).unwrap().trim(),
            8,
        )
        .unwrap();
        let padded_size = size.div_ceil(512) * 512;
        offset += 512 + padded_size as usize;
    }
    names
}

#[test]
fn writes_octal_fields() {
    let mut field = vec![0u8; 8];
    write_tar_octal(&mut field, 0o644);
    assert_eq!(field, b"0000644\0".to_vec());
    let mut field = vec![0u8; 12];
    write_tar_octal(&mut field, 1234);
    assert_eq!(field, b"00000002322\0".to_vec());
}

#[test]
fn writes_checksum_field() {
    let mut field = vec![b' '; 8];
    write_tar_checksum(&mut field, 4660);
    assert_eq!(field, b"011064\0 ".to_vec());
}

#[test]
fn writes_strings_into_fields() {
    let mut field = vec![0u8; 6];
    assert_eq!(write_tar_string(&mut field, "ustar"), Ok(()));
    assert_eq!(field, b"ustar\0".to_vec());
    let mut field = vec![7u8; 4];
    assert_eq!(write_tar_string(&mut field, "toolong"), Err(TarError::PathTooLong));
    assert_eq!(field, vec![7u8; 4]);
    assert_eq!(TarError::PathTooLong.message(), "Backup archive path is too long");
}

#[test]
fn header_has_a_valid_checksum() {
    let mut out = Vec::new();
    write_tar_header(&mut out, "assets.sdb", 5, b'0').unwrap();
    assert_eq!(out.len(), 512);
    assert_eq!(&out[0..10], b"assets.sdb");
    assert!(out[10..100].iter().all(|b| *b == 0));
    assert_eq!(&out[124..136], b"00000000005\0");
    assert_eq!(out[156], b'0');
    assert_eq!(&out[257..265], b"ustar\x0000");
    let mut summed = out.clone();
    summed[148..156].copy_from_slice(b"        ");
    let sum: u32 = summed.iter().map(|b| u32::from(*b)).sum();
    let stored = u32::from_str_radix(std::str::from_utf8(&out[148..154]).unwrap(), 8).unwrap();
    assert_eq!(stored, sum);
    assert_eq!(&out[154..156], b"\0 ");
}

#[test]
fn rejects_too_long_entry_names() {
    let mut out = vec![1u8, 2, 3];
    let long = "x".repeat(101);
    assert_eq!(write_tar_header(&mut out, &long, 0, b'0'), Err(TarError::PathTooLong));
    assert_eq!(out, vec![1u8, 2, 3]);
    let exact = "y".repeat(100);
    assert_eq!(write_tar_header(&mut out, &exact, 0, b'0'), Ok(()));
    assert_eq!(out.len(), 3 + 512);
}

#[test]
fn pads_to_whole_blocks() {
    for (size, expected) in [(0u64, 0usize), (1, 511), (511, 1), (512, 0), (513, 511)] {
        let mut out = Vec::new();
        write_tar_padding(&mut out, size);
        assert_eq!(out.len(), expected);
        assert!(out.iter().all(|b| *b == 0));
    }
    let mut out = Vec::new();
    write_tar_end(&mut out);
    assert_eq!(out, vec![0u8; 1024]);
}

#[test]
fn directory_entries_end_in_one_slash() {
    assert_eq!(directory_entry_path("allocation_records"), "allocation_records/");
    assert_eq!(directory_entry_path("allocation_records///"), "allocation_records/");
    let mut out = Vec::new();
    append_tar_directory(&mut out, "allocation_records").unwrap();
    assert_eq!(&out[0..19], b"allocation_records/");
    assert_eq!(out[156], b'5');
}

#[test]
fn archive_lists_its_entries() {
    let mut out = Vec::new();
    append_file_to_tar(&mut out, "assets.sdb", &b"assets".to_vec()).unwrap();
    append_file_to_tar(&mut out, "transactions.sdb", &vec![9u8; 700]).unwrap();
    append_tar_directory(&mut out, "allocation_records").unwrap();
    append_file_to_tar(&mut out, "allocation_records/record.ron", &b"record".to_vec()).unwrap();
    write_tar_end(&mut out);
    assert_eq!(out.len() % 512, 0);
    assert_eq!(
        tar_entry_names(&out),
        vec!["assets.sdb", "transactions.sdb", "allocation_records/", "allocation_records/record.ron"]
    );
}

fn tar_entry_names_from_gzip(gzip_bytes: &[u8]) -> Vec<String> {
    let mut tar_bytes = Vec::new();
    GzDecoder::new(gzip_bytes).read_to_end(&mut tar_bytes).unwrap();
    tar_entry_names(&tar_bytes)
}

#[test]
fn creates_data_backup_with_only_restore_root_entries() {
    let records = vec![ArchiveEntry { path: "record.ron".to_string(), data: Some(b"record".to_vec()) }];
    let archive = create_compressed_data_backup(&b"assets".to_vec(), &b"transactions".to_vec(), &records).unwrap();
    let entry_names = tar_entry_names_from_gzip(&archive);

    assert!(entry_names.contains(&"assets.sdb".to_string()));
    assert!(entry_names.contains(&"transactions.sdb".to_string()));
    assert!(entry_names.contains(&"allocation_records/".to_string()));
    assert!(entry_names.contains(&"allocation_records/record.ron".to_string()));
    assert!(!entry_names.iter().any(|name| name.starts_with("data/")));
}

#[test]
fn backup_archive_lists_nested_records_in_order_and_ends_with_two_zero_blocks() {
    let records = vec![
        ArchiveEntry { path: "2026".to_string(), data: None },
        ArchiveEntry { path: "2026/a.ron".to_string(), data: Some(vec![1; 600]) },
        ArchiveEntry { path: "b.ron".to_string(), data: Some(Vec::new()) },
    ];
    let archive = create_data_backup_archive(&vec![7; 10], &Vec::new(), &records).unwrap();
    assert_eq!(
        tar_entry_names(&archive),
        vec!["assets.sdb", "transactions.sdb", "allocation_records/", "allocation_records/2026/", "allocation_records/2026/a.ron", "allocation_records/b.ron"]
    );
    assert_eq!(archive.len() % 512, 0);
    assert!(archive[archive.len() - 1024..].iter().all(|b| *b == 0));
    let too_long = vec![ArchiveEntry { path: "x".repeat(90), data: None }];
    assert_eq!(create_data_backup_archive(&Vec::new(), &Vec::new(), &too_long).err(), Some(TarError::PathTooLong));
}

#[test]
fn compressed_backup_unpacks_to_the_archive() {
    let records = vec![ArchiveEntry { path: "2026-07-06.ron".to_string(), data: Some(b"(format_version: 1)".to_vec()) }];
    let compressed = create_compressed_data_backup(&vec![1; 700], &vec![2; 30], &records).unwrap();
    assert_eq!(&compressed[..2], &[0x1f, 0x8b]);
    let mut unpacked = Vec::new();
    GzDecoder::new(compressed.as_slice()).read_to_end(&mut unpacked).unwrap();
    assert_eq!(unpacked, create_data_backup_archive(&vec![1; 700], &vec![2; 30], &records).unwrap());
    let too_long = vec![ArchiveEntry { path: "x".repeat(90), data: None }];
    assert_eq!(create_compressed_data_backup(&Vec::new(), &Vec::new(), &too_long).err(), Some(TarError::PathTooLong));
}
