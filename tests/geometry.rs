use thanatology::geometry::{
    byte_window, filesystem_kind, prepare_partition, ByteWindow, FsKind, GeometryError,
    PartitionDescriptor, PartitionError, PartitionLayout, Target, MBR_LINUX, MBR_LVM,
};

const LINUX_GUID: [u8; 16] = [
    0xaf, 0x3d, 0xc6, 0x0f, 0x83, 0x84, 0x72, 0x47, 0x8e, 0x79, 0x3d, 0x69, 0xd8, 0x47, 0x7d, 0xe4,
];
const LVM_GUID: [u8; 16] = [
    0x79, 0xd3, 0xd6, 0xe6, 0x07, 0xf5, 0xc2, 0x44, 0xa2, 0x3c, 0x23, 0x8f, 0x2a, 0x3d, 0xf9, 0x28,
];

fn mbr(first_byte_addr: u64, size_sectors: u64, partition_type: u8) -> PartitionLayout {
    PartitionLayout::Mbr { first_byte_addr, size_sectors, partition_type }
}

fn gpt(starting_lba: u64, ending_lba: u64, type_guid: [u8; 16]) -> PartitionLayout {
    PartitionLayout::Gpt { starting_lba, ending_lba, type_guid }
}

#[test]
fn mbr_window_is_sectors_times_sector_size() {
    let w = byte_window(&mbr(1048576, 204800, MBR_LINUX), 512);
    assert_eq!(w, Ok(ByteWindow { first_byte_addr: 1048576, size: 104857600 }));
}

#[test]
fn mbr_window_with_4k_sectors() {
    let w = byte_window(&mbr(4096, 3, MBR_LINUX), 4096);
    assert_eq!(w, Ok(ByteWindow { first_byte_addr: 4096, size: 12288 }));
}

#[test]
fn mbr_size_overflow_is_an_error() {
    let w = byte_window(&mbr(512, u64::MAX / 256, MBR_LINUX), 512);
    assert_eq!(w, Err(GeometryError::Overflow));
}

#[test]
fn mbr_largest_size_that_fits() {
    let w = byte_window(&mbr(0, u64::MAX / 512, MBR_LINUX), 512);
    assert_eq!(w, Ok(ByteWindow { first_byte_addr: 0, size: (u64::MAX / 512) * 512 }));
}

#[test]
fn gpt_window_counts_both_ends() {
    let w = byte_window(&gpt(2048, 206847, LINUX_GUID), 512);
    assert_eq!(w, Ok(ByteWindow { first_byte_addr: 1048576, size: 104857600 }));
}

#[test]
fn gpt_single_block() {
    let w = byte_window(&gpt(34, 34, LINUX_GUID), 512);
    assert_eq!(w, Ok(ByteWindow { first_byte_addr: 17408, size: 512 }));
}

#[test]
fn gpt_inverted_range_is_an_error() {
    let w = byte_window(&gpt(100, 99, LINUX_GUID), 512);
    assert_eq!(w, Err(GeometryError::InvertedRange));
}

#[test]
fn gpt_block_count_overflow_is_an_error() {
    let w = byte_window(&gpt(0, u64::MAX, LINUX_GUID), 1);
    assert_eq!(w, Err(GeometryError::Overflow));
}

#[test]
fn gpt_start_overflow_is_an_error() {
    let start = u64::MAX / 256;
    let w = byte_window(&gpt(start, start, LINUX_GUID), 512);
    assert_eq!(w, Err(GeometryError::Overflow));
}

#[test]
fn gpt_size_overflow_is_an_error() {
    let w = byte_window(&gpt(1, u64::MAX / 256, LINUX_GUID), 512);
    assert_eq!(w, Err(GeometryError::Overflow));
}

#[test]
fn dos_types_select_parsers() {
    assert_eq!(filesystem_kind(&mbr(0, 1, MBR_LINUX)), Some(FsKind::LinuxNative));
    assert_eq!(filesystem_kind(&mbr(0, 1, MBR_LVM)), Some(FsKind::LogicalVolume));
    assert_eq!(filesystem_kind(&mbr(0, 1, 0x07)), None);
    assert_eq!(filesystem_kind(&mbr(0, 1, 0x00)), None);
}

#[test]
fn gpt_types_select_parsers() {
    assert_eq!(filesystem_kind(&gpt(1, 2, LINUX_GUID)), Some(FsKind::LinuxNative));
    assert_eq!(filesystem_kind(&gpt(1, 2, LVM_GUID)), Some(FsKind::LogicalVolume));
    assert_eq!(filesystem_kind(&gpt(1, 2, [0u8; 16])), None);
    let mut almost = LINUX_GUID;
    almost[15] = 0xe5;
    assert_eq!(filesystem_kind(&gpt(1, 2, almost)), None);
}

#[test]
fn prepare_accepts_a_stored_linux_partition() {
    let p = PartitionDescriptor { partition_id: Some(9), layout: mbr(1048576, 2048, MBR_LINUX) };
    let expected = Target {
        window: ByteWindow { first_byte_addr: 1048576, size: 1048576 },
        kind: FsKind::LinuxNative,
        partition_id: 9,
    };
    assert_eq!(prepare_partition(&p, 512), Ok(expected));
}

#[test]
fn prepare_checks_geometry_first() {
    let p = PartitionDescriptor { partition_id: None, layout: mbr(0, u64::MAX, 0x07) };
    assert_eq!(
        prepare_partition(&p, 512),
        Err(PartitionError::Geometry(GeometryError::Overflow))
    );
}

#[test]
fn prepare_rejects_unsupported_type() {
    let p = PartitionDescriptor { partition_id: Some(1), layout: mbr(0, 8, 0x07) };
    assert_eq!(prepare_partition(&p, 512), Err(PartitionError::UnsupportedType));
}

#[test]
fn prepare_rejects_unstored_partition() {
    let p = PartitionDescriptor { partition_id: None, layout: gpt(2048, 4095, LVM_GUID) };
    assert_eq!(prepare_partition(&p, 512), Err(PartitionError::MissingId));
}
