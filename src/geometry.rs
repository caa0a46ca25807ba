use vstd::prelude::*;

verus! {

/// Where a partition lies in the container, as the partition table describes it.
#[derive(Clone, Debug, PartialEq, Eq)]
pub enum PartitionLayout {
    /// A DOS-style entry: byte address of the first sector, a length in
    /// sectors and the one-byte partition type.
    Mbr { first_byte_addr: u64, size_sectors: u64, partition_type: u8 },
    /// A GUID-table entry: first and last logical block, both inclusive, and
    /// the partition type GUID as it is stored on disk.
    Gpt { starting_lba: u64, ending_lba: u64, type_guid: [u8; 16] },
}

/// A partition selected for processing.
#[derive(Clone, Debug, PartialEq, Eq)]
pub struct PartitionDescriptor {
    /// The identifier under which the partition was stored, once it was.
    pub partition_id: Option<i64>,
    pub layout: PartitionLayout,
}

/// The filesystem parser that a partition type calls for.
#[derive(PartialEq, Eq, Structural, Clone, Copy, Debug)]
pub enum FsKind {
    /// A Linux-native filesystem (ext2/3/4 and the like).
    LinuxNative,
    /// A logical volume manager physical volume.
    LogicalVolume,
}

/// DOS partition type of a Linux-native filesystem.
pub const MBR_LINUX: u8 = 0x83;

/// DOS partition type of an LVM physical volume.
pub const MBR_LVM: u8 = 0x8e;

/// GUID 0FC63DAF-8483-4772-8E79-3D69D8477DE4 (Linux filesystem data), in
/// its on-disk byte order.
pub open spec fn gpt_linux_guid() -> Seq<u8> {
    seq![0xafu8, 0x3d, 0xc6, 0x0f, 0x83, 0x84, 0x72, 0x47, 0x8e, 0x79, 0x3d, 0x69, 0xd8, 0x47, 0x7d, 0xe4]
}

/// GUID E6D6D379-F507-44C2-A23C-238F2A3DF928 (Linux LVM), in its on-disk
/// byte order.
pub open spec fn gpt_lvm_guid() -> Seq<u8> {
    seq![0x79u8, 0xd3, 0xd6, 0xe6, 0x07, 0xf5, 0xc2, 0x44, 0xa2, 0x3c, 0x23, 0x8f, 0x2a, 0x3d, 0xf9, 0x28]
}

/// The parser that a partition type selects.
pub open spec fn kind_spec(layout: PartitionLayout) -> Option<FsKind> {
    match layout {
        PartitionLayout::Mbr { partition_type, .. } => {
            if partition_type == MBR_LINUX {
                Some(FsKind::LinuxNative)
            } else if partition_type == MBR_LVM {
                Some(FsKind::LogicalVolume)
            } else {
                None
            }
        },
        PartitionLayout::Gpt { type_guid, .. } => {
            if type_guid@ == gpt_linux_guid() {
                Some(FsKind::LinuxNative)
            } else if type_guid@ == gpt_lvm_guid() {
                Some(FsKind::LogicalVolume)
            } else {
                None
            }
        },
    }
}

fn same_guid(a: &[u8; 16], b: &[u8; 16]) -> (r: bool)
    ensures
        r == (a@ == b@),
{
    let mut i: usize = 0;
    while i < 16
        invariant
            0 <= i <= 16,
            a@.len() == 16,
            b@.len() == 16,
            forall|j: int| 0 <= j < i ==> a@[j] == b@[j],
        decreases 16 - i,
    {
        if a[i] != b[i] {
            return false;
        }
        i = i + 1;
    }
    assert(a@ =~= b@);
    true
}

/// The parser that `layout`'s partition type selects, or `None` for a
/// type that no parser handles.
pub fn filesystem_kind(layout: &PartitionLayout) -> (r: Option<FsKind>)
    ensures
        r == kind_spec(*layout),
{
    match layout {
        PartitionLayout::Mbr { partition_type, .. } => {
            if *partition_type == MBR_LINUX {
                Some(FsKind::LinuxNative)
            } else if *partition_type == MBR_LVM {
                Some(FsKind::LogicalVolume)
            } else {
                None
            }
        },
        PartitionLayout::Gpt { type_guid, .. } => {
            let linux: [u8; 16] = [
                0xaf, 0x3d, 0xc6, 0x0f, 0x83, 0x84, 0x72, 0x47, 0x8e, 0x79, 0x3d, 0x69, 0xd8, 0x47, 0x7d, 0xe4,
            ];
            let lvm: [u8; 16] = [
                0x79, 0xd3, 0xd6, 0xe6, 0x07, 0xf5, 0xc2, 0x44, 0xa2, 0x3c, 0x23, 0x8f, 0x2a, 0x3d, 0xf9, 0x28,
            ];
            assert(linux@ =~= gpt_linux_guid());
            assert(lvm@ =~= gpt_lvm_guid());
            if same_guid(type_guid, &linux) {
                Some(FsKind::LinuxNative)
            } else if same_guid(type_guid, &lvm) {
                Some(FsKind::LogicalVolume)
            } else {
                None
            }
        },
    }
}

/// The absolute byte range of a partition inside its container.
#[derive(PartialEq, Eq, Structural, Clone, Copy, Debug)]
pub struct ByteWindow {
    pub first_byte_addr: u64,
    pub size: u64,
}

/// Why a partition's byte range could not be computed.
#[derive(PartialEq, Eq, Structural, Clone, Copy, Debug)]
pub enum GeometryError {
    /// A product or sum left the range of `u64`.
    Overflow,
    /// The last block of a GUID-table entry lies before its first one.
    InvertedRange,
}

/// `x` is a value of `u64`.
pub open spec fn fits_u64(x: int) -> bool {
    0 <= x <= u64::MAX
}

/// The byte range of `layout` for sectors of `sector_size` bytes, with
/// every intermediate value checked against `u64`.
pub fn byte_window(layout: &PartitionLayout, sector_size: u64) -> (r: Result<ByteWindow, GeometryError>)
    ensures
        r == window_spec(*layout, sector_size),
{
    match layout {
        PartitionLayout::Mbr { first_byte_addr, size_sectors, .. } => {
            match size_sectors.checked_mul(sector_size) {
                Some(size) => Ok(ByteWindow { first_byte_addr: *first_byte_addr, size }),
                None => Err(GeometryError::Overflow),
            }
        },
        PartitionLayout::Gpt { starting_lba, ending_lba, .. } => {
            if *ending_lba < *starting_lba {
                return Err(GeometryError::InvertedRange);
            }
            let span = ending_lba - starting_lba;
            let sectors = match span.checked_add(1) {
                Some(n) => n,
                None => return Err(GeometryError::Overflow),
            };
            let size = match sectors.checked_mul(sector_size) {
                Some(s) => s,
                None => return Err(GeometryError::Overflow),
            };
            match starting_lba.checked_mul(sector_size) {
                Some(first_byte_addr) => Ok(ByteWindow { first_byte_addr, size }),
                None => Err(GeometryError::Overflow),
            }
        },
    }
}

/// What the run needs to open a partition's filesystem.
#[derive(PartialEq, Eq, Structural, Clone, Copy, Debug)]
pub struct Target {
    pub window: ByteWindow,
    pub kind: FsKind,
    pub partition_id: i64,
}

/// Why a partition is skipped before its filesystem is looked at.
#[derive(PartialEq, Eq, Structural, Clone, Copy, Debug)]
pub enum PartitionError {
    Geometry(GeometryError),
    UnsupportedType,
    MissingId,
}

/// The byte range of a partition: a DOS entry's first byte and its sectors
/// times the sector size; a GUID entry's first block times the sector size
/// and its block count, both ends included, times the sector size. Every
/// value on the way must fit in `u64`.
pub open spec fn window_spec(layout: PartitionLayout, sector_size: u64) -> Result<ByteWindow, GeometryError> {
    match layout {
        PartitionLayout::Mbr { first_byte_addr, size_sectors, .. } => {
            if fits_u64(size_sectors * sector_size) {
                Ok(ByteWindow { first_byte_addr, size: (size_sectors * sector_size) as u64 })
            } else {
                Err(GeometryError::Overflow)
            }
        },
        PartitionLayout::Gpt { starting_lba, ending_lba, .. } => {
            if ending_lba < starting_lba {
                Err(GeometryError::InvertedRange)
            } else if fits_u64(ending_lba - starting_lba + 1) && fits_u64(
                (ending_lba - starting_lba + 1) * sector_size,
            ) && fits_u64(starting_lba * sector_size) {
                Ok(
                    ByteWindow {
                        first_byte_addr: (starting_lba * sector_size) as u64,
                        size: ((ending_lba - starting_lba + 1) * sector_size) as u64,
                    },
                )
            } else {
                Err(GeometryError::Overflow)
            }
        },
    }
}

/// The checks a partition goes through, in order: its byte range, its
/// type, and its stored identifier.
pub open spec fn prepare_spec(p: PartitionDescriptor, sector_size: u64) -> Result<Target, PartitionError> {
    match window_spec(p.layout, sector_size) {
        Err(g) => Err(PartitionError::Geometry(g)),
        Ok(window) => match kind_spec(p.layout) {
            None => Err(PartitionError::UnsupportedType),
            Some(kind) => match p.partition_id {
                None => Err(PartitionError::MissingId),
                Some(partition_id) => Ok(Target { window, kind, partition_id }),
            },
        },
    }
}

/// Checks that `p` can be opened: that its byte range fits in `u64`, that
/// its type selects a parser, and that it has been stored.
pub fn prepare_partition(p: &PartitionDescriptor, sector_size: u64) -> (r: Result<Target, PartitionError>)
    ensures
        r == prepare_spec(*p, sector_size),
{
    let window = match byte_window(&p.layout, sector_size) {
        Ok(w) => w,
        Err(g) => return Err(PartitionError::Geometry(g)),
    };
    let kind = match filesystem_kind(&p.layout) {
        Some(k) => k,
        None => return Err(PartitionError::UnsupportedType),
    };
    match p.partition_id {
        Some(partition_id) => Ok(Target { window, kind, partition_id }),
        None => Err(PartitionError::MissingId),
    }
}

} // verus!
