//! The logical drives of a Windows system: which drives a drive mask names, and how the
//! answers of the volume and free space queries make each disk.
use vstd::prelude::*;
use crate::sysinfo::disk::same_path;
use crate::sysinfo::error::{Error, InnerError};
use crate::sysinfo::windows::text::{before_nul, lemma_plain_units_text, plain_unit, units_before_nul, utf16_lossy, utf16_text};

verus! {

/// The kind of a drive, as `GetDriveTypeW` numbers it.
#[derive(Debug, Clone, Copy, PartialEq, Eq, Structural)]
pub enum DriveType {
    Unknown,
    NoRootDir,
    Removable,
    Fixed,
    Remote,
    CDRom,
    RamDisk,
}

/// The drive type of number `v`, where there is one.
pub open spec fn drive_type_of(v: u32) -> Option<DriveType> {
    if v == 0 {
        Some(DriveType::Unknown)
    } else if v == 1 {
        Some(DriveType::NoRootDir)
    } else if v == 2 {
        Some(DriveType::Removable)
    } else if v == 3 {
        Some(DriveType::Fixed)
    } else if v == 4 {
        Some(DriveType::Remote)
    } else if v == 5 {
        Some(DriveType::CDRom)
    } else if v == 6 {
        Some(DriveType::RamDisk)
    } else {
        None
    }
}

impl DriveType {
    /// The drive type of number `value`; `CannotConvert` for a number above 6.
    pub fn try_from(value: u32) -> (r: Result<DriveType, Error>)
        ensures
            match drive_type_of(value) {
                Some(t) => r matches Ok(d) && d == t,
                None => r matches Err(Error::Internal(InnerError::CannotConvert)),
            },
    {
        match value {
            0 => Ok(DriveType::Unknown),
            1 => Ok(DriveType::NoRootDir),
            2 => Ok(DriveType::Removable),
            3 => Ok(DriveType::Fixed),
            4 => Ok(DriveType::Remote),
            5 => Ok(DriveType::CDRom),
            6 => Ok(DriveType::RamDisk),
            _ => Err(Error::Internal(InnerError::CannotConvert)),
        }
    }
}

/// The number of set bits of the lowest `n` bits of `x`.
pub open spec fn ones_below(x: u32, n: nat) -> nat
    decreases n,
{
    if n == 0 {
        0
    } else {
        ones_below(x, (n - 1) as nat) + if (x >> ((n - 1) as u32)) & 1 == 1 {
            1nat
        } else {
            0nat
        }
    }
}

/// `u32::count_ones`.
pub open spec fn ones(x: u32) -> nat {
    ones_below(x, 32)
}

/// `u32::count_ones`.
pub fn count_ones(x: u32) -> (r: u32)
    ensures
        r == ones(x),
{
    let mut n: u32 = 0;
    let mut count: u32 = 0;
    while n < 32
        invariant
            n <= 32,
            count == ones_below(x, n as nat),
            count <= n,
        decreases 32 - n,
    {
        if (x >> n) & 1 == 1 {
            count = count + 1;
        }
        n = n + 1;
    }
    count
}

/// The indices of the drives that a drive mask names: as many as its set bits, counted up
/// from its lowest set bit.
pub open spec fn drive_indices_of(mask: u32) -> Seq<u32> {
    Seq::new(ones(mask), |i: int| (mask.trailing_zeros() + i) as u32)
}

/// The indices of the drives that a drive mask names.
pub fn drive_indices(mask: u32) -> (r: Vec<u32>)
    ensures
        r@ == drive_indices_of(mask),
{
    let start = mask.trailing_zeros();
    let number = count_ones(mask);
    proof {
        vstd::std_specs::bits::axiom_u32_trailing_zeros(mask);
        lemma_trailing_plus_ones(mask);
    }
    let mut out: Vec<u32> = Vec::new();
    let mut i: u32 = 0;
    while i < number
        invariant
            i <= number,
            number == ones(mask),
            start == mask.trailing_zeros(),
            number <= 32,
            start <= 32,
            out@ == drive_indices_of(mask).subrange(0, i as int),
        decreases number - i,
    {
        out.push(start + i);
        i = i + 1;
        assert(out@ =~= drive_indices_of(mask).subrange(0, i as int));
    }
    assert(drive_indices_of(mask).subrange(0, number as int) =~= drive_indices_of(mask));
    out
}

/// The mount point of drive `index`: its letter, a colon and a backslash.
pub open spec fn mount_point_of(index: u32) -> Seq<char> {
    seq![(65 + index) as char, ':', '\\']
}

/// The mount point of drive `index`.
pub fn mount_point(index: u32) -> (r: String)
    requires
        index < 32,
    ensures
        r@ == mount_point_of(index),
{
    let units: Vec<u16> = vec![65u16 + index as u16, 58u16, 92u16];
    let s = utf16_lossy(units.as_slice());
    proof {
        assert(plain_unit(units@[0]) && plain_unit(units@[1]) && plain_unit(units@[2]));
        lemma_plain_units_text(units@);
    }
    assert(s@ =~= mount_point_of(index));
    s
}

/// What the volume query answers of a drive: its name and file system as zero-terminated
/// UTF-16, and its drive type number.
#[derive(Debug, Clone)]
pub struct VolumeInfo {
    pub name: Vec<u16>,
    pub file_system: Vec<u16>,
    pub drive_type: u32,
}

/// What the free space query answers of a drive, in bytes.
#[derive(Debug, Clone, Copy, PartialEq, Eq, Structural)]
pub struct SpaceInfo {
    pub avail: u64,
    pub total: u64,
    pub free: u64,
}

/// The space of a disk.
#[derive(Debug, Clone, Copy, PartialEq, Eq, Structural)]
pub struct DiskUsage {
    pub total_space: u64,
    pub free_space: u64,
    pub avail_space: u64,
    pub used_space: u64,
}

/// The usage of a space answer: used space is total less free, wrapping.
pub open spec fn usage_of(s: SpaceInfo) -> DiskUsage {
    DiskUsage {
        total_space: s.total,
        free_space: s.free,
        avail_space: s.avail,
        used_space: s.total.wrapping_sub(s.free),
    }
}

/// A logical drive and its space.
#[derive(Debug)]
pub struct Disk {
    device_name: String,
    drive_type: DriveType,
    is_removable: bool,
    file_system: String,
    mount_point: String,
    disk_usage: DiskUsage,
}

/// The view of a disk.
pub struct DiskView {
    pub device_name: Seq<char>,
    pub drive_type: DriveType,
    pub is_removable: bool,
    pub file_system: Seq<char>,
    pub mount_point: Seq<char>,
    pub usage: DiskUsage,
}

impl View for Disk {
    type V = DiskView;

    closed spec fn view(&self) -> DiskView {
        DiskView {
            device_name: self.device_name@,
            drive_type: self.drive_type,
            is_removable: self.is_removable,
            file_system: self.file_system@,
            mount_point: self.mount_point@,
            usage: self.disk_usage,
        }
    }
}

impl Clone for Disk {
    fn clone(&self) -> (r: Self)
        ensures
            r@ == self@,
    {
        Disk {
            device_name: self.device_name.clone(),
            drive_type: self.drive_type,
            is_removable: self.is_removable,
            file_system: self.file_system.clone(),
            mount_point: self.mount_point.clone(),
            disk_usage: self.disk_usage,
        }
    }
}

/// The disk of drive `index` from the answers of its queries: the name and file system are
/// the texts before their zero, and a drive of type 2 is removable.
pub open spec fn disk_of(index: u32, volume: VolumeInfo, space: SpaceInfo) -> DiskView {
    DiskView {
        device_name: utf16_text(before_nul(volume.name@)),
        drive_type: drive_type_of(volume.drive_type)->0,
        is_removable: volume.drive_type == 2,
        file_system: utf16_text(before_nul(volume.file_system@)),
        mount_point: mount_point_of(index),
        usage: usage_of(space),
    }
}

fn usage_from(s: &SpaceInfo) -> (u: DiskUsage)
    ensures
        u == usage_of(*s),
{
    DiskUsage {
        total_space: s.total,
        free_space: s.free,
        avail_space: s.avail,
        used_space: s.total.wrapping_sub(s.free),
    }
}

impl Disk {
    /// The disk of drive `index` from the answers of its volume and space queries.
    pub fn new(index: u32, volume: &VolumeInfo, space: &SpaceInfo) -> (r: Self)
        requires
            index < 32,
            volume.drive_type <= 6,
        ensures
            r@ == disk_of(index, *volume, *space),
    {
        let drive_type = match DriveType::try_from(volume.drive_type) {
            Ok(t) => t,
            Err(_) => DriveType::Unknown,
        };
        let name = units_before_nul(volume.name.as_slice());
        let fs = units_before_nul(volume.file_system.as_slice());
        Disk {
            device_name: utf16_lossy(name.as_slice()),
            drive_type,
            is_removable: volume.drive_type == 2,
            file_system: utf16_lossy(fs.as_slice()),
            mount_point: mount_point(index),
            disk_usage: usage_from(space),
        }
    }

    /// Takes the answer of a newer space query.
    pub fn update(&mut self, space: &SpaceInfo) -> (r: Result<(), Error>)
        ensures
            r is Ok,
            final(self)@ == (DiskView { usage: usage_of(*space), ..old(self)@ }),
    {
        self.disk_usage = usage_from(space);
        Ok(())
    }

    /// The name of the volume.
    pub fn device_name(&self) -> (r: &str)
        ensures
            r@ == self@.device_name,
    {
        self.device_name.as_str()
    }

    /// The drive type.
    pub fn drive_type(&self) -> (r: &DriveType)
        ensures
            *r == self@.drive_type,
    {
        &self.drive_type
    }

    /// Whether the drive is removable.
    pub fn is_removable(&self) -> (r: bool)
        ensures
            r == self@.is_removable,
    {
        self.is_removable
    }

    /// The file system of the volume.
    pub fn file_system(&self) -> (r: &str)
        ensures
            r@ == self@.file_system,
    {
        self.file_system.as_str()
    }

    /// The mount point of the drive.
    pub fn mount_point(&self) -> (r: &str)
        ensures
            r@ == self@.mount_point,
    {
        self.mount_point.as_str()
    }

    /// Total space, in bytes.
    pub fn total_space(&self) -> (r: u64)
        ensures
            r == self@.usage.total_space,
    {
        self.disk_usage.total_space
    }

    /// Free space, in bytes.
    pub fn free_space(&self) -> (r: u64)
        ensures
            r == self@.usage.free_space,
    {
        self.disk_usage.free_space
    }

    /// Space available to the caller, in bytes.
    pub fn avail_space(&self) -> (r: u64)
        ensures
            r == self@.usage.avail_space,
    {
        self.disk_usage.avail_space
    }

    /// Used space, in bytes.
    pub fn used_space(&self) -> (r: u64)
        ensures
            r == self@.usage.used_space,
    {
        self.disk_usage.used_space
    }
}

/// The answers of the queries of one drive: `None` where a query failed.
#[derive(Debug, Clone)]
pub struct DriveAnswers {
    pub volume: Option<VolumeInfo>,
    pub space: Option<SpaceInfo>,
}

/// Every volume answer has a known drive type.
pub open spec fn answers_typed(answers: Seq<DriveAnswers>) -> bool {
    forall|i: int|
        0 <= i < answers.len() ==> ((#[trigger] answers[i]).volume matches Some(v) ==> v.drive_type
            <= 6)
}

/// The disks of the first `n` drives, or the failure of the first drive whose query
/// failed: the volume query is asked first.
pub open spec fn disks_upto(indices: Seq<u32>, answers: Seq<DriveAnswers>, n: int) -> Result<
    Seq<DiskView>,
    InnerError,
>
    decreases n,
{
    if n <= 0 {
        Ok(Seq::empty())
    } else {
        match disks_upto(indices, answers, n - 1) {
            Err(e) => Err(e),
            Ok(ds) => match answers[n - 1].volume {
                None => Err(InnerError::GetVolumeInfoFailed),
                Some(v) => match answers[n - 1].space {
                    None => Err(InnerError::GetDiskFreeSpaceFailed),
                    Some(s) => Ok(ds.push(disk_of(indices[n - 1], v, s))),
                },
            },
        }
    }
}

/// The views of a list of disks.
pub open spec fn disks_view(v: Seq<Disk>) -> Seq<DiskView> {
    v.map_values(|d: Disk| d@)
}

proof fn lemma_disks_error_stays(indices: Seq<u32>, answers: Seq<DriveAnswers>, n: int, m: int)
    requires
        n <= m,
        disks_upto(indices, answers, n) is Err,
    ensures
        disks_upto(indices, answers, m) == disks_upto(indices, answers, n),
    decreases m - n,
{
    if n < m {
        lemma_disks_error_stays(indices, answers, n, m - 1);
    }
}

/// The logical drives of the system.
#[derive(Debug)]
pub struct DisksInfo {
    disks: Vec<Disk>,
}

impl DisksInfo {
    /// The disks, in the order of their drives.
    pub closed spec fn list(&self) -> Seq<DiskView> {
        disks_view(self.disks@)
    }

    /// The disks of the drives that `mask` names, from the answers of their queries, one
    /// for each drive in order; the first failed query is the error.
    pub fn new(mask: u32, answers: &Vec<DriveAnswers>) -> (r: Result<Self, Error>)
        requires
            answers@.len() == drive_indices_of(mask).len(),
            answers_typed(answers@),
        ensures
            match disks_upto(drive_indices_of(mask), answers@, answers@.len() as int) {
                Ok(ds) => r matches Ok(info) && info.list() == ds,
                Err(e) => r matches Err(Error::Internal(f)) && f == e,
            },
    {
        let indices = drive_indices(mask);
        let mut disks: Vec<Disk> = Vec::new();
        let mut i: usize = 0;
        assert forall|k: int| 0 <= k < indices@.len() implies #[trigger] indices@[k] < 32 by {
            lemma_indices_below_32(mask, k);
        }
        assert(disks_view(disks@) =~= Seq::<DiskView>::empty());
        while i < answers.len()
            invariant
                i <= answers@.len(),
                answers@.len() == indices@.len(),
                indices@ == drive_indices_of(mask),
                answers_typed(answers@),
                forall|k: int| 0 <= k < indices@.len() ==> #[trigger] indices@[k] < 32,
                disks_upto(indices@, answers@, i as int) == Ok::<Seq<DiskView>, InnerError>(
                    disks_view(disks@),
                ),
            decreases answers.len() - i,
        {
            let volume = match &answers[i].volume {
                Some(v) => v,
                None => {
                    proof {
                        lemma_disks_error_stays(indices@, answers@, i + 1, answers@.len() as int);
                    }
                    return Err(Error::Internal(InnerError::GetVolumeInfoFailed));
                },
            };
            let space = match &answers[i].space {
                Some(s) => s,
                None => {
                    proof {
                        lemma_disks_error_stays(indices@, answers@, i + 1, answers@.len() as int);
                    }
                    return Err(Error::Internal(InnerError::GetDiskFreeSpaceFailed));
                },
            };
            assert(answers@[i as int].volume matches Some(v) ==> (v.drive_type <= 6));
            let d = Disk::new(indices[i], volume, space);
            let ghost before = disks_view(disks@);
            disks.push(d);
            assert(disks_view(disks@) =~= before.push(
                disk_of(indices@[i as int], *volume, *space),
            ));
            i = i + 1;
        }
        Ok(DisksInfo { disks })
    }

    /// Copies of the disks.
    pub fn disks(&self) -> (r: Vec<Disk>)
        ensures
            disks_view(r@) == self.list(),
    {
        let mut out: Vec<Disk> = Vec::new();
        let mut i: usize = 0;
        while i < self.disks.len()
            invariant
                i <= self.disks@.len(),
                disks_view(out@) == self.list().subrange(0, i as int),
            decreases self.disks.len() - i,
        {
            let ghost before = disks_view(out@);
            out.push(self.disks[i].clone());
            assert(disks_view(out@) =~= before.push(self.list()[i as int]));
            assert(self.list().subrange(0, i + 1) =~= self.list().subrange(0, i as int).push(
                self.list()[i as int],
            ));
            i = i + 1;
        }
        assert(self.list().subrange(0, i as int) =~= self.list());
        out
    }

    /// A copy of the first disk mounted at `path`, compared as paths; `NotFound` where
    /// there is none.
    pub fn disk_at(&self, path: &str) -> (r: Result<Disk, Error>)
        ensures
            match r {
                Ok(d) => exists|i: int|
                    0 <= i < self.list().len() && d@ == self.list()[i] && same_path(
                        self.list()[i].mount_point,
                        path@,
                    ) && forall|j: int|
                        0 <= j < i ==> !same_path(#[trigger] self.list()[j].mount_point, path@),
                Err(e) => e matches Error::Internal(InnerError::NotFound) && forall|j: int|
                    0 <= j < self.list().len() ==> !same_path(
                        #[trigger] self.list()[j].mount_point,
                        path@,
                    ),
            },
    {
        let mut i: usize = 0;
        while i < self.disks.len()
            invariant
                i <= self.disks@.len(),
                forall|j: int|
                    0 <= j < i ==> !same_path(#[trigger] self.list()[j].mount_point, path@),
            decreases self.disks.len() - i,
        {
            assert(self.list()[i as int] == self.disks@[i as int]@);
            if crate::sysinfo::disk::paths_equal(self.disks[i].mount_point.as_str(), path) {
                return Ok(self.disks[i].clone());
            }
            i = i + 1;
        }
        Err(Error::Internal(InnerError::NotFound))
    }

    /// The disks.
    pub fn iter(&self) -> (r: &[Disk])
        ensures
            disks_view(r@) == self.list(),
    {
        self.disks.as_slice()
    }

    /// The disks, to be changed in place.
    pub fn iter_mut(&mut self) -> (r: &mut Vec<Disk>)
        ensures
            disks_view(r@) == old(self).list(),
            final(self).list() == disks_view(final(r)@),
    {
        &mut self.disks
    }
}

/// The indices that a drive mask names are below 32.
proof fn lemma_indices_below_32(mask: u32, i: int)
    requires
        0 <= i < drive_indices_of(mask).len(),
    ensures
        drive_indices_of(mask)[i] < 32,
{
    lemma_trailing_plus_ones(mask);
}

/// No bit below the lowest set bit is set.
proof fn lemma_no_ones_below_lowest(x: u32, n: nat)
    requires
        n <= x.trailing_zeros(),
    ensures
        ones_below(x, n) == 0,
    decreases n,
{
    if n > 0 {
        vstd::std_specs::bits::axiom_u32_trailing_zeros(x);
        let j = (n - 1) as u32;
        assert((x >> j) & 1u32 == 0u32);
        lemma_no_ones_below_lowest(x, (n - 1) as nat);
    }
}

/// Each further bit adds at most one set bit.
proof fn lemma_ones_growth(x: u32, n: nat, m: nat)
    requires
        n <= m,
    ensures
        ones_below(x, m) <= ones_below(x, n) + (m - n),
    decreases m,
{
    if n < m {
        lemma_ones_growth(x, n, (m - 1) as nat);
    }
}

/// The lowest set bit and the number of set bits of a mask fit in its 32 bits.
proof fn lemma_trailing_plus_ones(mask: u32)
    ensures
        mask.trailing_zeros() + ones(mask) <= 32,
{
    vstd::std_specs::bits::axiom_u32_trailing_zeros(mask);
    let t = mask.trailing_zeros() as nat;
    lemma_no_ones_below_lowest(mask, t);
    lemma_ones_growth(mask, t, 32);
}

/// A drive is removable exactly when its type is `Removable`; its mount point is its
/// letter (`A` for drive 0), a colon and a backslash; its spaces are those answered, and
/// its used space is the total less the free space, wrapping at 2^64.
pub proof fn law_disk_of(index: u32, volume: VolumeInfo, space: SpaceInfo)
    requires
        index < 32,
        volume.drive_type <= 6,
    ensures
        disk_of(index, volume, space).is_removable <==> disk_of(index, volume, space).drive_type
            == DriveType::Removable,
        disk_of(index, volume, space).mount_point.len() == 3,
        disk_of(index, volume, space).mount_point[0] as int == 'A' as int + index,
        disk_of(index, volume, space).mount_point[1] == ':',
        disk_of(index, volume, space).mount_point[2] == '\\',
        disk_of(index, volume, space).usage.total_space == space.total,
        disk_of(index, volume, space).usage.free_space == space.free,
        disk_of(index, volume, space).usage.avail_space == space.avail,
        (disk_of(index, volume, space).usage.used_space + space.free) % 0x1_0000_0000_0000_0000
            == space.total as int,
{
    let u = space.total.wrapping_sub(space.free);
    assert(u == (if space.total >= space.free {
        space.total - space.free
    } else {
        space.total - space.free + 0x1_0000_0000_0000_0000
    }));
}

/// The drives that a mask names have letters from `A` to the 32nd letter after it: their
/// indices are below 32.
pub proof fn law_drive_indices_below_32(mask: u32)
    ensures
        forall|i: int|
            0 <= i < drive_indices_of(mask).len() ==> #[trigger] drive_indices_of(mask)[i] < 32,
{
    assert forall|i: int| 0 <= i < drive_indices_of(mask).len() implies #[trigger] drive_indices_of(
        mask,
    )[i] < 32 by {
        lemma_indices_below_32(mask, i);
    }
}

} // verus!
