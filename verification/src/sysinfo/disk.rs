//! The mounted disks of the system: which lines of `/proc/mounts` name a disk, and the
//! usage of each disk, computed from the figures of its file system (as `statvfs` gives
//! them).
use vstd::prelude::*;
use crate::text::{
    chars_of, lines, lines_chars, pieces_view, split_ws, split_ws_chars, starts_with,
    starts_with_chars, string_of,
};
use crate::sysinfo::error::{Error, InnerError};
use crate::sysinfo::procfs::chars_eq;
use crate::sysinfo::user::piece_or_empty;

verus! {

/// `Path::eq` on two paths: equal where their components are, so that repeated and
/// trailing separators and inner `.` components do not count.
pub uninterp spec fn same_path(a: Seq<char>, b: Seq<char>) -> bool;

/// Compares two paths as `Path::eq` does.
#[verifier::external_body]
pub(crate) fn paths_equal(a: &str, b: &str) -> (r: bool)
    ensures
        r == same_path(a@, b@),
{
    std::path::Path::new(a) == std::path::Path::new(b)
}

/// The figures of a file system, as `statvfs` reports them.
#[derive(Clone, Copy, Debug, PartialEq, Eq, Structural)]
pub struct FsStats {
    /// Size of a fragment, in bytes.
    pub f_frsize: u64,
    /// Size of the file system, in fragments.
    pub f_blocks: u64,
    /// Free fragments.
    pub f_bfree: u64,
    /// Fragments free for unprivileged users.
    pub f_bavail: u64,
    /// Inodes.
    pub f_files: u64,
    /// Free inodes.
    pub f_ffree: u64,
    /// Inodes free for unprivileged users.
    pub f_favail: u64,
}

/// The space and inodes of a disk.
#[derive(Clone, Copy, Debug, PartialEq, Eq, Structural)]
pub struct DiskUsage {
    pub total_space: u64,
    pub free_space: u64,
    pub avail_space: u64,
    pub used_space: u64,
    pub total_inodes: u64,
    pub free_inodes: u64,
    pub avail_inodes: u64,
    pub used_inodes: u64,
}

/// The usage of a file system with figures `s`: spaces are fragments times the fragment
/// size, used space is total less free, and used inodes are inodes less free ones; `None`
/// where a product does not fit in a `u64` or a difference is negative.
pub open spec fn usage_of(s: FsStats) -> Option<DiskUsage> {
    let total = s.f_blocks * s.f_frsize;
    let free = s.f_bfree * s.f_frsize;
    let avail = s.f_bavail * s.f_frsize;
    if total > u64::MAX || free > u64::MAX || avail > u64::MAX || total < free || s.f_files
        < s.f_ffree {
        None
    } else {
        Some(
            DiskUsage {
                total_space: total as u64,
                free_space: free as u64,
                avail_space: avail as u64,
                used_space: (total - free) as u64,
                total_inodes: s.f_files,
                free_inodes: s.f_ffree,
                avail_inodes: s.f_favail,
                used_inodes: (s.f_files - s.f_ffree) as u64,
            },
        )
    }
}

/// `a * b`, or `Overflow`.
pub fn checked_mul(a: u64, b: u64) -> (r: Result<u64, Error>)
    ensures
        match r {
            Ok(v) => v == a * b,
            Err(e) => a * b > u64::MAX && e matches Error::Internal(InnerError::Overflow),
        },
{
    match a.checked_mul(b) {
        Some(v) => Ok(v),
        None => Err(Error::Internal(InnerError::Overflow)),
    }
}

/// `a - b`, or `Overflow`.
pub fn checked_sub(a: u64, b: u64) -> (r: Result<u64, Error>)
    ensures
        match r {
            Ok(v) => v == a - b,
            Err(e) => a < b && e matches Error::Internal(InnerError::Overflow),
        },
{
    match a.checked_sub(b) {
        Some(v) => Ok(v),
        None => Err(Error::Internal(InnerError::Overflow)),
    }
}

/// Computes the usage of a file system with figures `s`; `Overflow` where `usage_of`
/// has none.
pub fn usage_from(s: &FsStats) -> (r: Result<DiskUsage, Error>)
    ensures
        match r {
            Ok(u) => usage_of(*s) == Some(u),
            Err(e) => usage_of(*s) is None && e matches Error::Internal(InnerError::Overflow),
        },
{
    let total_space = checked_mul(s.f_blocks, s.f_frsize)?;
    let free_space = checked_mul(s.f_bfree, s.f_frsize)?;
    let avail_space = checked_mul(s.f_bavail, s.f_frsize)?;
    let used_space = checked_sub(total_space, free_space)?;
    let used_inodes = checked_sub(s.f_files, s.f_ffree)?;
    Ok(
        DiskUsage {
            total_space,
            free_space,
            avail_space,
            used_space,
            total_inodes: s.f_files,
            free_inodes: s.f_ffree,
            avail_inodes: s.f_favail,
            used_inodes,
        },
    )
}

/// A line of `/proc/mounts`: the device, the mount point and the file system type.
#[derive(Debug, Clone)]
pub struct MountEntry {
    pub device_name: String,
    pub mount_point: String,
    pub file_system: String,
}

/// The view of a mount entry: device, mount point, file system type.
pub type MountView = (Seq<char>, Seq<char>, Seq<char>);

/// The first three words of a line of `/proc/mounts`, each empty where missing.
pub open spec fn mount_fields(line: Seq<char>) -> MountView {
    let w = split_ws(line);
    (piece_or_empty(w, 0), piece_or_empty(w, 1), piece_or_empty(w, 2))
}

/// The file system types that hold no disk.
pub open spec fn pseudo_fs(t: Seq<char>) -> bool {
    ||| t == "rootfs"@
    ||| t == "sysfs"@
    ||| t == "proc"@
    ||| t == "tmpfs"@
    ||| t == "devtmpfs"@
    ||| t == "cgroup"@
    ||| t == "cgroup2"@
    ||| t == "pstore"@
    ||| t == "squashfs"@
    ||| t == "rpc_pipefs"@
    ||| t == "iso9660"@
}

/// Whether a mount names a disk: its type holds one, and its mount point is under none of
/// `/proc`, `/sys`, `/run` and `sunrpc`.
pub open spec fn is_disk_mount(m: MountView) -> bool {
    !(pseudo_fs(m.2) || starts_with(m.1, "/proc"@) || starts_with(m.1, "/sys"@) || starts_with(
        m.1,
        "/run"@,
    ) || starts_with(m.1, "sunrpc"@))
}

/// The mounts of the first `n` lines that name disks, in order.
pub open spec fn disk_mounts_upto(ls: Seq<Seq<char>>, n: int) -> Seq<MountView>
    decreases n,
{
    if n <= 0 {
        Seq::empty()
    } else {
        let p = disk_mounts_upto(ls, n - 1);
        if is_disk_mount(mount_fields(ls[n - 1])) {
            p.push(mount_fields(ls[n - 1]))
        } else {
            p
        }
    }
}

/// The mounts of a `/proc/mounts` text that name disks, in order.
pub open spec fn disk_mounts(mounts: Seq<char>) -> Seq<MountView> {
    disk_mounts_upto(lines(mounts), lines(mounts).len() as int)
}

impl View for MountEntry {
    type V = MountView;

    open spec fn view(&self) -> MountView {
        (self.device_name@, self.mount_point@, self.file_system@)
    }
}

/// The views of a list of mount entries.
pub open spec fn mounts_view(v: Seq<MountEntry>) -> Seq<MountView> {
    v.map_values(|m: MountEntry| m@)
}

fn is_pseudo_fs(t: &[char]) -> (b: bool)
    ensures
        b == pseudo_fs(t@),
{
    let names = [
        "rootfs",
        "sysfs",
        "proc",
        "tmpfs",
        "devtmpfs",
        "cgroup",
        "cgroup2",
        "pstore",
        "squashfs",
        "rpc_pipefs",
        "iso9660",
    ];
    let mut i: usize = 0;
    while i < 11
        invariant
            i <= 11,
            names@ == seq![
                "rootfs",
                "sysfs",
                "proc",
                "tmpfs",
                "devtmpfs",
                "cgroup",
                "cgroup2",
                "pstore",
                "squashfs",
                "rpc_pipefs",
                "iso9660",
            ],
            forall|j: int| 0 <= j < i ==> t@ != (#[trigger] names@[j])@,
        decreases 11 - i,
    {
        let n = chars_of(names[i]);
        if chars_eq(t, n.as_slice()) {
            return true;
        }
        i = i + 1;
    }
    assert(!pseudo_fs(t@)) by {
        assert(t@ != names@[0]@);
        assert(t@ != names@[1]@);
        assert(t@ != names@[2]@);
        assert(t@ != names@[3]@);
        assert(t@ != names@[4]@);
        assert(t@ != names@[5]@);
        assert(t@ != names@[6]@);
        assert(t@ != names@[7]@);
        assert(t@ != names@[8]@);
        assert(t@ != names@[9]@);
        assert(t@ != names@[10]@);
    }
    false
}

fn is_disk_mount_chars(point: &[char], kind: &[char]) -> (b: bool)
    ensures
        b == !(pseudo_fs(kind@) || starts_with(point@, "/proc"@) || starts_with(point@, "/sys"@)
            || starts_with(point@, "/run"@) || starts_with(point@, "sunrpc"@)),
{
    let p1 = chars_of("/proc");
    let p2 = chars_of("/sys");
    let p3 = chars_of("/run");
    let p4 = chars_of("sunrpc");
    !(is_pseudo_fs(kind) || starts_with_chars(point, p1.as_slice()) || starts_with_chars(
        point,
        p2.as_slice(),
    ) || starts_with_chars(point, p3.as_slice()) || starts_with_chars(point, p4.as_slice()))
}

/// The mounts of a `/proc/mounts` text that name disks, in order.
pub fn disk_mount_entries(mounts: &str) -> (r: Vec<MountEntry>)
    ensures
        mounts_view(r@) == disk_mounts(mounts@),
{
    let text = chars_of(mounts);
    let ls = lines_chars(text.as_slice());
    let ghost lv = lines(mounts@);
    let mut out: Vec<MountEntry> = Vec::new();
    let mut i: usize = 0;
    while i < ls.len()
        invariant
            i <= ls@.len(),
            pieces_view(ls@) == lv,
            mounts_view(out@) == disk_mounts_upto(lv, i as int),
        decreases ls.len() - i,
    {
        assert(ls@[i as int]@ == lv[i as int]);
        let w = split_ws_chars(ls[i].as_slice());
        let empty: Vec<char> = Vec::new();
        let spec_w = if w.len() > 0 {
            w[0].clone()
        } else {
            empty.clone()
        };
        let file_w = if w.len() > 1 {
            w[1].clone()
        } else {
            empty.clone()
        };
        let type_w = if w.len() > 2 {
            w[2].clone()
        } else {
            empty.clone()
        };
        assert(w.len() > 0 ==> pieces_view(w@)[0] == w@[0]@);
        assert(w.len() > 1 ==> pieces_view(w@)[1] == w@[1]@);
        assert(w.len() > 2 ==> pieces_view(w@)[2] == w@[2]@);
        assert((spec_w@, file_w@, type_w@) == mount_fields(lv[i as int]));
        if is_disk_mount_chars(file_w.as_slice(), type_w.as_slice()) {
            let ghost before = mounts_view(out@);
            let e = MountEntry {
                device_name: string_of(spec_w.as_slice()),
                mount_point: string_of(file_w.as_slice()),
                file_system: string_of(type_w.as_slice()),
            };
            out.push(e);
            assert(mounts_view(out@) =~= before.push(mount_fields(lv[i as int])));
        }
        i = i + 1;
    }
    out
}

/// A mounted disk and its usage.
#[derive(Debug)]
pub struct Disk {
    device_name: String,
    file_system: String,
    mount_point: String,
    disk_usage: DiskUsage,
}

/// The view of a disk: its mount entry and its usage.
pub struct DiskView {
    pub mount: MountView,
    pub usage: DiskUsage,
}

impl View for Disk {
    type V = DiskView;

    closed spec fn view(&self) -> DiskView {
        DiskView {
            mount: (self.device_name@, self.mount_point@, self.file_system@),
            usage: self.disk_usage,
        }
    }
}

impl Disk {
    /// The used and free parts of a disk make its whole, for space and for inodes.
    #[verifier::type_invariant]
    spec fn parts_make_whole(self) -> bool {
        &&& self.disk_usage.used_space + self.disk_usage.free_space == self.disk_usage.total_space
        &&& self.disk_usage.used_inodes + self.disk_usage.free_inodes
            == self.disk_usage.total_inodes
    }
}

impl Clone for Disk {
    fn clone(&self) -> (r: Self)
        ensures
            r@ == self@,
    {
        proof {
            use_type_invariant(self);
        }
        Disk {
            device_name: self.device_name.clone(),
            file_system: self.file_system.clone(),
            mount_point: self.mount_point.clone(),
            disk_usage: self.disk_usage,
        }
    }
}

impl Disk {
    /// The disk mounted as `entry`, whose file system has the figures `stats`; `Overflow`
    /// where its usage has none.
    pub fn new(entry: &MountEntry, stats: &FsStats) -> (r: Result<Self, Error>)
        ensures
            match usage_of(*stats) {
                Some(u) => r matches Ok(d) && d@ == (DiskView { mount: entry@, usage: u }),
                None => r matches Err(Error::Internal(InnerError::Overflow)),
            },
    {
        let disk_usage = usage_from(stats)?;
        Ok(
            Disk {
                device_name: entry.device_name.clone(),
                file_system: entry.file_system.clone(),
                mount_point: entry.mount_point.clone(),
                disk_usage,
            },
        )
    }

    /// Takes the usage anew from the figures `stats` of the file system; on `Overflow`
    /// the disk is unchanged.
    pub fn update(&mut self, stats: &FsStats) -> (r: Result<(), Error>)
        ensures
            match usage_of(*stats) {
                Some(u) => r is Ok && final(self)@ == (DiskView { mount: old(self)@.mount, usage: u }),
                None => r matches Err(Error::Internal(InnerError::Overflow)) && final(self)@ == old(
                    self,
                )@,
            },
    {
        let u = usage_from(stats)?;
        self.disk_usage = u;
        Ok(())
    }

    /// The device of the disk.
    pub fn device_name(&self) -> (r: &str)
        ensures
            r@ == self@.mount.0,
    {
        self.device_name.as_str()
    }

    /// The file system type of the disk.
    pub fn file_system(&self) -> (r: &str)
        ensures
            r@ == self@.mount.2,
    {
        self.file_system.as_str()
    }

    /// Where the disk is mounted.
    pub fn mount_point(&self) -> (r: &str)
        ensures
            r@ == self@.mount.1,
    {
        self.mount_point.as_str()
    }

    /// Total space, in bytes.
    pub fn total_space(&self) -> (r: u64)
        ensures
            r == self@.usage.total_space,
    {
        self.disk_usage.total_space
    }

    /// Free space, in bytes.
    pub fn free_space(&self) -> (r: u64)
        ensures
            r == self@.usage.free_space,
    {
        self.disk_usage.free_space
    }

    /// Space free for unprivileged users, in bytes.
    pub fn avail_space(&self) -> (r: u64)
        ensures
            r == self@.usage.avail_space,
    {
        self.disk_usage.avail_space
    }

    /// Used space, in bytes.
    pub fn used_space(&self) -> (r: u64)
        ensures
            r == self@.usage.used_space,
            r + self@.usage.free_space == self@.usage.total_space,
    {
        proof {
            use_type_invariant(self);
        }
        self.disk_usage.used_space
    }

    /// Inodes.
    pub fn total_inodes(&self) -> (r: u64)
        ensures
            r == self@.usage.total_inodes,
    {
        self.disk_usage.total_inodes
    }

    /// Free inodes.
    pub fn free_inodes(&self) -> (r: u64)
        ensures
            r == self@.usage.free_inodes,
    {
        self.disk_usage.free_inodes
    }

    /// Inodes free for unprivileged users.
    pub fn avail_inodes(&self) -> (r: u64)
        ensures
            r == self@.usage.avail_inodes,
    {
        self.disk_usage.avail_inodes
    }

    /// Used inodes.
    pub fn used_inodes(&self) -> (r: u64)
        ensures
            r == self@.usage.used_inodes,
            r + self@.usage.free_inodes == self@.usage.total_inodes,
    {
        proof {
            use_type_invariant(self);
        }
        self.disk_usage.used_inodes
    }
}

/// The disks of the first `n` mounts, each with its figures: those whose figures were
/// read and give a usage.
pub open spec fn disks_upto(ms: Seq<MountView>, stats: Seq<Option<FsStats>>, n: int) -> Seq<
    DiskView,
>
    decreases n,
{
    if n <= 0 {
        Seq::empty()
    } else {
        let p = disks_upto(ms, stats, n - 1);
        match stats[n - 1] {
            Some(s) => match usage_of(s) {
                Some(u) => p.push(DiskView { mount: ms[n - 1], usage: u }),
                None => p,
            },
            None => p,
        }
    }
}

/// The views of a list of disks.
pub open spec fn disks_view(v: Seq<Disk>) -> Seq<DiskView> {
    v.map_values(|d: Disk| d@)
}

/// The mounted disks.
#[derive(Debug)]
pub struct DisksInfo {
    disks: Vec<Disk>,
}

impl DisksInfo {
    /// The disks, in the order of their mounts.
    pub closed spec fn list(&self) -> Seq<DiskView> {
        disks_view(self.disks@)
    }

    /// The disks of the mounts `entries`, whose file systems have the figures `stats`, one
    /// for each: a mount whose figures could not be read (`None`), or give no usage, is
    /// left out.
    pub fn new(entries: &Vec<MountEntry>, stats: &Vec<Option<FsStats>>) -> (r: Result<
        Self,
        Error,
    >)
        requires
            entries@.len() == stats@.len(),
        ensures
            r matches Ok(info) && info.list() == disks_upto(
                mounts_view(entries@),
                stats@,
                entries@.len() as int,
            ),
    {
        let mut disks: Vec<Disk> = Vec::new();
        let mut i: usize = 0;
        while i < entries.len()
            invariant
                i <= entries@.len(),
                entries@.len() == stats@.len(),
                disks_view(disks@) == disks_upto(mounts_view(entries@), stats@, i as int),
            decreases entries.len() - i,
        {
            match &stats[i] {
                Some(s) => {
                    match Disk::new(&entries[i], s) {
                        Ok(d) => {
                            let ghost before = disks_view(disks@);
                            let ghost dv = d@;
                            disks.push(d);
                            assert(disks_view(disks@) =~= before.push(dv));
                        },
                        Err(_) => {},
                    }
                },
                None => {},
            }
            i = i + 1;
        }
        Ok(DisksInfo { disks })
    }

    /// Copies of the disks.
    pub fn disks(&self) -> (r: Vec<Disk>)
        ensures
            disks_view(r@) == self.list(),
    {
        let mut out: Vec<Disk> = Vec::new();
        let mut i: usize = 0;
        while i < self.disks.len()
            invariant
                i <= self.disks@.len(),
                disks_view(out@) == self.list().subrange(0, i as int),
            decreases self.disks.len() - i,
        {
            let ghost before = disks_view(out@);
            out.push(self.disks[i].clone());
            assert(disks_view(out@) =~= before.push(self.list()[i as int]));
            assert(self.list().subrange(0, i + 1) =~= self.list().subrange(0, i as int).push(
                self.list()[i as int],
            ));
            i = i + 1;
        }
        assert(self.list().subrange(0, i as int) =~= self.list());
        out
    }

    /// A copy of the first disk mounted at `path`, compared as paths; `NotFound` where
    /// there is none.
    pub fn disk_at(&self, path: &str) -> (r: Result<Disk, Error>)
        ensures
            match r {
                Ok(d) => exists|i: int|
                    0 <= i < self.list().len() && d@ == self.list()[i] && same_path(
                        self.list()[i].mount.1,
                        path@,
                    ) && forall|j: int|
                        0 <= j < i ==> !same_path(#[trigger] self.list()[j].mount.1, path@),
                Err(e) => e matches Error::Internal(InnerError::NotFound) && forall|j: int|
                    0 <= j < self.list().len() ==> !same_path(
                        #[trigger] self.list()[j].mount.1,
                        path@,
                    ),
            },
    {
        let mut i: usize = 0;
        while i < self.disks.len()
            invariant
                i <= self.disks@.len(),
                forall|j: int| 0 <= j < i ==> !same_path(#[trigger] self.list()[j].mount.1, path@),
            decreases self.disks.len() - i,
        {
            assert(self.list()[i as int] == self.disks@[i as int]@);
            if paths_equal(self.disks[i].mount_point.as_str(), path) {
                return Ok(self.disks[i].clone());
            }
            i = i + 1;
        }
        Err(Error::Internal(InnerError::NotFound))
    }

    /// The disks.
    pub fn iter(&self) -> (r: &[Disk])
        ensures
            disks_view(r@) == self.list(),
    {
        self.disks.as_slice()
    }

    /// The disks, to be changed in place.
    pub fn iter_mut(&mut self) -> (r: &mut Vec<Disk>)
        ensures
            disks_view(r@) == old(self).list(),
            final(self).list() == disks_view(final(r)@),
    {
        &mut self.disks
    }
}

/// The used and free parts of a disk make its whole: used space and free space add up to
/// the total space, and used and free inodes to the inodes.
pub proof fn law_usage_parts(s: FsStats)
    ensures
        usage_of(s) matches Some(u) ==> u.used_space + u.free_space == u.total_space
            && u.used_inodes + u.free_inodes == u.total_inodes,
{
}

/// The usage of a file system, where it has one, takes its spaces in bytes as fragments
/// times the fragment size (all, free, and free for unprivileged users), its used space as
/// the rest, and its inodes as reported; it has one exactly when those products fit in 64
/// bits and neither the free space nor the free inodes exceed the whole.
pub proof fn law_usage_figures(s: FsStats)
    ensures
        usage_of(s) is Some <==> (s.f_blocks * s.f_frsize <= u64::MAX && s.f_bfree * s.f_frsize
            <= u64::MAX && s.f_bavail * s.f_frsize <= u64::MAX && s.f_bfree * s.f_frsize
            <= s.f_blocks * s.f_frsize && s.f_ffree <= s.f_files),
        usage_of(s) matches Some(u) ==> {
            &&& u.total_space == s.f_blocks * s.f_frsize
            &&& u.free_space == s.f_bfree * s.f_frsize
            &&& u.avail_space == s.f_bavail * s.f_frsize
            &&& u.used_space == s.f_blocks * s.f_frsize - s.f_bfree * s.f_frsize
            &&& u.total_inodes == s.f_files
            &&& u.free_inodes == s.f_ffree
            &&& u.avail_inodes == s.f_favail
            &&& u.used_inodes == s.f_files - s.f_ffree
        },
{
}

/// The disks of the first `n` mounts are, in the order of the mounts, those whose figures
/// were read and give a usage, each with that usage.
pub proof fn law_disks_from_mounts(ms: Seq<MountView>, stats: Seq<Option<FsStats>>, n: int)
    requires
        0 <= n <= ms.len(),
        ms.len() == stats.len(),
    ensures
        disks_upto(ms, stats, n).len() <= n,
        forall|k: int|
            0 <= k < disks_upto(ms, stats, n).len() ==> exists|i: int|
                0 <= i < n && (#[trigger] disks_upto(ms, stats, n)[k]).mount == ms[i] && (
                stats[i] matches Some(s) && usage_of(s) == Some(
                    disks_upto(ms, stats, n)[k].usage,
                )),
        forall|i: int|
            0 <= i < n && (#[trigger] stats[i] matches Some(s) && usage_of(s) is Some) ==> exists|
                k: int,
            |
                0 <= k < disks_upto(ms, stats, n).len() && disks_upto(ms, stats, n)[k] == (DiskView {
                    mount: ms[i],
                    usage: usage_of(stats[i]->Some_0)->Some_0,
                }),
    decreases n,
{
    if n > 0 {
        law_disks_from_mounts(ms, stats, n - 1);
        let p = disks_upto(ms, stats, n - 1);
        let d = disks_upto(ms, stats, n);
        assert forall|k: int| 0 <= k < d.len() implies exists|i: int|
            0 <= i < n && (#[trigger] d[k]).mount == ms[i] && (stats[i] matches Some(s)
                && usage_of(s) == Some(d[k].usage)) by {
            if k < p.len() {
                assert(d[k] == p[k]);
            } else {
                assert(0 <= n - 1 < n);
            }
        }
        assert forall|i: int|
            0 <= i < n && (#[trigger] stats[i] matches Some(s) && usage_of(s) is Some) implies exists|
                k: int,
            |
                0 <= k < d.len() && d[k] == (DiskView {
                    mount: ms[i],
                    usage: usage_of(stats[i]->Some_0)->Some_0,
                }) by {
            if i < n - 1 {
                let k = choose|k: int|
                    0 <= k < p.len() && p[k] == (DiskView {
                        mount: ms[i],
                        usage: usage_of(stats[i]->Some_0)->Some_0,
                    });
                assert(d[k] == p[k]);
            } else {
                assert(d[d.len() - 1] == (DiskView {
                    mount: ms[i],
                    usage: usage_of(stats[i]->Some_0)->Some_0,
                }));
            }
        }
    }
}

proof fn lemma_disk_mounts_upto(ls: Seq<Seq<char>>, n: int)
    requires
        0 <= n <= ls.len(),
    ensures
        forall|i: int|
            0 <= i < disk_mounts_upto(ls, n).len() ==> is_disk_mount(
                #[trigger] disk_mounts_upto(ls, n)[i],
            ) && exists|j: int| 0 <= j < n && disk_mounts_upto(ls, n)[i] == mount_fields(ls[j]),
        forall|j: int|
            0 <= j < n && is_disk_mount(#[trigger] mount_fields(ls[j])) ==> disk_mounts_upto(
                ls,
                n,
            ).contains(mount_fields(ls[j])),
    decreases n,
{
    if n > 0 {
        lemma_disk_mounts_upto(ls, n - 1);
        let p = disk_mounts_upto(ls, n - 1);
        let d = disk_mounts_upto(ls, n);
        assert forall|i: int| 0 <= i < d.len() implies is_disk_mount(#[trigger] d[i]) && exists|
            j: int,
        | 0 <= j < n && d[i] == mount_fields(ls[j]) by {
            if i < p.len() {
                assert(d[i] == p[i]);
                let j = choose|j: int| 0 <= j < n - 1 && p[i] == mount_fields(ls[j]);
                assert(0 <= j < n && d[i] == mount_fields(ls[j]));
            } else {
                assert(d[i] == mount_fields(ls[n - 1]));
            }
        }
        assert forall|j: int| 0 <= j < n && is_disk_mount(#[trigger] mount_fields(ls[j])) implies d.contains(
            mount_fields(ls[j]),
        ) by {
            if j < n - 1 {
                let k = choose|k: int| 0 <= k < p.len() && p[k] == mount_fields(ls[j]);
                assert(d[k] == p[k]);
            } else {
                assert(d[d.len() - 1] == mount_fields(ls[j]));
            }
        }
    }
}

/// The disks of a `/proc/mounts` text are the mounts of its lines (device, mount point and
/// file system type, the first three words) whose type is none of rootfs, sysfs, proc,
/// tmpfs, devtmpfs, cgroup, cgroup2, pstore, squashfs, rpc_pipefs and iso9660 and whose
/// mount point starts with none of `/proc`, `/sys`, `/run` and `sunrpc`: each such mount is
/// listed, and no other.
pub proof fn law_disk_mounts_are_disks(mounts: Seq<char>)
    ensures
        forall|i: int|
            0 <= i < disk_mounts(mounts).len() ==> {
                let m = #[trigger] disk_mounts(mounts)[i];
                &&& m.2 != "rootfs"@ && m.2 != "sysfs"@ && m.2 != "proc"@ && m.2 != "tmpfs"@
                &&& m.2 != "devtmpfs"@ && m.2 != "cgroup"@ && m.2 != "cgroup2"@ && m.2 != "pstore"@
                &&& m.2 != "squashfs"@ && m.2 != "rpc_pipefs"@ && m.2 != "iso9660"@
                &&& !starts_with(m.1, "/proc"@) && !starts_with(m.1, "/sys"@)
                &&& !starts_with(m.1, "/run"@) && !starts_with(m.1, "sunrpc"@)
                &&& exists|j: int|
                    0 <= j < lines(mounts).len() && m == (
                        piece_or_empty(split_ws(lines(mounts)[j]), 0),
                        piece_or_empty(split_ws(lines(mounts)[j]), 1),
                        piece_or_empty(split_ws(lines(mounts)[j]), 2),
                    )
            },
        forall|j: int|
            0 <= j < lines(mounts).len() ==> {
                let m = #[trigger] mount_fields(lines(mounts)[j]);
                (m.2 != "rootfs"@ && m.2 != "sysfs"@ && m.2 != "proc"@ && m.2 != "tmpfs"@
                    && m.2 != "devtmpfs"@ && m.2 != "cgroup"@ && m.2 != "cgroup2"@ && m.2
                    != "pstore"@ && m.2 != "squashfs"@ && m.2 != "rpc_pipefs"@ && m.2
                    != "iso9660"@ && !starts_with(m.1, "/proc"@) && !starts_with(m.1, "/sys"@)
                    && !starts_with(m.1, "/run"@) && !starts_with(m.1, "sunrpc"@))
                    ==> disk_mounts(mounts).contains(m)
            },
{
    let ls = lines(mounts);
    lemma_disk_mounts_upto(ls, ls.len() as int);
}

} // verus!
