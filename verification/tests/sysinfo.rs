use ylong::sysinfo::cpu::CpusInfo;
use ylong::sysinfo::disk::{disk_mount_entries, Disk, DisksInfo, FsStats, MountEntry};
use ylong::sysinfo::error::{Error, InnerError};
use ylong::sysinfo::memory::{MemoryInfo, ProcessMemoryInfo};
use ylong::sysinfo::process::{Cgroup, Limits, Pid, Process, ProcessesInfo, Status, StatusFile};
use ylong::sysinfo::user::UserInfo;

const MOUNTS: &str = "sysfs /sys sysfs rw,nosuid,nodev,noexec,relatime 0 0\n\
proc /proc proc rw,nosuid,nodev,noexec,relatime 0 0\n\
/dev/sda1 / ext4 rw,relatime 0 0\n\
tmpfs /run tmpfs rw,nosuid,nodev 0 0\n\
/dev/sda2 /home ext4 rw,relatime 0 0\n\
sunrpc /var/lib/nfs/rpc_pipefs rpc_pipefs rw,relatime 0 0\n\
/dev/sdb1 /data xfs rw,relatime 0 0\n";

fn stats(blocks: u64, free: u64) -> FsStats {
    FsStats {
        f_frsize: 4096,
        f_blocks: blocks,
        f_bfree: free,
        f_bavail: free / 2,
        f_files: 1000,
        f_ffree: 400,
        f_favail: 300,
    }
}

fn sample_disks() -> DisksInfo {
    let entries = disk_mount_entries(MOUNTS);
    let figures: Vec<Option<FsStats>> = entries.iter().map(|_| Some(stats(100, 40))).collect();
    DisksInfo::new(&entries, &figures).unwrap()
}

#[test]
fn disk_ut_disks_info_test() {
    let entries = disk_mount_entries(MOUNTS);
    let figures: Vec<Option<FsStats>> = entries.iter().map(|_| Some(stats(100, 40))).collect();
    let disks_info = DisksInfo::new(&entries, &figures);
    assert!(disks_info.is_ok());
}

#[test]
fn disk_ut_disk_test() {
    let disks_info = sample_disks();
    let disks = disks_info.disks();
    assert_ne!(disks.len(), 0);
}

#[test]
fn disk_ut_disk_iter_test() {
    let disk_info = sample_disks();
    for disk in disk_info.iter() {
        assert!(!(disk.device_name().is_empty()));
        assert!(!(disk.file_system().is_empty()));
        assert!(!(disk.mount_point().is_empty()));
    }
}

#[test]
fn disk_ut_disk_iter_mut_test() {
    let mut disk_info = sample_disks();
    for disk in disk_info.iter_mut().iter_mut() {
        assert!(!(disk.device_name().is_empty()));
        assert!(!(disk.file_system().is_empty()));
        assert!(!(disk.mount_point().is_empty()));
    }
}

#[test]
fn disk_ut_update_test() {
    let mut disk_info = sample_disks();
    let mut before = vec![];
    for disk in disk_info.iter_mut().iter_mut() {
        before.push(disk.device_name().to_string());
    }

    let mut after = vec![];
    for disk in disk_info.iter_mut().iter_mut() {
        let ret = disk.update(&stats(200, 50));
        assert!(ret.is_ok())
    }
    for disk in disk_info.iter_mut().iter_mut() {
        after.push(disk.device_name().to_string());
    }
    assert_eq!(before, after);
}

#[test]
fn disk_mounts_keep_only_disks() {
    let entries = disk_mount_entries(MOUNTS);
    let points: Vec<&str> = entries.iter().map(|e| e.mount_point.as_str()).collect();
    assert_eq!(points, vec!["/", "/home", "/data"]);
    assert_eq!(entries[2].device_name, "/dev/sdb1");
    assert_eq!(entries[2].file_system, "xfs");
}

#[test]
fn disk_usage_figures() {
    let entry = MountEntry {
        device_name: "/dev/sda1".to_string(),
        mount_point: "/".to_string(),
        file_system: "ext4".to_string(),
    };
    let d = Disk::new(&entry, &stats(100, 40)).unwrap();
    assert_eq!(d.total_space(), 409600);
    assert_eq!(d.free_space(), 163840);
    assert_eq!(d.avail_space(), 81920);
    assert_eq!(d.used_space(), 245760);
    assert_eq!(d.total_inodes(), 1000);
    assert_eq!(d.free_inodes(), 400);
    assert_eq!(d.avail_inodes(), 300);
    assert_eq!(d.used_inodes(), 600);
}

#[test]
fn disk_overflow_is_reported() {
    let entry = MountEntry {
        device_name: "d".to_string(),
        mount_point: "/m".to_string(),
        file_system: "ext4".to_string(),
    };
    let mut big = stats(u64::MAX, 1);
    assert!(matches!(Disk::new(&entry, &big), Err(Error::Internal(InnerError::Overflow))));
    big = stats(10, 20);
    assert!(matches!(Disk::new(&entry, &big), Err(Error::Internal(InnerError::Overflow))));
    let mut d = Disk::new(&entry, &stats(10, 5)).unwrap();
    assert!(d.update(&stats(10, 20)).is_err());
    assert_eq!(d.used_space(), 5 * 4096);
}

#[test]
fn disk_at_compares_paths() {
    let info = sample_disks();
    assert_eq!(info.disk_at("/home/").unwrap().device_name(), "/dev/sda2");
    assert!(matches!(info.disk_at("/nowhere"), Err(Error::Internal(InnerError::NotFound))));
}

#[test]
fn disks_leave_out_unread_mounts() {
    let entries = disk_mount_entries(MOUNTS);
    let figures = vec![Some(stats(1, 1)), None, Some(stats(u64::MAX, 0))];
    let info = DisksInfo::new(&entries, &figures).unwrap();
    assert_eq!(info.disks().len(), 1);
    assert_eq!(info.iter()[0].mount_point(), "/");
}

const GROUP: &str = "root:x:0:\nadm:x:4:syslog\nusers:x:100:\n";
const PASSWD: &str = "root:x:0:0:root:/root:/bin/bash\n\
daemon:x:1:1:daemon:/usr/sbin:/usr/sbin/nologin\n\
alice:x:1000:100:Alice:/home/alice:/bin/zsh\n\
bob:x:1001:55:Bob:/home/bob:/bin/sh\n\
sync:x:4:65534:sync:/bin:/bin/sync\n\
nobody:x:65534:65534:nobody:/nonexistent:/bin/false\n";

#[test]
fn ut_update_users_info_block() {
    let mut user_list = UserInfo::new(GROUP, PASSWD).unwrap();
    let all_user_list = user_list.get_all_users_info();
    assert!(all_user_list.is_ok());
}

#[test]
fn users_skip_those_who_cannot_log_in() {
    let mut users = UserInfo::new(GROUP, PASSWD).unwrap();
    assert_eq!(users.get_all_users_info().unwrap().len(), 4);
    assert_eq!(users.get_username_by_uid(1000).unwrap(), "alice");
    assert_eq!(users.get_gid_by_uid(1000).unwrap(), 100);
    assert_eq!(users.get_group_by_uid(1000).unwrap(), "users");
    assert_eq!(users.get_group_by_uid(1001).unwrap(), "no_group");
    assert_eq!(users.get_group_by_uid(0).unwrap(), "root");
    assert!(!users.get_all_users_info().unwrap().contains_key(&1));
}

#[test]
fn users_report_bad_group_ids() {
    match UserInfo::new("root:x:zero:\n", PASSWD) {
        Err(Error::Internal(InnerError::ReadError(m))) => {
            assert_eq!(m, "transfer type fail, error is invalid digit found in string.")
        }
        _ => panic!(),
    }
    match UserInfo::new(GROUP, "eve:x:7:seven:Eve:/home/eve:/bin/sh\n") {
        Err(Error::Internal(InnerError::ReadError(m))) => {
            assert_eq!(m, "Parsing group_id fail, error is invalid digit found in string.")
        }
        _ => panic!(),
    }
    assert!(UserInfo::passwd_readable(PASSWD));
    assert!(!UserInfo::passwd_readable("broken:/bin/sh\n"));
}

const STAT: &str = "1 (systemd) S 0 1 1 0 -1 4194560 380340 39032217944 23952 19571924 2350 4377 444947274 58018846 20 0 1 0 0 231960576 1170 18446744073709551615 93875271913472 93875273288024 140735533252432 0 0 0 671173123 4096 1260 1 0 0 17 2 0 0 17768 0 0 93875275386128 93875275624768 93875304677376 140735533256464 140735533256508 140735533256508 140735533256685 0";

#[test]
fn ut_process_stat_block() {
    let res = Process::from_pid(1, STAT).unwrap();
    assert_eq!(*res.pid(), Pid::new(1));
    assert_eq!(res.name(), "systemd");
    assert_eq!(res.state(), Status::Sleeping);
    assert_eq!(res.ppid(), 0);
    assert_eq!(res.utime(), 2350);
    assert_eq!(res.stime(), 4377);
    assert_eq!(res.cutime(), 444947274);
    assert_eq!(res.cstime(), 58018846);
    assert_eq!(res.start_time(), 0);
    assert_eq!(res.total_time(), 502972847);
}

#[test]
fn ut_process_status_file_block() {
    let status = "Name:\tsystemd\nPPid:\t2\nThreads:\t1\nUid:\t0\t0\t0\t0\nGid:\t0\t0\t0\t0\n";
    let res = StatusFile::from_pid(1, status).unwrap();
    assert_eq!(res.ppid(), 2);
    assert_eq!(res.threads(), 1);
    assert_eq!(res.uid(), 0);
    assert_eq!(res.gid(), 0);
}

const LIMITS: &str = "Limit                     Soft Limit           Hard Limit           Units     \n\
Max cpu time              unlimited            unlimited            seconds   \n\
Max stack size            8388608              unlimited            bytes     \n\
Max processes             31705                31705                processes \n\
Max open files            1048576              1048576              files     \n";

#[test]
fn ut_process_limits_block() {
    assert!(Limits::is_complete(LIMITS));
    let res = Limits::from_pid(1, LIMITS).unwrap();
    assert_eq!(res.max_stack_size(), 8388608);
    assert_eq!(res.max_processes(), 31705);
    assert_eq!(res.max_open_files(), 1048576);
}

#[test]
fn ut_process_cgroup_block() {
    let res = Cgroup::from_pid(1, "7:pids:/\n").unwrap();
    assert_eq!(res.pid_cgroup(), "");
}

#[test]
fn ut_process_mem_file_block() {
    let status = "Name:\tbash\nVmSize:\t  226524 kB\nVmRSS:\t    5320 kB\nVmSwap:\t       0 kB\n";
    let res = ProcessMemoryInfo::from_pid(1, status).unwrap();
    assert_eq!(res.occupied_mem(), 226524_u64.wrapping_mul(1024));
    assert_eq!(res.physical_mem(), 5320_u64.wrapping_mul(1024));
    assert_eq!(res.swap_mem(), 0);
}

#[test]
fn ut_sys_mem_file_block() {
    let meminfo = "MemTotal:        8166416 kB\nMemFree:          391276 kB\nMemAvailable:    2856012 kB\n";
    assert!(MemoryInfo::is_complete(meminfo));
    let res = MemoryInfo::new(meminfo).unwrap();
    assert_eq!(res.total_phys(), 8166416_u64.wrapping_mul(1024));
    assert_eq!(res.avail_phys(), 2856012_u64.wrapping_mul(1024));
}

#[test]
fn ut_processes_info_new() {
    let stats = vec![
        (1usize, STAT.to_string()),
        (42usize, "42 (bash) R 1 42 42 0 -1 0 0 0 0 0 5 6 7 8 20 0 1 0 100 0 0".to_string()),
    ];
    let processes_info = ProcessesInfo::new(&stats).unwrap();
    let processes = processes_info.processes();
    assert_eq!(processes.get(&1).unwrap().name(), "systemd");
    assert_eq!(processes_info.process(&Pid::new(42)).unwrap().name(), "bash");
    assert_eq!(processes_info.processes_by_name("sys").len(), 1);
    assert_eq!(processes_info.processes_by_exact_name("bas").len(), 0);
}

const PROC_STAT: &str = "cpu  100 0 50 800 10 5 5 0 0 0\n\
cpu0 60 0 30 400 5 3 2 0 0 0\n\
cpu1 40 0 20 400 5 2 3 0 0 0\n\
intr 12345 0 0\n\
ctxt 999\n";

const PROC_STAT_LATER: &str = "cpu  300 0 150 1000 10 5 5 0 0 0\n\
cpu0 160 0 80 500 5 3 2 0 0 0\n\
cpu1 140 0 70 500 5 2 3 0 0 0\n\
intr 12345 0 0\n";

#[test]
fn cpu_ut_cpus_info_new() {
    let cpus_info = CpusInfo::new(PROC_STAT).unwrap();
    assert_eq!(cpus_info.cpus().len(), 2);
    assert_eq!(cpus_info.global_cpu().usage(), 0);
}

#[test]
fn ut_cpus_info_update_global_cpu() {
    let mut cpus_info = CpusInfo::new(PROC_STAT).unwrap();
    cpus_info.update_global_cpu(PROC_STAT_LATER).unwrap();
    assert_eq!(cpus_info.global_cpu().usage(), 6000);
    assert_eq!(cpus_info.cpus()[0].usage(), 0);
}

#[test]
fn ut_cpus_info_update_cpus() {
    let mut cpus_info = CpusInfo::new(PROC_STAT).unwrap();
    cpus_info.update_cpus(PROC_STAT_LATER).unwrap();
    assert_eq!(cpus_info.cpus()[0].usage(), 6000);
    assert_eq!(cpus_info.cpus()[1].usage(), 6000);
    assert_eq!(cpus_info.global_cpu().usage(), 0);
}

#[test]
fn cpu_ut_cpus_info_update_all() {
    let mut cpus_info = CpusInfo::new(PROC_STAT).unwrap();
    cpus_info.update_all(PROC_STAT_LATER).unwrap();
    assert_eq!(cpus_info.global_cpu().usage(), 6000);
    assert_eq!(cpus_info.cpus()[1].usage(), 6000);
}

#[test]
fn cpu_usage_is_capped_and_guarded() {
    let mut cpus_info = CpusInfo::new("cpu  0 0 0 0 0 0 0 0\n").unwrap();
    assert_eq!(cpus_info.cpus().len(), 0);
    cpus_info.update_global_cpu("cpu  5 0 0 0 0 0 0 0\n").unwrap();
    assert_eq!(cpus_info.global_cpu().usage(), 10000);
    assert!(matches!(
        cpus_info.update_global_cpu("intr 1 2 3 4 5 6 7 8\n"),
        Err(Error::Internal(InnerError::NotFound))
    ));
    let huge = format!("cpu  {} 0 0 0 0 0 0 0\n", u64::MAX / 2);
    assert!(matches!(
        cpus_info.update_global_cpu(&huge),
        Err(Error::Internal(InnerError::Overflow))
    ));
}

#[test]
fn cpu_readers_tell_what_they_can_read() {
    let stat = "cpu  1 2 3 4 5 6 7 8\ncpu0 1 2 3 4 5 6 7 8\nintr 5\n";
    assert!(CpusInfo::is_readable(stat));
    assert!(!CpusInfo::is_readable("cpu  1 2 x 4 5 6 7 8\n"));
    assert!(CpusInfo::global_readable(stat));
    assert!(!CpusInfo::global_readable("cpu  1 2 3\n"));
    let info = CpusInfo::new(stat).unwrap();
    assert!(info.cpus_readable(stat));
    assert!(!info.cpus_readable("cpu  1 2 3 4 5 6 7 8\ncpu0 1 2 3 4 x 6 7 8\n"));
}

#[test]
fn process_directories_are_named_by_digits() {
    let names = vec![
        "1".to_string(),
        "self".to_string(),
        "".to_string(),
        "4213".to_string(),
        "net".to_string(),
        "٣".to_string(),
    ];
    assert_eq!(
        ylong::sysinfo::process::pid_names(names),
        vec!["1".to_string(), "4213".to_string(), "٣".to_string()]
    );
}
