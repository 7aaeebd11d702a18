use ylong::sysinfo::error::{Error, InnerError};
use ylong::sysinfo::windows::cpu::{counter_usage, cpu_counter_path, total_counter_path};
use ylong::sysinfo::windows::disk::{
    count_ones, drive_indices, mount_point, Disk, DisksInfo, DriveAnswers, DriveType, SpaceInfo,
    VolumeInfo,
};
use ylong::sysinfo::windows::memory::{MemoryInfo, MemoryStatus};
use ylong::sysinfo::windows::network::{
    adapter_step, get_ip_address, get_name, ipv4_string, ipv6_string, mac8_string, AdapterAnswer,
    AdapterStep, IfRow, IpAddr, IpAnswer, Network, NetworksInfo,
};
use ylong::sysinfo::windows::process::{
    entry_offsets, next_step, process_name, ProcessEntry, ProcessesInfo, QueryStep,
    STATUS_INFO_LENGTH_MISMATCH,
};
use ylong::sysinfo::windows::text::units_before_nul;
use ylong::sysinfo::process::Pid;

fn wide(s: &str) -> Vec<u16> {
    let mut v: Vec<u16> = s.encode_utf16().collect();
    v.push(0);
    v
}

fn volume(name: &str, fs: &str, kind: u32) -> VolumeInfo {
    VolumeInfo {
        name: wide(name),
        file_system: wide(fs),
        drive_type: kind,
    }
}

#[test]
fn windows_drive_type_numbers() {
    assert_eq!(DriveType::try_from(0).unwrap(), DriveType::Unknown);
    assert_eq!(DriveType::try_from(2).unwrap(), DriveType::Removable);
    assert_eq!(DriveType::try_from(3).unwrap(), DriveType::Fixed);
    assert_eq!(DriveType::try_from(6).unwrap(), DriveType::RamDisk);
    assert!(matches!(
        DriveType::try_from(7),
        Err(Error::Internal(InnerError::CannotConvert))
    ));
}

#[test]
fn windows_drive_mask_names_drives() {
    assert_eq!(count_ones(0b1011_0100), 4);
    assert_eq!(count_ones(0), 0);
    assert_eq!(count_ones(u32::MAX), 32);
    assert_eq!(drive_indices(0b1100), vec![2, 3]);
    assert_eq!(drive_indices(0), Vec::<u32>::new());
    let all = drive_indices(u32::MAX);
    assert_eq!(all.len(), 32);
    assert!(all.iter().all(|i| *i < 32));
    assert_eq!(mount_point(2), "C:\\");
    assert_eq!(mount_point(0), "A:\\");
}

#[test]
fn windows_disk_from_answers() {
    let space = SpaceInfo {
        avail: 30,
        total: 100,
        free: 40,
    };
    let mut d = Disk::new(2, &volume("System", "NTFS", 3), &space);
    assert_eq!(d.device_name(), "System");
    assert_eq!(d.file_system(), "NTFS");
    assert_eq!(d.mount_point(), "C:\\");
    assert_eq!(*d.drive_type(), DriveType::Fixed);
    assert!(!d.is_removable());
    assert_eq!(d.total_space(), 100);
    assert_eq!(d.free_space(), 40);
    assert_eq!(d.avail_space(), 30);
    assert_eq!(d.used_space(), 60);
    let later = SpaceInfo {
        avail: 5,
        total: 100,
        free: 10,
    };
    assert!(d.update(&later).is_ok());
    assert_eq!(d.used_space(), 90);
    assert_eq!(d.device_name(), "System");
}

#[test]
fn windows_disks_info_from_mask() {
    let answers = vec![
        DriveAnswers {
            volume: Some(volume("Boot", "NTFS", 3)),
            space: Some(SpaceInfo {
                avail: 1,
                total: 8,
                free: 2,
            }),
        },
        DriveAnswers {
            volume: Some(volume("Stick", "FAT32", 2)),
            space: Some(SpaceInfo {
                avail: 3,
                total: 4,
                free: 3,
            }),
        },
    ];
    let info = DisksInfo::new(0b10100, &answers).unwrap();
    let disks = info.disks();
    assert_eq!(disks.len(), 2);
    assert_eq!(disks[0].mount_point(), "C:\\");
    assert_eq!(disks[1].mount_point(), "D:\\");
    assert!(disks[1].is_removable());
    assert_eq!(info.iter().len(), 2);
    assert_eq!(info.disk_at("D:\\").unwrap().device_name(), "Stick");
    assert!(info.disk_at("Z:\\").is_err());

    let failed = vec![DriveAnswers {
        volume: None,
        space: None,
    }];
    assert!(matches!(
        DisksInfo::new(1, &failed),
        Err(Error::Internal(InnerError::GetVolumeInfoFailed))
    ));
    let no_space = vec![DriveAnswers {
        volume: Some(volume("A", "NTFS", 3)),
        space: None,
    }];
    assert!(matches!(
        DisksInfo::new(1, &no_space),
        Err(Error::Internal(InnerError::GetDiskFreeSpaceFailed))
    ));
}

#[test]
fn windows_memory_figures() {
    let s = MemoryStatus {
        memory_load: 42,
        total_phys: 8_000,
        avail_phys: 3_000,
    };
    let mut m = MemoryInfo::new(&s);
    assert_eq!(m.memory_load(), 42);
    assert_eq!(m.total_phys(), 8_000);
    assert_eq!(m.avail_phys(), 3_000);
    m.update(&MemoryStatus {
        memory_load: 50,
        total_phys: 8_000,
        avail_phys: 100,
    });
    assert_eq!(m.memory_load(), 50);
    assert_eq!(m.avail_phys(), 100);
}

#[test]
fn windows_text_of_units() {
    assert_eq!(units_before_nul(&wide("eth0")), "eth0".encode_utf16().collect::<Vec<u16>>());
    assert_eq!(units_before_nul(&[65, 0, 66]), vec![65u16]);
    assert_eq!(process_name(9, &Some(vec![0xD800, 0x41])), "\u{FFFD}A");
}

#[test]
fn windows_process_query_steps() {
    assert_eq!(next_step(0, 0, 100), QueryStep::Parse);
    assert_eq!(next_step(-5, 0, 100), QueryStep::Failed);
    assert_eq!(
        next_step(STATUS_INFO_LENGTH_MISMATCH, 0, 100),
        QueryStep::Retry(200)
    );
    assert_eq!(
        next_step(STATUS_INFO_LENGTH_MISMATCH, 1000, 100),
        QueryStep::Retry(11240)
    );
}

#[test]
fn windows_process_entry_chain() {
    let mut buf = vec![0u8; 24];
    buf[0] = 8;
    buf[8] = 12;
    assert_eq!(entry_offsets(&buf), Some(vec![0, 8, 20]));
    let mut bad = vec![0u8; 8];
    bad[0] = 6;
    assert_eq!(entry_offsets(&bad), None);
    assert_eq!(entry_offsets(&[1, 0]), None);
}

#[test]
fn windows_process_names() {
    assert_eq!(process_name(0, &None), "Idle");
    assert_eq!(process_name(4, &None), "System");
    assert_eq!(process_name(77, &None), "<no name> Process Pid(77)");
    assert_eq!(
        process_name(77, &Some("app.exe".encode_utf16().collect())),
        "app.exe"
    );
}

#[test]
fn windows_processes_info() {
    let entries = vec![
        ProcessEntry {
            pid: 0,
            image: None,
        },
        ProcessEntry {
            pid: 12,
            image: Some("shell.exe".encode_utf16().collect()),
        },
        ProcessEntry {
            pid: 13,
            image: Some("shell.exe".encode_utf16().collect()),
        },
    ];
    let mut info = ProcessesInfo::new(&entries).unwrap();
    assert_eq!(info.processes().len(), 3);
    assert_eq!(info.process(&Pid(12)).unwrap().name(), "shell.exe");
    assert_eq!(info.process(&Pid(0)).unwrap().name(), "Idle");
    assert!(info.process(&Pid(99)).is_none());
    assert_eq!(info.processes_by_exact_name("shell.exe").len(), 2);
    assert_eq!(info.processes_by_name("shell").len(), 2);
    assert_eq!(info.processes_by_name("Idl").len(), 1);
    info.update(&entries[1..2].to_vec()).unwrap();
    assert_eq!(info.processes().len(), 1);
}

#[test]
fn windows_adapter_steps_and_addresses() {
    assert_eq!(adapter_step(0), AdapterStep::Read);
    assert_eq!(adapter_step(111), AdapterStep::Retry);
    assert_eq!(adapter_step(5), AdapterStep::Failed);
    assert_eq!(ipv4_string(&[192, 168, 0, 1]), "192.168.0.1");
    assert_eq!(ipv6_string(&[0, 0, 0, 0, 0, 0, 0, 1]), "0:0:0:0:0:0:0:1");
    assert_eq!(
        mac8_string(&[0, 0x1a, 0xff, 3, 4, 5, 6, 7]),
        "00:1a:ff:03:04:05:06:07"
    );
    assert_eq!(
        get_ip_address(&IpAnswer::V4(vec![127, 0, 0, 1])).unwrap(),
        IpAddr::V4("127.0.0.1".to_string())
    );
    assert!(matches!(
        get_ip_address(&IpAnswer::Missing),
        Err(Error::Internal(InnerError::GetIPAddressFailed))
    ));
}

fn adapter(name: &str, luid: u64, ip: IpAnswer, row: Option<IfRow>) -> AdapterAnswer {
    AdapterAnswer {
        friendly_name: wide(name),
        luid,
        physical_address: vec![1, 2, 3, 4, 5, 6, 7, 8],
        ip,
        row,
    }
}

#[test]
fn windows_network_adapters() {
    let row = IfRow {
        in_octets: 1000,
        out_octets: 2000,
        in_ucast_pkts: 10,
        in_nucast_pkts: 1,
        out_ucast_pkts: 20,
        out_nucast_pkts: 2,
    };
    let answers = vec![
        adapter("Loopback", 1, IpAnswer::V4(vec![127, 0, 0, 1]), None),
        adapter("Ethernet", 2, IpAnswer::V4(vec![10, 0, 0, 2]), Some(row)),
        adapter("Ethernet", 3, IpAnswer::V6(vec![0, 0, 0, 0, 0, 0, 0, 1]), None),
        adapter("Nothing", 4, IpAnswer::OtherFamily, None),
    ];
    assert_eq!(get_name(&answers[1]), "Ethernet");
    let info = NetworksInfo::new(&answers).unwrap();
    let nets = info.iter();
    assert_eq!(nets.len(), 2);
    assert_eq!(nets[0].name(), "Loopback");
    assert!(nets[0].is_loopback());
    assert_eq!(nets[1].ipv4(), "10.0.0.2");
    assert_eq!(nets[1].ipv6(), "");
    assert!(!nets[1].is_loopback());
    assert_eq!(nets[1].rx_bytes(), 1000);
    assert_eq!(nets[1].tx_bytes(), 2000);
    assert_eq!(nets[1].rx_packets(), 11);
    assert_eq!(nets[1].tx_packets(), 22);
    assert_eq!(nets[1].mac(), "01:02:03:04:05:06:07:08");
    assert!(info.get("Nothing").is_none());
    assert_eq!(info.get("Ethernet").unwrap().ipv4(), "10.0.0.2");

    let mut n = Network::new("x".to_string());
    assert!(n
        .update_baseinfo(&adapter("x", 9, IpAnswer::V6(vec![0, 0, 0, 0, 0, 0, 0, 1]), None))
        .is_ok());
    assert!(n.is_loopback());
    assert!(matches!(
        n.update_baseinfo(&adapter("x", 9, IpAnswer::Missing, None)),
        Err(Error::Internal(InnerError::GetIPAddressFailed))
    ));
    assert_eq!(n.ipv6(), "0:0:0:0:0:0:0:1");
}

#[test]
fn windows_processor_counters() {
    assert_eq!(total_counter_path(), wide(r"\Processor(_Total)\% Processor Time"));
    assert_eq!(cpu_counter_path(3), wide(r"\Processor(3)\% Processor Time"));
    assert_eq!(cpu_counter_path(12), wide(r"\Processor(12)\% Processor Time"));
    assert_eq!(counter_usage(0, 57), 5700);
    assert_eq!(counter_usage(0, 100), 10000);
    assert_eq!(counter_usage(0, 150), 10000);
    assert_eq!(counter_usage(1, 57), 0);
    assert_eq!(counter_usage(0, 0), 0);
}

#[test]
fn windows_loopback_is_127_slash_8_or_ipv6_one() {
    let mut n = Network::new("a".to_string());
    assert!(n
        .update_baseinfo(&adapter("a", 1, IpAnswer::V4(vec![192, 168, 1, 127]), None))
        .is_ok());
    assert!(!n.is_loopback());
    let mut n = Network::new("b".to_string());
    assert!(n
        .update_baseinfo(&adapter("b", 1, IpAnswer::V4(vec![10, 127, 0, 1]), None))
        .is_ok());
    assert!(!n.is_loopback());
    let mut n = Network::new("c".to_string());
    assert!(n
        .update_baseinfo(&adapter("c", 1, IpAnswer::V4(vec![127, 5, 0, 1]), None))
        .is_ok());
    assert!(n.is_loopback());
}

#[test]
fn windows_name_decodes_surrogates_lossily() {
    let units: Vec<u16> = vec![0xD834, 0xDD1E, 0x006d, 0xDD1E, 0x0069, 0xD834, 0xD834];
    assert_eq!(process_name(9, &Some(units)), "\u{1D11E}m\u{FFFD}i\u{FFFD}\u{FFFD}");
}
