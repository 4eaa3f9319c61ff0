use tianxuan::services::metrics::{
    cpu_delta, df_fields, load_fields, parse_cpu, parse_cpu_checked, parse_diskstats,
    parse_diskstats_checked, parse_mem, parse_netdev, parse_netdev_checked, section, size_parts,
};

const PROC_STAT: &str = "cpu  292889 0 346812 1882344 13250 0 1359 0 0 0";

#[test]
fn test_parse_cpu() {
    let (total, idle) = parse_cpu(PROC_STAT).unwrap();
    assert_eq!(total, 292889 + 346812 + 1882344 + 13250 + 1359);
    assert_eq!(idle, 1882344 + 13250);
}

#[test]
fn test_parse_cpu_invalid() {
    assert!(parse_cpu("cpu 123").is_none());
    assert!(parse_cpu("cpux 1 2 3 4 5").is_none());
}

const FREE_M: &str = "              total        used        free      shared  buff/cache   available
Mem:           3948        1456        1240          18        1251        2102
Swap:             0           0           0";

#[test]
fn test_parse_mem() {
    let (total, used) = parse_mem(FREE_M).unwrap();
    assert_eq!(total, 3948);
    assert_eq!(used, 1456);
}

#[test]
fn test_parse_mem_invalid() {
    assert!(parse_mem("not mem data").is_none());
}

const DISKSTATS: &str = "   8       0 sda 1000 0 2000 500 100 0 400 50 0 600 700 0
 252       0 dm-0 2000 0 4000 800 200 0 800 100 0 900 1100 0
   7       0 loop0 1 0 1 1 0 0 0 0 0 1 1 0";

#[test]
fn test_parse_diskstats_skips_virtual() {
    let (rd, wr) = parse_diskstats(DISKSTATS).unwrap();
    // only sda counted: rd=2000, wr=400 sectors
    assert_eq!(rd, 2000);
    assert_eq!(wr, 400);
}

#[test]
fn test_parse_diskstats_empty() {
    assert!(parse_diskstats("").is_none());
}

const NETDEV: &str = "Inter-|   Receive                                                |  Transmit
 face |bytes    packets errs drop fifo frame compressed multicast|bytes    packets errs drop fifo colls carrier compressed
    lo: 1000    10    0    0    0     0          0         0   1000    10    0    0    0     0       0          0
  eth0: 5242880    512    0    0    0     0          0         0  1048576    128    0    0    0     0       0          0
 ens3: 2621440    256    0    0    0     0          0         0  2097152    256    0    0    0     0       0          0";

#[test]
fn test_parse_netdev_skips_lo() {
    let mut out = Vec::new();
    for line in NETDEV.lines().skip(2) {
        let line = line.trim();
        if line.is_empty() {
            continue;
        }
        let idx = line.find(':').unwrap();
        let iface = line[..idx].trim();
        let rest = line[idx + 1..].trim();
        let nums: Vec<&str> = rest.split_whitespace().collect();
        out.push(format!("iface=[{iface}] first={:?} second={:?}", nums.first(), nums.get(1)));
    }
    println!("DEBUG PARSE: {out:?}");
    let (rx, tx) = parse_netdev(NETDEV).unwrap();
    assert_eq!(rx, 5242880 + 2621440);
    assert_eq!(tx, 1048576 + 2097152);
}

#[test]
fn test_parse_netdev_empty() {
    assert!(parse_netdev("").is_none());
}

#[test]
fn test_section_extraction() {
    let s = "===STAT1===\ncpu 1\n===MEM===\nMem: 1 2\n";
    assert_eq!(section(s, "STAT1"), Some("cpu 1"));
    assert_eq!(section(s, "MEM"), Some("Mem: 1 2"));
    assert_eq!(section(s, "NOPE"), None);
}

#[test]
fn parse_cpu_reads_plus_sign_and_rejects_bad_fields() {
    // `u64::from_str` accepts a leading `+`
    assert_eq!(parse_cpu("cpu +1 2 3 4 5"), Some((15, 9)));
    // exactly four fields: idle is the fourth alone
    assert_eq!(parse_cpu("cpu 1 2 3 4"), Some((10, 4)));
    assert_eq!(parse_cpu("cpu 1 2 3 -4"), None);
    assert_eq!(parse_cpu("cpu 1 2 3 4 x"), None);
    assert_eq!(parse_cpu("  cpu\t1 2 3 4 5 6 7  "), Some((28, 9)));
}

#[test]
fn parse_cpu_checked_reports_overflow() {
    let line = "cpu 18446744073709551615 1 0 0";
    assert_eq!(parse_cpu_checked(line), None);
    assert_eq!(parse_cpu_checked("cpu 18446744073709551615 0 0 0"), Some(Some((u64::MAX, 0))));
    assert_eq!(parse_cpu_checked("cpu 18446744073709551616 0 0 0"), Some(None));
    assert_eq!(parse_cpu_checked("nope"), Some(None));
}

#[test]
fn cpu_delta_busy_and_total() {
    // d_total=1000, d_idle=500: half busy
    assert_eq!(cpu_delta((1000, 900), (2000, 1400)), Some((500, 1000)));
    assert_eq!(cpu_delta((100, 50), (100, 50)), None);
    // counters that went backwards saturate to zero
    assert_eq!(cpu_delta((100, 50), (90, 60)), None);
    assert_eq!(cpu_delta((100, 50), (200, 40)), Some((100, 100)));
}

#[test]
fn parse_mem_takes_first_mem_line_with_numbers() {
    assert_eq!(parse_mem("Mem:\nMem: 10 4\n"), Some((10, 4)));
    assert_eq!(parse_mem("Mem: x 4\nMem: 10 4\n"), None);
    assert_eq!(parse_mem(" Mem: 10 4"), None);
    assert_eq!(parse_mem("Mem: 10 4\r\n"), Some((10, 4)));
}

#[test]
fn parse_diskstats_fails_on_bad_numbers_and_counts_rows() {
    let short = "8 0 sda 1 2 3";
    assert_eq!(parse_diskstats(short), None);
    let bad = "   8       0 sdb 1000 0 x 500 100 0 400 50 0 600 700 0";
    assert_eq!(parse_diskstats(bad), None);
    let two = "8 0 sda 0 0 10 0 0 0 20 0 0 0 0 0\n8 16 sdb 0 0 1 0 0 0 2 0 0 0 0 0\n";
    assert_eq!(parse_diskstats(two), Some((11, 22)));
    let ram = "1 0 ram0 0 0 10 0 0 0 20 0 0 0 0 0";
    assert_eq!(parse_diskstats(ram), None);
    let huge = "8 0 sda 0 0 18446744073709551615 0 0 0 1 0 0 0 0 0\n8 1 sdb 0 0 1 0 0 0 1 0 0 0 0 0";
    assert_eq!(parse_diskstats_checked(huge), None);
}

#[test]
fn parse_netdev_rules() {
    let header = "h1\nh2\n";
    // fewer than nine numbers: skipped
    assert_eq!(parse_netdev(&format!("{header}eth0: 1 2 3\n")), None);
    // no number after the colon: the parse fails
    assert_eq!(parse_netdev(&format!("{header}eth1: 1 0 0 0 0 0 0 0 2\neth0:\n")), None);
    // no colon: skipped
    assert_eq!(parse_netdev(&format!("{header}eth0 1 0 0 0 0 0 0 0 2\neth1: 1 0 0 0 0 0 0 0 2\n")), Some((1, 2)));
    // a bad transmit count fails the parse
    assert_eq!(parse_netdev(&format!("{header}eth1: 1 0 0 0 0 0 0 0 x\n")), None);
    assert_eq!(parse_netdev("only one line"), None);
    let over = format!("{header}a: 18446744073709551615 0 0 0 0 0 0 0 0\nb: 1 0 0 0 0 0 0 0 x\n");
    assert_eq!(parse_netdev_checked(&over), None);
}

#[test]
fn section_edge_cases() {
    let s = "===A===\n  x \n\n===B===\ny";
    assert_eq!(section(s, "A"), Some("  x"));
    assert_eq!(section(s, "B"), Some("y"));
    // the marker needs its newline
    assert_eq!(section("===C===", "C"), None);
    assert_eq!(section("===C===\n", "C"), Some(""));
}

const DF_H: &str = "Filesystem      Size  Used Avail Use% Mounted on
/dev/vda1        40G  8.2G   30G  22% /";

#[test]
fn df_fields_of_root() {
    assert_eq!(
        df_fields(DF_H, "/"),
        Some(("40G".to_string(), "8.2G".to_string(), "22".to_string()))
    );
    assert_eq!(df_fields(DF_H, "/mnt"), None);
    // the header row is never taken
    assert_eq!(df_fields("a 1 2 3 4% /\n", "/"), None);
}

#[test]
fn size_parts_units() {
    assert_eq!(size_parts("40G"), ("40".to_string(), 1024));
    assert_eq!(size_parts(" 512M "), ("512".to_string(), 1));
    assert_eq!(size_parts("2T"), ("2".to_string(), 1048576));
    assert_eq!(size_parts("7"), ("7".to_string(), 1));
}

const UPTIME: &str = " 01:24:15 up 5 days, 10:50,  0 user,  load average: 0.10, 0.04, 0.01";

#[test]
fn load_fields_of_uptime() {
    assert_eq!(
        load_fields(UPTIME),
        Some(("0.10".to_string(), "0.04".to_string(), "0.01".to_string()))
    );
    assert_eq!(load_fields("up 5 days"), None);
    assert_eq!(load_fields("load average: 1, 2"), None);
}

#[test]
fn loopback_lines_change_no_network_total() {
    let base = parse_netdev(NETDEV);
    let with_lo = format!("{NETDEV}\n    lo: 999999 1 0 0 0 0 0 0 888888 1 0 0 0 0 0 0");
    assert_eq!(parse_netdev(&with_lo), base);
    let with_lo_cr = format!("{NETDEV}\r\n lo :  7 1 0 0 0 0 0 0 7 1 0 0 0 0 0 0\r");
    assert_eq!(parse_netdev(&with_lo_cr), base);
    let with_lo_nl = format!("{NETDEV}\n\n  lo: 5 5 5 5 5 5 5 5 5");
    assert_eq!(parse_netdev(&with_lo_nl), base);
}

#[test]
fn uncounted_disk_lines_change_no_disk_total() {
    let base = parse_diskstats(DISKSTATS);
    let loop_line = "   7       0 loop9 99 0 99999 0 0 0 99999 0 0 0 0 0 0 0";
    assert_eq!(parse_diskstats(&format!("{DISKSTATS}\n{loop_line}")), base);
    let short = "   8       0 sdz 1 2 3";
    assert_eq!(parse_diskstats(&format!("{DISKSTATS}\n{short}")), base);
    assert_eq!(parse_diskstats(&format!("{DISKSTATS}\n")), base);
}
