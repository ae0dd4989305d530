use mini_lmk::procfs::{
    check_mem_critical, format_proc_path, read_meminfo_kb, read_oom_score_adj, read_statm_rss_kb, read_total_ram_mb,
};

const MEMINFO: &[u8] = b"MemTotal:        7654321 kB\nMemFree:          123456 kB\nMemAvailable:    2345678 kB\nBuffers: 1 kB\n";

#[test]
fn test_read_meminfo_kb() {
    let (total_kb, _) = read_meminfo_kb(MEMINFO);
    assert!(total_kb > 0);
    assert_eq!(read_meminfo_kb(MEMINFO), (7654321, 2345678));
}

#[test]
fn test_read_total_ram_mb() {
    let ram_mb = read_total_ram_mb(read_meminfo_kb(MEMINFO).0);
    assert!(ram_mb > 0);
    assert_eq!(ram_mb, 7474);
    assert_eq!(read_total_ram_mb(0), 4096);
    assert_eq!(read_total_ram_mb(1023), 0);
}

fn path_in(buf: &[u8; 32]) -> &str {
    let end = buf.iter().position(|&b| b == 0).unwrap();
    std::str::from_utf8(&buf[..end]).unwrap()
}

#[test]
fn test_format_proc_path() {
    let mut buf = [0u8; 32];
    format_proc_path(&mut buf, 12345, "statm");
    assert_eq!(path_in(&buf), "/proc/12345/statm");

    let mut buf2 = [0u8; 32];
    format_proc_path(&mut buf2, 0, "cmdline");
    assert_eq!(path_in(&buf2), "/proc/0/cmdline");

    // Verify dirty buffer and overflow resilience
    let mut dirty = [0xFFu8; 32];
    format_proc_path(&mut dirty, 99999, "suffix_that_is_far_too_long_for_this_small_buffer");
    assert_eq!(dirty[31], 0);
    assert!(path_in(&dirty).starts_with("/proc/99999/"));
    assert_eq!(path_in(&dirty), "/proc/99999/suffix_that_is_far_");
    assert_eq!(path_in(&dirty).len(), 31);

    format_proc_path(&mut dirty, u32::MAX, "oom_score_adj");
    assert_eq!(path_in(&dirty), "/proc/4294967295/oom_score_adj");
}

#[test]
fn the_second_number_of_statm_is_resident() {
    assert_eq!(read_statm_rss_kb(b"1000 250 30 4 0 60 0\n", 4), 1000);
    assert_eq!(read_statm_rss_kb(b"1000 250", 16), 4000);
    assert_eq!(read_statm_rss_kb(b"", 4), 0);
    assert_eq!(read_statm_rss_kb(b"1000", 4), 0);
    assert_eq!(read_statm_rss_kb(b"1000 x", 4), 0);
    assert_eq!(read_statm_rss_kb(b"1 \xff", 4), 0);
}

#[test]
fn scores_are_signed_numbers() {
    assert_eq!(read_oom_score_adj(b"900\n"), Some(900));
    assert_eq!(read_oom_score_adj(b" -1000 \n"), Some(-1000));
    assert_eq!(read_oom_score_adj(b"-2147483648"), Some(i32::MIN));
    assert_eq!(read_oom_score_adj(b"2147483648"), None);
    assert_eq!(read_oom_score_adj(b""), None);
    assert_eq!(read_oom_score_adj(b"9 0"), None);
    assert_eq!(read_oom_score_adj(b"\xff"), None);
}

#[test]
fn meminfo_is_read_until_both_amounts_are_known() {
    assert_eq!(read_meminfo_kb(b""), (0, 0));
    assert_eq!(read_meminfo_kb(b"\xff"), (0, 0));
    assert_eq!(read_meminfo_kb(b"MemTotal: 5 kB"), (5, 0));
    assert_eq!(read_meminfo_kb(b"MemTotal: x\nMemAvailable: 7\n"), (0, 7));
    assert_eq!(read_meminfo_kb(b"MemTotal: 5\nMemAvailable: 7\nMemTotal: 9\n"), (5, 7));
    assert_eq!(read_meminfo_kb(b"MemTotal: 5\nMemTotal: 9\nMemAvailable: 7\n"), (9, 7));
}

#[test]
fn memory_is_critical_below_the_percentage() {
    assert!(check_mem_critical(1000, 99, 10));
    assert!(!check_mem_critical(1000, 100, 10));
    assert!(!check_mem_critical(0, 0, 10));
    assert!(!check_mem_critical(1000, 0, 0));
    assert!(check_mem_critical(u64::MAX, u64::MAX, u64::MAX));
}
