use deckox::agent::storage::{is_standard_mount, parse_df_rows};
use deckox::agent::system::{
    bytes_per_second, calculate_disk_metrics, calculate_network_metrics,
    cpu_temperature_millidegrees, os_identity, parse_cpu_sample, parse_disk_sample,
    parse_key_values, parse_memory, parse_network_sample, parse_uptime, CpuSample, DiskSample,
    NetworkSample,
};

fn value<'a>(pairs: &'a [(String, String)], key: &str) -> Option<&'a str> {
    pairs.iter().rev().find(|(k, _)| k == key).map(|(_, v)| v.as_str())
}

#[test]
fn parses_gnu_df_output() {
    let mounts = parse_df_rows(
        "Filesystem Type 1-blocks Used Available Capacity Mounted on\n\
         /dev/sda2 ext4 1000000 400000 600000 40% /\n\
         /dev/sda1 vfat 1000 200 800 20% /boot/efi\n",
    );

    assert_eq!(mounts.len(), 2);
    assert_eq!(mounts[0].filesystem_type, "ext4");
    assert_eq!(mounts[0].usage_percent, "40");
    assert_eq!(mounts[0].total_bytes, 1_000_000);
    assert_eq!(mounts[1].mount_point, "/boot/efi");
}

#[test]
fn tags_only_well_known_system_mount_points_as_standard() {
    let mounts = parse_df_rows(
        "Filesystem Type 1-blocks Used Available Capacity Mounted on\n\
         /dev/sda2 ext4 1000000 400000 600000 40% /\n\
         overlay overlay 1000000 400000 600000 40% /var/lib/docker\n",
    );

    assert!(mounts[0].standard, "/ is a well-known system mount point");
    assert!(!mounts[1].standard, "an application data mount is not a system mount point");
    assert!(is_standard_mount("/boot/efi"));
    assert!(!is_standard_mount("/data"));
}

#[test]
fn df_output_without_rows_gives_nothing() {
    assert!(parse_df_rows("Filesystem Type 1-blocks Used Available Capacity Mounted on\n").is_empty());
    assert!(parse_df_rows("").is_empty());
}

#[test]
fn parses_os_release() {
    let values = parse_key_values("NAME=\"Ubuntu\"\nVERSION_ID=\"24.04\"\n");
    assert_eq!(value(&values, "NAME"), Some("Ubuntu"));
    assert_eq!(value(&values, "VERSION_ID"), Some("24.04"));
    assert_eq!(
        os_identity("NAME=\"Ubuntu\"\nVERSION_ID=\"24.04\"\n"),
        ("Ubuntu".to_owned(), Some("24.04".to_owned()))
    );
    assert_eq!(os_identity(""), ("Linux".to_owned(), None));
}

#[test]
fn parses_uptime_seconds() {
    assert_eq!(parse_uptime("1234.56 789.00").expect("valid uptime"), 1234);
    assert!(parse_uptime("").is_err());
}

#[test]
fn parses_cpu_values_and_usage() {
    let sample = parse_cpu_sample("cpu  100 2 30 400 10 5 6 0\n").expect("valid CPU");
    assert_eq!(sample, CpuSample { idle: 410, total: 553 });
}

#[test]
fn parses_memory_values() {
    let memory = parse_memory(
        "MemTotal: 1000 kB\nMemAvailable: 400 kB\nSwapTotal: 200 kB\nSwapFree: 150 kB\n",
    )
    .expect("valid memory");
    assert_eq!(memory.used_bytes, 600 * 1024);
    assert_eq!(memory.swap_used_bytes, 50 * 1024);
    assert_eq!(memory.total_bytes, 1000 * 1024);
}

#[test]
fn parses_only_eligible_network_interfaces() {
    let eligible = vec!["eth0".to_owned()];
    let sample = parse_network_sample(
        "Inter-| Receive | Transmit\n\
         lo: 100 0 0 0 0 0 0 0 200 0 0 0 0 0 0 0\n\
         eth0: 1024 1 2 3 4 5 6 7 2048 9 10 11 12 13 14 15\n\
         veth1: 9000 0 0 0 0 0 0 0 8000 0 0 0 0 0 0 0\n",
        &eligible,
    )
    .expect("eligible interface");
    assert_eq!(sample, NetworkSample { received_bytes: 1024, transmitted_bytes: 2048 });
}

#[test]
fn ignores_malformed_network_counters() {
    let eligible = vec!["eth0".to_owned()];
    assert!(parse_network_sample("eth0: invalid\n", &eligible).is_none());
}

#[test]
fn parses_disk_sectors_as_bytes_for_eligible_devices() {
    let eligible = vec!["sda".to_owned()];
    let sample = parse_disk_sample(
        "8 0 sda 10 0 20 0 30 0 40 0 0 0 0 0 0 0\n\
         8 1 sda1 10 0 200 0 30 0 400 0 0 0 0 0 0 0\n\
         7 0 loop0 10 0 500 0 30 0 600 0 0 0 0 0 0 0\n",
        &eligible,
    )
    .expect("eligible disk");
    assert_eq!(sample, DiskSample { read_bytes: 20 * 512, written_bytes: 40 * 512 });
}

#[test]
fn calculates_rates_and_rejects_invalid_counter_windows() {
    assert_eq!(bytes_per_second(1_000, 2_000, 250_000_000), Some(4_000));
    assert_eq!(bytes_per_second(2_000, 1_000, 1_000_000_000), None);
    assert_eq!(bytes_per_second(0, 1, 0), None);

    let network = calculate_network_metrics(
        Some(NetworkSample { received_bytes: 100, transmitted_bytes: 300 }),
        Some(NetworkSample { received_bytes: 300, transmitted_bytes: 700 }),
        2_000_000_000,
    )
    .expect("network rate");
    assert_eq!(network.received_bytes_per_second, 100);
    assert_eq!(network.transmitted_bytes_per_second, 200);

    let disk = calculate_disk_metrics(
        Some(DiskSample { read_bytes: 10, written_bytes: 20 }),
        Some(DiskSample { read_bytes: 30, written_bytes: 60 }),
        2_000_000_000,
    )
    .expect("disk rate");
    assert_eq!(disk.read_bytes_per_second, 10);
    assert_eq!(disk.written_bytes_per_second, 20);
    assert!(calculate_disk_metrics(None, None, 1).is_none());
}

#[test]
fn accepts_only_plausible_cpu_temperatures() {
    assert_eq!(cpu_temperature_millidegrees("cpu-thermal\n", "52750\n"), Some(52750));
    assert_eq!(cpu_temperature_millidegrees("x86_pkg_temp", "80000"), Some(80000));
    assert_eq!(cpu_temperature_millidegrees("battery", "35000"), None);
    assert_eq!(cpu_temperature_millidegrees("cpu-thermal", "not-a-number"), None);
    assert_eq!(cpu_temperature_millidegrees("cpu-thermal", "200000"), None);
}
