use phomogen::app::system_info::{deepest_mount, drive_refresh_due, CoreLimits, DEFAULT_MAX_CORES};

#[test]
fn max_allowed_cores_should_be_bullied_into_range() {
    let mut sys_info = CoreLimits::detect();

    let total_cores = sysinfo::System::physical_core_count().expect("could not determine core count") as u32;

    sys_info.set_max_allowed_cores(0);
    assert_eq!(sys_info.max_allowed_cores(), 1, "should not be lower than 1");

    sys_info.set_max_allowed_cores(total_cores + 1);
    assert_eq!(sys_info.max_allowed_cores(), total_cores, "should not be more than system's total cores");
}

#[test]
fn unknown_core_count_allows_four_and_caps_nothing() {
    let mut limits = CoreLimits::new(None);
    assert_eq!(limits.max_allowed_cores(), DEFAULT_MAX_CORES);
    limits.set_max_allowed_cores(64);
    assert_eq!(limits.max_allowed_cores(), 64);
    let mut limits = CoreLimits::new(Some(8));
    assert_eq!(limits.max_allowed_cores(), 8);
    limits.set_max_allowed_cores(3);
    assert_eq!(limits.max_allowed_cores(), 3);
    assert_eq!(limits.available_physical_cores(), Some(8));
}

#[test]
fn drive_figures_refresh_once_the_interval_has_run_out() {
    assert!(!drive_refresh_due(999_999_999, 1_000_000_000));
    assert!(drive_refresh_due(1_000_000_000, 1_000_000_000));
    assert!(drive_refresh_due(1_000_000_001, 1_000_000_000));
    assert!(drive_refresh_due(0, 0));
}

#[test]
fn the_deepest_mount_holding_the_directory_is_chosen() {
    assert_eq!(deepest_mount(&[], &[]), None);
    assert_eq!(deepest_mount(&[false, false], &[1, 3]), None);
    assert_eq!(deepest_mount(&[true, true, false], &[1, 3, 5]), Some(1));
    assert_eq!(deepest_mount(&[true, true, true], &[2, 1, 2]), Some(2));
}
