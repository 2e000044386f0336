use vault_watch::collectors::smart::{classify_unavailable_output, launch_failure, parse_smart_output};
use vault_watch::monitor::{HealthStatus, MetricAvailability};

const SAMPLE_OUTPUT: &str = "\
Serial number:        XXXX000000
SMART Health Status: OK
Current Drive Temperature:     53 C
Power_On_Hours:       12345
Elements in grown defect list: 7
Non-medium error count:  16373
read:          0        0         0         0         32         0.000           0
write:         0        0         0         0          0         0.000           0
";

#[test]
fn test_parse_full() {
    let info = parse_smart_output("sdc", SAMPLE_OUTPUT);
    assert_eq!(info.device, "sdc");
    assert_eq!(info.serial, Some("XXXX000000".to_string()));
    assert_eq!(info.temperature_c, Some(53));
    assert_eq!(info.health, HealthStatus::Healthy);
    assert_eq!(info.health_availability, MetricAvailability::Available);
    assert_eq!(info.power_on_hours, Some(12345));
    assert_eq!(info.grown_defects, Some(7));
    assert_eq!(info.non_medium_errors, Some(16373));
    assert_eq!(info.read_errors, Some(32));
    assert_eq!(info.write_errors, Some(0));
}

#[test]
fn test_parse_empty_output() {
    let info = parse_smart_output("sdd", "");
    assert_eq!(info.device, "sdd");
    assert!(info.serial.is_none());
    assert!(info.temperature_c.is_none());
    assert_eq!(info.health, HealthStatus::Unavailable);
    assert_eq!(
        info.health_availability,
        MetricAvailability::TemporarilyUnavailable
    );
    assert!(info.power_on_hours.is_none());
}

#[test]
fn test_health_passed() {
    let info = parse_smart_output("sde", "SMART Health Status: PASSED\n");
    assert_eq!(info.health, HealthStatus::Healthy);
}

#[test]
fn missing_health_and_zero_temperature_are_unavailable_not_failed() {
    let info = parse_smart_output("sda", "Current Drive Temperature:     0 C\n");

    assert_eq!(info.health, HealthStatus::Unavailable);
    assert_eq!(info.temperature_c, None);
}

#[test]
fn explicit_failed_health_remains_failed() {
    let info = parse_smart_output("sda", "SMART Health Status: FAILED\n");

    assert_eq!(info.health, HealthStatus::Failed);
}

#[test]
fn ambiguous_health_is_unavailable_not_failed() {
    let info = parse_smart_output("sda", "SMART Health Status: UNKNOWN\n");

    assert_eq!(info.health, HealthStatus::Unavailable);
    assert_eq!(info.health_availability, MetricAvailability::Malformed);
}

#[test]
fn unavailable_diagnostics_remain_typed() {
    assert_eq!(
        classify_unavailable_output("", "Permission denied"),
        MetricAvailability::PermissionDenied
    );
    assert_eq!(
        classify_unavailable_output("Device is in STANDBY", ""),
        MetricAvailability::Asleep
    );
    assert_eq!(
        classify_unavailable_output("unsupported device", ""),
        MetricAvailability::Unsupported
    );
    assert_eq!(
        classify_unavailable_output("", "No such device"),
        MetricAvailability::DeviceGone
    );
}

#[test]
fn launch_failures_are_told_apart_by_kind() {
    let missing = launch_failure("sda".into(), &std::io::Error::from(std::io::ErrorKind::NotFound));
    assert_eq!(missing.health_availability, MetricAvailability::Unsupported);
    assert_eq!(missing.device, "sda");
    let denied =
        launch_failure("sdb".into(), &std::io::Error::from(std::io::ErrorKind::PermissionDenied));
    assert_eq!(denied.health_availability, MetricAvailability::PermissionDenied);
    let other = launch_failure("sdc".into(), &std::io::Error::from(std::io::ErrorKind::TimedOut));
    assert_eq!(other.health_availability, MetricAvailability::TemporarilyUnavailable);
}
