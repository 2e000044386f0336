use vault_watch::config::{
    detect_disk_devices, distro_from_os_release, line_colors, missing_dependencies,
    outbound_notifications, parse_hex, resolve_devices, smartctl_base_cmd, uid_from_status,
    validate_discord, validate_executable, validate_graph_colors, validate_system, ConfigError,
    DiscordConfig, Distro, Executable, RgbColor, SystemConfig,
};

fn system() -> SystemConfig {
    SystemConfig {
        smartctl_prefix: None,
        smartctl_path: None,
        iostat_path: None,
        devices: None,
    }
}

fn strings(values: &[&str]) -> Vec<String> {
    values.iter().map(|v| v.to_string()).collect()
}

#[test]
fn rejects_command_and_device_injection() {
    let config = SystemConfig {
        smartctl_prefix: Some("sh".into()),
        devices: Some(strings(&["../../etc/shadow"])),
        ..system()
    };
    assert_eq!(validate_system(&config), Err(ConfigError::SmartctlPrefix));
    let devices = SystemConfig {
        devices: Some(strings(&["sda", "../../etc/shadow"])),
        ..system()
    };
    assert_eq!(
        validate_system(&devices),
        Err(ConfigError::InvalidDevice("../../etc/shadow".into()))
    );
    let empty = SystemConfig {
        devices: Some(strings(&[""])),
        ..system()
    };
    assert!(validate_system(&empty).is_err());
    let fine = SystemConfig {
        smartctl_prefix: Some("doas".into()),
        devices: Some(strings(&["sda", "nvme0n1", "dm_0-x"])),
        ..system()
    };
    assert_eq!(validate_system(&fine), Ok(()));
}

#[test]
fn rejects_executable_from_untrusted_directory() {
    let config = SystemConfig {
        smartctl_path: Some("/tmp/smartctl".into()),
        ..system()
    };
    assert_eq!(
        validate_system(&config),
        Err(ConfigError::UntrustedDirectory(Executable::Smartctl))
    );
    assert_eq!(validate_executable(Some("/usr/sbin/smartctl"), Executable::Smartctl), Ok(()));
    assert_eq!(validate_executable(Some("smartctl"), Executable::Smartctl), Ok(()));
    assert_eq!(validate_executable(None, Executable::Iostat), Ok(()));
    assert_eq!(
        validate_executable(Some("/usr/bin/sh"), Executable::Smartctl),
        Err(ConfigError::ExecutableName(Executable::Smartctl))
    );
    assert_eq!(
        validate_executable(Some("bin/iostat"), Executable::Iostat),
        Err(ConfigError::UntrustedDirectory(Executable::Iostat))
    );
}

#[test]
fn rejects_non_discord_webhook() {
    let bad = DiscordConfig {
        webhook_url: Some("https://attacker.invalid/collect".into()),
    };
    assert_eq!(validate_discord(&bad), Err(ConfigError::Webhook));
    let blank = DiscordConfig {
        webhook_url: Some("   ".into()),
    };
    assert_eq!(validate_discord(&blank), Ok(()));
    assert!(!outbound_notifications(Some(&blank)));
    let good = DiscordConfig {
        webhook_url: Some("https://discord.com/api/webhooks/1/abc".into()),
    };
    assert_eq!(validate_discord(&good), Ok(()));
    assert!(outbound_notifications(Some(&good)));
    assert!(!outbound_notifications(None));
}

#[test]
fn validates_and_resolves_graph_colors() {
    let colors = strings(&["#010203"]);
    let background = "#0A0B0C".to_string();
    assert_eq!(validate_graph_colors(Some(&colors), Some(&background)), Ok(()));
    assert_eq!(line_colors(&colors), vec![RgbColor { r: 1, g: 2, b: 3 }]);
    assert_eq!(parse_hex("#0A0B0C"), Some(RgbColor { r: 10, g: 11, b: 12 }));
    assert_eq!(parse_hex("#ffFFff"), Some(RgbColor { r: 255, g: 255, b: 255 }));
}

#[test]
fn rejects_invalid_graph_theme_without_silent_fallback() {
    let red = strings(&["red"]);
    assert_eq!(validate_graph_colors(Some(&red), None), Err(ConfigError::LineColors));
    let none: Vec<String> = Vec::new();
    assert_eq!(validate_graph_colors(Some(&none), None), Err(ConfigError::LineColors));
    let many = vec!["#000000".to_string(); 17];
    assert_eq!(validate_graph_colors(Some(&many), None), Err(ConfigError::LineColors));
    let background = "000000".to_string();
    assert_eq!(validate_graph_colors(None, Some(&background)), Err(ConfigError::IoBackground));
    assert_eq!(parse_hex("#12345"), None);
    assert_eq!(parse_hex("#12345g"), None);
    assert_eq!(line_colors(&strings(&["#000000", "bad", "#FFFFFF"])).len(), 2);
}

#[test]
fn smartctl_command_honours_prefix_and_root() {
    let (program, args) = smartctl_base_cmd(None, false);
    assert_eq!(program, "sudo");
    assert_eq!(args, vec!["smartctl".to_string()]);
    let (program, args) = smartctl_base_cmd(None, true);
    assert_eq!(program, "smartctl");
    assert!(args.is_empty());
    let explicit = SystemConfig {
        smartctl_prefix: Some(String::new()),
        smartctl_path: Some("/usr/sbin/smartctl".into()),
        ..system()
    };
    let (program, args) = smartctl_base_cmd(Some(&explicit), false);
    assert_eq!(program, "/usr/sbin/smartctl");
    assert!(args.is_empty());
    let doas = SystemConfig {
        smartctl_prefix: Some("doas".into()),
        ..system()
    };
    let (program, args) = smartctl_base_cmd(Some(&doas), true);
    assert_eq!(program, "doas");
    assert_eq!(args, vec!["smartctl".to_string()]);
}

#[test]
fn uid_comes_from_the_first_uid_line() {
    assert_eq!(uid_from_status("Name:\tx\nUid:\t0\t0\t0\t0\n"), Some(0));
    assert_eq!(uid_from_status("Uid:\t1000\t1000\t1000\t1000\nUid:\t0\n"), Some(1000));
    assert_eq!(uid_from_status("Uid:\n"), None);
    assert_eq!(uid_from_status("Gid:\t0\n"), None);
    assert_eq!(uid_from_status("Uid:\t99999999999\n"), None);
}

#[test]
fn devices_come_from_configuration_or_detection() {
    let detected = detect_disk_devices(strings(&["sdb", "nvme0n1", "sda", "loop0"]));
    assert_eq!(detected, strings(&["sda", "sdb"]));
    let configured = SystemConfig {
        devices: Some(strings(&["sdz"])),
        ..system()
    };
    assert_eq!(resolve_devices(Some(&configured), detected.clone()), strings(&["sdz"]));
    let empty = SystemConfig {
        devices: Some(Vec::new()),
        ..system()
    };
    assert_eq!(resolve_devices(Some(&empty), detected.clone()), detected);
    assert_eq!(resolve_devices(None, Vec::new()), Vec::<String>::new());
}

#[test]
fn distribution_hint_follows_os_release() {
    assert_eq!(distro_from_os_release("NAME=\"Ubuntu\"\nID=ubuntu\n"), Distro::Ubuntu);
    assert_eq!(distro_from_os_release("ID=\"Rocky\"\n"), Distro::Rhel);
    assert_eq!(distro_from_os_release("VERSION_ID=1\nID=\"opensuse-leap\"\nID=arch\n"), Distro::Opensuse);
    assert_eq!(distro_from_os_release("ID=plan9\n"), Distro::Unknown);
    assert_eq!(distro_from_os_release(""), Distro::Unknown);
    assert_eq!(Distro::Arch.smartmontools_hint(), "sudo pacman -S smartmontools");
    let missing = missing_dependencies(false, Distro::Alpine);
    assert_eq!(missing.len(), 1);
    assert_eq!(missing[0].tool, "smartctl");
    assert_eq!(missing[0].install_hint, "sudo apk add smartmontools");
    assert!(missing_dependencies(true, Distro::Alpine).is_empty());
}
