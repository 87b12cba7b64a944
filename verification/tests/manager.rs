use make_your_choice::document::{managed_section, SECTION_MARKER};
use make_your_choice::hosts::{HostsError, HostsManager};
use make_your_choice::platform::{
    backup_path, commit_command, default_hosts, hosts_path, Platform, STAGING_PATH,
    UNIX_HOSTS_PATH,
};
use make_your_choice::region::{get_regions, BlockMode};

const URL: &str = "https://discord.gg/xEMyAA8gn8";

fn names(list: &[&str]) -> Vec<String> {
    list.iter().map(|s| s.to_string()).collect()
}

#[test]
fn gatekeep_twice_gives_the_same_block() {
    let manager = HostsManager::new(URL.to_string());
    let regions = get_regions();
    let modes = [BlockMode::Both, BlockMode::OnlyPing, BlockMode::OnlyService];
    let selections = [
        names(&["Europe (London)"]),
        names(&["US East (N. Virginia)", "Asia Pacific (Tokyo)"]),
        names(&["China (Beijing)", "Canada (Central)", "Europe (Ireland)"]),
    ];
    for mode in modes {
        for selected in selections.iter() {
            let before = "127.0.0.1 localhost\n10.0.0.1 nas\n";
            let once = manager.apply_gatekeep(before, &regions, selected, mode, true).unwrap();
            let twice = manager.apply_gatekeep(&once, &regions, selected, mode, true).unwrap();
            assert_eq!(managed_section(&once), managed_section(&twice));
            assert_eq!(once, twice);
            assert!(once.starts_with(before));
            assert!(twice.starts_with(before));
        }
    }
}

#[test]
fn revert_removes_what_gatekeep_wrote() {
    let manager = HostsManager::new(URL.to_string());
    let regions = get_regions();
    let before = format!(
        "127.0.0.1 localhost\n{m}\nstale\n{m}\n10.0.0.1 nas\n",
        m = SECTION_MARKER
    );
    let applied = manager
        .apply_gatekeep(&before, &regions, &names(&["Europe (Ireland)"]), BlockMode::Both, true)
        .unwrap();
    assert!(applied.starts_with("127.0.0.1 localhost\n"));
    assert!(applied.ends_with("\n10.0.0.1 nas\n"));
    let reverted = manager.revert(&applied);
    assert_eq!(reverted, "127.0.0.1 localhost\n10.0.0.1 nas\n");
    assert!(!reverted.contains(SECTION_MARKER));
    assert!(!reverted.contains("gamelift"));
}

#[test]
fn revert_of_a_file_without_block_changes_nothing() {
    let manager = HostsManager::new(URL.to_string());
    assert_eq!(manager.revert("127.0.0.1 localhost\n"), "127.0.0.1 localhost\n");
    assert_eq!(manager.revert("127.0.0.1 localhost"), "127.0.0.1 localhost");
    assert_eq!(manager.revert("a\r\n\r\nb\n\n"), "a\r\n\r\nb\n\n");
    assert_eq!(manager.revert(""), "");
}

#[test]
fn write_wrapped_section_splices() {
    let manager = HostsManager::new(URL.to_string());
    let m = SECTION_MARKER;
    assert_eq!(
        manager.write_wrapped_section(&format!("a\n{m}\nb\n{m}\nc\n"), "x\n"),
        format!("a\n{m}\nx\n{m}\nc\n")
    );
}

#[test]
fn restore_default_is_the_platform_template() {
    let manager = HostsManager::new(URL.to_string());
    assert_eq!(
        manager.restore_default(Platform::Unix),
        "# Static table lookup for hostnames.\n# See hosts(5) for details.\n127.0.0.1        localhost\n::1              localhost\n"
    );
    let windows = manager.restore_default(Platform::Windows);
    assert!(windows.starts_with("# Copyright (c) 1993-2009 Microsoft Corp.\n#\n# This is a sample HOSTS file"));
    assert!(windows.ends_with(
        "\n\n# localhost name resolution is handled within DNS itself.\n#\t127.0.0.1       localhost\n#\t::1             localhost\n"
    ));
    assert_eq!(windows.lines().count(), 21);
    assert_eq!(windows, default_hosts(Platform::Windows));
    assert!(windows.contains("#      102.54.94.97     rhino.acme.com          # source server\n"));
    assert!(windows.contains("#       38.25.63.10     x.acme.com              # x client host\n"));
}

#[test]
fn hosts_paths_per_platform() {
    assert_eq!(hosts_path(Platform::Unix, None), "/etc/hosts");
    assert_eq!(hosts_path(Platform::Unix, Some("D:\\W")), "/etc/hosts");
    assert_eq!(UNIX_HOSTS_PATH, "/etc/hosts");
    assert_eq!(hosts_path(Platform::Windows, None), "C:\\Windows\\System32\\drivers\\etc\\hosts");
    assert_eq!(
        hosts_path(Platform::Windows, Some("D:\\WinNT")),
        "D:\\WinNT\\System32\\drivers\\etc\\hosts"
    );
    assert_eq!(backup_path("/etc/hosts"), "/etc/hosts.bak");
}

#[test]
fn commit_command_backs_up_copies_and_flushes() {
    assert_eq!(STAGING_PATH, "/tmp/make-your-choice-hosts.tmp");
    assert_eq!(
        commit_command("/etc/hosts", "/tmp/make-your-choice-hosts.tmp"),
        "cp /etc/hosts /etc/hosts.bak 2>/dev/null || true && cp /tmp/make-your-choice-hosts.tmp /etc/hosts && (systemd-resolve --flush-caches 2>/dev/null || resolvectl flush-caches 2>/dev/null || nscd -i hosts 2>/dev/null || true)"
    );
}

#[test]
fn error_messages() {
    let p = "/etc/hosts";
    assert_eq!(HostsError::EmptySelection.message(p), "Please select at least one server to allow.");
    assert_eq!(
        HostsError::NotSingleSelection.message(p),
        "Please select only one server when using Universal Redirect mode."
    );
    assert_eq!(HostsError::RegionNotFound.message(p), "Selected region not found");
    assert_eq!(HostsError::ResolutionFailed.message(p), "No addresses found");
    assert_eq!(HostsError::StagingFailed.message(p), "Failed to write temporary file");
    assert_eq!(
        HostsError::PermissionDenied.message(p),
        "Failed to write to /etc/hosts. Operation was cancelled or permission was denied."
    );
    assert_eq!(
        HostsError::WriteFailed.message("C:\\hosts"),
        "Failed to write to C:\\hosts. Ensure you are running as Administrator."
    );
}

#[test]
fn clearing_what_was_detected_leaves_nothing_to_detect() {
    let manager = HostsManager::new(URL.to_string());
    let regions = get_regions();
    let text = "127.0.0.1 localhost\r\n0.0.0.0 gamelift.us-east-1.amazonaws.com\r\n10.0.0.1 nas\n 1.2.3.4 GameLift-Ping.eu-west-2.api.aws\n";
    let detected = manager.detect_conflicting_entries(text, &regions);
    assert_eq!(
        detected,
        names(&[
            "0.0.0.0 gamelift.us-east-1.amazonaws.com",
            "1.2.3.4 GameLift-Ping.eu-west-2.api.aws"
        ])
    );
    let cleared = manager.clear_conflicting_entries(text, &detected);
    assert_eq!(cleared, "127.0.0.1 localhost\r\n10.0.0.1 nas\n");
    assert_eq!(manager.detect_conflicting_entries(&cleared, &regions), Vec::<String>::new());
    assert_eq!(manager.clear_conflicting_entries(text, &Vec::new()), text);
}

#[test]
fn clearing_what_was_detected_around_a_block_leaves_nothing_to_detect() {
    let manager = HostsManager::new(URL.to_string());
    let regions = get_regions();
    let m = SECTION_MARKER;
    let texts = [
        format!(
            "0.0.0.0 gamelift.us-east-1.amazonaws.com\n{m}\n0.0.0.0   gamelift.eu-west-1.amazonaws.com\n{m}\n1.1.1.1 gamelift-ping.eu-west-2.api.aws\nlast"
        ),
        format!(
            "a\r\n0.0.0.0 gamelift.us-east-1.amazonaws.com\r\n{m}\r\nx\r\n{m}\r\n0.0.0.0 gamelift.us-east-1.amazonaws.com\r\n"
        ),
        format!("0.0.0.0 gamelift.us-east-1.amazonaws.com\n{m}\n{m}"),
        format!("{m}\n{m}\n\n\n0.0.0.0 gamelift.us-east-1.amazonaws.com"),
        format!("0.0.0.0 gamelift.us-east-1.amazonaws.com\n{m}\n0.0.0.0 ec2.ap-east-1.amazonaws.com\n"),
        format!("0.0.0.0 gamelift.us-east-1.amazonaws.com\n\n{m}"),
    ];
    for text in texts.iter() {
        let detected = manager.detect_conflicting_entries(text, &regions);
        assert!(!detected.is_empty(), "text {:?}", text);
        let cleared = manager.clear_conflicting_entries(text, &detected);
        assert_eq!(
            manager.detect_conflicting_entries(&cleared, &regions),
            Vec::<String>::new(),
            "text {:?}",
            text
        );
        assert_eq!(cleared.matches(m).count(), text.matches(m).count());
        assert_eq!(cleared.ends_with('\n'), text.ends_with('\n'));
    }
    let applied = manager
        .apply_gatekeep(
            "0.0.0.0 gamelift.us-east-1.amazonaws.com\n10.0.0.1 nas\n",
            &regions,
            &names(&["Europe (Ireland)"]),
            BlockMode::Both,
            true,
        )
        .unwrap();
    let detected = manager.detect_conflicting_entries(&applied, &regions);
    assert_eq!(detected, names(&["0.0.0.0 gamelift.us-east-1.amazonaws.com"]));
    let cleared = manager.clear_conflicting_entries(&applied, &detected);
    assert!(cleared.starts_with("10.0.0.1 nas\n\n# --+ Make Your Choice +--\n"));
    assert_eq!(manager.detect_conflicting_entries(&cleared, &regions), Vec::<String>::new());
}
