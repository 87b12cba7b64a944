use make_your_choice::document::managed_section;
use make_your_choice::hosts::{
    check_gatekeep_selection, redirect_targets, HostsError, HostsManager,
};
use make_your_choice::policy::{
    allowed_regions, gatekeep_rules, has_stable_selection, is_included, is_ping, names_ping,
    redirect_rules,
};
use make_your_choice::region::{get_regions, BlockMode, RegionInfo};

const URL: &str = "https://discord.gg/xEMyAA8gn8";

fn region(name: &str, hosts: &[&str], stable: bool) -> (String, RegionInfo) {
    (name.to_string(), RegionInfo { hosts: hosts.iter().map(|h| h.to_string()).collect(), stable })
}

fn names(list: &[&str]) -> Vec<String> {
    list.iter().map(|s| s.to_string()).collect()
}

fn entries(content: &str) -> Vec<String> {
    content
        .lines()
        .filter(|l| !l.is_empty() && (l.starts_with("0.0.0.0") || l.starts_with("#   ")))
        .map(|l| l.to_string())
        .collect()
}

#[test]
fn ping_hosts_are_told_by_name_in_any_case() {
    assert!(is_ping("gamelift-ping.us-east-1.api.aws"));
    assert!(is_ping("GAMELIFT-PING.US-EAST-1.API.AWS"));
    assert!(is_ping("Shipping.example.com"));
    assert!(!is_ping("gamelift.us-east-1.amazonaws.com"));
    assert!(!is_ping("pin.g"));
    assert!(!is_ping(""));
    assert!(names_ping("ping"));
    assert!(!names_ping("PING"));
    assert!(!names_ping("pin"));
}

#[test]
fn block_mode_filters_hostnames() {
    assert!(is_included(BlockMode::Both, "gamelift.eu-west-2.amazonaws.com"));
    assert!(is_included(BlockMode::Both, "gamelift-ping.eu-west-2.api.aws"));
    assert!(!is_included(BlockMode::OnlyPing, "gamelift.eu-west-2.amazonaws.com"));
    assert!(is_included(BlockMode::OnlyPing, "gamelift-ping.eu-west-2.api.aws"));
    assert!(is_included(BlockMode::OnlyService, "gamelift.eu-west-2.amazonaws.com"));
    assert!(!is_included(BlockMode::OnlyService, "gamelift-ping.eu-west-2.api.aws"));
}

#[test]
fn gatekeep_content_of_a_small_catalog() {
    let regions = vec![
        region("Europe (One)", &["one.example.com", "one-ping.example.com"], true),
        region("Europe (Two)", &["two.example.com"], true),
    ];
    let content = gatekeep_rules("https://discord.gg/x", &regions, &names(&["Europe (One)"]), BlockMode::Both, true);
    assert_eq!(
        content,
        "# Edited by Make Your Choice (DbD Server Selector)\n\
         # Unselected servers are blocked (Gatekeep Mode); selected servers are commented out.\n\
         # Need help? Discord: https://discord.gg/x\n\
         \n\
         #         one.example.com\n\
         #         one-ping.example.com\n\
         \n\
         0.0.0.0   two.example.com\n\
         \n"
    );
}

#[test]
fn gatekeep_only_ping_and_only_service() {
    let regions = vec![
        region("Europe (One)", &["one.example.com", "one-ping.example.com"], true),
        region("Europe (Two)", &["two.example.com", "two-PING.example.com"], true),
    ];
    let selected = names(&["Europe (Two)"]);
    let ping = gatekeep_rules(URL, &regions, &selected, BlockMode::OnlyPing, false);
    assert_eq!(
        entries(&ping),
        vec!["0.0.0.0   one-ping.example.com", "#         two-PING.example.com"]
    );
    assert!(ping.ends_with("0.0.0.0   one-ping.example.com\n\n#         two-PING.example.com\n\n"));
    let service = gatekeep_rules(URL, &regions, &selected, BlockMode::OnlyService, false);
    assert_eq!(entries(&service), vec!["0.0.0.0   one.example.com", "#         two.example.com"]);
}

#[test]
fn gatekeep_with_empty_catalog_is_the_header() {
    let regions: Vec<(String, RegionInfo)> = Vec::new();
    let content = gatekeep_rules("c", &regions, &names(&["x"]), BlockMode::Both, true);
    assert_eq!(
        content,
        "# Edited by Make Your Choice (DbD Server Selector)\n\
         # Unselected servers are blocked (Gatekeep Mode); selected servers are commented out.\n\
         # Need help? Discord: c\n\n"
    );
}

#[test]
fn gatekeep_rejects_empty_selection() {
    let manager = HostsManager::new(URL.to_string());
    let regions = get_regions();
    let outcome = manager.apply_gatekeep("127.0.0.1 localhost\n", &regions, &Vec::new(), BlockMode::Both, true);
    assert_eq!(outcome, Err(HostsError::EmptySelection));
}

#[test]
fn gatekeep_stable_selection_allows_only_that_region() {
    let manager = HostsManager::new(URL.to_string());
    let regions = get_regions();
    let selected = names(&["US East (N. Virginia)"]);
    let out = manager.apply_gatekeep("", &regions, &selected, BlockMode::Both, true).unwrap();
    let inner = managed_section(&out).unwrap();
    let lines = entries(&inner);
    let mut expected = Vec::new();
    for (name, info) in regions.iter() {
        for host in info.hosts.iter() {
            if name == "US East (N. Virginia)" {
                expected.push(format!("#         {}", host));
            } else {
                expected.push(format!("0.0.0.0   {}", host));
            }
        }
    }
    assert_eq!(lines, expected);
    assert_eq!(lines.iter().filter(|l| l.starts_with('#')).count(), 2);
    assert_eq!(lines.iter().filter(|l| l.starts_with("0.0.0.0")).count(), 30);
    assert!(lines.contains(&"#         gamelift.us-east-1.amazonaws.com".to_string()));
    assert!(lines.contains(&"#         gamelift-ping.us-east-1.api.aws".to_string()));
}

#[test]
fn gatekeep_unstable_selection_allows_one_stable_fallback() {
    let manager = HostsManager::new(URL.to_string());
    let regions = get_regions();
    let selected = names(&["Europe (London)"]);
    let out = manager.apply_gatekeep("", &regions, &selected, BlockMode::Both, true).unwrap();
    let inner = managed_section(&out).unwrap();
    let allowed: Vec<String> = entries(&inner).into_iter().filter(|l| l.starts_with('#')).collect();
    assert_eq!(
        allowed,
        vec![
            "#         gamelift.eu-west-2.amazonaws.com",
            "#         gamelift-ping.eu-west-2.api.aws",
            "#         gamelift.eu-west-1.amazonaws.com",
            "#         gamelift-ping.eu-west-1.api.aws",
        ]
    );
    let blocked = entries(&inner).into_iter().filter(|l| l.starts_with("0.0.0.0")).count();
    assert_eq!(blocked, 28);
    assert!(inner.contains("0.0.0.0   gamelift.eu-central-1.amazonaws.com\n"));
}

#[test]
fn gatekeep_unstable_selection_without_merge_allows_only_it() {
    let regions = get_regions();
    let selected = names(&["Europe (London)"]);
    let content = gatekeep_rules(URL, &regions, &selected, BlockMode::Both, false);
    let allowed = entries(&content).into_iter().filter(|l| l.starts_with('#')).count();
    assert_eq!(allowed, 2);
    assert!(content.contains("0.0.0.0   gamelift.eu-west-1.amazonaws.com\n"));
}

#[test]
fn allowed_regions_follow_the_merge_rule() {
    let regions = get_regions();
    assert_eq!(
        allowed_regions(&regions, &names(&["Europe (London)"]), true),
        names(&["Europe (London)", "Europe (Ireland)"])
    );
    assert_eq!(
        allowed_regions(&regions, &names(&["Europe (London)"]), false),
        names(&["Europe (London)"])
    );
    assert_eq!(
        allowed_regions(&regions, &names(&["Europe (London)", "Asia Pacific (Tokyo)"]), true),
        names(&["Europe (London)", "Asia Pacific (Tokyo)"])
    );
    assert_eq!(
        allowed_regions(&regions, &names(&["Canada (Central)", "US East (Ohio)"]), true),
        names(&[
            "Canada (Central)",
            "US East (Ohio)",
            "US East (N. Virginia)",
            "US East (N. Virginia)"
        ])
    );
    assert_eq!(
        allowed_regions(&regions, &names(&["Nowhere"]), true),
        names(&["Nowhere"])
    );
}

#[test]
fn stable_selection_is_told_from_the_catalog() {
    let regions = get_regions();
    assert!(has_stable_selection(&regions, &names(&["Europe (London)", "Europe (Ireland)"])));
    assert!(!has_stable_selection(&regions, &names(&["Europe (London)", "US East (Ohio)"])));
    assert!(!has_stable_selection(&regions, &names(&["Nowhere"])));
    assert!(!has_stable_selection(&regions, &Vec::new()));
}

#[test]
fn merge_finds_no_fallback_in_a_group_without_stable_region() {
    let regions = vec![
        region("Europe (One)", &["one.example.com"], false),
        region("US (Two)", &["two.example.com"], true),
    ];
    assert_eq!(
        allowed_regions(&regions, &names(&["Europe (One)"]), true),
        names(&["Europe (One)"])
    );
}

#[test]
fn redirect_content_of_a_small_catalog() {
    let regions = vec![
        region("Europe (One)", &["one.example.com", "one-ping.example.com"], true),
        region("China (Two)", &["two.example.com.cn"], true),
    ];
    let content = redirect_rules("https://discord.gg/x", &regions, "203.0.113.7", "198.51.100.9");
    assert_eq!(
        content,
        "# Edited by Make Your Choice (DbD Server Selector)\n\
         # Universal Redirect mode: redirect all GameLift endpoints to selected region\n\
         # Need help? Discord: https://discord.gg/x\n\
         \n\
         203.0.113.7 one.example.com\n\
         198.51.100.9 one-ping.example.com\n\
         \n\
         203.0.113.7 two.example.com.cn\n\
         \n"
    );
}

#[test]
fn redirect_maps_every_hostname_to_the_selected_region() {
    let manager = HostsManager::new(URL.to_string());
    let regions = get_regions();
    let targets = redirect_targets(&regions, &names(&["Asia Pacific (Tokyo)"])).unwrap();
    assert_eq!(targets.region, "Asia Pacific (Tokyo)");
    assert_eq!(targets.service_host, "gamelift.ap-northeast-1.amazonaws.com");
    assert_eq!(targets.ping_host, "gamelift-ping.ap-northeast-1.api.aws");
    let out = manager
        .apply_universal_redirect(
            "",
            &regions,
            "Asia Pacific (Tokyo)",
            &names(&["203.0.113.7", "203.0.113.8"]),
            &names(&["198.51.100.9"]),
        )
        .unwrap();
    let inner = managed_section(&out).unwrap();
    assert!(!inner.contains("0.0.0.0"));
    let mut count = 0;
    for (_, info) in regions.iter() {
        for host in info.hosts.iter() {
            let ip = if host.contains("ping") { "198.51.100.9" } else { "203.0.113.7" };
            assert!(inner.contains(&format!("{} {}\n", ip, host)));
            count += 1;
        }
    }
    let lines = inner.lines().filter(|l| !l.is_empty() && !l.starts_with('#')).count();
    assert_eq!(lines, count);
    assert_eq!(count, 32);
}

#[test]
fn redirect_targets_of_a_region_with_one_host() {
    let regions = get_regions();
    let targets = redirect_targets(&regions, &names(&["China (Beijing)"])).unwrap();
    assert_eq!(targets.service_host, "gamelift.cn-north-1.amazonaws.com.cn");
    assert_eq!(targets.ping_host, "gamelift.cn-north-1.amazonaws.com.cn");
}

#[test]
fn redirect_needs_exactly_one_region() {
    let regions = get_regions();
    assert_eq!(redirect_targets(&regions, &Vec::new()).err(), Some(HostsError::NotSingleSelection));
    assert_eq!(
        redirect_targets(&regions, &names(&["Asia Pacific (Tokyo)", "Asia Pacific (Seoul)"])).err(),
        Some(HostsError::NotSingleSelection)
    );
    assert_eq!(
        redirect_targets(&regions, &names(&["Asia Pacific (Tokyo)", "Asia Pacific (Tokyo)"]))
            .map(|t| t.region)
            .ok(),
        Some("Asia Pacific (Tokyo)".to_string())
    );
    assert_eq!(redirect_targets(&regions, &names(&["Nowhere"])).err(), Some(HostsError::RegionNotFound));
}

#[test]
fn redirect_fails_without_region_or_addresses() {
    let manager = HostsManager::new(URL.to_string());
    let regions = get_regions();
    let some = names(&["203.0.113.7"]);
    let none: Vec<String> = Vec::new();
    assert_eq!(
        manager.apply_universal_redirect("", &regions, "Nowhere", &some, &some),
        Err(HostsError::RegionNotFound)
    );
    assert_eq!(
        manager.apply_universal_redirect("", &regions, "Nowhere", &none, &none),
        Err(HostsError::RegionNotFound)
    );
    assert_eq!(
        manager.apply_universal_redirect("", &regions, "Asia Pacific (Tokyo)", &none, &some),
        Err(HostsError::ResolutionFailed)
    );
    assert_eq!(
        manager.apply_universal_redirect("", &regions, "Asia Pacific (Tokyo)", &some, &none),
        Err(HostsError::ResolutionFailed)
    );
}

#[test]
fn gatekeep_selection_is_checked_on_its_own() {
    assert_eq!(check_gatekeep_selection(&Vec::new()), Err(HostsError::EmptySelection));
    assert_eq!(check_gatekeep_selection(&names(&["Europe (London)"])), Ok(()));
    assert_eq!(check_gatekeep_selection(&names(&["Nowhere", "Europe (London)"])), Ok(()));
}

#[test]
fn redirect_targets_need_a_hostname_of_the_selected_region_only() {
    let regions = vec![
        region("Europe (One)", &["one.example.com"], true),
        region("Europe (Empty)", &[], true),
    ];
    let targets = redirect_targets(&regions, &names(&["Europe (One)"])).unwrap();
    assert_eq!(targets.service_host, "one.example.com");
    assert_eq!(targets.ping_host, "one.example.com");
    assert_eq!(
        redirect_targets(&regions, &names(&["Europe (One)", "Europe (Empty)"])).err(),
        Some(HostsError::NotSingleSelection)
    );
}
