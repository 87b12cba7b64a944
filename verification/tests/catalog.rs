use make_your_choice::region::{
    get_group_name, get_regions, group_of, ApplyMode, BlockMode, RegionGroup, RegionInfo,
};

fn find<'a>(regions: &'a Vec<(String, RegionInfo)>, name: &str) -> &'a RegionInfo {
    &regions.iter().find(|(n, _)| n == name).unwrap().1
}

#[test]
fn catalog_has_seventeen_regions_in_order() {
    let regions = get_regions();
    let names: Vec<&str> = regions.iter().map(|(n, _)| n.as_str()).collect();
    assert_eq!(
        names,
        vec![
            "Europe (London)",
            "Europe (Ireland)",
            "Europe (Frankfurt am Main)",
            "US East (N. Virginia)",
            "US East (Ohio)",
            "US West (N. California)",
            "US West (Oregon)",
            "Canada (Central)",
            "South America (São Paulo)",
            "Asia Pacific (Tokyo)",
            "Asia Pacific (Seoul)",
            "Asia Pacific (Mumbai)",
            "Asia Pacific (Singapore)",
            "Asia Pacific (Hong Kong)",
            "Asia Pacific (Sydney)",
            "China (Beijing)",
            "China (Ningxia)",
        ]
    );
}

#[test]
fn catalog_is_the_same_on_every_call() {
    let a = get_regions();
    let b = get_regions();
    assert_eq!(a.len(), b.len());
    for i in 0..a.len() {
        assert_eq!(a[i].0, b[i].0);
        assert_eq!(a[i].1.hosts, b[i].1.hosts);
        assert_eq!(a[i].1.stable, b[i].1.stable);
    }
}

#[test]
fn catalog_names_are_unique_and_regions_have_hosts() {
    let regions = get_regions();
    for i in 0..regions.len() {
        assert!(!regions[i].1.hosts.is_empty());
        for j in (i + 1)..regions.len() {
            assert_ne!(regions[i].0, regions[j].0);
        }
    }
}

#[test]
fn catalog_hosts_of_chosen_regions() {
    let regions = get_regions();
    let virginia = find(&regions, "US East (N. Virginia)");
    assert_eq!(
        virginia.hosts,
        vec![
            "gamelift.us-east-1.amazonaws.com".to_string(),
            "gamelift-ping.us-east-1.api.aws".to_string()
        ]
    );
    assert!(virginia.stable);
    let london = find(&regions, "Europe (London)");
    assert_eq!(
        london.hosts,
        vec![
            "gamelift.eu-west-2.amazonaws.com".to_string(),
            "gamelift-ping.eu-west-2.api.aws".to_string()
        ]
    );
    assert!(!london.stable);
    let hong_kong = find(&regions, "Asia Pacific (Hong Kong)");
    assert_eq!(hong_kong.hosts[0], "ec2.ap-east-1.amazonaws.com");
    assert_eq!(hong_kong.hosts[1], "gamelift-ping.ap-east-1.api.aws");
    let beijing = find(&regions, "China (Beijing)");
    assert_eq!(beijing.hosts, vec!["gamelift.cn-north-1.amazonaws.com.cn".to_string()]);
    assert!(beijing.stable);
    let ningxia = find(&regions, "China (Ningxia)");
    assert_eq!(ningxia.hosts, vec!["gamelift.cn-northwest-1.amazonaws.com.cn".to_string()]);
}

#[test]
fn catalog_unstable_regions() {
    let regions = get_regions();
    let unstable: Vec<&str> =
        regions.iter().filter(|(_, info)| !info.stable).map(|(n, _)| n.as_str()).collect();
    assert_eq!(unstable, vec!["Europe (London)", "US East (Ohio)", "Canada (Central)"]);
}

#[test]
fn group_of_every_catalog_name() {
    let expected = [
        ("Europe (London)", "Europe"),
        ("Europe (Ireland)", "Europe"),
        ("Europe (Frankfurt am Main)", "Europe"),
        ("US East (N. Virginia)", "Americas"),
        ("US East (Ohio)", "Americas"),
        ("US West (N. California)", "Americas"),
        ("US West (Oregon)", "Americas"),
        ("Canada (Central)", "Americas"),
        ("South America (São Paulo)", "Americas"),
        ("Asia Pacific (Tokyo)", "Asia"),
        ("Asia Pacific (Seoul)", "Asia"),
        ("Asia Pacific (Mumbai)", "Asia"),
        ("Asia Pacific (Singapore)", "Asia"),
        ("Asia Pacific (Hong Kong)", "Asia"),
        ("Asia Pacific (Sydney)", "Oceania"),
        ("China (Beijing)", "China"),
        ("China (Ningxia)", "China"),
    ];
    let regions = get_regions();
    assert_eq!(regions.len(), expected.len());
    for (i, (name, group)) in expected.iter().enumerate() {
        assert_eq!(regions[i].0, *name);
        assert_eq!(get_group_name(name), *group);
    }
}

#[test]
fn group_of_unknown_name_is_asia() {
    assert_eq!(get_group_name("Atlantis (Lost City)"), "Asia");
    assert_eq!(get_group_name(""), "Asia");
    assert_eq!(group_of("Middle East (Bahrain)"), RegionGroup::Asia);
}

#[test]
fn group_rules_are_tried_in_order() {
    assert_eq!(group_of("Europe (Sydney)"), RegionGroup::Europe);
    assert_eq!(group_of("US China"), RegionGroup::Americas);
    assert_eq!(group_of("Sydney, China"), RegionGroup::Oceania);
    assert_eq!(group_of("Mainland China"), RegionGroup::China);
    assert_eq!(group_of("europe"), RegionGroup::Asia);
    assert_eq!(group_of("New Europe"), RegionGroup::Asia);
    assert_eq!(group_of("Canada"), RegionGroup::Americas);
    assert_eq!(group_of("South American"), RegionGroup::Americas);
    assert_eq!(group_of("South Africa"), RegionGroup::Asia);
}

#[test]
fn group_labels() {
    assert_eq!(RegionGroup::Europe.label(), "Europe");
    assert_eq!(RegionGroup::Americas.label(), "Americas");
    assert_eq!(RegionGroup::Asia.label(), "Asia");
    assert_eq!(RegionGroup::Oceania.label(), "Oceania");
    assert_eq!(RegionGroup::China.label(), "China");
}

#[test]
fn modes_compare_by_variant() {
    assert_eq!(ApplyMode::Gatekeep, ApplyMode::Gatekeep);
    assert_ne!(ApplyMode::Gatekeep, ApplyMode::UniversalRedirect);
    assert_ne!(BlockMode::Both, BlockMode::OnlyPing);
    assert_ne!(BlockMode::OnlyPing, BlockMode::OnlyService);
}
