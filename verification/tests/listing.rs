use make_your_choice::listing::{
    clean_name, display_name, list_rows, warning_tooltip, WARNING_MARK, WARNING_TOOLTIP,
};
use make_your_choice::probe::latency_label;
use make_your_choice::region::{get_regions, RegionGroup, RegionInfo};
use make_your_choice::text::remove_all;

fn region(name: &str, stable: bool) -> (String, RegionInfo) {
    (name.to_string(), RegionInfo { hosts: vec![format!("{}.example.com", name.len())], stable })
}

#[test]
fn group_headings() {
    assert_eq!(RegionGroup::Europe.heading(), "Europe");
    assert_eq!(RegionGroup::Americas.heading(), "The Americas");
    assert_eq!(RegionGroup::Asia.heading(), "Asia (Excl. Cn)");
    assert_eq!(RegionGroup::Oceania.heading(), "Oceania");
    assert_eq!(RegionGroup::China.heading(), "Mainland China");
}

#[test]
fn unstable_regions_are_marked_unless_merged() {
    assert_eq!(WARNING_MARK, " \u{26a0}\u{fe0e}");
    assert_eq!(display_name("Europe (London)", false, false), "Europe (London) \u{26a0}\u{fe0e}");
    assert_eq!(display_name("Europe (London)", false, true), "Europe (London)");
    assert_eq!(display_name("Europe (Ireland)", true, false), "Europe (Ireland)");
    assert_eq!(display_name("Europe (Ireland)", true, true), "Europe (Ireland)");
    assert_eq!(warning_tooltip(false, false), "Unstable: issues may occur.");
    assert_eq!(warning_tooltip(false, false), WARNING_TOOLTIP);
    assert_eq!(warning_tooltip(false, true), "");
    assert_eq!(warning_tooltip(true, false), "");
    assert_eq!(warning_tooltip(true, true), "");
}

#[test]
fn clean_name_takes_the_mark_off() {
    assert_eq!(clean_name("Europe (London) \u{26a0}\u{fe0e}"), "Europe (London)");
    assert_eq!(clean_name("Europe (London)"), "Europe (London)");
    assert_eq!(clean_name(""), "");
    assert_eq!(clean_name(" \u{26a0}\u{fe0e}"), "");
    assert_eq!(clean_name("a \u{26a0}\u{fe0e}b \u{26a0}\u{fe0e}"), "ab");
    assert_eq!(clean_name("a \u{26a0}"), "a \u{26a0}");
    for (name, info) in get_regions() {
        assert_eq!(clean_name(&display_name(&name, info.stable, false)), name);
    }
}

#[test]
fn removing_is_as_the_standard_library_replaces() {
    for (text, pat) in [
        ("aaa", "aa"),
        ("aaaa", "aa"),
        ("abcabc", "bc"),
        ("abcabc", "x"),
        ("abcabc", ""),
        ("", "a"),
        ("", ""),
        ("ababa", "aba"),
        ("S\u{e3}o S\u{e3}o", "\u{e3}o"),
        ("xx", "xxx"),
    ] {
        assert_eq!(remove_all(text, pat), text.replace(pat, ""), "{:?} without {:?}", text, pat);
    }
}

#[test]
fn list_of_the_catalog_without_merging() {
    let rows = list_rows(&get_regions(), false);
    let labels: Vec<&str> = rows.iter().map(|r| r.label.as_str()).collect();
    assert_eq!(
        labels,
        vec![
            "Europe",
            "Europe (London) \u{26a0}\u{fe0e}",
            "Europe (Ireland)",
            "Europe (Frankfurt am Main)",
            "The Americas",
            "US East (N. Virginia)",
            "US East (Ohio) \u{26a0}\u{fe0e}",
            "US West (N. California)",
            "US West (Oregon)",
            "Canada (Central) \u{26a0}\u{fe0e}",
            "South America (S\u{e3}o Paulo)",
            "Asia (Excl. Cn)",
            "Asia Pacific (Tokyo)",
            "Asia Pacific (Seoul)",
            "Asia Pacific (Mumbai)",
            "Asia Pacific (Singapore)",
            "Asia Pacific (Hong Kong)",
            "Oceania",
            "Asia Pacific (Sydney)",
            "Mainland China",
            "China (Beijing)",
            "China (Ningxia)",
        ]
    );
    let dividers: Vec<usize> =
        rows.iter().enumerate().filter(|(_, r)| r.is_divider).map(|(i, _)| i).collect();
    assert_eq!(dividers, vec![0, 4, 11, 17, 19]);
    for row in rows.iter() {
        if row.is_divider {
            assert!(row.stable);
            assert_eq!(row.tooltip, "");
        } else if row.label.ends_with(WARNING_MARK) {
            assert!(!row.stable);
            assert_eq!(row.tooltip, "Unstable: issues may occur.");
        } else {
            assert!(row.stable);
            assert_eq!(row.tooltip, "");
        }
    }
}

#[test]
fn list_of_the_catalog_with_merging_has_no_marks() {
    let rows = list_rows(&get_regions(), true);
    assert_eq!(rows.len(), 22);
    assert!(rows.iter().all(|r| !r.label.contains('\u{26a0}') && r.tooltip.is_empty()));
    assert_eq!(rows.iter().filter(|r| !r.stable).count(), 3);
}

#[test]
fn list_leaves_out_groups_without_regions() {
    let regions =
        vec![region("China (A)", true), region("Somewhere", false), region("China (B)", false)];
    let rows = list_rows(&regions, false);
    let labels: Vec<&str> = rows.iter().map(|r| r.label.as_str()).collect();
    assert_eq!(
        labels,
        vec![
            "Asia (Excl. Cn)",
            "Somewhere \u{26a0}\u{fe0e}",
            "Mainland China",
            "China (A)",
            "China (B) \u{26a0}\u{fe0e}"
        ]
    );
    assert!(list_rows(&Vec::new(), false).is_empty());
}

#[test]
fn latency_labels() {
    assert_eq!(latency_label(-1), "disconnected");
    assert_eq!(latency_label(i64::MIN), "disconnected");
    assert_eq!(latency_label(0), "0 ms");
    assert_eq!(latency_label(7), "7 ms");
    assert_eq!(latency_label(10), "10 ms");
    assert_eq!(latency_label(79), "79 ms");
    assert_eq!(latency_label(100), "100 ms");
    assert_eq!(latency_label(1999), "1999 ms");
    assert_eq!(latency_label(1_000_000_007), "1000000007 ms");
    assert_eq!(latency_label(i64::MAX), "9223372036854775807 ms");
    for ms in [1i64, 9, 11, 99, 101, 250, 12345, 9_876_543_210] {
        assert_eq!(latency_label(ms), format!("{} ms", ms));
    }
}
