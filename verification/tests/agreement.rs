use make_your_choice::conflicts::{find_conflicts, remove_lines};
use make_your_choice::document::{
    managed_section, outside_content, replace_managed_section, SECTION_MARKER,
};
use make_your_choice::policy::{gatekeep_rules, redirect_rules};
use make_your_choice::region::{get_group_name, get_regions, BlockMode, RegionInfo};
use std::collections::HashSet;

// The same results, computed with the string functions of the standard library.

fn markers_with_std(text: &str) -> (Option<usize>, Option<usize>) {
    let first = text.find(SECTION_MARKER);
    let last = match first {
        Some(pos) => text[pos + SECTION_MARKER.len()..]
            .find(SECTION_MARKER)
            .map(|p| p + pos + SECTION_MARKER.len()),
        None => None,
    };
    (first, last)
}

fn splice_with_std(text: &str, inner: &str) -> String {
    let (first, last) = markers_with_std(text);
    let wrapped = if inner.is_empty() {
        String::new()
    } else {
        let mut content = inner.to_string();
        if !content.ends_with('\n') {
            content.push('\n');
        }
        format!("{}\n{}{}\n", SECTION_MARKER, content, SECTION_MARKER)
    };
    match (first, last) {
        (Some(f), Some(l)) => {
            let after = &text[l + SECTION_MARKER.len()..];
            let suffix = after.strip_prefix('\n').unwrap_or(after);
            format!("{}{}{}", &text[..f], wrapped, suffix)
        }
        (Some(f), None) => format!("{}{}", &text[..f], wrapped),
        (None, _) => {
            if wrapped.is_empty() {
                return text.to_string();
            }
            let separator = if text.ends_with('\n') { "\n" } else { "\n\n" };
            format!("{}{}{}", text, separator, wrapped)
        }
    }
}

fn outside_with_std(text: &str) -> String {
    match markers_with_std(text) {
        (Some(f), Some(l)) => format!("{}{}", &text[..f], &text[l + SECTION_MARKER.len()..]),
        (Some(f), None) => text[..f].to_string(),
        (None, _) => text.to_string(),
    }
}

fn conflicts_with_std(outside: &str, regions: &Vec<(String, RegionInfo)>) -> Vec<String> {
    let mut managed = HashSet::new();
    for (_, info) in regions.iter() {
        for host in info.hosts.iter() {
            managed.insert(host.to_lowercase());
        }
    }
    let mut conflicts: Vec<String> = Vec::new();
    for line in outside.lines() {
        let trimmed = line.trim();
        if trimmed.is_empty() || trimmed.starts_with('#') {
            continue;
        }
        let parts: Vec<&str> = trimmed.split_whitespace().collect();
        if parts.len() >= 2 {
            let hostname = parts[1].to_lowercase();
            if managed.contains(&hostname) && !conflicts.contains(&trimmed.to_string()) {
                conflicts.push(trimmed.to_string());
            }
        }
    }
    conflicts
}

fn without_ending(segment: &str) -> &str {
    match segment.strip_suffix('\n') {
        Some(line) => line.strip_suffix('\r').unwrap_or(line),
        None => segment,
    }
}

fn cleared_with_std(text: &str, conflicts: &[String]) -> String {
    let unwanted: HashSet<String> = conflicts.iter().map(|s| s.trim().to_string()).collect();
    let mut kept: Vec<&str> = text
        .split_inclusive('\n')
        .filter(|segment| !unwanted.contains(without_ending(segment).trim()))
        .collect();
    if text.ends_with('\n') {
        if kept.is_empty() {
            return if text.ends_with("\r\n") { "\r\n".to_string() } else { "\n".to_string() };
        }
        return kept.concat();
    }
    while kept.last().map(|last| without_ending(last).is_empty()).unwrap_or(false) {
        kept.pop();
    }
    if let Some(last) = kept.pop() {
        kept.push(without_ending(last));
    }
    kept.concat()
}

fn joined_with_std(text: &str, conflicts: &[String]) -> String {
    let unwanted: HashSet<String> = conflicts.iter().map(|s| s.trim().to_string()).collect();
    let cleaned: String = text
        .lines()
        .filter(|line| !unwanted.contains(&line.trim().to_string()))
        .collect::<Vec<_>>()
        .join("\n");
    if text.ends_with('\n') {
        format!("{}\n", cleaned)
    } else {
        cleaned
    }
}

fn gatekeep_with_std(
    url: &str,
    regions: &Vec<(String, RegionInfo)>,
    selected: &Vec<String>,
    mode: BlockMode,
    merge_unstable: bool,
) -> String {
    let info_of = |name: &String| regions.iter().find(|(n, _)| n == name).map(|(_, i)| i);
    let any_stable = selected.iter().any(|r| info_of(r).map(|i| i.stable).unwrap_or(false));
    let mut allowed: HashSet<String> = selected.iter().cloned().collect();
    if merge_unstable && !any_stable {
        for name in selected.iter() {
            if let Some(info) = info_of(name) {
                if !info.stable {
                    let group = get_group_name(name);
                    if let Some((alt, _)) =
                        regions.iter().find(|(r, i)| get_group_name(r) == group && i.stable)
                    {
                        allowed.insert(alt.clone());
                    }
                }
            }
        }
    }
    let mut content = String::new();
    content.push_str("# Edited by Make Your Choice (DbD Server Selector)\n");
    content.push_str(
        "# Unselected servers are blocked (Gatekeep Mode); selected servers are commented out.\n",
    );
    content.push_str(&format!("# Need help? Discord: {}\n", url));
    content.push_str("\n");
    for (name, info) in regions.iter() {
        let allow = allowed.contains(name);
        for host in info.hosts.iter() {
            let is_ping = host.to_lowercase().contains("ping");
            let wanted = match mode {
                BlockMode::Both => true,
                BlockMode::OnlyPing => is_ping,
                BlockMode::OnlyService => !is_ping,
            };
            if wanted {
                let prefix = if allow { "#" } else { "0.0.0.0" };
                content.push_str(&format!("{:9} {}\n", prefix, host));
            }
        }
        content.push_str("\n");
    }
    content
}

fn redirect_with_std(
    url: &str,
    regions: &Vec<(String, RegionInfo)>,
    service_ip: &str,
    ping_ip: &str,
) -> String {
    let mut content = String::new();
    content.push_str("# Edited by Make Your Choice (DbD Server Selector)\n");
    content
        .push_str("# Universal Redirect mode: redirect all GameLift endpoints to selected region\n");
    content.push_str(&format!("# Need help? Discord: {}\n", url));
    content.push_str("\n");
    for (_, info) in regions.iter() {
        for host in info.hosts.iter() {
            let is_ping = host.to_lowercase().contains("ping");
            let ip = if is_ping { ping_ip } else { service_ip };
            content.push_str(&format!("{} {}\n", ip, host));
        }
        content.push_str("\n");
    }
    content
}

/// Texts put together from pieces that matter to the document: markers,
/// broken markers, line endings, letters beyond ASCII.
fn sample_texts() -> Vec<String> {
    let m = SECTION_MARKER;
    let pieces: Vec<String> = vec![
        String::new(),
        "\n".to_string(),
        "127.0.0.1 localhost\n".to_string(),
        "10.0.0.1 nas".to_string(),
        m.to_string(),
        format!("{}\n", m),
        m[..m.len() - 1].to_string(),
        m[1..].to_string(),
        "# caf\u{e9} \u{4e2d}\u{6587}\r\n".to_string(),
        " 0.0.0.0\tGameLift.US-East-1.amazonaws.com \n".to_string(),
    ];
    let mut texts = Vec::new();
    for a in pieces.iter() {
        for b in pieces.iter() {
            for c in pieces.iter() {
                texts.push(format!("{}{}{}", a, b, c));
            }
        }
    }
    for a in [0usize, 4, 5] {
        for b in [2usize, 4, 8] {
            for c in [4usize, 5, 9] {
                for d in [1usize, 3, 4] {
                    texts.push(format!("{}{}{}{}", pieces[a], pieces[b], pieces[c], pieces[d]));
                }
            }
        }
    }
    texts
}

fn sample_contents() -> Vec<String> {
    let m = SECTION_MARKER;
    vec![
        String::new(),
        "x".to_string(),
        "x\n".to_string(),
        "\n".to_string(),
        "0.0.0.0   a.example.com\n#         b.example.com\n\n".to_string(),
        format!("before {} after", m),
        format!("{}\n", m),
        "caf\u{e9}".to_string(),
    ]
}

#[test]
fn replacing_agrees_with_the_standard_library() {
    let contents = sample_contents();
    let mut cases = 0;
    for text in sample_texts() {
        for inner in contents.iter() {
            assert_eq!(
                replace_managed_section(&text, inner),
                splice_with_std(&text, inner),
                "text {:?} content {:?}",
                text,
                inner
            );
            cases += 1;
        }
    }
    assert!(cases > 8000);
}

#[test]
fn replacing_twice_agrees_with_the_standard_library() {
    for text in sample_texts() {
        for inner in ["x\n", "0.0.0.0   a.example.com\n\n"] {
            let once = replace_managed_section(&text, inner);
            assert_eq!(
                replace_managed_section(&once, inner),
                splice_with_std(&splice_with_std(&text, inner), inner)
            );
            assert_eq!(managed_section(&once), Some(inner.to_string()), "text {:?}", text);
            let twice = replace_managed_section(&once, inner);
            assert_eq!(managed_section(&twice), Some(inner.to_string()), "text {:?}", text);
            assert_eq!(replace_managed_section(&once, ""), splice_with_std(&once, ""));
            assert_eq!(twice, once, "text {:?}", text);
        }
    }
}

#[test]
fn outside_content_agrees_with_the_standard_library() {
    for text in sample_texts() {
        assert_eq!(outside_content(&text), outside_with_std(&text), "text {:?}", text);
    }
}

#[test]
fn conflicts_agree_with_the_standard_library() {
    let regions = get_regions();
    let conflicts = vec![
        "0.0.0.0\tGameLift.US-East-1.amazonaws.com".to_string(),
        "10.0.0.1 nas ".to_string(),
        "".to_string(),
    ];
    for text in sample_texts() {
        assert_eq!(
            find_conflicts(&text, &regions),
            conflicts_with_std(&text, &regions),
            "text {:?}",
            text
        );
        assert_eq!(
            remove_lines(&text, &conflicts),
            cleared_with_std(&text, &conflicts),
            "text {:?}",
            text
        );
        assert_eq!(remove_lines(&text, &Vec::new()), text);
        let joined = joined_with_std(&text, &conflicts);
        if !text.contains('\r') && joined.ends_with('\n') == text.ends_with('\n') {
            assert_eq!(remove_lines(&text, &conflicts), joined, "text {:?}", text);
        }
        assert_eq!(remove_lines(&text, &conflicts).ends_with('\n'), text.ends_with('\n'));
    }
}

#[test]
fn gatekeep_agrees_with_the_standard_library() {
    let regions = get_regions();
    let names: Vec<String> = regions.iter().map(|(n, _)| n.clone()).collect();
    let modes = [BlockMode::Both, BlockMode::OnlyPing, BlockMode::OnlyService];
    let mut selections: Vec<Vec<String>> = Vec::new();
    for name in names.iter() {
        selections.push(vec![name.clone()]);
    }
    for i in 0..names.len() {
        for j in (i + 1)..names.len() {
            selections.push(vec![names[j].clone(), names[i].clone()]);
        }
    }
    selections.push(vec!["Nowhere".to_string()]);
    selections.push(vec!["Nowhere".to_string(), "Canada (Central)".to_string()]);
    selections.push(names.clone());
    for selected in selections.iter() {
        for mode in modes {
            for merge in [true, false] {
                assert_eq!(
                    gatekeep_rules("https://discord.gg/x", &regions, selected, mode, merge),
                    gatekeep_with_std("https://discord.gg/x", &regions, selected, mode, merge),
                    "selection {:?}",
                    selected
                );
            }
        }
    }
}

#[test]
fn redirect_agrees_with_the_standard_library() {
    let mut regions = get_regions();
    regions.push((
        "Test (PING only)".to_string(),
        RegionInfo { hosts: vec!["PING.example.com".to_string(), "x.example.com".to_string()], stable: true },
    ));
    assert_eq!(
        redirect_rules("u", &regions, "203.0.113.7", "198.51.100.9"),
        redirect_with_std("u", &regions, "203.0.113.7", "198.51.100.9")
    );
    assert_eq!(redirect_rules("", &Vec::new(), "", ""), redirect_with_std("", &Vec::new(), "", ""));
}

#[test]
fn nothing_is_detected_after_clearing_what_was_detected() {
    let regions = get_regions();
    for text in sample_texts() {
        let detected = find_conflicts(&text, &regions);
        let cleared = remove_lines(&text, &detected);
        assert_eq!(find_conflicts(&cleared, &regions), Vec::<String>::new(), "text {:?}", text);
        assert_eq!(cleared.ends_with('\n'), text.ends_with('\n'));
        if detected.is_empty() {
            assert_eq!(cleared, text);
        }
    }
    let text = "127.0.0.1 localhost\r\n0.0.0.0 GAMELIFT.eu-west-1.amazonaws.com\r\n\r\n 0.0.0.0\tgamelift.eu-west-1.amazonaws.com \r\n# end";
    let detected = find_conflicts(text, &regions);
    assert_eq!(detected.len(), 2);
    assert_eq!(remove_lines(text, &detected), "127.0.0.1 localhost\r\n\r\n# end");
}
