//! The two ways of turning a selection of regions into hosts entries.
//!
//! Gatekeep blocks every region but the allowed ones. Universal Redirect
//! points every hostname of every region at the addresses of one region.

use vstd::prelude::*;
use vstd::string::*;
use crate::region::{group_for, group_of, BlockMode, CatalogModel, RegionGroup, RegionInfo};
use crate::text::{
    chars_of, contains, has_match, is_listed, lowercase, push_name, to_lowercase,
};

verus! {

/// `host` names a ping beacon: its lower-case form contains "ping".
pub open spec fn is_ping_host(host: Seq<char>) -> bool {
    contains(lowercase(host), "ping"@)
}

/// Whether a text that is already in lower case names a ping beacon.
pub fn names_ping(lowered: &str) -> (b: bool)
    ensures
        b == contains(lowered@, "ping"@),
{
    has_match(&chars_of(lowered), &chars_of("ping"))
}

/// Whether `host` names a ping beacon.
pub fn is_ping(host: &str) -> (b: bool)
    ensures
        b == is_ping_host(host@),
{
    let lowered = to_lowercase(host);
    names_ping(lowered.as_str())
}

/// Whether Gatekeep writes an entry for `host` under `mode`.
pub open spec fn includes(mode: BlockMode, host: Seq<char>) -> bool {
    match mode {
        BlockMode::Both => true,
        BlockMode::OnlyPing => is_ping_host(host),
        BlockMode::OnlyService => !is_ping_host(host),
    }
}

/// Whether Gatekeep writes an entry for `host` under `mode`.
pub fn is_included(mode: BlockMode, host: &str) -> (b: bool)
    ensures
        b == includes(mode, host@),
{
    match mode {
        BlockMode::Both => true,
        BlockMode::OnlyPing => is_ping(host),
        BlockMode::OnlyService => !is_ping(host),
    }
}

/// A stable region of the catalog is selected.
pub open spec fn any_stable_selected(catalog: CatalogModel, selected: Seq<Seq<char>>) -> bool {
    exists|i: int|
        0 <= i < catalog.len() && (#[trigger] catalog[i]).1.stable && selected.contains(
            catalog[i].0,
        )
}

/// Entry `k` is the first stable region of `group` in catalog order.
pub open spec fn is_fallback(catalog: CatalogModel, group: RegionGroup, k: int) -> bool {
    &&& 0 <= k < catalog.len()
    &&& catalog[k].1.stable
    &&& group_for(catalog[k].0) == group
    &&& forall|j: int|
        0 <= j < k ==> !((#[trigger] catalog[j]).1.stable && group_for(catalog[j].0) == group)
}

/// Entry `i` is a selected unstable region whose fallback, the first stable
/// region of its group in catalog order, is named `name`.
pub open spec fn merges(
    catalog: CatalogModel,
    selected: Seq<Seq<char>>,
    i: int,
    name: Seq<char>,
) -> bool {
    &&& 0 <= i < catalog.len()
    &&& selected.contains(catalog[i].0)
    &&& !catalog[i].1.stable
    &&& exists|k: int| #[trigger]
        is_fallback(catalog, group_for(catalog[i].0), k) && catalog[k].0 == name
}

/// `name` is the fallback of one of the first `n` entries of the catalog.
pub open spec fn is_merged_within(
    catalog: CatalogModel,
    selected: Seq<Seq<char>>,
    n: int,
    name: Seq<char>,
) -> bool {
    exists|i: int| 0 <= i < n && merges(catalog, selected, i, name)
}

/// `name` is the fallback of a selected unstable region.
pub open spec fn is_merged_in(
    catalog: CatalogModel,
    selected: Seq<Seq<char>>,
    name: Seq<char>,
) -> bool {
    is_merged_within(catalog, selected, catalog.len() as int, name)
}

/// Whether Gatekeep leaves the region `name` reachable. Every selected name
/// is allowed. Where unstable regions are merged and no stable region is
/// selected, the fallback of every selected unstable region is allowed too.
pub open spec fn is_allowed(
    catalog: CatalogModel,
    selected: Seq<Seq<char>>,
    merge_unstable: bool,
    name: Seq<char>,
) -> bool {
    selected.contains(name) || (merge_unstable && !any_stable_selected(catalog, selected)
        && is_merged_in(catalog, selected, name))
}

/// Whether a stable region of the catalog is selected.
pub fn has_stable_selection(regions: &Vec<(String, RegionInfo)>, selected: &Vec<String>) -> (b:
    bool)
    ensures
        b == any_stable_selected(regions.deep_view(), selected.deep_view()),
{
    let mut i: usize = 0;
    while i < regions.len()
        invariant
            i <= regions.len(),
            forall|j: int|
                0 <= j < i ==> !((#[trigger] regions.deep_view()[j]).1.stable
                    && selected.deep_view().contains(regions.deep_view()[j].0)),
        decreases regions.len() - i,
    {
        if regions[i].1.stable && is_listed(selected, &regions[i].0) {
            assert(regions.deep_view()[i as int].1.stable);
            return true;
        }
        i += 1;
    }
    false
}

/// The position of the first stable region of `group`, if there is one.
pub fn find_fallback(regions: &Vec<(String, RegionInfo)>, group: RegionGroup) -> (found: Option<
    usize,
>)
    ensures
        match found {
            Some(k) => is_fallback(regions.deep_view(), group, k as int),
            None => forall|k: int| !is_fallback(regions.deep_view(), group, k),
        },
{
    let mut k: usize = 0;
    while k < regions.len()
        invariant
            k <= regions.len(),
            forall|j: int|
                0 <= j < k ==> !((#[trigger] regions.deep_view()[j]).1.stable && group_for(
                    regions.deep_view()[j].0,
                ) == group),
        decreases regions.len() - k,
    {
        if regions[k].1.stable && group_of(regions[k].0.as_str()) == group {
            return Some(k);
        }
        k += 1;
    }
    None
}

/// The names of the regions that Gatekeep leaves reachable.
pub fn allowed_regions(
    regions: &Vec<(String, RegionInfo)>,
    selected: &Vec<String>,
    merge_unstable: bool,
) -> (allowed: Vec<String>)
    ensures
        forall|name: Seq<char>|
            allowed.deep_view().contains(name) <==> is_allowed(
                regions.deep_view(),
                selected.deep_view(),
                merge_unstable,
                name,
            ),
{
    let ghost catalog = regions.deep_view();
    let ghost chosen = selected.deep_view();
    let mut allowed: Vec<String> = Vec::new();
    let mut s: usize = 0;
    while s < selected.len()
        invariant
            s <= selected.len(),
            chosen == selected.deep_view(),
            allowed.deep_view() == chosen.subrange(0, s as int),
        decreases selected.len() - s,
    {
        push_name(&mut allowed, &selected[s]);
        s += 1;
    }
    assert(chosen.subrange(0, chosen.len() as int) =~= chosen);
    if !merge_unstable || has_stable_selection(regions, selected) {
        return allowed;
    }
    let mut i: usize = 0;
    while i < regions.len()
        invariant
            i <= regions.len(),
            catalog == regions.deep_view(),
            chosen == selected.deep_view(),
            forall|name: Seq<char>|
                allowed.deep_view().contains(name) <==> chosen.contains(name) || is_merged_within(
                    catalog,
                    chosen,
                    i as int,
                    name,
                ),
        decreases regions.len() - i,
    {
        let ghost before = allowed.deep_view();
        let ghost at = i as int;
        let ghost group = group_for(catalog[at].0);
        let wanted = !regions[i].1.stable && is_listed(selected, &regions[i].0);
        let added = if wanted {
            find_fallback(regions, group_of(regions[i].0.as_str()))
        } else {
            None
        };
        match added {
            Some(k) => {
                push_name(&mut allowed, &regions[k].0);
            },
            None => {},
        }
        i += 1;
        proof {
            assert forall|name: Seq<char>|
                allowed.deep_view().contains(name) <==> chosen.contains(name) || is_merged_within(
                    catalog,
                    chosen,
                    i as int,
                    name,
                ) by {
                lemma_merged_within_next(catalog, chosen, at, name);
                assert(before.contains(name) <==> chosen.contains(name) || is_merged_within(
                    catalog,
                    chosen,
                    at,
                    name,
                ));
                match added {
                    Some(k) => {
                        lemma_push_contains(before, catalog[k as int].0, name);
                        if merges(catalog, chosen, at, name) {
                            let k2 = choose|k2: int| #[trigger]
                                is_fallback(catalog, group, k2) && catalog[k2].0 == name;
                            lemma_fallback_unique(catalog, group, k as int, k2);
                        }
                    },
                    None => {
                    },
                }
            }
        }
    }
    allowed
}

/// A list with one more item holds what it held before, and that item.
proof fn lemma_push_contains(list: Seq<Seq<char>>, item: Seq<char>, x: Seq<char>)
    ensures
        list.push(item).contains(x) <==> list.contains(x) || x == item,
{
    if list.contains(x) {
        let w = choose|w: int| 0 <= w < list.len() && list[w] == x;
        assert(list.push(item)[w] == x);
    }
    if x == item {
        assert(list.push(item)[list.len() as int] == x);
    }
}

/// What one more catalog entry adds to the merged names.
proof fn lemma_merged_within_next(
    catalog: CatalogModel,
    selected: Seq<Seq<char>>,
    n: int,
    name: Seq<char>,
)
    requires
        0 <= n,
    ensures
        is_merged_within(catalog, selected, n + 1, name) <==> is_merged_within(
            catalog,
            selected,
            n,
            name,
        ) || merges(catalog, selected, n, name),
{
}

/// A group has at most one fallback.
pub proof fn lemma_fallback_unique(catalog: CatalogModel, group: RegionGroup, a: int, b: int)
    requires
        is_fallback(catalog, group, a),
        is_fallback(catalog, group, b),
    ensures
        a == b,
{
}

/// The comment lines that head the Gatekeep entries.
pub open spec fn gatekeep_header(discord_url: Seq<char>) -> Seq<char> {
    "# Edited by Make Your Choice (DbD Server Selector)\n"@
        + "# Unselected servers are blocked (Gatekeep Mode); selected servers are commented out.\n"@
        + "# Need help? Discord: "@ + discord_url + "\n"@ + "\n"@
}

/// The Gatekeep entry of one hostname: commented out where its region is
/// allowed, mapped to the null route `0.0.0.0` where it is blocked. The first
/// column is padded to nine characters.
pub open spec fn gatekeep_line(allow: bool, host: Seq<char>) -> Seq<char> {
    (if allow {
        "#         "@
    } else {
        "0.0.0.0   "@
    }) + host + "\n"@
}

/// The Gatekeep entries of the hostnames of one region that `mode` includes.
pub open spec fn gatekeep_lines(hosts: Seq<Seq<char>>, allow: bool, mode: BlockMode) -> Seq<
    char,
>
    decreases hosts.len(),
{
    if hosts.len() == 0 {
        Seq::empty()
    } else if includes(mode, hosts.last()) {
        gatekeep_lines(hosts.drop_last(), allow, mode) + gatekeep_line(allow, hosts.last())
    } else {
        gatekeep_lines(hosts.drop_last(), allow, mode)
    }
}

/// The Gatekeep entries of the first `n` regions of the catalog, each region
/// followed by an empty line.
pub open spec fn gatekeep_regions(
    catalog: CatalogModel,
    selected: Seq<Seq<char>>,
    mode: BlockMode,
    merge_unstable: bool,
    n: int,
) -> Seq<char>
    decreases n,
{
    if n <= 0 {
        Seq::empty()
    } else {
        gatekeep_regions(catalog, selected, mode, merge_unstable, n - 1) + gatekeep_lines(
            catalog[n - 1].1.hosts,
            is_allowed(catalog, selected, merge_unstable, catalog[n - 1].0),
            mode,
        ) + "\n"@
    }
}

/// The content of the managed block under Gatekeep.
pub open spec fn gatekeep_content(
    discord_url: Seq<char>,
    catalog: CatalogModel,
    selected: Seq<Seq<char>>,
    mode: BlockMode,
    merge_unstable: bool,
) -> Seq<char> {
    gatekeep_header(discord_url) + gatekeep_regions(
        catalog,
        selected,
        mode,
        merge_unstable,
        catalog.len() as int,
    )
}

/// Appends the Gatekeep entries of one region to `content`.
fn push_gatekeep_lines(content: &mut String, hosts: &Vec<String>, allow: bool, mode: BlockMode)
    ensures
        final(content)@ == old(content)@ + gatekeep_lines(hosts.deep_view(), allow, mode),
{
    let ghost names = hosts.deep_view();
    let mut j: usize = 0;
    while j < hosts.len()
        invariant
            j <= hosts.len(),
            names == hosts.deep_view(),
            content@ == old(content)@ + gatekeep_lines(names.subrange(0, j as int), allow, mode),
        decreases hosts.len() - j,
    {
        let host = hosts[j].as_str();
        if is_included(mode, host) {
            if allow {
                content.append("#         ");
            } else {
                content.append("0.0.0.0   ");
            }
            content.append(host);
            content.append("\n");
        }
        proof {
            let upto = names.subrange(0, j + 1);
            assert(upto.drop_last() =~= names.subrange(0, j as int));
        }
        j += 1;
    }
    assert(names.subrange(0, names.len() as int) =~= names);
}

/// The content of the managed block under Gatekeep: the header, then for
/// every region of the catalog, in catalog order, one entry for each of its
/// hostnames that `block_mode` includes, and an empty line.
pub fn gatekeep_rules(
    discord_url: &str,
    regions: &Vec<(String, RegionInfo)>,
    selected: &Vec<String>,
    block_mode: BlockMode,
    merge_unstable: bool,
) -> (content: String)
    ensures
        content@ == gatekeep_content(
            discord_url@,
            regions.deep_view(),
            selected.deep_view(),
            block_mode,
            merge_unstable,
        ),
{
    let ghost catalog = regions.deep_view();
    let ghost chosen = selected.deep_view();
    let allowed = allowed_regions(regions, selected, merge_unstable);
    let mut content = String::new();
    content.append("# Edited by Make Your Choice (DbD Server Selector)\n");
    content.append(
        "# Unselected servers are blocked (Gatekeep Mode); selected servers are commented out.\n",
    );
    content.append("# Need help? Discord: ");
    content.append(discord_url);
    content.append("\n");
    content.append("\n");
    let mut i: usize = 0;
    while i < regions.len()
        invariant
            i <= regions.len(),
            catalog == regions.deep_view(),
            chosen == selected.deep_view(),
            forall|name: Seq<char>|
                allowed.deep_view().contains(name) <==> is_allowed(
                    catalog,
                    chosen,
                    merge_unstable,
                    name,
                ),
            content@ == gatekeep_header(discord_url@) + gatekeep_regions(
                catalog,
                chosen,
                block_mode,
                merge_unstable,
                i as int,
            ),
        decreases regions.len() - i,
    {
        let allow = is_listed(&allowed, &regions[i].0);
        push_gatekeep_lines(&mut content, &regions[i].1.hosts, allow, block_mode);
        content.append("\n");
        i += 1;
    }
    content
}

/// The comment lines that head the Universal Redirect entries.
pub open spec fn redirect_header(discord_url: Seq<char>) -> Seq<char> {
    "# Edited by Make Your Choice (DbD Server Selector)\n"@
        + "# Universal Redirect mode: redirect all GameLift endpoints to selected region\n"@
        + "# Need help? Discord: "@ + discord_url + "\n"@ + "\n"@
}

/// The Universal Redirect entry of one hostname: a ping beacon is mapped to
/// the ping address, every other hostname to the service address.
pub open spec fn redirect_line(service_ip: Seq<char>, ping_ip: Seq<char>, host: Seq<char>) -> Seq<
    char,
> {
    (if is_ping_host(host) {
        ping_ip
    } else {
        service_ip
    }) + " "@ + host + "\n"@
}

/// The Universal Redirect entries of the hostnames of one region.
pub open spec fn redirect_lines(
    hosts: Seq<Seq<char>>,
    service_ip: Seq<char>,
    ping_ip: Seq<char>,
) -> Seq<char>
    decreases hosts.len(),
{
    if hosts.len() == 0 {
        Seq::empty()
    } else {
        redirect_lines(hosts.drop_last(), service_ip, ping_ip) + redirect_line(
            service_ip,
            ping_ip,
            hosts.last(),
        )
    }
}

/// The Universal Redirect entries of the first `n` regions of the catalog,
/// each region followed by an empty line.
pub open spec fn redirect_regions(
    catalog: CatalogModel,
    service_ip: Seq<char>,
    ping_ip: Seq<char>,
    n: int,
) -> Seq<char>
    decreases n,
{
    if n <= 0 {
        Seq::empty()
    } else {
        redirect_regions(catalog, service_ip, ping_ip, n - 1) + redirect_lines(
            catalog[n - 1].1.hosts,
            service_ip,
            ping_ip,
        ) + "\n"@
    }
}

/// The content of the managed block under Universal Redirect.
pub open spec fn redirect_content(
    discord_url: Seq<char>,
    catalog: CatalogModel,
    service_ip: Seq<char>,
    ping_ip: Seq<char>,
) -> Seq<char> {
    redirect_header(discord_url) + redirect_regions(
        catalog,
        service_ip,
        ping_ip,
        catalog.len() as int,
    )
}

/// Appends the Universal Redirect entries of one region to `content`.
fn push_redirect_lines(content: &mut String, hosts: &Vec<String>, service_ip: &str, ping_ip: &str)
    ensures
        final(content)@ == old(content)@ + redirect_lines(
            hosts.deep_view(),
            service_ip@,
            ping_ip@,
        ),
{
    let ghost names = hosts.deep_view();
    let mut j: usize = 0;
    while j < hosts.len()
        invariant
            j <= hosts.len(),
            names == hosts.deep_view(),
            content@ == old(content)@ + redirect_lines(
                names.subrange(0, j as int),
                service_ip@,
                ping_ip@,
            ),
        decreases hosts.len() - j,
    {
        let host = hosts[j].as_str();
        if is_ping(host) {
            content.append(ping_ip);
        } else {
            content.append(service_ip);
        }
        content.append(" ");
        content.append(host);
        content.append("\n");
        proof {
            let upto = names.subrange(0, j + 1);
            assert(upto.drop_last() =~= names.subrange(0, j as int));
        }
        j += 1;
    }
    assert(names.subrange(0, names.len() as int) =~= names);
}

/// The content of the managed block under Universal Redirect: the header,
/// then for every region of the catalog, in catalog order, one entry for each
/// of its hostnames, and an empty line.
pub fn redirect_rules(
    discord_url: &str,
    regions: &Vec<(String, RegionInfo)>,
    service_ip: &str,
    ping_ip: &str,
) -> (content: String)
    ensures
        content@ == redirect_content(discord_url@, regions.deep_view(), service_ip@, ping_ip@),
{
    let ghost catalog = regions.deep_view();
    let mut content = String::new();
    content.append("# Edited by Make Your Choice (DbD Server Selector)\n");
    content.append(
        "# Universal Redirect mode: redirect all GameLift endpoints to selected region\n",
    );
    content.append("# Need help? Discord: ");
    content.append(discord_url);
    content.append("\n");
    content.append("\n");
    let mut i: usize = 0;
    while i < regions.len()
        invariant
            i <= regions.len(),
            catalog == regions.deep_view(),
            content@ == redirect_header(discord_url@) + redirect_regions(
                catalog,
                service_ip@,
                ping_ip@,
                i as int,
            ),
        decreases regions.len() - i,
    {
        push_redirect_lines(&mut content, &regions[i].1.hosts, service_ip, ping_ip);
        content.append("\n");
        i += 1;
    }
    content
}

} // verus!
