//! The hosts manager: from the current content of the hosts file and the
//! user's choices to the content that is to be written.
//!
//! Nothing here reads or writes a file. Every operation takes the current
//! content as a text and returns the new content in full, so that a caller
//! commits it in one write or not at all.

use vstd::prelude::*;
use vstd::string::*;
use crate::conflicts::{
    conflicts_among, find_conflicts, is_managed_host, managed_hostnames, remove_lines,
    without_lines,
};
use crate::document::{outside_content, outside_of, replace_managed_section, replaced};
use crate::lines::lines;
use crate::platform::{default_hosts, default_hosts_text, Platform};
use crate::policy::{gatekeep_content, gatekeep_rules, redirect_content, redirect_rules};
use crate::region::{is_region_index, region_index, BlockMode, CatalogModel, RegionInfo};

verus! {

/// Why an operation on the hosts file did not go through.
#[derive(Debug, Clone, Copy, PartialEq, Eq, Structural)]
pub enum HostsError {
    /// Gatekeep was asked for with no region selected.
    EmptySelection,
    /// Universal Redirect was asked for with no region or more than one.
    NotSingleSelection,
    /// The selected region is not in the catalog.
    RegionNotFound,
    /// A hostname of the selected region resolved to no address.
    ResolutionFailed,
    /// The new content could not be staged for the privileged write.
    StagingFailed,
    /// The privileged write was cancelled or denied, or the elevation tool
    /// could not be run.
    PermissionDenied,
    /// The hosts file could not be written in place.
    WriteFailed,
}

impl HostsError {
    /// What the user is told about the error.
    pub open spec fn message_text(self, hosts_path: Seq<char>) -> Seq<char> {
        match self {
            HostsError::EmptySelection => "Please select at least one server to allow."@,
            HostsError::NotSingleSelection => "Please select only one server when using Universal Redirect mode."@,
            HostsError::RegionNotFound => "Selected region not found"@,
            HostsError::ResolutionFailed => "No addresses found"@,
            HostsError::StagingFailed => "Failed to write temporary file"@,
            HostsError::PermissionDenied => "Failed to write to "@ + hosts_path
                + ". Operation was cancelled or permission was denied."@,
            HostsError::WriteFailed => "Failed to write to "@ + hosts_path
                + ". Ensure you are running as Administrator."@,
        }
    }

    /// What the user is told about the error; `hosts_path` names the file
    /// that was to be written.
    pub fn message(&self, hosts_path: &str) -> (text: String)
        ensures
            text@ == self.message_text(hosts_path@),
    {
        let mut text = String::new();
        match self {
            HostsError::EmptySelection => {
                text.append("Please select at least one server to allow.");
            },
            HostsError::NotSingleSelection => {
                text.append("Please select only one server when using Universal Redirect mode.");
            },
            HostsError::RegionNotFound => {
                text.append("Selected region not found");
            },
            HostsError::ResolutionFailed => {
                text.append("No addresses found");
            },
            HostsError::StagingFailed => {
                text.append("Failed to write temporary file");
            },
            HostsError::PermissionDenied => {
                text.append("Failed to write to ");
                text.append(hosts_path);
                text.append(". Operation was cancelled or permission was denied.");
            },
            HostsError::WriteFailed => {
                text.append("Failed to write to ");
                text.append(hosts_path);
                text.append(". Ensure you are running as Administrator.");
            },
        }
        text
    }
}

/// Every name of `selected` is `name`, and there is at least one.
pub open spec fn is_single_selection(selected: Seq<Seq<char>>, name: Seq<char>) -> bool {
    selected.len() > 0 && forall|k: int| 0 <= k < selected.len() ==> #[trigger] selected[k] == name
}

/// The hostnames whose addresses Universal Redirect needs.
pub struct RedirectTargets {
    /// The selected region.
    pub region: String,
    /// The service endpoint of the region: its first hostname.
    pub service_host: String,
    /// The ping beacon of the region: its second hostname, or the first
    /// where it has no second.
    pub ping_host: String,
}

/// The position of the first catalog entry named `name`.
pub fn find_region(regions: &Vec<(String, RegionInfo)>, name: &String) -> (found: Option<usize>)
    ensures
        match found {
            Some(i) => region_index(regions.deep_view(), name@) == Some(i as int)
                && is_region_index(regions.deep_view(), name@, i as int),
            None => region_index(regions.deep_view(), name@) is None,
        },
{
    let ghost catalog = regions.deep_view();
    let mut i: usize = 0;
    while i < regions.len()
        invariant
            i <= regions.len(),
            catalog == regions.deep_view(),
            forall|j: int| 0 <= j < i ==> (#[trigger] catalog[j]).0 != name@,
        decreases regions.len() - i,
    {
        if regions[i].0 == *name {
            proof {
                lemma_region_index_is(catalog, name@, i as int);
            }
            return Some(i);
        }
        i += 1;
    }
    None
}

/// A first entry named `name` is the value of `region_index`.
pub proof fn lemma_region_index_is(catalog: CatalogModel, name: Seq<char>, i: int)
    requires
        is_region_index(catalog, name, i),
    ensures
        region_index(catalog, name) == Some(i),
{
}

/// Checks a selection for Gatekeep, before anything is read or computed: it
/// must name at least one region.
pub fn check_gatekeep_selection(selected: &Vec<String>) -> (outcome: Result<(), HostsError>)
    ensures
        outcome == if selected.len() == 0 {
            Err::<(), HostsError>(HostsError::EmptySelection)
        } else {
            Ok::<(), HostsError>(())
        },
{
    if selected.len() == 0 {
        Err(HostsError::EmptySelection)
    } else {
        Ok(())
    }
}

/// Checks a selection for Universal Redirect and names the hostnames to
/// resolve. The selection must name exactly one region, and the catalog must
/// hold it. That region must have a hostname, as every region of a catalog
/// has.
pub fn redirect_targets(regions: &Vec<(String, RegionInfo)>, selected: &Vec<String>) -> (plan:
    Result<RedirectTargets, HostsError>)
    requires
        forall|i: int|
            0 <= i < regions.len() && is_single_selection(
                selected.deep_view(),
                (#[trigger] regions.deep_view()[i]).0,
            ) ==> regions.deep_view()[i].1.hosts.len() >= 1,
    ensures
        match plan {
            Ok(targets) => {
                let catalog = regions.deep_view();
                &&& is_single_selection(selected.deep_view(), targets.region@)
                &&& region_index(catalog, targets.region@) matches Some(i) && {
                    let hosts = catalog[i].1.hosts;
                    &&& targets.service_host@ == hosts[0]
                    &&& targets.ping_host@ == if hosts.len() > 1 {
                        hosts[1]
                    } else {
                        hosts[0]
                    }
                }
            },
            Err(e) => if exists|name: Seq<char>| is_single_selection(selected.deep_view(), name) {
                e == HostsError::RegionNotFound && region_index(
                    regions.deep_view(),
                    selected.deep_view()[0],
                ) is None
            } else {
                e == HostsError::NotSingleSelection
            },
        },
{
    let ghost catalog = regions.deep_view();
    let ghost chosen = selected.deep_view();
    if selected.len() == 0 {
        return Err(HostsError::NotSingleSelection);
    }
    let mut k: usize = 1;
    while k < selected.len()
        invariant
            1 <= k <= selected.len(),
            chosen == selected.deep_view(),
            forall|m: int| 0 <= m < k ==> #[trigger] chosen[m] == chosen[0],
        decreases selected.len() - k,
    {
        if selected[k] != selected[0] {
            assert(chosen[k as int] != chosen[0]);
            return Err(HostsError::NotSingleSelection);
        }
        k += 1;
    }
    assert(is_single_selection(chosen, chosen[0]));
    match find_region(regions, &selected[0]) {
        Some(i) => {
            let hosts = &regions[i].1.hosts;
            assert(catalog[i as int].1.hosts == hosts.deep_view());
            assert(is_single_selection(chosen, catalog[i as int].0));
            let service_host = hosts[0].clone();
            let ping_host = if hosts.len() > 1 {
                hosts[1].clone()
            } else {
                hosts[0].clone()
            };
            Ok(RedirectTargets { region: selected[0].clone(), service_host, ping_host })
        },
        None => Err(HostsError::RegionNotFound),
    }
}

/// Turns the user's choices into new content for the hosts file.
pub struct HostsManager {
    discord_url: String,
}

impl HostsManager {
    /// The support contact that the manager names in what it writes.
    pub closed spec fn contact(&self) -> Seq<char> {
        self.discord_url@
    }

    /// A manager that names `discord_url` as the support contact.
    pub fn new(discord_url: String) -> (manager: Self)
        ensures
            manager.contact() == discord_url@,
    {
        Self { discord_url }
    }

    /// The hosts content with its managed block replaced by the block for
    /// `inner_content`.
    pub fn write_wrapped_section(&self, current: &str, inner_content: &str) -> (content: String)
        ensures
            content@ == replaced(current@, inner_content@),
    {
        replace_managed_section(current, inner_content)
    }

    /// The hosts content under Gatekeep: the managed block of `current`
    /// replaced by entries that leave the allowed regions reachable and block
    /// all others. Fails, before anything is computed, where nothing is
    /// selected: exactly where `check_gatekeep_selection` fails.
    pub fn apply_gatekeep(
        &self,
        current: &str,
        regions: &Vec<(String, RegionInfo)>,
        selected: &Vec<String>,
        block_mode: BlockMode,
        merge_unstable: bool,
    ) -> (outcome: Result<String, HostsError>)
        ensures
            match outcome {
                Ok(content) => selected.len() > 0 && content@ == replaced(
                    current@,
                    gatekeep_content(
                        self.contact(),
                        regions.deep_view(),
                        selected.deep_view(),
                        block_mode,
                        merge_unstable,
                    ),
                ),
                Err(e) => selected.len() == 0 && e == HostsError::EmptySelection,
            },
    {
        match check_gatekeep_selection(selected) {
            Err(reason) => {
                return Err(reason);
            },
            Ok(()) => {},
        }
        let rules = gatekeep_rules(
            self.discord_url.as_str(),
            regions,
            selected,
            block_mode,
            merge_unstable,
        );
        Ok(replace_managed_section(current, rules.as_str()))
    }

    /// The hosts content under Universal Redirect: the managed block of
    /// `current` replaced by entries that map every hostname of every region
    /// to the first of `service_addresses`, and every ping beacon to the first
    /// of `ping_addresses`. These are the addresses that the service endpoint
    /// and the ping beacon of `selected_region` resolved to. Fails where the
    /// catalog does not hold the region, and otherwise where one of the two
    /// resolved to no address.
    pub fn apply_universal_redirect(
        &self,
        current: &str,
        regions: &Vec<(String, RegionInfo)>,
        selected_region: &str,
        service_addresses: &Vec<String>,
        ping_addresses: &Vec<String>,
    ) -> (outcome: Result<String, HostsError>)
        ensures
            match outcome {
                Ok(content) => {
                    &&& region_index(regions.deep_view(), selected_region@) is Some
                    &&& service_addresses.len() > 0
                    &&& ping_addresses.len() > 0
                    &&& content@ == replaced(
                        current@,
                        redirect_content(
                            self.contact(),
                            regions.deep_view(),
                            service_addresses.deep_view()[0],
                            ping_addresses.deep_view()[0],
                        ),
                    )
                },
                Err(e) => if region_index(regions.deep_view(), selected_region@) is None {
                    e == HostsError::RegionNotFound
                } else {
                    e == HostsError::ResolutionFailed && (service_addresses.len() == 0
                        || ping_addresses.len() == 0)
                },
            },
    {
        let name = selected_region.to_string();
        if find_region(regions, &name).is_none() {
            return Err(HostsError::RegionNotFound);
        }
        if service_addresses.len() == 0 || ping_addresses.len() == 0 {
            return Err(HostsError::ResolutionFailed);
        }
        let rules = redirect_rules(
            self.discord_url.as_str(),
            regions,
            service_addresses[0].as_str(),
            ping_addresses[0].as_str(),
        );
        Ok(replace_managed_section(current, rules.as_str()))
    }

    /// The hosts content without its managed block. Everything outside the
    /// block is kept as it is, and content that has no block comes back
    /// unchanged.
    pub fn revert(&self, current: &str) -> (content: String)
        ensures
            content@ == replaced(current@, Seq::empty()),
    {
        proof {
            reveal_strlit("");
        }
        replace_managed_section(current, "")
    }

    /// The content that resets the hosts file of `platform`: its minimal
    /// default, which replaces the whole file, markers or not.
    pub fn restore_default(&self, platform: Platform) -> (content: String)
        ensures
            content@ == default_hosts_text(platform),
    {
        default_hosts(platform).to_string()
    }

    /// The hostnames of the catalog in lower case, each of them once.
    pub fn get_all_managed_hostnames(&self, regions: &Vec<(String, RegionInfo)>) -> (hostnames:
        Vec<String>)
        ensures
            hostnames.deep_view().no_duplicates(),
            forall|host: Seq<char>|
                hostnames.deep_view().contains(host) <==> is_managed_host(
                    regions.deep_view(),
                    host,
                ),
    {
        managed_hostnames(regions)
    }

    /// The entries of `current` outside its managed block that name a
    /// hostname of the catalog: each such line once, without the white space
    /// around it, in the order in which they first occur.
    pub fn detect_conflicting_entries(
        &self,
        current: &str,
        regions: &Vec<(String, RegionInfo)>,
    ) -> (conflicts: Vec<String>)
        ensures
            conflicts.deep_view() == conflicts_among(
                regions.deep_view(),
                lines(outside_of(current@)),
            ),
    {
        let outside = outside_content(current);
        find_conflicts(outside.as_str(), regions)
    }

    /// The hosts content without the lines that are, white space around them
    /// aside, one of `conflicts`. Every other line is kept as it stands, with
    /// its own line ending, and the content ends with a line ending exactly
    /// where it did before.
    pub fn clear_conflicting_entries(&self, current: &str, conflicts: &Vec<String>) -> (content:
        String)
        ensures
            content@ == without_lines(current@, conflicts.deep_view()),
    {
        remove_lines(current, conflicts)
    }
}

} // verus!
