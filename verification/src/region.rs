//! The region catalog: the named server regions, their hostnames, and the
//! group that each region name belongs to.
//!
//! The catalog is an ordered list of `(name, info)` entries. Its order is
//! part of its meaning: wherever a rule picks "the first" region with some
//! property, it is the first in catalog order.

use vstd::prelude::*;
use crate::text::{chars_of, contains, has_match, has_prefix, starts_with};

verus! {

/// The hostnames of one region and whether the region is known to be stable.
///
/// `hosts[0]` is the service endpoint. `hosts[1]`, where present, is the
/// ping beacon; otherwise the service endpoint serves as both.
#[derive(Debug, Clone)]
pub struct RegionInfo {
    pub hosts: Vec<String>,
    pub stable: bool,
}

/// What a `RegionInfo` holds, as mathematical values.
pub struct RegionModel {
    pub hosts: Seq<Seq<char>>,
    pub stable: bool,
}

impl DeepView for RegionInfo {
    type V = RegionModel;

    open spec fn deep_view(&self) -> RegionModel {
        RegionModel { hosts: self.hosts.deep_view(), stable: self.stable }
    }
}

/// A catalog as mathematical values: the deep view of `Vec<(String, RegionInfo)>`.
pub type CatalogModel = Seq<(Seq<char>, RegionModel)>;

/// How a selection is turned into hosts entries.
#[derive(Debug, Clone, Copy, PartialEq, Eq, Structural)]
pub enum ApplyMode {
    Gatekeep,
    UniversalRedirect,
}

/// Which hostnames of a region Gatekeep writes entries for.
#[derive(Debug, Clone, Copy, PartialEq, Eq, Structural)]
pub enum BlockMode {
    Both,
    OnlyPing,
    OnlyService,
}

/// The part of the world a region belongs to.
#[derive(Debug, Clone, Copy, PartialEq, Eq, Structural)]
pub enum RegionGroup {
    Europe,
    Americas,
    Asia,
    Oceania,
    China,
}

/// A catalog entry with a service endpoint and a separate ping beacon.
pub open spec fn paired_entry(
    name: Seq<char>,
    service: Seq<char>,
    ping: Seq<char>,
    stable: bool,
) -> (Seq<char>, RegionModel) {
    (name, RegionModel { hosts: seq![service, ping], stable })
}

/// A catalog entry whose service endpoint is its only hostname.
pub open spec fn single_entry(name: Seq<char>, service: Seq<char>, stable: bool) -> (
    Seq<char>,
    RegionModel,
) {
    (name, RegionModel { hosts: seq![service], stable })
}

/// The regions that the catalog holds, in catalog order.
pub open spec fn built_in_catalog() -> CatalogModel {
    seq![
        paired_entry(
            "Europe (London)"@,
            "gamelift.eu-west-2.amazonaws.com"@,
            "gamelift-ping.eu-west-2.api.aws"@,
            false,
        ),
        paired_entry(
            "Europe (Ireland)"@,
            "gamelift.eu-west-1.amazonaws.com"@,
            "gamelift-ping.eu-west-1.api.aws"@,
            true,
        ),
        paired_entry(
            "Europe (Frankfurt am Main)"@,
            "gamelift.eu-central-1.amazonaws.com"@,
            "gamelift-ping.eu-central-1.api.aws"@,
            true,
        ),
        paired_entry(
            "US East (N. Virginia)"@,
            "gamelift.us-east-1.amazonaws.com"@,
            "gamelift-ping.us-east-1.api.aws"@,
            true,
        ),
        paired_entry(
            "US East (Ohio)"@,
            "gamelift.us-east-2.amazonaws.com"@,
            "gamelift-ping.us-east-2.api.aws"@,
            false,
        ),
        paired_entry(
            "US West (N. California)"@,
            "gamelift.us-west-1.amazonaws.com"@,
            "gamelift-ping.us-west-1.api.aws"@,
            true,
        ),
        paired_entry(
            "US West (Oregon)"@,
            "gamelift.us-west-2.amazonaws.com"@,
            "gamelift-ping.us-west-2.api.aws"@,
            true,
        ),
        paired_entry(
            "Canada (Central)"@,
            "gamelift.ca-central-1.amazonaws.com"@,
            "gamelift-ping.ca-central-1.api.aws"@,
            false,
        ),
        paired_entry(
            "South America (São Paulo)"@,
            "gamelift.sa-east-1.amazonaws.com"@,
            "gamelift-ping.sa-east-1.api.aws"@,
            true,
        ),
        paired_entry(
            "Asia Pacific (Tokyo)"@,
            "gamelift.ap-northeast-1.amazonaws.com"@,
            "gamelift-ping.ap-northeast-1.api.aws"@,
            true,
        ),
        paired_entry(
            "Asia Pacific (Seoul)"@,
            "gamelift.ap-northeast-2.amazonaws.com"@,
            "gamelift-ping.ap-northeast-2.api.aws"@,
            true,
        ),
        paired_entry(
            "Asia Pacific (Mumbai)"@,
            "gamelift.ap-south-1.amazonaws.com"@,
            "gamelift-ping.ap-south-1.api.aws"@,
            true,
        ),
        paired_entry(
            "Asia Pacific (Singapore)"@,
            "gamelift.ap-southeast-1.amazonaws.com"@,
            "gamelift-ping.ap-southeast-1.api.aws"@,
            true,
        ),
        paired_entry(
            "Asia Pacific (Hong Kong)"@,
            "ec2.ap-east-1.amazonaws.com"@,
            "gamelift-ping.ap-east-1.api.aws"@,
            true,
        ),
        paired_entry(
            "Asia Pacific (Sydney)"@,
            "gamelift.ap-southeast-2.amazonaws.com"@,
            "gamelift-ping.ap-southeast-2.api.aws"@,
            true,
        ),
        single_entry("China (Beijing)"@, "gamelift.cn-north-1.amazonaws.com.cn"@, true),
        single_entry("China (Ningxia)"@, "gamelift.cn-northwest-1.amazonaws.com.cn"@, true),
    ]
}

fn paired(name: &str, service: &str, ping: &str, stable: bool) -> (entry: (String, RegionInfo))
    ensures
        entry.deep_view() == paired_entry(name@, service@, ping@, stable),
{
    let mut hosts: Vec<String> = Vec::new();
    hosts.push(service.to_string());
    hosts.push(ping.to_string());
    assert(hosts.deep_view() =~= seq![service@, ping@]);
    (name.to_string(), RegionInfo { hosts, stable })
}

fn single(name: &str, service: &str, stable: bool) -> (entry: (String, RegionInfo))
    ensures
        entry.deep_view() == single_entry(name@, service@, stable),
{
    let mut hosts: Vec<String> = Vec::new();
    hosts.push(service.to_string());
    assert(hosts.deep_view() =~= seq![service@]);
    (name.to_string(), RegionInfo { hosts, stable })
}

/// The region catalog. It is the same list on every call.
pub fn get_regions() -> (regions: Vec<(String, RegionInfo)>)
    ensures
        regions.deep_view() == built_in_catalog(),
{
    let mut regions: Vec<(String, RegionInfo)> = Vec::new();
    regions.push(
        paired("Europe (London)", "gamelift.eu-west-2.amazonaws.com", "gamelift-ping.eu-west-2.api.aws", false),
    );
    regions.push(
        paired("Europe (Ireland)", "gamelift.eu-west-1.amazonaws.com", "gamelift-ping.eu-west-1.api.aws", true),
    );
    regions.push(
        paired("Europe (Frankfurt am Main)", "gamelift.eu-central-1.amazonaws.com", "gamelift-ping.eu-central-1.api.aws", true),
    );
    regions.push(
        paired("US East (N. Virginia)", "gamelift.us-east-1.amazonaws.com", "gamelift-ping.us-east-1.api.aws", true),
    );
    regions.push(
        paired("US East (Ohio)", "gamelift.us-east-2.amazonaws.com", "gamelift-ping.us-east-2.api.aws", false),
    );
    regions.push(
        paired("US West (N. California)", "gamelift.us-west-1.amazonaws.com", "gamelift-ping.us-west-1.api.aws", true),
    );
    regions.push(
        paired("US West (Oregon)", "gamelift.us-west-2.amazonaws.com", "gamelift-ping.us-west-2.api.aws", true),
    );
    regions.push(
        paired("Canada (Central)", "gamelift.ca-central-1.amazonaws.com", "gamelift-ping.ca-central-1.api.aws", false),
    );
    regions.push(
        paired("South America (São Paulo)", "gamelift.sa-east-1.amazonaws.com", "gamelift-ping.sa-east-1.api.aws", true),
    );
    regions.push(
        paired("Asia Pacific (Tokyo)", "gamelift.ap-northeast-1.amazonaws.com", "gamelift-ping.ap-northeast-1.api.aws", true),
    );
    regions.push(
        paired("Asia Pacific (Seoul)", "gamelift.ap-northeast-2.amazonaws.com", "gamelift-ping.ap-northeast-2.api.aws", true),
    );
    regions.push(
        paired("Asia Pacific (Mumbai)", "gamelift.ap-south-1.amazonaws.com", "gamelift-ping.ap-south-1.api.aws", true),
    );
    regions.push(
        paired("Asia Pacific (Singapore)", "gamelift.ap-southeast-1.amazonaws.com", "gamelift-ping.ap-southeast-1.api.aws", true),
    );
    regions.push(
        paired("Asia Pacific (Hong Kong)", "ec2.ap-east-1.amazonaws.com", "gamelift-ping.ap-east-1.api.aws", true),
    );
    regions.push(
        paired("Asia Pacific (Sydney)", "gamelift.ap-southeast-2.amazonaws.com", "gamelift-ping.ap-southeast-2.api.aws", true),
    );
    regions.push(single("China (Beijing)", "gamelift.cn-north-1.amazonaws.com.cn", true));
    regions.push(single("China (Ningxia)", "gamelift.cn-northwest-1.amazonaws.com.cn", true));
    regions
}

/// Every region has at least one hostname, and no name occurs twice.
pub open spec fn catalog_wf(catalog: CatalogModel) -> bool {
    &&& forall|i: int| 0 <= i < catalog.len() ==> (#[trigger] catalog[i]).1.hosts.len() >= 1
    &&& forall|i: int, j: int|
        0 <= i < j < catalog.len() ==> (#[trigger] catalog[i]).0 != (#[trigger] catalog[j]).0
}

/// The built-in catalog is well formed.
pub proof fn lemma_built_in_catalog_wf()
    ensures
        catalog_wf(built_in_catalog()),
{
    reveal_strlit("Europe (London)");
    reveal_strlit("Europe (Ireland)");
    reveal_strlit("Europe (Frankfurt am Main)");
    reveal_strlit("US East (N. Virginia)");
    reveal_strlit("US East (Ohio)");
    reveal_strlit("US West (N. California)");
    reveal_strlit("US West (Oregon)");
    reveal_strlit("Canada (Central)");
    reveal_strlit("South America (São Paulo)");
    reveal_strlit("Asia Pacific (Tokyo)");
    reveal_strlit("Asia Pacific (Seoul)");
    reveal_strlit("Asia Pacific (Mumbai)");
    reveal_strlit("Asia Pacific (Singapore)");
    reveal_strlit("Asia Pacific (Hong Kong)");
    reveal_strlit("Asia Pacific (Sydney)");
    reveal_strlit("China (Beijing)");
    reveal_strlit("China (Ningxia)");
    let c = built_in_catalog();
    assert forall|i: int, j: int| 0 <= i < j < c.len() implies (#[trigger] c[i]).0 != (
    #[trigger] c[j]).0 by {
        assert(c[i].0.len() != c[j].0.len() || c[i].0[8] != c[j].0[8] || c[i].0[14] != c[j].0[14]);
    }
}

/// The position of the first catalog entry named `name`, if there is one.
pub open spec fn region_index(catalog: CatalogModel, name: Seq<char>) -> Option<int> {
    if exists|i: int| 0 <= i < catalog.len() && (#[trigger] catalog[i]).0 == name {
        Some(choose|i: int| is_region_index(catalog, name, i))
    } else {
        None
    }
}

/// `i` is the position of the first catalog entry named `name`.
pub open spec fn is_region_index(catalog: CatalogModel, name: Seq<char>, i: int) -> bool {
    &&& 0 <= i < catalog.len()
    &&& catalog[i].0 == name
    &&& forall|j: int| 0 <= j < i ==> (#[trigger] catalog[j]).0 != name
}

/// The group of a region name. The rules are tried in this order: a name that
/// begins with "Europe" is in Europe; one that begins with "US", "Canada" or
/// "South America" is in the Americas; one that contains "Sydney" is in
/// Oceania; one that contains "China" is in China. Every other name, known to
/// the catalog or not, is in Asia.
pub open spec fn group_for(name: Seq<char>) -> RegionGroup {
    if starts_with(name, "Europe"@) {
        RegionGroup::Europe
    } else if starts_with(name, "US"@) || starts_with(name, "Canada"@) || starts_with(
        name,
        "South America"@,
    ) {
        RegionGroup::Americas
    } else if contains(name, "Sydney"@) {
        RegionGroup::Oceania
    } else if contains(name, "China"@) {
        RegionGroup::China
    } else {
        RegionGroup::Asia
    }
}

impl RegionGroup {
    /// The label that names the group.
    pub open spec fn label_text(self) -> Seq<char> {
        match self {
            RegionGroup::Europe => "Europe"@,
            RegionGroup::Americas => "Americas"@,
            RegionGroup::Asia => "Asia"@,
            RegionGroup::Oceania => "Oceania"@,
            RegionGroup::China => "China"@,
        }
    }

    /// The label that names the group.
    pub fn label(self) -> (text: &'static str)
        ensures
            text@ == self.label_text(),
    {
        match self {
            RegionGroup::Europe => "Europe",
            RegionGroup::Americas => "Americas",
            RegionGroup::Asia => "Asia",
            RegionGroup::Oceania => "Oceania",
            RegionGroup::China => "China",
        }
    }
}

/// The group that a region name belongs to.
pub fn group_of(region: &str) -> (group: RegionGroup)
    ensures
        group == group_for(region@),
{
    let name = chars_of(region);
    if has_prefix(&name, &chars_of("Europe")) {
        RegionGroup::Europe
    } else if has_prefix(&name, &chars_of("US")) || has_prefix(&name, &chars_of("Canada"))
        || has_prefix(&name, &chars_of("South America")) {
        RegionGroup::Americas
    } else if has_match(&name, &chars_of("Sydney")) {
        RegionGroup::Oceania
    } else if has_match(&name, &chars_of("China")) {
        RegionGroup::China
    } else {
        RegionGroup::Asia
    }
}

/// The label of the group that a region name belongs to.
pub fn get_group_name(region: &str) -> (label: &'static str)
    ensures
        label@ == group_for(region@).label_text(),
{
    group_of(region).label()
}

/// A region name belongs to exactly one group, whose label is one of the five
/// group labels.
pub proof fn lemma_group_total(name: Seq<char>)
    ensures
        group_for(name).label_text() == "Europe"@ || group_for(name).label_text() == "Americas"@
            || group_for(name).label_text() == "Asia"@ || group_for(name).label_text()
            == "Oceania"@ || group_for(name).label_text() == "China"@,
{
}

/// A name that matches none of the group rules is in Asia.
pub proof fn lemma_group_default(name: Seq<char>)
    requires
        !starts_with(name, "Europe"@),
        !starts_with(name, "US"@),
        !starts_with(name, "Canada"@),
        !starts_with(name, "South America"@),
        !contains(name, "Sydney"@),
        !contains(name, "China"@),
    ensures
        group_for(name) == RegionGroup::Asia,
{
}

} // verus!
