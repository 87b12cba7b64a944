//! The server list as it is shown: the regions under the headings of their
//! groups, and the mark on regions that are not stable.

use vstd::prelude::*;
use vstd::string::*;
use crate::region::{group_for, group_of, CatalogModel, RegionGroup, RegionInfo};
use crate::text::{remove_all, without};

verus! {

/// What is put behind the name of an unstable region.
pub const WARNING_MARK: &'static str = " ⚠︎";

/// What the tooltip of an unstable region says.
pub const WARNING_TOOLTIP: &'static str = "Unstable: issues may occur.";

/// One row of the server list.
#[derive(Debug, Clone)]
pub struct ListRow {
    /// The heading of a group, or the name under which a region is shown.
    pub label: String,
    /// Whether the row is the heading of a group.
    pub is_divider: bool,
    /// Whether the region is stable; `true` for a heading.
    pub stable: bool,
    /// The tooltip of the row; empty where it has none.
    pub tooltip: String,
}

/// What a `ListRow` holds, as mathematical values.
pub struct RowModel {
    pub label: Seq<char>,
    pub is_divider: bool,
    pub stable: bool,
    pub tooltip: Seq<char>,
}

impl DeepView for ListRow {
    type V = RowModel;

    open spec fn deep_view(&self) -> RowModel {
        RowModel {
            label: self.label@,
            is_divider: self.is_divider,
            stable: self.stable,
            tooltip: self.tooltip@,
        }
    }
}

impl RegionGroup {
    /// The heading under which the regions of the group are listed.
    pub open spec fn heading_text(self) -> Seq<char> {
        match self {
            RegionGroup::Europe => "Europe"@,
            RegionGroup::Americas => "The Americas"@,
            RegionGroup::Asia => "Asia (Excl. Cn)"@,
            RegionGroup::Oceania => "Oceania"@,
            RegionGroup::China => "Mainland China"@,
        }
    }

    /// The heading under which the regions of the group are listed.
    pub fn heading(self) -> (text: &'static str)
        ensures
            text@ == self.heading_text(),
    {
        match self {
            RegionGroup::Europe => "Europe",
            RegionGroup::Americas => "The Americas",
            RegionGroup::Asia => "Asia (Excl. Cn)",
            RegionGroup::Oceania => "Oceania",
            RegionGroup::China => "Mainland China",
        }
    }
}

/// A region is marked where it is unstable and unstable regions are not
/// merged, so that choosing it alone can leave the game without a server.
pub open spec fn is_marked(stable: bool, merge_unstable: bool) -> bool {
    !stable && !merge_unstable
}

/// The name under which a region is shown: its name, followed by the warning
/// mark where the region is marked.
pub open spec fn display_text(name: Seq<char>, stable: bool, merge_unstable: bool) -> Seq<char> {
    if is_marked(stable, merge_unstable) {
        name + WARNING_MARK@
    } else {
        name
    }
}

/// The tooltip of a region: the warning where the region is marked.
pub open spec fn tooltip_text(stable: bool, merge_unstable: bool) -> Seq<char> {
    if is_marked(stable, merge_unstable) {
        WARNING_TOOLTIP@
    } else {
        Seq::empty()
    }
}

/// The name under which a region is shown.
pub fn display_name(name: &str, stable: bool, merge_unstable: bool) -> (shown: String)
    ensures
        shown@ == display_text(name@, stable, merge_unstable),
{
    let mut shown = name.to_string();
    if !stable && !merge_unstable {
        shown.append(WARNING_MARK);
    }
    shown
}

/// The tooltip of a region.
pub fn warning_tooltip(stable: bool, merge_unstable: bool) -> (tooltip: String)
    ensures
        tooltip@ == tooltip_text(stable, merge_unstable),
{
    let mut tooltip = String::new();
    if !stable && !merge_unstable {
        tooltip.append(WARNING_TOOLTIP);
    }
    tooltip
}

/// The name of the region that is shown as `shown`: the text without the
/// warning mark.
pub fn clean_name(shown: &str) -> (name: String)
    ensures
        name@ == without(shown@, WARNING_MARK@),
{
    remove_all(shown, WARNING_MARK)
}

/// The row of the heading of `group`.
pub open spec fn divider_row(group: RegionGroup) -> RowModel {
    RowModel {
        label: group.heading_text(),
        is_divider: true,
        stable: true,
        tooltip: Seq::empty(),
    }
}

/// The row of the region `name`.
pub open spec fn region_row(name: Seq<char>, stable: bool, merge_unstable: bool) -> RowModel {
    RowModel {
        label: display_text(name, stable, merge_unstable),
        is_divider: false,
        stable,
        tooltip: tooltip_text(stable, merge_unstable),
    }
}

/// The rows of the regions of `group` among the first `n` of the catalog, in
/// catalog order.
pub open spec fn group_rows(
    catalog: CatalogModel,
    group: RegionGroup,
    merge_unstable: bool,
    n: int,
) -> Seq<RowModel>
    decreases n,
{
    if n <= 0 {
        Seq::empty()
    } else if group_for(catalog[n - 1].0) == group {
        group_rows(catalog, group, merge_unstable, n - 1).push(
            region_row(catalog[n - 1].0, catalog[n - 1].1.stable, merge_unstable),
        )
    } else {
        group_rows(catalog, group, merge_unstable, n - 1)
    }
}

/// The rows of `group`: its heading and its regions; nothing where the
/// catalog holds no region of the group.
pub open spec fn section_rows(catalog: CatalogModel, group: RegionGroup, merge_unstable: bool) -> Seq<
    RowModel,
> {
    let rows = group_rows(catalog, group, merge_unstable, catalog.len() as int);
    if rows.len() > 0 {
        seq![divider_row(group)] + rows
    } else {
        Seq::empty()
    }
}

/// The rows of the server list: the groups in the order Europe, the
/// Americas, Asia, Oceania, China.
pub open spec fn list_rows_of(catalog: CatalogModel, merge_unstable: bool) -> Seq<RowModel> {
    section_rows(catalog, RegionGroup::Europe, merge_unstable) + section_rows(
        catalog,
        RegionGroup::Americas,
        merge_unstable,
    ) + section_rows(catalog, RegionGroup::Asia, merge_unstable) + section_rows(
        catalog,
        RegionGroup::Oceania,
        merge_unstable,
    ) + section_rows(catalog, RegionGroup::China, merge_unstable)
}

/// Appends the rows of `group` to `rows`.
fn push_section(
    rows: &mut Vec<ListRow>,
    regions: &Vec<(String, RegionInfo)>,
    group: RegionGroup,
    merge_unstable: bool,
)
    ensures
        final(rows).deep_view() == old(rows).deep_view() + section_rows(
            regions.deep_view(),
            group,
            merge_unstable,
        ),
{
    let ghost catalog = regions.deep_view();
    let mut section: Vec<ListRow> = Vec::new();
    let mut i: usize = 0;
    while i < regions.len()
        invariant
            i <= regions.len(),
            catalog == regions.deep_view(),
            section.deep_view() == group_rows(catalog, group, merge_unstable, i as int),
        decreases regions.len() - i,
    {
        if group_of(regions[i].0.as_str()) == group {
            let stable = regions[i].1.stable;
            section.push(
                ListRow {
                    label: display_name(regions[i].0.as_str(), stable, merge_unstable),
                    is_divider: false,
                    stable,
                    tooltip: warning_tooltip(stable, merge_unstable),
                },
            );
        }
        i += 1;
    }
    if section.len() > 0 {
        rows.push(
            ListRow {
                label: group.heading().to_string(),
                is_divider: true,
                stable: true,
                tooltip: String::new(),
            },
        );
        rows.append(&mut section);
    }
}

/// The rows of the server list: under the heading of each group that has
/// regions, its regions in catalog order, each under its display name.
pub fn list_rows(regions: &Vec<(String, RegionInfo)>, merge_unstable: bool) -> (rows: Vec<ListRow>)
    ensures
        rows.deep_view() == list_rows_of(regions.deep_view(), merge_unstable),
{
    let mut rows: Vec<ListRow> = Vec::new();
    push_section(&mut rows, regions, RegionGroup::Europe, merge_unstable);
    push_section(&mut rows, regions, RegionGroup::Americas, merge_unstable);
    push_section(&mut rows, regions, RegionGroup::Asia, merge_unstable);
    push_section(&mut rows, regions, RegionGroup::Oceania, merge_unstable);
    push_section(&mut rows, regions, RegionGroup::China, merge_unstable);
    rows
}

} // verus!
