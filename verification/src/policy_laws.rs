//! What holds of the hosts file after Gatekeep was applied to it.

use vstd::prelude::*;
use crate::document::{ends_with_newline, managed_inner, marker, replaced};
use crate::document_laws::{lemma_reapply_same_block, lemma_replaced_layout};
use crate::policy::{
    gatekeep_content, gatekeep_header, gatekeep_line, gatekeep_lines, gatekeep_regions, is_allowed,
};
use crate::region::{built_in_catalog, BlockMode, CatalogModel};
use crate::text::{contains, occurs_at};

verus! {

/// The content that Gatekeep writes is never empty and ends with a line feed.
pub proof fn lemma_gatekeep_content_ends_line(
    discord_url: Seq<char>,
    catalog: CatalogModel,
    selected: Seq<Seq<char>>,
    mode: BlockMode,
    merge_unstable: bool,
)
    ensures
        ends_with_newline(gatekeep_content(discord_url, catalog, selected, mode, merge_unstable)),
{
    reveal_strlit("\n");
}

/// `s` holds no '#'.
pub open spec fn is_plain(s: Seq<char>) -> bool {
    forall|i: int| 0 <= i < s.len() ==> s[i] != '#'
}

/// No hostname of the catalog holds a '#'.
pub open spec fn has_plain_hosts(catalog: CatalogModel) -> bool {
    forall|i: int, j: int|
        0 <= i < catalog.len() && 0 <= j < catalog[i].1.hosts.len() ==> is_plain(
            #[trigger] catalog[i].1.hosts[j],
        )
}

/// No hostname of the built-in catalog holds a '#'.
pub proof fn lemma_built_in_hosts_plain()
    ensures
        has_plain_hosts(built_in_catalog()),
{
    reveal_strlit("gamelift.eu-west-2.amazonaws.com");
    reveal_strlit("gamelift-ping.eu-west-2.api.aws");
    reveal_strlit("gamelift.eu-west-1.amazonaws.com");
    reveal_strlit("gamelift-ping.eu-west-1.api.aws");
    reveal_strlit("gamelift.eu-central-1.amazonaws.com");
    reveal_strlit("gamelift-ping.eu-central-1.api.aws");
    reveal_strlit("gamelift.us-east-1.amazonaws.com");
    reveal_strlit("gamelift-ping.us-east-1.api.aws");
    reveal_strlit("gamelift.us-east-2.amazonaws.com");
    reveal_strlit("gamelift-ping.us-east-2.api.aws");
    reveal_strlit("gamelift.us-west-1.amazonaws.com");
    reveal_strlit("gamelift-ping.us-west-1.api.aws");
    reveal_strlit("gamelift.us-west-2.amazonaws.com");
    reveal_strlit("gamelift-ping.us-west-2.api.aws");
    reveal_strlit("gamelift.ca-central-1.amazonaws.com");
    reveal_strlit("gamelift-ping.ca-central-1.api.aws");
    reveal_strlit("gamelift.sa-east-1.amazonaws.com");
    reveal_strlit("gamelift-ping.sa-east-1.api.aws");
    reveal_strlit("gamelift.ap-northeast-1.amazonaws.com");
    reveal_strlit("gamelift-ping.ap-northeast-1.api.aws");
    reveal_strlit("gamelift.ap-northeast-2.amazonaws.com");
    reveal_strlit("gamelift-ping.ap-northeast-2.api.aws");
    reveal_strlit("gamelift.ap-south-1.amazonaws.com");
    reveal_strlit("gamelift-ping.ap-south-1.api.aws");
    reveal_strlit("gamelift.ap-southeast-1.amazonaws.com");
    reveal_strlit("gamelift-ping.ap-southeast-1.api.aws");
    reveal_strlit("ec2.ap-east-1.amazonaws.com");
    reveal_strlit("gamelift-ping.ap-east-1.api.aws");
    reveal_strlit("gamelift.ap-southeast-2.amazonaws.com");
    reveal_strlit("gamelift-ping.ap-southeast-2.api.aws");
    reveal_strlit("gamelift.cn-north-1.amazonaws.com.cn");
    reveal_strlit("gamelift.cn-northwest-1.amazonaws.com.cn");
    let c = built_in_catalog();
    assert(c.len() == 17);
    assert forall|i: int, j: int| 0 <= i < c.len() && 0 <= j < c[i].1.hosts.len() implies is_plain(
        #[trigger] c[i].1.hosts[j],
    ) by {
        assert(c[i].1.hosts.len() <= 2);
    }
}

/// No marker can start in `s`: wherever `s` holds a '#', the second character
/// behind it is there and is no '-', while the marker begins with "# -".
pub open spec fn starts_no_marker(s: Seq<char>) -> bool {
    forall|i: int|
        0 <= i < s.len() && #[trigger] s[i] == '#' ==> i + 2 < s.len() && s[i + 2] != '-'
}

/// Two texts in which no marker can start give one when they are joined.
proof fn lemma_joined_starts_no_marker(a: Seq<char>, b: Seq<char>)
    requires
        starts_no_marker(a),
        starts_no_marker(b),
    ensures
        starts_no_marker(a + b),
{
    assert forall|i: int| 0 <= i < (a + b).len() && #[trigger] (a + b)[i] == '#' implies i + 2
        < (a + b).len() && (a + b)[i + 2] != '-' by {
        if i < a.len() {
            assert(a[i] == '#');
            assert((a + b)[i + 2] == a[i + 2]);
        } else {
            assert(b[i - a.len()] == '#');
            assert((a + b)[i + 2] == b[i + 2 - a.len()]);
        }
    }
}

/// No marker can start in the entry of a hostname without '#'.
proof fn lemma_line_starts_no_marker(allow: bool, host: Seq<char>)
    requires
        is_plain(host),
    ensures
        starts_no_marker(gatekeep_line(allow, host)),
{
    reveal_strlit("#         ");
    reveal_strlit("0.0.0.0   ");
    reveal_strlit("\n");
    lemma_joined_starts_no_marker(host, "\n"@);
    if allow {
        lemma_joined_starts_no_marker("#         "@, host + "\n"@);
        assert(gatekeep_line(allow, host) =~= "#         "@ + (host + "\n"@));
    } else {
        lemma_joined_starts_no_marker("0.0.0.0   "@, host + "\n"@);
        assert(gatekeep_line(allow, host) =~= "0.0.0.0   "@ + (host + "\n"@));
    }
}

/// No marker can start in the entries of hostnames without '#'.
proof fn lemma_lines_start_no_marker(hosts: Seq<Seq<char>>, allow: bool, mode: BlockMode)
    requires
        forall|j: int| 0 <= j < hosts.len() ==> is_plain(#[trigger] hosts[j]),
    ensures
        starts_no_marker(gatekeep_lines(hosts, allow, mode)),
    decreases hosts.len(),
{
    if hosts.len() > 0 {
        lemma_lines_start_no_marker(hosts.drop_last(), allow, mode);
        lemma_line_starts_no_marker(allow, hosts.last());
        lemma_joined_starts_no_marker(
            gatekeep_lines(hosts.drop_last(), allow, mode),
            gatekeep_line(allow, hosts.last()),
        );
    }
}

/// No marker can start in the entries of the first `n` regions of a catalog
/// whose hostnames hold no '#'.
proof fn lemma_regions_start_no_marker(
    catalog: CatalogModel,
    selected: Seq<Seq<char>>,
    mode: BlockMode,
    merge_unstable: bool,
    n: int,
)
    requires
        has_plain_hosts(catalog),
        n <= catalog.len(),
    ensures
        starts_no_marker(gatekeep_regions(catalog, selected, mode, merge_unstable, n)),
    decreases n,
{
    if n > 0 {
        reveal_strlit("\n");
        let before = gatekeep_regions(catalog, selected, mode, merge_unstable, n - 1);
        let lines = gatekeep_lines(
            catalog[n - 1].1.hosts,
            is_allowed(catalog, selected, merge_unstable, catalog[n - 1].0),
            mode,
        );
        lemma_regions_start_no_marker(catalog, selected, mode, merge_unstable, n - 1);
        lemma_lines_start_no_marker(
            catalog[n - 1].1.hosts,
            is_allowed(catalog, selected, merge_unstable, catalog[n - 1].0),
            mode,
        );
        lemma_joined_starts_no_marker(before, lines);
        lemma_joined_starts_no_marker(before + lines, "\n"@);
    }
}

/// No marker can start in the header that names a contact without '#'.
proof fn lemma_header_starts_no_marker(discord_url: Seq<char>)
    requires
        is_plain(discord_url),
    ensures
        starts_no_marker(gatekeep_header(discord_url)),
{
    let first = "# Edited by Make Your Choice (DbD Server Selector)\n"@;
    let second =
        "# Unselected servers are blocked (Gatekeep Mode); selected servers are commented out.\n"@;
    let third = "# Need help? Discord: "@;
    reveal_strlit("# Edited by Make Your Choice (DbD Server Selector)\n");
    reveal_strlit(
        "# Unselected servers are blocked (Gatekeep Mode); selected servers are commented out.\n",
    );
    reveal_strlit("# Need help? Discord: ");
    reveal_strlit("\n");
    lemma_joined_starts_no_marker(first, second);
    lemma_joined_starts_no_marker(first + second, third);
    lemma_joined_starts_no_marker(first + second + third, discord_url);
    lemma_joined_starts_no_marker(first + second + third + discord_url, "\n"@);
    lemma_joined_starts_no_marker(first + second + third + discord_url + "\n"@, "\n"@);
}

/// The content that Gatekeep writes holds no marker, where neither the
/// support contact nor a hostname of the catalog holds a '#'.
pub proof fn lemma_gatekeep_content_holds_no_marker(
    discord_url: Seq<char>,
    catalog: CatalogModel,
    selected: Seq<Seq<char>>,
    mode: BlockMode,
    merge_unstable: bool,
)
    requires
        is_plain(discord_url),
        has_plain_hosts(catalog),
    ensures
        !contains(
            gatekeep_content(discord_url, catalog, selected, mode, merge_unstable),
            marker(),
        ),
{
    let content = gatekeep_content(discord_url, catalog, selected, mode, merge_unstable);
    lemma_header_starts_no_marker(discord_url);
    lemma_regions_start_no_marker(catalog, selected, mode, merge_unstable, catalog.len() as int);
    lemma_joined_starts_no_marker(
        gatekeep_header(discord_url),
        gatekeep_regions(catalog, selected, mode, merge_unstable, catalog.len() as int),
    );
    reveal_strlit("# --+ Make Your Choice +--");
    assert forall|j: int| !occurs_at(content, marker(), j) by {
        if occurs_at(content, marker(), j) {
            assert(content.subrange(j, j + 26)[0] == content[j]);
            assert(content.subrange(j, j + 26)[2] == content[j + 2]);
        }
    }
}

/// Applying Gatekeep a second time with the same choices changes nothing:
/// the hosts text is, to the character, what the first application left, and
/// its managed block holds exactly the content that Gatekeep computes from
/// the choices. The content must not itself hold the marker.
pub proof fn lemma_gatekeep_reapplied(
    text: Seq<char>,
    discord_url: Seq<char>,
    catalog: CatalogModel,
    selected: Seq<Seq<char>>,
    mode: BlockMode,
    merge_unstable: bool,
)
    requires
        !contains(
            gatekeep_content(discord_url, catalog, selected, mode, merge_unstable),
            marker(),
        ),
    ensures
        ({
            let content = gatekeep_content(discord_url, catalog, selected, mode, merge_unstable);
            let once = replaced(text, content);
            &&& managed_inner(once) == Some(content)
            &&& replaced(once, content) == once
        }),
{
    let content = gatekeep_content(discord_url, catalog, selected, mode, merge_unstable);
    lemma_gatekeep_content_ends_line(discord_url, catalog, selected, mode, merge_unstable);
    lemma_replaced_layout(text, content);
    lemma_reapply_same_block(text, content);
}

/// Applying Gatekeep a second time with the same choices changes nothing,
/// whatever the hosts text was, where neither the support contact nor a
/// hostname of the catalog holds a '#'.
pub proof fn lemma_gatekeep_idempotent(
    text: Seq<char>,
    discord_url: Seq<char>,
    catalog: CatalogModel,
    selected: Seq<Seq<char>>,
    mode: BlockMode,
    merge_unstable: bool,
)
    requires
        is_plain(discord_url),
        has_plain_hosts(catalog),
    ensures
        ({
            let content = gatekeep_content(discord_url, catalog, selected, mode, merge_unstable);
            let once = replaced(text, content);
            &&& managed_inner(once) == Some(content)
            &&& replaced(once, content) == once
        }),
{
    lemma_gatekeep_content_holds_no_marker(discord_url, catalog, selected, mode, merge_unstable);
    lemma_gatekeep_reapplied(text, discord_url, catalog, selected, mode, merge_unstable);
}

} // verus!
