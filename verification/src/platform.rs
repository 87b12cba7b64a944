//! What differs between the platforms: where the hosts file is, what its
//! minimal default content is, and the command that commits a staged file.

use vstd::prelude::*;
use vstd::string::*;

verus! {

/// The kind of system whose hosts file is managed.
#[derive(Debug, Clone, Copy, PartialEq, Eq, Structural)]
pub enum Platform {
    Unix,
    Windows,
}

/// The hosts file of a Unix system.
pub const UNIX_HOSTS_PATH: &'static str = "/etc/hosts";

/// Where new content is staged before the privileged write.
pub const STAGING_PATH: &'static str = "/tmp/make-your-choice-hosts.tmp";

/// The system root that is assumed where Windows names none.
pub const DEFAULT_SYSTEM_ROOT: &'static str = "C:\\Windows";

/// The program that asks for elevation.
pub const ELEVATION_TOOL: &'static str = "pkexec";

/// The minimal hosts file of a Unix system.
pub const UNIX_DEFAULT_HOSTS: &'static str = "# Static table lookup for hostnames.\n\
# See hosts(5) for details.\n\
127.0.0.1        localhost\n\
::1              localhost\n";

/// The hosts file that Windows ships.
pub const WINDOWS_DEFAULT_HOSTS: &'static str = "\
# Copyright (c) 1993-2009 Microsoft Corp.\n\
#\n\
# This is a sample HOSTS file used by Microsoft TCP/IP for Windows.\n\
#\n\
# This file contains the mappings of IP addresses to host names. Each\n\
# entry should be kept on an individual line. The IP address should\n\
# be placed in the first column followed by the corresponding host name.\n\
# The IP address and the host name should be separated by at least one\n\
# space.\n\
#\n\
# Additionally, comments (such as these) may be inserted on individual\n\
# lines or following the machine name denoted by a '#' symbol.\n\
#\n\
# For example:\n\
#\n\
#      102.54.94.97     rhino.acme.com          # source server\n\
#       38.25.63.10     x.acme.com              # x client host\n\
\n\
# localhost name resolution is handled within DNS itself.\n\
#\t127.0.0.1       localhost\n\
#\t::1             localhost\n";

/// The path of the hosts file on `platform`. On Windows it lies under
/// `system_root`, or under `C:\Windows` where none is given.
pub open spec fn hosts_path_text(platform: Platform, system_root: Option<Seq<char>>) -> Seq<char> {
    match platform {
        Platform::Unix => UNIX_HOSTS_PATH@,
        Platform::Windows => (match system_root {
            Some(root) => root,
            None => DEFAULT_SYSTEM_ROOT@,
        }) + "\\System32\\drivers\\etc\\hosts"@,
    }
}

/// The path of the hosts file on `platform`. On Windows it lies under
/// `system_root`, or under `C:\Windows` where none is given.
pub fn hosts_path(platform: Platform, system_root: Option<&str>) -> (path: String)
    ensures
        path@ == hosts_path_text(
            platform,
            match system_root {
                Some(root) => Some(root@),
                None => None,
            },
        ),
{
    let mut path = String::new();
    match platform {
        Platform::Unix => {
            path.append(UNIX_HOSTS_PATH);
        },
        Platform::Windows => {
            match system_root {
                Some(root) => {
                    path.append(root);
                },
                None => {
                    path.append(DEFAULT_SYSTEM_ROOT);
                },
            }
            path.append("\\System32\\drivers\\etc\\hosts");
        },
    }
    path
}

/// Where the previous content of the hosts file is kept: beside the file,
/// under its name followed by `.bak`.
pub fn backup_path(hosts_path: &str) -> (path: String)
    ensures
        path@ == hosts_path@ + ".bak"@,
{
    let mut path = String::new();
    path.append(hosts_path);
    path.append(".bak");
    path
}

/// The minimal default content of the hosts file on `platform`.
pub open spec fn default_hosts_text(platform: Platform) -> Seq<char> {
    match platform {
        Platform::Unix => UNIX_DEFAULT_HOSTS@,
        Platform::Windows => WINDOWS_DEFAULT_HOSTS@,
    }
}

/// The minimal default content of the hosts file on `platform`.
pub fn default_hosts(platform: Platform) -> (content: &'static str)
    ensures
        content@ == default_hosts_text(platform),
{
    match platform {
        Platform::Unix => UNIX_DEFAULT_HOSTS,
        Platform::Windows => WINDOWS_DEFAULT_HOSTS,
    }
}

/// The shell command that commits the file staged at `staged_path` to
/// `hosts_path` in one elevated run: it keeps the previous content as a
/// backup, whether or not that works; copies the staged file over the hosts
/// file, on which its exit status depends; and asks whichever name service
/// cache is there to forget what it holds, whether or not that works.
pub open spec fn commit_command_text(hosts_path: Seq<char>, staged_path: Seq<char>) -> Seq<char> {
    "cp "@ + hosts_path + " "@ + hosts_path + ".bak 2>/dev/null || true && cp "@ + staged_path
        + " "@ + hosts_path
        + " && (systemd-resolve --flush-caches 2>/dev/null || resolvectl flush-caches 2>/dev/null || nscd -i hosts 2>/dev/null || true)"@
}

/// The shell command that commits the file staged at `staged_path` to
/// `hosts_path` in one elevated run.
pub fn commit_command(hosts_path: &str, staged_path: &str) -> (command: String)
    ensures
        command@ == commit_command_text(hosts_path@, staged_path@),
{
    let mut command = String::new();
    command.append("cp ");
    command.append(hosts_path);
    command.append(" ");
    command.append(hosts_path);
    command.append(".bak 2>/dev/null || true && cp ");
    command.append(staged_path);
    command.append(" ");
    command.append(hosts_path);
    command.append(
        " && (systemd-resolve --flush-caches 2>/dev/null || resolvectl flush-caches 2>/dev/null || nscd -i hosts 2>/dev/null || true)",
    );
    command
}

} // verus!
