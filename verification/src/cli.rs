//! Command-level decisions of the command line: which commands warm up
//! the daemon, which need a browser connection, and how some arguments
//! are read.

use vstd::prelude::*;
use crate::text::{chars_of, has_prefix, is_text, starts_with};

verus! {

/// The subcommands of the command line, without their arguments.
#[derive(Debug, Clone, Copy, PartialEq, Eq, Structural)]
pub enum CommandKind {
    Init,
    Launch,
    Status,
    Doctor,
    Stop,
    Reload,
    Cdp,
    Events,
    Network,
    Console,
    DaemonState,
    Open,
    Eval,
    Text,
    PageInfo,
    Inspect,
    Snapshot,
    Observe,
    Wait,
    WaitElement,
    Click,
    Fill,
    Type,
    Press,
    Scroll,
    Screenshot,
    Pdf,
    Upload,
    Select,
    Drag,
    DownloadPath,
    HttpGet,
    Tabs,
    CurrentTab,
    NewTab,
    SwitchTab,
    CloseTab,
    Frames,
    Cookies,
    Dialog,
    Viewport,
    LocalProfiles,
    SyncProfile,
    CloudProfiles,
    CloudStart,
    CloudStop,
    Run,
    Daemon,
}

/// The command acts on the page and benefits from the event daemon.
pub open spec fn primes_daemon_spec(k: CommandKind) -> bool {
    k == CommandKind::Open || k == CommandKind::Click || k == CommandKind::Fill || k == CommandKind::Type || k == CommandKind::Press || k == CommandKind::Select || k == CommandKind::Drag || k == CommandKind::Upload || k == CommandKind::Wait || k == CommandKind::WaitElement || k == CommandKind::SwitchTab || k == CommandKind::NewTab
}

/// Whether the event daemon is started before the command runs.
pub fn primes_daemon(k: CommandKind) -> (r: bool)
    ensures
        r == primes_daemon_spec(k),
{
    match k {
        CommandKind::Open | CommandKind::Click | CommandKind::Fill | CommandKind::Type | CommandKind::Press | CommandKind::Select | CommandKind::Drag | CommandKind::Upload | CommandKind::Wait | CommandKind::WaitElement | CommandKind::SwitchTab | CommandKind::NewTab => true,
        _ => false,
    }
}

/// The command runs without a browser connection.
pub open spec fn runs_offline_spec(k: CommandKind) -> bool {
    k == CommandKind::Run || k == CommandKind::Daemon || k == CommandKind::Init || k == CommandKind::Launch || k == CommandKind::Stop || k == CommandKind::Reload || k == CommandKind::Doctor || k == CommandKind::LocalProfiles || k == CommandKind::SyncProfile || k == CommandKind::CloudProfiles || k == CommandKind::CloudStart || k == CommandKind::CloudStop || k == CommandKind::Dialog || k == CommandKind::Events || k == CommandKind::Network || k == CommandKind::Console || k == CommandKind::DaemonState || k == CommandKind::HttpGet
}

/// Whether the command is handled before a browser connection is made.
pub fn runs_offline(k: CommandKind) -> (r: bool)
    ensures
        r == runs_offline_spec(k),
{
    match k {
        CommandKind::Run | CommandKind::Daemon | CommandKind::Init | CommandKind::Launch | CommandKind::Stop | CommandKind::Reload | CommandKind::Doctor | CommandKind::LocalProfiles | CommandKind::SyncProfile | CommandKind::CloudProfiles | CommandKind::CloudStart | CommandKind::CloudStop | CommandKind::Dialog | CommandKind::Events | CommandKind::Network | CommandKind::Console | CommandKind::DaemonState | CommandKind::HttpGet => true,
        _ => false,
    }
}

/// A raw DevTools call attaches to the page unless it addresses the
/// browser or its targets.
pub fn cdp_attaches(method: &str) -> (r: bool)
    ensures
        r == !(has_prefix(method@, "Browser."@) || has_prefix(method@, "Target."@)),
{
    let m = chars_of(method);
    let b = chars_of("Browser.");
    let t = chars_of("Target.");
    !(starts_with(m.as_slice(), b.as_slice()) || starts_with(m.as_slice(), t.as_slice()))
}

/// A wait mode starting with `network` waits for network idle.
pub fn waits_for_network(mode: &str) -> (r: bool)
    ensures
        r == has_prefix(mode@, "network"@),
{
    let m = chars_of(mode);
    let n = chars_of("network");
    starts_with(m.as_slice(), n.as_slice())
}

/// A new tab navigates after attaching unless its URL is `about:blank`.
pub fn new_tab_navigates(url: Option<&str>) -> (r: bool)
    ensures
        r == (url matches Some(u) && u@ != "about:blank"@),
{
    match url {
        Some(u) => {
            let c = chars_of(u);
            !is_text(c.as_slice(), "about:blank")
        },
        None => false,
    }
}

/// The page-load wait timeout in milliseconds.
pub fn wait_load_timeout_ms(seconds: u64) -> (r: u64)
    requires
        seconds * 1000 <= u64::MAX,
    ensures
        r == seconds * 1000,
{
    seconds * 1000
}

/// Daemon warm-up is only for commands that need a browser connection.
pub proof fn law_primed_commands_connect(k: CommandKind)
    ensures
        primes_daemon_spec(k) ==> !runs_offline_spec(k),
{
}

} // verus!
