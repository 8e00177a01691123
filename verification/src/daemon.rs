//! The event daemon's decisions: where its files live, how its event rings
//! are kept, how events update its view of the page, which command a
//! request names, and when its state is fresh or the network idle.

use vstd::prelude::*;
use std::collections::VecDeque;
use std::rc::Rc;
use crate::netidle::{ActivityEvent, NetworkActivity, monus};
use crate::text::{chars_of, has_prefix, is_text, push_str, starts_with, string_of};

verus! {

/// Capacity of the event ring.
pub const EVENT_RING_CAP: usize = 200;
/// Capacity of the network and console rings.
pub const DETAIL_RING_CAP: usize = 100;

/// The daemon's process id file.
pub fn daemon_pid_path() -> (r: &'static str)
    ensures
        r@ == ".browser-control/daemon.pid"@,
{
    ".browser-control/daemon.pid"
}

/// The daemon's state file.
pub fn daemon_state_path() -> (r: &'static str)
    ensures
        r@ == ".browser-control/daemon-state.json"@,
{
    ".browser-control/daemon-state.json"
}

/// The daemon's socket.
pub fn daemon_sock_path() -> (r: &'static str)
    ensures
        r@ == ".browser-control/daemon.sock"@,
{
    ".browser-control/daemon.sock"
}

// ---------------------------------------------------------------------------
// Rings
// ---------------------------------------------------------------------------

/// The ring after appending `v` with capacity `cap`: the oldest entry
/// leaves when the ring is full.
pub open spec fn ring_push_spec<T>(ring: Seq<T>, v: T, cap: nat) -> Seq<T> {
    if ring.len() >= cap && ring.len() > 0 { ring.drop_first().push(v) } else { ring.push(v) }
}

/// Appends `value`, dropping the oldest entry when `cap` is reached.
pub fn push_ring<T>(ring: &mut VecDeque<T>, value: T, cap: usize)
    ensures
        final(ring)@ == ring_push_spec(old(ring)@, value, cap as nat),
{
    if ring.len() >= cap {
        ring.pop_front();
    }
    ring.push_back(value);
}

/// A ring never grows past its capacity, and it keeps the newest entries in
/// order.
pub proof fn law_ring_bounded<T>(ring: Seq<T>, v: T, cap: nat)
    requires
        cap >= 1,
        ring.len() <= cap,
    ensures
        ring_push_spec(ring, v, cap).len() <= cap,
        ring_push_spec(ring, v, cap).last() == v,
        ring.len() < cap ==> ring_push_spec(ring, v, cap) == ring.push(v),
{
}

/// The method is a network event.
pub open spec fn is_network_method(m: Seq<char>) -> bool {
    has_prefix(m, "Network."@)
}

/// The method is a console message.
pub open spec fn is_console_method(m: Seq<char>) -> bool {
    m == "Runtime.consoleAPICalled"@ || m == "Runtime.exceptionThrown"@ || has_prefix(m, "Log."@)
}

/// Which detail rings an event named `method` also goes to: (network, console).
pub fn ring_routes(method: &str) -> (r: (bool, bool))
    ensures
        r.0 == is_network_method(method@),
        r.1 == is_console_method(method@),
{
    let m = chars_of(method);
    let net = chars_of("Network.");
    let log = chars_of("Log.");
    let n = starts_with(m.as_slice(), net.as_slice());
    let c = is_text(m.as_slice(), "Runtime.consoleAPICalled") || is_text(m.as_slice(), "Runtime.exceptionThrown")
        || starts_with(m.as_slice(), log.as_slice());
    (n, c)
}

/// Calls `Rc::clone`, which makes another pointer to the same allocation
/// (std documentation). Claimed: the result points to the same value.
#[verifier::external_body]
fn share<T>(r: &Rc<T>) -> (s: Rc<T>)
    ensures
        *s == **r,
{
    r.clone()
}

/// The entries a ring of shared entries holds, oldest first.
pub open spec fn ring_entries<T>(ring: Seq<Rc<T>>) -> Seq<T> {
    ring.map_values(|e: Rc<T>| *e)
}

/// The contents of the three rings.
pub struct RingsView<T> {
    pub events: Seq<T>,
    pub network: Seq<T>,
    pub console: Seq<T>,
}

/// Rings with nothing in them.
pub open spec fn empty_rings<T>() -> RingsView<T> {
    RingsView { events: Seq::empty(), network: Seq::empty(), console: Seq::empty() }
}

/// The rings after recording `entry` of the event named `method`: it joins
/// the event ring, and the network or console ring when the method is of
/// that kind, each ring dropping its oldest entry when full.
pub open spec fn record_spec<T>(r: RingsView<T>, method: Seq<char>, entry: T) -> RingsView<T> {
    RingsView {
        events: ring_push_spec(r.events, entry, EVENT_RING_CAP as nat),
        network: if is_network_method(method) {
            ring_push_spec(r.network, entry, DETAIL_RING_CAP as nat)
        } else {
            r.network
        },
        console: if is_console_method(method) {
            ring_push_spec(r.console, entry, DETAIL_RING_CAP as nat)
        } else {
            r.console
        },
    }
}

/// The recent events, network events and console messages. An entry that
/// goes to several rings is shared between them.
pub struct DaemonRings<T> {
    pub events: VecDeque<Rc<T>>,
    pub network: VecDeque<Rc<T>>,
    pub console: VecDeque<Rc<T>>,
}

impl<T> View for DaemonRings<T> {
    type V = RingsView<T>;

    open spec fn view(&self) -> RingsView<T> {
        RingsView {
            events: ring_entries(self.events@),
            network: ring_entries(self.network@),
            console: ring_entries(self.console@),
        }
    }
}

/// Pushing onto a ring of shared entries pushes the entry onto what it holds.
proof fn lemma_ring_entries_push<T>(ring: Seq<Rc<T>>, v: Rc<T>, cap: nat)
    ensures
        ring_entries(ring_push_spec(ring, v, cap)) =~= ring_push_spec(ring_entries(ring), *v, cap),
{
    if ring.len() >= cap && ring.len() > 0 {
        assert(ring_entries(ring.drop_first().push(v)) =~= ring_entries(ring).drop_first().push(*v));
    } else {
        assert(ring_entries(ring.push(v)) =~= ring_entries(ring).push(*v));
    }
}

impl<T> DaemonRings<T> {
    /// Empty rings.
    pub fn new() -> (r: Self)
        ensures
            r@ == empty_rings::<T>(),
    {
        let r = DaemonRings { events: VecDeque::new(), network: VecDeque::new(), console: VecDeque::new() };
        assert(r@.events =~= Seq::<T>::empty());
        assert(r@.network =~= Seq::<T>::empty());
        assert(r@.console =~= Seq::<T>::empty());
        r
    }

    /// Empties every ring.
    pub fn clear(&mut self)
        ensures
            final(self)@ == empty_rings::<T>(),
    {
        self.events.clear();
        self.network.clear();
        self.console.clear();
        assert(self@.events =~= Seq::<T>::empty());
        assert(self@.network =~= Seq::<T>::empty());
        assert(self@.console =~= Seq::<T>::empty());
    }

    /// Records `entry`, the record of an event named `method`.
    pub fn record(&mut self, method: &str, entry: T)
        ensures
            final(self)@ == record_spec(old(self)@, method@, entry),
    {
        let (network, console) = ring_routes(method);
        let e = Rc::new(entry);
        if network {
            let n = share(&e);
            proof {
                lemma_ring_entries_push(self.network@, n, DETAIL_RING_CAP as nat);
            }
            push_ring(&mut self.network, n, DETAIL_RING_CAP);
        }
        if console {
            let c = share(&e);
            proof {
                lemma_ring_entries_push(self.console@, c, DETAIL_RING_CAP as nat);
            }
            push_ring(&mut self.console, c, DETAIL_RING_CAP);
        }
        proof {
            lemma_ring_entries_push(self.events@, e, EVENT_RING_CAP as nat);
        }
        push_ring(&mut self.events, e, EVENT_RING_CAP);
    }
}

// ---------------------------------------------------------------------------
// The rings over a stream of events
// ---------------------------------------------------------------------------

/// The rings after recording, in order, each `(method, entry)` of `msgs`
/// into empty rings.
pub open spec fn record_all<T>(msgs: Seq<(Seq<char>, T)>) -> RingsView<T>
    decreases msgs.len(),
{
    if msgs.len() == 0 {
        empty_rings()
    } else {
        record_spec(record_all(msgs.drop_last()), msgs.last().0, msgs.last().1)
    }
}

/// The entries of the messages whose method `keep` accepts, in order.
pub open spec fn entries_where<T>(msgs: Seq<(Seq<char>, T)>, keep: spec_fn(Seq<char>) -> bool) -> Seq<T>
    decreases msgs.len(),
{
    if msgs.len() == 0 {
        Seq::empty()
    } else if keep(msgs.last().0) {
        entries_where(msgs.drop_last(), keep).push(msgs.last().1)
    } else {
        entries_where(msgs.drop_last(), keep)
    }
}

/// The last `n` elements of `s` (all of it when shorter), oldest first.
pub open spec fn last_n<T>(s: Seq<T>, n: nat) -> Seq<T> {
    if s.len() <= n {
        s
    } else {
        s.skip(s.len() - n)
    }
}

/// Pushing onto the last `cap` elements keeps the last `cap` of the longer
/// sequence.
proof fn lemma_push_last_n<T>(s: Seq<T>, v: T, cap: nat)
    requires
        cap >= 1,
    ensures
        ring_push_spec(last_n(s, cap), v, cap) =~= last_n(s.push(v), cap),
{
    if s.len() >= cap {
        assert(last_n(s, cap).drop_first().push(v) =~= s.push(v).skip(s.push(v).len() - cap));
    }
}

/// After any stream of events since the rings were last emptied, the event
/// ring holds the last 200 entries, the network ring the last 100 entries
/// of network events, and the console ring the last 100 entries of console
/// messages, each oldest first.
pub proof fn law_rings_keep_newest<T>(msgs: Seq<(Seq<char>, T)>)
    ensures
        record_all(msgs).events == last_n(entries_where(msgs, |m: Seq<char>| true), EVENT_RING_CAP as nat),
        record_all(msgs).network == last_n(
            entries_where(msgs, |m: Seq<char>| is_network_method(m)),
            DETAIL_RING_CAP as nat,
        ),
        record_all(msgs).console == last_n(
            entries_where(msgs, |m: Seq<char>| is_console_method(m)),
            DETAIL_RING_CAP as nat,
        ),
    decreases msgs.len(),
{
    let all = |m: Seq<char>| true;
    let net = |m: Seq<char>| is_network_method(m);
    let con = |m: Seq<char>| is_console_method(m);
    if msgs.len() > 0 {
        let prev = msgs.drop_last();
        law_rings_keep_newest(prev);
        let (m, e) = msgs.last();
        lemma_push_last_n(entries_where(prev, all), e, EVENT_RING_CAP as nat);
        lemma_push_last_n(entries_where(prev, net), e, DETAIL_RING_CAP as nat);
        lemma_push_last_n(entries_where(prev, con), e, DETAIL_RING_CAP as nat);
    }
}

// ---------------------------------------------------------------------------
// Page state
// ---------------------------------------------------------------------------

/// What the daemon knows of the page: network activity and the open
/// dialog (its parameters), if any.
pub struct PageActivity<D> {
    pub network: NetworkActivity,
    pub dialog: Option<D>,
}

impl<D> PageActivity<D> {
    /// Nothing seen yet.
    pub fn new(now: u64) -> (r: Self)
        ensures
            r.network.inflight@ == Set::<Seq<char>>::empty(),
            r.network.last_activity == now,
            r.dialog is None,
    {
        PageActivity { network: NetworkActivity::new(now), dialog: None }
    }

    /// Applies an event with parameters `params` seen at `now`: a dialog
    /// opens with those parameters and closes, requests join and leave the
    /// in-flight set, and any network or page event is activity.
    pub fn observe(&mut self, event: &ActivityEvent, request_id: Option<String>, params: D, now: u64)
        ensures
            final(self).network.inflight@ == match (*event, request_id) {
                (ActivityEvent::RequestSent, Some(r)) => old(self).network.inflight@.insert(r@),
                (ActivityEvent::RequestDone, Some(r)) => old(self).network.inflight@.remove(r@),
                _ => old(self).network.inflight@,
            },
            final(self).network.last_activity == match *event {
                ActivityEvent::Other => old(self).network.last_activity,
                _ => now,
            },
            final(self).dialog == match *event {
                ActivityEvent::DialogOpened => Some(params),
                ActivityEvent::DialogClosed => None,
                _ => old(self).dialog,
            },
    {
        match event {
            ActivityEvent::DialogOpened => {
                self.dialog = Some(params);
                self.network.last_activity = now;
            },
            ActivityEvent::DialogClosed => {
                self.dialog = None;
                self.network.last_activity = now;
            },
            ActivityEvent::OtherPage => {
                self.network.last_activity = now;
            },
            _ => {
                self.network.observe(event, request_id, now);
            },
        }
    }

    /// The page was switched: forget requests, note activity now.
    pub fn reset(&mut self, now: u64)
        ensures
            final(self).network.inflight@ == Set::<Seq<char>>::empty(),
            final(self).network.last_activity == now,
            final(self).dialog == old(self).dialog,
    {
        self.network.inflight.clear();
        self.network.last_activity = now;
    }
}

// ---------------------------------------------------------------------------
// Freshness and idleness
// ---------------------------------------------------------------------------

/// The state file was written less than two seconds before `now`.
pub fn heartbeat_fresh(now: u64, heartbeat: u64) -> (r: bool)
    ensures
        r == (monus(now, heartbeat) < 2000),
{
    now.saturating_sub(heartbeat) < 2000
}

/// The daemon stopped writing its state more than two seconds before `now`.
pub fn heartbeat_stale(now: u64, heartbeat: u64) -> (r: bool)
    ensures
        r == (monus(now, heartbeat) > 2000),
{
    now.saturating_sub(heartbeat) > 2000
}

/// The daemon's view shows an idle network: observed long enough, nothing
/// in flight, activity seen since the wait began, and quiet for `idle`.
pub fn daemon_idle(elapsed: u64, idle: u64, inflight: u64, last: u64, baseline: u64, now: u64) -> (r: bool)
    ensures
        r == (elapsed >= (if idle > 1000 { idle } else { 1000 }) && inflight == 0 && last >= baseline
            && monus(now, last) >= idle),
{
    let min_observe = if idle > 1000 { idle } else { 1000 };
    elapsed >= min_observe && inflight == 0 && last >= baseline && now.saturating_sub(last) >= idle
}

// ---------------------------------------------------------------------------
// Requests
// ---------------------------------------------------------------------------

/// A request to the daemon.
#[derive(Debug, PartialEq, Eq)]
pub enum DaemonCommand {
    Ping,
    State,
    Events,
    Network,
    Console,
    Cdp,
    Dialog,
    /// A command the daemon does not know.
    Unknown(String),
    /// No command was given.
    Missing,
}

/// The command named by `cmd`.
pub fn parse_daemon_command(cmd: Option<&str>) -> (r: DaemonCommand)
    ensures
        match cmd {
            None => r == DaemonCommand::Missing,
            Some(c) => if c@ == "ping"@ {
                r == DaemonCommand::Ping
            } else if c@ == "state"@ {
                r == DaemonCommand::State
            } else if c@ == "events"@ {
                r == DaemonCommand::Events
            } else if c@ == "network"@ {
                r == DaemonCommand::Network
            } else if c@ == "console"@ {
                r == DaemonCommand::Console
            } else if c@ == "cdp"@ {
                r == DaemonCommand::Cdp
            } else if c@ == "dialog"@ {
                r == DaemonCommand::Dialog
            } else {
                r matches DaemonCommand::Unknown(u) && u@ == c@
            },
        },
{
    match cmd {
        None => DaemonCommand::Missing,
        Some(c) => {
            let cs = chars_of(c);
            let x = cs.as_slice();
            if is_text(x, "ping") {
                DaemonCommand::Ping
            } else if is_text(x, "state") {
                DaemonCommand::State
            } else if is_text(x, "events") {
                DaemonCommand::Events
            } else if is_text(x, "network") {
                DaemonCommand::Network
            } else if is_text(x, "console") {
                DaemonCommand::Console
            } else if is_text(x, "cdp") {
                DaemonCommand::Cdp
            } else if is_text(x, "dialog") {
                DaemonCommand::Dialog
            } else {
                DaemonCommand::Unknown(string_of(x))
            }
        },
    }
}

/// The error of a `cdp` request without a method.
pub const MISSING_CDP_METHOD: &'static str = "missing CDP method";

/// The error a request is answered with when it names no command the daemon
/// knows: the unknown name, or that the command is missing.
pub fn command_error(c: &DaemonCommand) -> (r: Option<String>)
    ensures
        match *c {
            DaemonCommand::Unknown(u) => r matches Some(e) && e@ == "unknown daemon command "@ + u@,
            DaemonCommand::Missing => r matches Some(e) && e@ == "missing daemon command"@,
            _ => r is None,
        },
{
    match c {
        DaemonCommand::Unknown(u) => {
            let mut e = String::new();
            push_str(&mut e, "unknown daemon command ");
            push_str(&mut e, u.as_str());
            Some(e)
        },
        DaemonCommand::Missing => Some(String::from_str("missing daemon command")),
        _ => None,
    }
}


/// A dialog is accepted unless the action is `dismiss`.
pub fn dialog_accept(action: &str) -> (r: bool)
    ensures
        r == (action@ != "dismiss"@),
{
    let cs = chars_of(action);
    !is_text(cs.as_slice(), "dismiss")
}

} // verus!
