//! Network-idle tracking: which requests are in flight, when the network
//! was last active, and when a wait is over.
//!
//! Times are milliseconds on a monotonic clock.

use vstd::prelude::*;
use crate::text::{chars_of, has_prefix, is_text, starts_with};

verus! {

/// The set of request ids in flight.
pub struct RequestTracker {
    ids: Vec<String>,
}

/// The ids held, as character sequences.
pub open spec fn id_views(ids: Seq<String>) -> Seq<Seq<char>> {
    ids.map_values(|s: String| s@)
}

impl RequestTracker {
    /// The requests in flight.
    pub closed spec fn view(&self) -> Set<Seq<char>> {
        id_views(self.ids@).to_set()
    }

    /// No id is held twice.
    #[verifier::type_invariant]
    spec fn wf(self) -> bool {
        id_views(self.ids@).no_duplicates()
    }

    /// No request in flight.
    pub fn new() -> (r: Self)
        ensures
            r@ == Set::<Seq<char>>::empty(),
    {
        let r = RequestTracker { ids: Vec::new() };
        assert(id_views(r.ids@) =~= Seq::<Seq<char>>::empty());
        assert(r@ =~= Set::<Seq<char>>::empty());
        r
    }

    fn position(&self, id: &str) -> (r: Option<usize>)
        ensures
            match r {
                Some(i) => i < self.ids@.len() && self.ids@[i as int]@ == id@,
                None => !self@.contains(id@),
            },
    {
        let want = chars_of(id);
        let mut i: usize = 0;
        while i < self.ids.len()
            invariant
                i <= self.ids@.len(),
                want@ == id@,
                forall|j: int| 0 <= j < i ==> self.ids@[j]@ != id@,
            decreases self.ids@.len() - i,
        {
            let have = chars_of(self.ids[i].as_str());
            if crate::text::chars_eq(have.as_slice(), want.as_slice()) {
                return Some(i);
            }
            i = i + 1;
        }
        proof {
            if self@.contains(id@) {
                let k = choose|k: int| 0 <= k < id_views(self.ids@).len() && id_views(self.ids@)[k] == id@;
                assert(self.ids@[k]@ == id@);
            }
        }
        None
    }

    /// A request started.
    pub fn insert(&mut self, id: String)
        ensures
            final(self)@ == old(self)@.insert(id@),
    {
        proof {
            use_type_invariant(&*self);
        }
        let pos = self.position(id.as_str());
        if pos.is_none() {
            let ghost before = id_views(self.ids@);
            let mut ids: Vec<String> = Vec::new();
            std::mem::swap(&mut ids, &mut self.ids);
            ids.push(id);
            proof {
                let after = id_views(ids@);
                assert(after =~= before.push(id@));
                assert(!before.contains(id@));
                assert forall|x: Seq<char>| after.contains(x) <==> before.to_set().insert(id@).contains(x) by {
                    if after.contains(x) {
                        let k = choose|k: int| 0 <= k < after.len() && after[k] == x;
                        if k < before.len() {
                            assert(before[k] == x);
                        }
                    }
                    if before.contains(x) {
                        let k = choose|k: int| 0 <= k < before.len() && before[k] == x;
                        assert(after[k] == x);
                    }
                    if x == id@ {
                        assert(after[before.len() as int] == x);
                    }
                }
                assert(after.to_set() =~= before.to_set().insert(id@));
                assert forall|a: int, b: int| 0 <= a < after.len() && 0 <= b < after.len() && a != b implies after[a] != after[b] by {
                    if a < before.len() && b < before.len() {
                        assert(after[a] == before[a] && after[b] == before[b]);
                    } else if a < before.len() {
                        assert(after[a] == before[a]);
                    } else if b < before.len() {
                        assert(after[b] == before[b]);
                    }
                }
            }
            self.ids = ids;
        } else {
            proof {
                let i = pos->0;
                assert(id_views(self.ids@)[i as int] == id@);
                assert(id_views(self.ids@).contains(id@));
            }
            assert(old(self)@.insert(id@) =~= old(self)@);
        }
    }

    /// A request finished or failed.
    pub fn remove(&mut self, id: &str)
        ensures
            final(self)@ == old(self)@.remove(id@),
    {
        proof {
            use_type_invariant(&*self);
        }
        match self.position(id) {
            Some(i) => {
                let ghost before = id_views(self.ids@);
                let mut ids: Vec<String> = Vec::new();
                std::mem::swap(&mut ids, &mut self.ids);
                ids.remove(i);
                proof {
                    let after = id_views(ids@);
                    assert(after =~= before.remove(i as int));
                    assert(before[i as int] == id@);
                    assert forall|x: Seq<char>| after.contains(x) <==> before.to_set().remove(id@).contains(x) by {
                        if after.contains(x) {
                            let k = choose|k: int| 0 <= k < after.len() && after[k] == x;
                            if k < i {
                                assert(before[k] == x);
                                assert(before[k] != before[i as int]);
                            } else {
                                assert(before[k + 1] == x);
                                assert(before[k + 1] != before[i as int]);
                            }
                        }
                        if before.to_set().remove(id@).contains(x) {
                            let k = choose|k: int| 0 <= k < before.len() && before[k] == x;
                            assert(k != i);
                            if k < i {
                                assert(after[k] == x);
                            } else {
                                assert(after[k - 1] == x);
                            }
                        }
                    }
                    assert(after.to_set() =~= before.to_set().remove(id@));
                    assert forall|a: int, b: int| 0 <= a < after.len() && 0 <= b < after.len() && a != b implies after[a] != after[b] by {
                        let a1 = if a < i { a } else { a + 1 };
                        let b1 = if b < i { b } else { b + 1 };
                        assert(after[a] == before[a1]);
                        assert(after[b] == before[b1]);
                    }
                }
                self.ids = ids;
            },
            None => {
                assert(old(self)@.remove(id@) =~= old(self)@);
            },
        }
    }

    /// Forget every request.
    pub fn clear(&mut self)
        ensures
            final(self)@ == Set::<Seq<char>>::empty(),
    {
        self.ids = Vec::new();
        assert(id_views(self.ids@) =~= Seq::<Seq<char>>::empty());
        assert(self@ =~= Set::<Seq<char>>::empty());
    }

    /// How many requests are in flight.
    pub fn len(&self) -> (r: usize)
        ensures
            r == self@.len(),
    {
        proof {
            use_type_invariant(self);
            id_views(self.ids@).unique_seq_to_set();
        }
        self.ids.len()
    }

    /// No request in flight.
    pub fn is_empty(&self) -> (r: bool)
        ensures
            r == (self@.len() == 0),
    {
        self.len() == 0
    }
}

// ---------------------------------------------------------------------------
// Events
// ---------------------------------------------------------------------------

/// How a DevTools event bears on network activity and dialogs.
#[derive(Debug, PartialEq, Eq, Structural)]
pub enum ActivityEvent {
    /// `Network.requestWillBeSent`.
    RequestSent,
    /// `Network.loadingFinished` or `Network.loadingFailed`.
    RequestDone,
    /// Any other `Network.` event.
    OtherNetwork,
    /// `Page.javascriptDialogOpening`.
    DialogOpened,
    /// `Page.javascriptDialogClosed`.
    DialogClosed,
    /// Any other `Page.` event.
    OtherPage,
    /// Anything else.
    Other,
}

/// The class of the event named `m`.
pub open spec fn classify_spec(m: Seq<char>) -> ActivityEvent {
    if m == "Network.requestWillBeSent"@ {
        ActivityEvent::RequestSent
    } else if m == "Network.loadingFinished"@ || m == "Network.loadingFailed"@ {
        ActivityEvent::RequestDone
    } else if has_prefix(m, "Network."@) {
        ActivityEvent::OtherNetwork
    } else if m == "Page.javascriptDialogOpening"@ {
        ActivityEvent::DialogOpened
    } else if m == "Page.javascriptDialogClosed"@ {
        ActivityEvent::DialogClosed
    } else if has_prefix(m, "Page."@) {
        ActivityEvent::OtherPage
    } else {
        ActivityEvent::Other
    }
}

/// Classifies the event named `method`.
pub fn classify(method: &str) -> (r: ActivityEvent)
    ensures
        r == classify_spec(method@),
{
    let m = chars_of(method);
    let ms = m.as_slice();
    let net = chars_of("Network.");
    let page = chars_of("Page.");
    if is_text(ms, "Network.requestWillBeSent") {
        ActivityEvent::RequestSent
    } else if is_text(ms, "Network.loadingFinished") || is_text(ms, "Network.loadingFailed") {
        ActivityEvent::RequestDone
    } else if starts_with(ms, net.as_slice()) {
        ActivityEvent::OtherNetwork
    } else if is_text(ms, "Page.javascriptDialogOpening") {
        ActivityEvent::DialogOpened
    } else if is_text(ms, "Page.javascriptDialogClosed") {
        ActivityEvent::DialogClosed
    } else if starts_with(ms, page.as_slice()) {
        ActivityEvent::OtherPage
    } else {
        ActivityEvent::Other
    }
}

/// An event message concerns the watched session: it is no reply (carries
/// no `id`), and when a session is watched it comes from that session.
pub fn event_applies(has_id: bool, active: Option<&str>, session: Option<&str>) -> (r: bool)
    ensures
        r == (!has_id && match active {
            Some(a) => session matches Some(s) && s@ == a@,
            None => true,
        }),
{
    if has_id {
        return false;
    }
    match active {
        Some(a) => match session {
            Some(s) => {
                let x = chars_of(s);
                is_text(x.as_slice(), a)
            },
            None => false,
        },
        None => true,
    }
}

/// Network activity seen so far.
pub struct NetworkActivity {
    pub inflight: RequestTracker,
    pub last_activity: u64,
}

impl NetworkActivity {
    /// Nothing in flight, last activity at `now`.
    pub fn new(now: u64) -> (r: Self)
        ensures
            r.inflight@ == Set::<Seq<char>>::empty(),
            r.last_activity == now,
    {
        NetworkActivity { inflight: RequestTracker::new(), last_activity: now }
    }

    /// Applies a network event seen at `now`: a sent request joins the
    /// in-flight set, a finished or failed one leaves it, and any network
    /// event counts as activity.
    pub fn observe(&mut self, event: &ActivityEvent, request_id: Option<String>, now: u64)
        ensures
            final(self).inflight@ == match (*event, request_id) {
                (ActivityEvent::RequestSent, Some(r)) => old(self).inflight@.insert(r@),
                (ActivityEvent::RequestDone, Some(r)) => old(self).inflight@.remove(r@),
                _ => old(self).inflight@,
            },
            final(self).last_activity == match *event {
                ActivityEvent::RequestSent | ActivityEvent::RequestDone | ActivityEvent::OtherNetwork => now,
                _ => old(self).last_activity,
            },
    {
        match event {
            ActivityEvent::RequestSent => {
                if let Some(r) = request_id {
                    self.inflight.insert(r);
                }
                self.last_activity = now;
            },
            ActivityEvent::RequestDone => {
                if let Some(r) = request_id {
                    self.inflight.remove(r.as_str());
                }
                self.last_activity = now;
            },
            ActivityEvent::OtherNetwork => {
                self.last_activity = now;
            },
            _ => {},
        }
    }
}

// ---------------------------------------------------------------------------
// Waiting
// ---------------------------------------------------------------------------

/// The next step of a network-idle wait.
#[derive(Debug, PartialEq, Eq, Structural)]
pub enum IdleStep {
    /// The network has been idle long enough.
    Idle,
    /// The deadline passed first.
    Expired,
    /// Wait this many milliseconds for the next event.
    Wait(u64),
}

/// `a - b`, or 0.
pub open spec fn monus(a: u64, b: u64) -> u64 {
    if a >= b { (a - b) as u64 } else { 0 }
}

/// The decision of a network-idle wait at `now`.
pub open spec fn idle_step_spec(
    now: u64,
    started: u64,
    deadline: u64,
    last_activity: u64,
    quiet: bool,
    idle: u64,
) -> IdleStep {
    let min_observe = if idle > 1000 { idle } else { 1000 };
    if monus(now, started) >= min_observe && quiet && monus(now, last_activity) >= idle {
        IdleStep::Idle
    } else if now >= deadline {
        IdleStep::Expired
    } else {
        let until_idle = monus(idle, monus(now, last_activity));
        let until_deadline = monus(deadline, now);
        if quiet {
            let w = if until_idle > 1 { until_idle } else { 1 };
            IdleStep::Wait(if until_deadline < w { until_deadline } else { w })
        } else {
            IdleStep::Wait(if until_deadline < 250 { until_deadline } else { 250 })
        }
    }
}

/// Decides a network-idle wait: idle once at least `max(idle, 1 s)` was
/// observed, nothing is in flight (`quiet`), and nothing happened for
/// `idle`; expired at the deadline; else how long to wait for an event.
pub fn idle_step(now: u64, started: u64, deadline: u64, last_activity: u64, quiet: bool, idle: u64) -> (r: IdleStep)
    ensures
        r == idle_step_spec(now, started, deadline, last_activity, quiet, idle),
{
    let min_observe = if idle > 1000 { idle } else { 1000 };
    let observed = now.saturating_sub(started);
    let since = now.saturating_sub(last_activity);
    if observed >= min_observe && quiet && since >= idle {
        IdleStep::Idle
    } else if now >= deadline {
        IdleStep::Expired
    } else {
        let until_idle = idle.saturating_sub(since);
        let until_deadline = deadline.saturating_sub(now);
        if quiet {
            let w = if until_idle > 1 { until_idle } else { 1 };
            IdleStep::Wait(if until_deadline < w { until_deadline } else { w })
        } else {
            IdleStep::Wait(if until_deadline < 250 { until_deadline } else { 250 })
        }
    }
}

/// A wait never outlives its deadline: it stops at or after the deadline,
/// and every pause ends by it.
pub proof fn law_idle_wait_bounded(now: u64, started: u64, deadline: u64, last: u64, quiet: bool, idle: u64)
    ensures
        now >= deadline ==> idle_step_spec(now, started, deadline, last, quiet, idle) !is Wait,
        idle_step_spec(now, started, deadline, last, quiet, idle) matches IdleStep::Wait(w)
            ==> now + w <= deadline && (!quiet ==> w <= 250),
{
}

/// A request that starts and then finishes (or fails) leaves the in-flight
/// set as it was; finishing a request never seen changes nothing.
pub proof fn law_request_round_trip(inflight: Set<Seq<char>>, id: Seq<char>)
    ensures
        !inflight.contains(id) ==> inflight.insert(id).remove(id) == inflight,
        !inflight.contains(id) ==> inflight.remove(id) == inflight,
        inflight.insert(id).contains(id),
{
    if !inflight.contains(id) {
        assert(inflight.insert(id).remove(id) =~= inflight);
        assert(inflight.remove(id) =~= inflight);
    }
}

/// A wait is declared idle only when nothing is in flight, nothing happened
/// for `idle`, and at least `max(idle, 1 s)` has been observed; and while
/// a request is in flight before the deadline, the wait goes on in steps
/// of at most 250 ms.
pub proof fn law_idle_only_when_quiet(now: u64, started: u64, deadline: u64, last: u64, quiet: bool, idle: u64)
    ensures
        idle_step_spec(now, started, deadline, last, quiet, idle) == IdleStep::Idle ==> {
            &&& quiet
            &&& monus(now, last) >= idle
            &&& now >= started && now - started >= idle && now - started >= 1000
        },
        !quiet && now < deadline ==> (idle_step_spec(now, started, deadline, last, quiet, idle)
            matches IdleStep::Wait(w) && 0 < w <= 250),
{
}

} // verus!
