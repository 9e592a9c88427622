//! Discovery resolver: which network address currently serves which camera.
//!
//! The table is fed with service advertisements and answers address lookups
//! that expire once a record has not been refreshed for longer than the
//! freshness window. Listening on the network is the caller's part; the
//! caller hands each event over together with the tick at which it arrived.

use vstd::prelude::*;
use vstd::string::*;
use crate::text::{assoc, contains, contains_text, distinct_keys, find_key, has_key,
    lemma_assoc_at, lemma_assoc_push, lemma_assoc_update};

verus! {

/// The address last advertised for a camera and the tick of that sighting.
#[derive(Debug)]
pub struct ServiceRecord {
    pub address: String,
    pub last_seen: u64,
}

/// What a record is: the characters of the address and the tick.
pub struct RecordView {
    pub address: Seq<char>,
    pub last_seen: u64,
}

impl View for ServiceRecord {
    type V = RecordView;

    open spec fn view(&self) -> RecordView {
        RecordView { address: self.address@, last_seen: self.last_seen }
    }
}

/// A resolved service advertisement: its full name and the addresses it
/// carries, in the order in which they were observed.
#[derive(Debug)]
pub struct Advertisement {
    pub fullname: String,
    pub addresses: Vec<String>,
}

/// What the listener saw.
#[derive(Debug)]
pub enum ScanEvent {
    /// A service was resolved.
    Resolved(Advertisement),
    /// Any other notification of the listener.
    Other,
    /// The listener failed.
    TransportError,
}

/// An event together with the tick at which it arrived.
#[derive(Debug)]
pub struct TimedEvent {
    pub at: u64,
    pub event: ScanEvent,
}

/// What the scan does after an event.
#[derive(Debug, Clone, Copy, PartialEq, Eq)]
pub enum ScanAction {
    /// Wait for the next event.
    Continue,
    /// End this scan cycle.
    Stop,
}

/// The table of service records, with the configuration it was made with.
pub struct CameraFinder {
    expected: Vec<String>,
    names: Vec<String>,
    records: Vec<ServiceRecord>,
    window: u64,
    scan_duration: u64,
}

/// The views of a list of records, in order.
pub open spec fn record_views(records: Seq<ServiceRecord>) -> Seq<RecordView> {
    Seq::new(records.len(), |i: int| records[i]@)
}

/// `i` is the first position of `ids` whose identifier occurs in `name`.
pub open spec fn first_match(ids: Seq<String>, name: Seq<char>, i: int) -> bool {
    &&& 0 <= i < ids.len()
    &&& contains_text(name, ids[i]@)
    &&& forall|j: int| 0 <= j < i ==> !contains_text(name, (#[trigger] ids[j])@)
}

/// Some identifier of `ids` occurs in `name`.
pub open spec fn matches_any(ids: Seq<String>, name: Seq<char>) -> bool {
    exists|i: int| first_match(ids, name, i)
}

/// The first position of `ids` whose identifier occurs in `name`;
/// meaningful where `matches_any` holds.
pub open spec fn matched_index(ids: Seq<String>, name: Seq<char>) -> int {
    choose|i: int| first_match(ids, name, i)
}

/// The record that a sighting at tick `now` leaves: the new address, and a
/// last-seen tick that never moves backwards.
pub open spec fn merged(prior: Option<RecordView>, address: Seq<char>, now: u64) -> RecordView {
    RecordView {
        address,
        last_seen: match prior {
            Some(p) => if p.last_seen > now { p.last_seen } else { now },
            None => now,
        },
    }
}

/// The record bound to `id`, if there is one.
pub open spec fn lookup(records: Map<Seq<char>, RecordView>, id: Seq<char>) -> Option<RecordView> {
    if records.dom().contains(id) {
        Some(records[id])
    } else {
        None
    }
}

/// The table after an advertisement seen at tick `now`. An advertisement
/// that carries an address and whose name holds an expected identifier
/// rebinds the first such identifier to the last address carried; any other
/// advertisement changes nothing.
pub open spec fn observed(
    records: Map<Seq<char>, RecordView>,
    ids: Seq<String>,
    advert: Advertisement,
    now: u64,
) -> Map<Seq<char>, RecordView> {
    if advert.addresses@.len() > 0 && matches_any(ids, advert.fullname@) {
        let id = ids[matched_index(ids, advert.fullname@)]@;
        records.insert(id, merged(lookup(records, id), advert.addresses@.last()@, now))
    } else {
        records
    }
}

/// Ticks from `started` to `now`; none if the clock reads earlier.
pub open spec fn elapsed(started: u64, now: u64) -> int {
    if now >= started {
        now - started
    } else {
        0
    }
}

/// A record last seen at `last_seen` is fresh at `now`: no more than
/// `window` ticks have passed since.
pub open spec fn fresh(last_seen: u64, now: u64, window: u64) -> bool {
    elapsed(last_seen, now) <= window
}

/// The answer of a lookup at tick `now`: the recorded address while the
/// record is fresh, nothing otherwise.
pub open spec fn resolved(
    records: Map<Seq<char>, RecordView>,
    id: Seq<char>,
    now: u64,
    window: u64,
) -> Option<Seq<char>> {
    if records.dom().contains(id) && fresh(records[id].last_seen, now, window) {
        Some(records[id].address)
    } else {
        None
    }
}

/// Where a source stands at a given tick.
#[derive(Debug, Clone, Copy, PartialEq, Eq)]
pub enum SourceState {
    /// No advertisement was ever recorded for it.
    Unknown,
    /// Its record is fresh.
    Resolved,
    /// It has a record, but the freshness window has passed.
    Stale,
}

/// The state of `id` at tick `now`. Staleness is not stored: it is read off
/// the last-seen tick at each lookup.
pub open spec fn state_of(
    records: Map<Seq<char>, RecordView>,
    id: Seq<char>,
    now: u64,
    window: u64,
) -> SourceState {
    if !records.dom().contains(id) {
        SourceState::Unknown
    } else if fresh(records[id].last_seen, now, window) {
        SourceState::Resolved
    } else {
        SourceState::Stale
    }
}

/// The stream location served at `address`.
pub open spec fn stream_url(address: Seq<char>) -> Seq<char> {
    "http://"@ + address + "/stream"@
}

/// The table after one event of a scan that began at `started`. Once the
/// scan duration has run out the event is not looked at.
pub open spec fn step_records(
    records: Map<Seq<char>, RecordView>,
    ids: Seq<String>,
    duration: u64,
    started: u64,
    now: u64,
    event: ScanEvent,
) -> Map<Seq<char>, RecordView> {
    if elapsed(started, now) >= duration {
        records
    } else {
        match event {
            ScanEvent::Resolved(advert) => observed(records, ids, advert, now),
            _ => records,
        }
    }
}

/// Whether the scan goes on after one event: it stops when its duration has
/// run out and when the listener failed.
pub open spec fn step_action(duration: u64, started: u64, now: u64, event: ScanEvent) -> ScanAction {
    if elapsed(started, now) >= duration {
        ScanAction::Stop
    } else {
        match event {
            ScanEvent::TransportError => ScanAction::Stop,
            _ => ScanAction::Continue,
        }
    }
}

/// The table at the end of a scan over `events` from position `k` on, and
/// the position at which the scan ended: that of the event that stopped it,
/// or the number of events if none did.
pub open spec fn scanned(
    records: Map<Seq<char>, RecordView>,
    ids: Seq<String>,
    duration: u64,
    started: u64,
    events: Seq<TimedEvent>,
    k: int,
) -> (Map<Seq<char>, RecordView>, int)
    decreases events.len() - k,
{
    if k >= events.len() {
        (records, k)
    } else {
        match step_action(duration, started, events[k].at, events[k].event) {
            ScanAction::Stop => (records, k),
            ScanAction::Continue => scanned(
                step_records(records, ids, duration, started, events[k].at, events[k].event),
                ids,
                duration,
                started,
                events,
                k + 1,
            ),
        }
    }
}

/// A source that has no record resolves to nothing, at every tick.
pub proof fn lemma_unknown_is_absent(
    records: Map<Seq<char>, RecordView>,
    id: Seq<char>,
    now: u64,
    window: u64,
)
    requires
        !records.dom().contains(id),
    ensures
        resolved(records, id, now, window).is_none(),
{
}

/// A lookup answers with an address exactly for a source in state
/// `Resolved`; an unknown source and a stale one both get nothing.
pub proof fn lemma_address_only_while_resolved(
    records: Map<Seq<char>, RecordView>,
    id: Seq<char>,
    now: u64,
    window: u64,
)
    ensures
        resolved(records, id, now, window).is_some() <==> state_of(records, id, now, window)
            == SourceState::Resolved,
{
}

/// After a matching advertisement seen at tick `seen`, the matched source
/// has a record whose last-seen tick is `seen` or a later tick recorded
/// before. From then on it resolves to the last address that the
/// advertisement carried for as long as no more than `window` ticks have
/// passed since that tick, and to nothing once more have passed.
pub proof fn lemma_sighting_then_expiry(
    records: Map<Seq<char>, RecordView>,
    ids: Seq<String>,
    advert: Advertisement,
    seen: u64,
    now: u64,
    window: u64,
)
    requires
        advert.addresses@.len() > 0,
        matches_any(ids, advert.fullname@),
    ensures
        ({
            let id = ids[matched_index(ids, advert.fullname@)]@;
            let after = observed(records, ids, advert, seen);
            let last = after[id].last_seen;
            &&& after.dom().contains(id)
            &&& last >= seen
            &&& (!records.dom().contains(id) || records[id].last_seen <= seen) ==> last == seen
            &&& elapsed(last, now) <= window ==> resolved(after, id, now, window) == Some(
                advert.addresses@.last()@,
            )
            &&& elapsed(last, now) > window ==> resolved(after, id, now, window).is_none()
        }),
{
}

/// The last-seen tick of a record never moves backwards, whatever is
/// advertised and whenever.
pub proof fn lemma_last_seen_moves_forward(
    records: Map<Seq<char>, RecordView>,
    ids: Seq<String>,
    advert: Advertisement,
    now: u64,
    id: Seq<char>,
)
    requires
        records.dom().contains(id),
    ensures
        observed(records, ids, advert, now).dom().contains(id),
        observed(records, ids, advert, now)[id].last_seen >= records[id].last_seen,
{
}

/// An advertisement touches no record but that of the first identifier it
/// matches.
pub proof fn lemma_other_records_kept(
    records: Map<Seq<char>, RecordView>,
    ids: Seq<String>,
    advert: Advertisement,
    now: u64,
    id: Seq<char>,
)
    requires
        !matches_any(ids, advert.fullname@) || id != ids[matched_index(ids, advert.fullname@)]@,
    ensures
        lookup(observed(records, ids, advert, now), id) == lookup(records, id),
{
}

impl CameraFinder {
    /// The table is consistent: one record per listed name, no name twice.
    pub closed spec fn wf(&self) -> bool {
        &&& self.names@.len() == self.records@.len()
        &&& distinct_keys(self.names@)
    }

    /// The identifiers that advertisements are matched against, in the
    /// configured order.
    pub closed spec fn expected_ids(&self) -> Seq<String> {
        self.expected@
    }

    /// The records held, by identifier, stale ones included.
    pub closed spec fn records(&self) -> Map<Seq<char>, RecordView> {
        assoc(self.names@, record_views(self.records@))
    }

    /// The freshness window, in ticks.
    pub closed spec fn window(&self) -> u64 {
        self.window
    }

    /// The duration of one scan cycle, in ticks.
    pub closed spec fn scan_duration(&self) -> u64 {
        self.scan_duration
    }

    /// An empty table that matches advertisements against `expected_ids`, in
    /// that order.
    pub fn new(expected_ids: Vec<String>, window: u64, scan_duration: u64) -> (r: Self)
        ensures
            r.wf(),
            r.expected_ids() == expected_ids@,
            r.records() == Map::<Seq<char>, RecordView>::empty(),
            r.window() == window,
            r.scan_duration() == scan_duration,
    {
        let r = CameraFinder {
            expected: expected_ids,
            names: Vec::new(),
            records: Vec::new(),
            window,
            scan_duration,
        };
        assert(r.records() =~= Map::<Seq<char>, RecordView>::empty());
        r
    }

    /// The position of the first expected identifier that occurs in `name`.
    pub fn match_name(&self, name: &str) -> (r: Option<usize>)
        ensures
            match r {
                Some(i) => first_match(self.expected_ids(), name@, i as int),
                None => !matches_any(self.expected_ids(), name@),
            },
    {
        let mut i: usize = 0;
        while i < self.expected.len()
            invariant
                i <= self.expected@.len(),
                forall|j: int| 0 <= j < i ==> !contains_text(name@, (#[trigger] self.expected@[j])@),
            decreases self.expected@.len() - i,
        {
            if contains(name, self.expected[i].as_str()) {
                return Some(i);
            }
            i += 1;
        }
        None
    }

    /// Takes note of an advertisement seen at tick `now`.
    pub fn record(&mut self, advert: &Advertisement, now: u64)
        requires
            old(self).wf(),
        ensures
            final(self).wf(),
            final(self).expected_ids() == old(self).expected_ids(),
            final(self).window() == old(self).window(),
            final(self).scan_duration() == old(self).scan_duration(),
            final(self).records() == observed(
                old(self).records(),
                old(self).expected_ids(),
                *advert,
                now,
            ),
    {
        let n: usize = advert.addresses.len();
        if n == 0 {
            return ;
        }
        let found = self.match_name(advert.fullname.as_str());
        match found {
            None => {},
            Some(i) => {
                proof {
                    let ids = self.expected@;
                    let m = matched_index(ids, advert.fullname@);
                    assert(first_match(ids, advert.fullname@, i as int));
                    assert(first_match(ids, advert.fullname@, m));
                    if m < i {
                        assert(!contains_text(advert.fullname@, ids[m]@));
                    }
                    if i < m {
                        assert(!contains_text(advert.fullname@, ids[i as int]@));
                    }
                    assert(m == i);
                }
                let id = self.expected[i].clone();
                let address = advert.addresses[n - 1].clone();
                let ghost views = record_views(self.records@);
                match find_key(&self.names, id.as_str()) {
                    Some(j) => {
                        let seen: u64 = if self.records[j].last_seen > now {
                            self.records[j].last_seen
                        } else {
                            now
                        };
                        let rec = ServiceRecord { address, last_seen: seen };
                        proof {
                            lemma_assoc_at(self.names@, views, j as int);
                            lemma_assoc_update(self.names@, views, j as int, rec@);
                        }
                        self.records.set(j, rec);
                        assert(record_views(self.records@) =~= views.update(j as int, rec@));
                    },
                    None => {
                        let rec = ServiceRecord { address, last_seen: now };
                        proof {
                            lemma_assoc_push(self.names@, views, id, rec@);
                        }
                        self.names.push(id);
                        self.records.push(rec);
                        assert(record_views(self.records@) =~= views.push(rec@));
                    },
                }
            },
        }
    }

    /// The address recorded for `source_id`, unless there is none or the
    /// record has gone stale by tick `now`.
    pub fn resolve(&self, source_id: &str, now: u64) -> (r: Option<String>)
        requires
            self.wf(),
        ensures
            match r {
                Some(a) => resolved(self.records(), source_id@, now, self.window()) == Some(a@),
                None => resolved(self.records(), source_id@, now, self.window()).is_none(),
            },
    {
        match find_key(&self.names, source_id) {
            None => None,
            Some(i) => {
                proof {
                    lemma_assoc_at(self.names@, record_views(self.records@), i as int);
                }
                let rec = &self.records[i];
                if now <= rec.last_seen || now - rec.last_seen <= self.window {
                    Some(rec.address.clone())
                } else {
                    None
                }
            },
        }
    }

    /// Where `source_id` stands at tick `now`.
    pub fn state(&self, source_id: &str, now: u64) -> (r: SourceState)
        requires
            self.wf(),
        ensures
            r == state_of(self.records(), source_id@, now, self.window()),
    {
        match find_key(&self.names, source_id) {
            None => SourceState::Unknown,
            Some(i) => {
                proof {
                    lemma_assoc_at(self.names@, record_views(self.records@), i as int);
                }
                let rec = &self.records[i];
                if now <= rec.last_seen || now - rec.last_seen <= self.window {
                    SourceState::Resolved
                } else {
                    SourceState::Stale
                }
            },
        }
    }

    /// The stream location of `camera_name`: built from the address that
    /// `resolve` gives, and absent where that is.
    pub fn get_camera_url(&self, camera_name: &str, now: u64) -> (r: Option<String>)
        requires
            self.wf(),
        ensures
            match r {
                Some(u) => match resolved(self.records(), camera_name@, now, self.window()) {
                    Some(a) => u@ == stream_url(a),
                    None => false,
                },
                None => resolved(self.records(), camera_name@, now, self.window()).is_none(),
            },
    {
        match self.resolve(camera_name, now) {
            None => None,
            Some(address) => {
                let mut url = String::from_str("http://");
                url.append(address.as_str());
                url.append("/stream");
                Some(url)
            },
        }
    }

    /// How many ticks of a scan that began at tick `started` are left at
    /// tick `now`: how long the listener may still wait for an event.
    pub fn time_left(&self, started: u64, now: u64) -> (r: u64)
        ensures
            r == if elapsed(started, now) >= self.scan_duration() {
                0
            } else {
                self.scan_duration() - elapsed(started, now)
            },
    {
        let passed: u64 = if now >= started {
            now - started
        } else {
            0
        };
        if passed >= self.scan_duration {
            0
        } else {
            self.scan_duration - passed
        }
    }

    /// One step of a scan that began at tick `started`: takes note of the
    /// event that arrived at tick `now` and says whether the scan goes on.
    pub fn scan_step(&mut self, started: u64, now: u64, event: &ScanEvent) -> (action: ScanAction)
        requires
            old(self).wf(),
        ensures
            final(self).wf(),
            final(self).expected_ids() == old(self).expected_ids(),
            final(self).window() == old(self).window(),
            final(self).scan_duration() == old(self).scan_duration(),
            final(self).records() == step_records(
                old(self).records(),
                old(self).expected_ids(),
                old(self).scan_duration(),
                started,
                now,
                *event,
            ),
            action == step_action(old(self).scan_duration(), started, now, *event),
    {
        let passed: u64 = if now >= started {
            now - started
        } else {
            0
        };
        if passed >= self.scan_duration {
            return ScanAction::Stop;
        }
        match event {
            ScanEvent::Resolved(advert) => {
                self.record(advert, now);
                ScanAction::Continue
            },
            ScanEvent::Other => ScanAction::Continue,
            ScanEvent::TransportError => ScanAction::Stop,
        }
    }

    /// Runs one scan cycle that began at tick `started` over the events that
    /// the listener delivered, in order. Returns the position at which the
    /// cycle ended: that of the first event that arrived after the scan
    /// duration had run out or that reports a failure of the listener, or
    /// the number of events if there is no such event.
    pub fn discover_cameras(&mut self, started: u64, events: &Vec<TimedEvent>) -> (ended: usize)
        requires
            old(self).wf(),
        ensures
            final(self).wf(),
            final(self).expected_ids() == old(self).expected_ids(),
            final(self).window() == old(self).window(),
            final(self).scan_duration() == old(self).scan_duration(),
            (final(self).records(), ended as int) == scanned(
                old(self).records(),
                old(self).expected_ids(),
                old(self).scan_duration(),
                started,
                events@,
                0,
            ),
    {
        let ghost ids = self.expected_ids();
        let ghost duration = self.scan_duration();
        let ghost goal = scanned(self.records(), ids, duration, started, events@, 0);
        let mut i: usize = 0;
        while i < events.len()
            invariant
                self.wf(),
                i <= events@.len(),
                self.expected_ids() == ids,
                self.scan_duration() == duration,
                ids == old(self).expected_ids(),
                duration == old(self).scan_duration(),
                goal == scanned(old(self).records(), ids, duration, started, events@, 0),
                self.window() == old(self).window(),
                scanned(self.records(), ids, duration, started, events@, i as int) == goal,
            decreases events@.len() - i,
        {
            let ghost before = self.records();
            let action = self.scan_step(started, events[i].at, &events[i].event);
            assert(scanned(before, ids, duration, started, events@, i as int) == goal);
            match action {
                ScanAction::Stop => {
                    assert(self.records() == before);
                    return i;
                },
                ScanAction::Continue => {},
            }
            i += 1;
        }
        i
    }
}

} // verus!
