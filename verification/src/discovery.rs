//! Discovery of KEF speakers on the local network. The caller drives the
//! multicast search and the HTTP fetches; this module holds the verified
//! bookkeeping: which locations were already seen (so each descriptor is
//! fetched at most once per run), which descriptors name the right
//! manufacturer, and the accumulated location-to-serial mapping.

use vstd::assert_by_contradiction;
use vstd::prelude::*;

verus! {

/// What a normalized location URL looks like for a given piece of location
/// text, or nothing when the text is no URL. The result depends on the text
/// alone.
pub uninterp spec fn spec_parse_location(s: Seq<char>) -> Option<Seq<char>>;

/// Relies on url::Url::parse and url::Url::as_str: parsing either rejects
/// the text or yields a URL whose serialization is a function of the text
/// alone, and equal serializations mean equal URLs.
#[verifier::external_body]
fn parse_location(s: &str) -> (r: Option<String>)
    ensures
        r matches Some(u) ==> spec_parse_location(s@) == Some(u@),
        r is None ==> spec_parse_location(s@) is None,
{
    match url::Url::parse(s) {
        Ok(u) => Some(u.as_str().to_owned()),
        Err(_) => None,
    }
}

/// The manufacturer text a descriptor body exposes: the text of the
/// manufacturer element under the device element of the parsed XML body, or
/// nothing when the body is malformed or lacks any step of that path. The
/// result depends on the bytes alone.
pub uninterp spec fn spec_descriptor_manufacturer(body: Seq<u8>) -> Option<Seq<char>>;

/// The serial number text a descriptor body exposes: the text of the
/// serialNumber element under the device element of the parsed XML body, or
/// nothing when the body is malformed or lacks any step of that path. The
/// result depends on the bytes alone.
pub uninterp spec fn spec_descriptor_serial_text(body: Seq<u8>) -> Option<Seq<char>>;

/// Relies on xmltree::Element::parse, Element::get_child and
/// Element::get_text: parsing a body and looking up the named children is a
/// function of the bytes alone, and every failure along the path — malformed
/// XML, a missing element, missing text — yields nothing for that field.
#[verifier::external_body]
fn read_descriptor(body: &[u8]) -> (r: DeviceDescriptor)
    ensures
        r.manufacturer matches Some(m) ==> spec_descriptor_manufacturer(body@) == Some(m@),
        r.manufacturer is None ==> spec_descriptor_manufacturer(body@) is None,
        r.serial_number matches Some(t) ==> spec_descriptor_serial_text(body@) == Some(t@),
        r.serial_number is None ==> spec_descriptor_serial_text(body@) is None,
{
    let root = xmltree::Element::parse(body).ok();
    let device = root.as_ref().and_then(|el| el.get_child("device"));
    DeviceDescriptor {
        manufacturer: device
            .and_then(|d| d.get_child("manufacturer"))
            .and_then(|e| e.get_text())
            .map(|t| t.into_owned()),
        serial_number: device
            .and_then(|d| d.get_child("serialNumber"))
            .and_then(|e| e.get_text())
            .map(|t| t.into_owned()),
    }
}

/// What the discovery logic reads out of one device's descriptor document:
/// the declared manufacturer and serial number texts, either of which may be
/// missing.
pub struct DeviceDescriptor {
    pub manufacturer: Option<String>,
    pub serial_number: Option<String>,
}

impl DeviceDescriptor {
    /// Whether the descriptor declares the target manufacturer exactly.
    pub open spec fn spec_is_kef(self) -> bool {
        self.manufacturer matches Some(m) && m@ == "KEF"@
    }
}

/// The serial number of a device, but only when the device declares the
/// target manufacturer and exposes a serial number; every other descriptor
/// yields nothing.
pub fn get_serial(device: &DeviceDescriptor) -> (r: Option<String>)
    ensures
        r is Some <==> (device.spec_is_kef() && device.serial_number is Some),
        r matches Some(sn) ==> device.serial_number matches Some(sn2) && sn@ == sn2@,
{
    let kef: String = "KEF".to_owned();
    match &device.manufacturer {
        Some(m) => {
            if *m == kef {
                match &device.serial_number {
                    Some(sn) => Some(sn.clone()),
                    None => None,
                }
            } else {
                None
            }
        },
        None => None,
    }
}

/// Read a fetched descriptor body: parse it as XML, find the nested device
/// element, and return the serial number exactly when the device declares
/// the target manufacturer and exposes one. Malformed bodies and foreign
/// devices yield nothing.
pub fn check_descriptor(body: &[u8]) -> (r: Option<String>)
    ensures
        r is Some <==> (spec_descriptor_manufacturer(body@) == Some("KEF"@)
            && spec_descriptor_serial_text(body@) is Some),
        r matches Some(sn) ==> spec_descriptor_serial_text(body@) == Some(sn@),
{
    let descriptor = read_descriptor(body);
    get_serial(&descriptor)
}

/// The views of a list of owned location strings.
pub open spec fn spec_locs(l: Seq<String>) -> Seq<Seq<char>> {
    l.map_values(|v: String| v@)
}

/// The mapping written by a list of location and serial pairs, later entries
/// overriding earlier ones.
pub open spec fn spec_speaker_map_of(entries: Seq<(String, String)>) -> Map<Seq<char>, Seq<char>>
    decreases entries.len(),
{
    if entries.len() == 0 {
        Map::empty()
    } else {
        spec_speaker_map_of(entries.drop_last()).insert(entries.last().0@, entries.last().1@)
    }
}

/// Recording a location in the visited set: the set after the record, and
/// whether the location was fresh — fresh means its descriptor is still to
/// be fetched.
pub open spec fn spec_record(visited: Set<Seq<char>>, loc: Seq<char>) -> (Set<Seq<char>>, bool) {
    if visited.contains(loc) {
        (visited, false)
    } else {
        (visited.insert(loc), true)
    }
}

/// A location is fresh at most once per run: recording it a second time
/// reports it stale, so its descriptor is never fetched again.
pub proof fn lemma_record_dedups(visited: Set<Seq<char>>, loc: Seq<char>)
    ensures
        spec_record(spec_record(visited, loc).0, loc).1 == false,
{
}

/// One candidate never blocks another: adding one speaker leaves every other
/// location's entry in the mapping exactly as it was, so a candidate that
/// failed or was skipped has no bearing on the rest.
pub proof fn lemma_candidate_independent(
    m: Map<Seq<char>, Seq<char>>,
    loc: Seq<char>,
    serial: Seq<char>,
    other: Seq<char>,
)
    requires
        other != loc,
    ensures
        m.insert(loc, serial).contains_key(other) == m.contains_key(other),
        m.contains_key(other) ==> m.insert(loc, serial)[other] == m[other],
{
}

/// Whether `list` already holds a string equal to `loc`.
fn contains_location(list: &Vec<String>, loc: &String) -> (r: bool)
    ensures
        r == spec_locs(list@).contains(loc@),
{
    let n = list.len();
    let mut idx: usize = 0;
    while idx < n
        invariant
            n == list@.len(),
            idx <= n,
            forall|j: int| 0 <= j < idx ==> spec_locs(list@)[j] != loc@,
        decreases n - idx,
    {
        if list[idx].eq(loc) {
            assert(spec_locs(list@)[idx as int] == loc@);
            return true;
        }
        idx += 1;
    }
    proof {
        assert_by_contradiction!(!spec_locs(list@).contains(loc@), {
            let i = choose|i: int|
                0 <= i < spec_locs(list@).len() && spec_locs(list@)[i] == loc@;
            assert(spec_locs(list@)[i] != loc@);
        });
    }
    false
}

/// The accumulator of one discovery run: the locations already seen, and the
/// mapping from location to serial number grown so far. Owned by the run;
/// nothing persists outside it.
pub struct DiscoveryState {
    visited: Vec<String>,
    speakers: Vec<(String, String)>,
}

impl DiscoveryState {
    /// The location and serial pairs accumulated so far, oldest first.
    pub closed spec fn entries(self) -> Seq<(String, String)> {
        self.speakers@
    }

    /// The views of the locations already seen.
    pub closed spec fn visited_locs(self) -> Seq<Seq<char>> {
        spec_locs(self.visited@)
    }

    /// The set of locations already seen.
    pub open spec fn visited_set(self) -> Set<Seq<char>> {
        self.visited_locs().to_set()
    }

    /// The mapping from location to serial number grown so far.
    pub open spec fn speaker_map(self) -> Map<Seq<char>, Seq<char>> {
        spec_speaker_map_of(self.entries())
    }

    /// Each location holds at most one entry in the accumulator.
    pub open spec fn wf(self) -> bool {
        forall|i: int, j: int|
            0 <= i < j < self.entries().len() ==> self.entries()[i].0@ != self.entries()[j].0@
    }

    /// A fresh accumulator: nothing seen, nothing found.
    pub fn new() -> (r: DiscoveryState)
        ensures
            r.wf(),
            r.visited_set() == Set::<Seq<char>>::empty(),
            r.speaker_map() == Map::<Seq<char>, Seq<char>>::empty(),
    {
        let r = DiscoveryState { visited: Vec::new(), speakers: Vec::new() };
        proof {
            assert(r.visited_set() =~= Set::<Seq<char>>::empty());
        }
        r
    }

    /// Handle one discovery response carrying a location text. Text that is
    /// no URL is skipped, a location already seen is skipped, and a fresh
    /// location is recorded and handed back so that the caller fetches its
    /// descriptor — each location at most once per run.
    pub fn on_response(&mut self, raw_location: &str) -> (r: Option<String>)
        requires
            old(self).wf(),
        ensures
            final(self).wf(),
            final(self).speaker_map() == old(self).speaker_map(),
            match spec_parse_location(raw_location@) {
                None => r is None && final(self).visited_set() == old(self).visited_set(),
                Some(u) => final(self).visited_set() == spec_record(old(self).visited_set(), u).0
                    && (spec_record(old(self).visited_set(), u).1 ==> (r matches Some(l) && l@
                    == u)) && (!spec_record(old(self).visited_set(), u).1 ==> r is None),
            },
    {
        match parse_location(raw_location) {
            None => {
                proof {
                    assert(self.entries() =~= old(self).entries());
                    assert(self.wf());
                }
                None
            },
            Some(loc) => {
                if contains_location(&self.visited, &loc) {
                    proof {
                        assert(self.entries() =~= old(self).entries());
                        assert(self.wf());
                    }
                    None
                } else {
                    let result = loc.clone();
                    self.visited.push(loc);
                    proof {
                        let vs_old = spec_locs(old(self).visited@);
                        let vs_new = spec_locs(self.visited@);
                        assert(vs_new =~= vs_old.push(loc@));
                        assert forall|x: Seq<char>|
                            vs_new.contains(x) <==> (vs_old.contains(x) || x == loc@) by {
                            if vs_new.contains(x) {
                                let i = choose|i: int|
                                    0 <= i < vs_new.len() && vs_new[i] == x;
                                if i < vs_old.len() {
                                    assert(vs_old[i] == x);
                                }
                            }
                            if vs_old.contains(x) {
                                let i = choose|i: int|
                                    0 <= i < vs_old.len() && vs_old[i] == x;
                                assert(vs_new[i] == x);
                            }
                            if x == loc@ {
                                assert(vs_new[vs_new.len() - 1] == x);
                            }
                        }
                        assert(self.visited_set() =~= old(self).visited_set().insert(loc@));
                        assert(self.entries() =~= old(self).entries());
                        assert(self.wf());
                    }
                    Some(result)
                }
            },
        }
    }
}

/// Overwriting the entry whose key matches — when each key holds at most one
/// entry — writes exactly that key in the mapping.
proof fn lemma_map_of_update(entries: Seq<(String, String)>, i: int, pair: (String, String))
    requires
        0 <= i < entries.len(),
        entries[i].0@ == pair.0@,
        forall|p: int, q: int|
            0 <= p < q < entries.len() ==> entries[p].0@ != entries[q].0@,
    ensures
        spec_speaker_map_of(entries.update(i, pair)) == spec_speaker_map_of(entries).insert(
            pair.0@,
            pair.1@,
        ),
    decreases entries.len(),
{
    let u = entries.update(i, pair);
    let n = entries.len() as int;
    if i == n - 1 {
        assert(u.drop_last() =~= entries.drop_last());
        assert(u.last() == pair);
        assert(spec_speaker_map_of(u) =~= spec_speaker_map_of(entries).insert(
            pair.0@,
            pair.1@,
        ));
    } else {
        assert(u.drop_last() =~= entries.drop_last().update(i, pair));
        assert(u.last() == entries.last());
        assert(entries.drop_last()[i] == entries[i]);
        lemma_map_of_update(entries.drop_last(), i, pair);
        assert(entries[i].0@ != entries.last().0@);
        assert(spec_speaker_map_of(u) =~= spec_speaker_map_of(entries).insert(
            pair.0@,
            pair.1@,
        ));
    }
}

impl DiscoveryState {
    /// Record a discovered speaker: the serial number found at a location.
    /// The mapping afterwards holds exactly that entry in addition to — or in
    /// place of — what it held for that location before; every other
    /// location's entry is untouched.
    pub fn add_speaker(&mut self, location: String, serial: String)
        requires
            old(self).wf(),
        ensures
            final(self).wf(),
            final(self).visited_set() == old(self).visited_set(),
            final(self).speaker_map() == old(self).speaker_map().insert(location@, serial@),
    {
        let n = self.speakers.len();
        let mut idx: usize = 0;
        while idx < n
            invariant
                n == self.speakers@.len(),
                idx <= n,
                *self == *old(self),
                old(self).wf(),
                forall|j: int| 0 <= j < idx ==> self.speakers@[j].0@ != location@,
            decreases n - idx,
        {
            if self.speakers[idx].0.eq(&location) {
                proof {
                    assert(self.speakers@ == old(self).entries());
                    assert forall|p: int, q: int|
                        0 <= p < q < self.speakers@.len() implies self.speakers@[p].0@
                        != self.speakers@[q].0@ by {
                        assert(old(self).entries()[p].0@ != old(self).entries()[q].0@);
                    }
                    lemma_map_of_update(
                        self.speakers@,
                        idx as int,
                        (location, serial),
                    );
                }
                self.speakers.set(idx, (location, serial));
                proof {
                    assert(self.visited_locs() =~= old(self).visited_locs());
                    assert forall|p: int, q: int|
                        0 <= p < q < self.entries().len() implies self.entries()[p].0@
                        != self.entries()[q].0@ by {
                        assert(old(self).entries()[p].0@ != old(self).entries()[q].0@);
                    }
                }
                return;
            }
            idx += 1;
        }
        proof {
            assert(self.speakers@.push((location, serial)).drop_last() =~= self.speakers@);
        }
        self.speakers.push((location, serial));
        proof {
            assert(self.visited_locs() =~= old(self).visited_locs());
            assert(self.speaker_map() =~= old(self).speaker_map().insert(location@, serial@));
        }
    }

    /// The speakers found so far, as location and serial pairs, in the order
    /// they were first recorded.
    pub fn speakers(&self) -> (r: &Vec<(String, String)>)
        ensures
            r@ == self.entries(),
    {
        &self.speakers
    }
}

} // verus!
