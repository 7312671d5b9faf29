//! The remembered result of the last scan, and the versioned envelope in
//! which it is kept. The envelope is a cache: one written under another
//! version counts for nothing.

use vstd::prelude::*;
use crate::text::texts;

verus! {

/// The version of the state format. An envelope of any other version is
/// discarded.
pub const STATE_VERSION: u32 = 2;

/// What the last scan found, and when.
#[derive(Debug)]
pub struct State {
    /// The repositories that the last scan found.
    pub repositories: Vec<String>,
    /// When the last scan ended, in seconds since the Unix epoch.
    pub last_scan: Option<u64>,
}

/// A state with the version it was written under.
#[derive(Debug)]
pub struct StateEnvelope {
    pub version: u32,
    pub state: State,
}

/// A state as plain values.
pub struct StateModel {
    pub repositories: Seq<Seq<char>>,
    pub last_scan: Option<u64>,
}

impl View for State {
    type V = StateModel;

    open spec fn view(&self) -> StateModel {
        StateModel { repositories: texts(self.repositories@), last_scan: self.last_scan }
    }
}

/// The state that knows nothing.
pub open spec fn empty_state() -> StateModel {
    StateModel { repositories: Seq::empty(), last_scan: None }
}

/// What was found where the state is kept.
#[derive(Debug)]
pub enum Stored {
    /// There is no file.
    Absent,
    /// There is a file and it cannot be read.
    Unreadable,
    /// The file holds no envelope.
    Undecodable,
    /// The file holds this envelope.
    Decoded(StateEnvelope),
}

/// What loading comes to: the state, and whether the file is stale and is
/// to be deleted.
#[derive(Debug)]
pub struct Loaded {
    pub state: State,
    pub discard_file: bool,
}

/// The state that what was found stands for: the state of an envelope of
/// the current version, and the empty state in every other case.
pub open spec fn loaded_state(stored: Stored) -> StateModel {
    match stored {
        Stored::Decoded(envelope) => if envelope.version == STATE_VERSION {
            envelope.state@
        } else {
            empty_state()
        },
        _ => empty_state(),
    }
}

/// Whether what was found is an envelope of another version, which is
/// deleted.
pub open spec fn is_stale(stored: Stored) -> bool {
    stored matches Stored::Decoded(envelope) && envelope.version != STATE_VERSION
}

/// A reading of the system clock.
#[verifier::external_type_specification]
#[verifier::external_body]
pub struct ExSystemTime(std::time::SystemTime);

/// The error of a clock reading that lies before the time it is measured
/// from.
#[verifier::external_type_specification]
#[verifier::external_body]
pub struct ExSystemTimeError(std::time::SystemTimeError);

/// `SystemTime::now` reads the system clock; nothing is known of what it
/// reads.
pub assume_specification[ std::time::SystemTime::now ]() -> (r: std::time::SystemTime);

/// `Duration::as_secs` gives the whole seconds of a duration; nothing is
/// stated of their number.
pub assume_specification[ std::time::Duration::as_secs ](d: &std::time::Duration) -> (r: u64);

/// `SystemTime::duration_since` with the Unix epoch: how long after the
/// epoch the reading lies, or an error where it lies before it.
#[verifier::external_body]
fn since_epoch(time: &std::time::SystemTime) -> (r: Result<
    std::time::Duration,
    std::time::SystemTimeError,
>) {
    time.duration_since(std::time::UNIX_EPOCH)
}

/// The clock's reading in whole seconds since the Unix epoch; nothing where
/// the clock stands before the epoch.
fn seconds_since_epoch() -> (r: Option<u64>) {
    let now = std::time::SystemTime::now();
    match since_epoch(&now) {
        Ok(elapsed) => Some(elapsed.as_secs()),
        Err(_) => None,
    }
}

impl Default for State {
    fn default() -> (r: State)
        ensures
            r@ == empty_state(),
    {
        let r = State { repositories: Vec::new(), last_scan: None };
        assert(r@.repositories =~= Seq::<Seq<char>>::empty());
        r
    }
}

/// A copy of the strings of `v`.
fn copy_strings(v: &Vec<String>) -> (r: Vec<String>)
    ensures
        texts(r@) == texts(v@),
{
    let mut r: Vec<String> = Vec::new();
    let mut i: usize = 0;
    while i < v.len()
        invariant
            i <= v.len(),
            r.len() == i,
            forall|j: int| 0 <= j < i ==> r@[j]@ == v@[j]@,
        decreases v.len() - i,
    {
        r.push(v[i].clone());
        i += 1;
    }
    assert(texts(r@) =~= texts(v@));
    r
}

impl State {
    /// The state of a scan that found `repositories` and has no time yet.
    pub fn new(repositories: Vec<String>) -> (r: State)
        ensures
            r@.repositories == texts(repositories@),
            r@.last_scan is None,
    {
        State { repositories, last_scan: None }
    }

    /// Sets the last scan timestamp to `seconds` since the Unix epoch.
    pub fn mark_scanned_at(&mut self, seconds: Option<u64>)
        ensures
            final(self)@.repositories == old(self)@.repositories,
            final(self)@.last_scan == seconds,
    {
        self.last_scan = seconds;
    }

    /// Sets the last scan timestamp to now. The repositories stay as they
    /// are, whatever the clock says.
    pub fn mark_scanned(&mut self)
        ensures
            final(self)@.repositories == old(self)@.repositories,
    {
        let now = seconds_since_epoch();
        self.mark_scanned_at(now);
    }

    /// Returns the time of the last scan, in seconds since the Unix epoch,
    /// if there is one.
    pub fn last_scan_time(&self) -> (r: Option<u64>)
        ensures
            r == self@.last_scan,
    {
        self.last_scan
    }
}

/// The time that is saved with a state for a reading of the clock: the
/// reading, and where the clock gave none, the time that the state has.
pub open spec fn saved_time(own: Option<u64>, reading: Option<u64>) -> Option<u64> {
    match reading {
        Some(now) => Some(now),
        None => own,
    }
}

/// The envelope that saves `state` for a reading of the clock: the
/// repositories and the time of the save under the current version.
pub fn save_with(state: &State, reading: Option<u64>) -> (r: StateEnvelope)
    ensures
        r.version == STATE_VERSION,
        r.state@.repositories == state@.repositories,
        r.state@.last_scan == saved_time(state@.last_scan, reading),
{
    let last_scan = match reading {
        Some(now) => Some(now),
        None => state.last_scan,
    };
    StateEnvelope {
        version: STATE_VERSION,
        state: State { repositories: copy_strings(&state.repositories), last_scan },
    }
}

/// The envelope that saves `state` at the time `now`, in seconds since the
/// Unix epoch: the repositories and that time under the current version.
pub fn save_at(state: &State, now: u64) -> (r: StateEnvelope)
    ensures
        r.version == STATE_VERSION,
        r.state@.repositories == state@.repositories,
        r.state@.last_scan == Some(now),
{
    save_with(state, Some(now))
}

/// Saves the state: the envelope that is to be written, which holds the
/// repositories and the time of the save under the current version. The
/// time is what the clock reads; only where the clock gives no reading does
/// the state keep the time that it has.
pub fn save(state: &State) -> (r: StateEnvelope)
    ensures
        r.version == STATE_VERSION,
        r.state@.repositories == state@.repositories,
        r.state@.last_scan is None ==> state@.last_scan is None,
{
    save_with(state, seconds_since_epoch())
}

/// Loads the state from what was found where it is kept. An envelope of the
/// current version gives its state. Anything else gives the empty state,
/// and an envelope of another version is to be deleted as well.
pub fn load(stored: Stored) -> (r: Loaded)
    ensures
        r.state@ == loaded_state(stored),
        r.discard_file == is_stale(stored),
{
    match stored {
        Stored::Decoded(envelope) => {
            if envelope.version == STATE_VERSION {
                Loaded { state: envelope.state, discard_file: false }
            } else {
                Loaded { state: State::default(), discard_file: true }
            }
        },
        Stored::Absent => Loaded { state: State::default(), discard_file: false },
        Stored::Unreadable => Loaded { state: State::default(), discard_file: false },
        Stored::Undecodable => Loaded { state: State::default(), discard_file: false },
    }
}

/// What is saved comes back: an envelope that saves a state at a time
/// loads as the repositories of that state with that time as the time of
/// the last scan, and the file is kept.
pub proof fn law_round_trip(envelope: StateEnvelope, state: StateModel, now: u64)
    requires
        envelope.version == STATE_VERSION,
        envelope.state@.repositories == state.repositories,
        envelope.state@.last_scan == Some(now),
    ensures
        loaded_state(Stored::Decoded(envelope)).repositories == state.repositories,
        loaded_state(Stored::Decoded(envelope)).last_scan == Some(now),
        !is_stale(Stored::Decoded(envelope)),
{
}

/// An envelope of another version loads as the empty state and is stale.
pub proof fn law_other_version_is_empty(envelope: StateEnvelope)
    requires
        envelope.version != STATE_VERSION,
    ensures
        loaded_state(Stored::Decoded(envelope)) == empty_state(),
        is_stale(Stored::Decoded(envelope)),
{
}

} // verus!
