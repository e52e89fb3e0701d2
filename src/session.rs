//! The recording session: an Idle/Recording state machine that owns the
//! markers and hands back the edit-list text after every change.
//!
//! Clock readings come in as plain values: `now_ms` is a monotonic clock in
//! milliseconds (it never goes back), `now_secs` the wall clock in whole
//! seconds since the Unix epoch.
use vstd::prelude::*;
use crate::edl::{edl_file_name, edl_records, edl_text, encode, file_name};
use crate::marker::{
    edl_record, is_two_lines, law_record_is_two_lines, no_newline, views, Marker, MarkerStore,
    MarkerView,
};
use crate::timecode::{timecode, to_timecode};

verus! {

/// The name that a new marker gets.
pub open spec fn default_name() -> Seq<char> {
    "Marker"@
}

/// What a session holds, as mathematical values.
pub ghost struct SessionView {
    pub running: bool,
    pub markers: Seq<MarkerView>,
    /// Monotonic reading at the last start.
    pub start_ms: nat,
    /// Wall-clock seconds at the last start; names the file.
    pub start_secs: nat,
    /// The latest monotonic reading the session has seen.
    pub last_ms: nat,
}

/// Markers are in creation order, which is also non-decreasing time order,
/// and none lies after the latest clock reading.
pub open spec fn session_ok(s: SessionView) -> bool {
    &&& s.start_ms <= s.last_ms
    &&& forall|i: int, j: int|
        0 <= i <= j < s.markers.len() ==> #[trigger] s.markers[i].time_ms
            <= #[trigger] s.markers[j].time_ms
    &&& forall|i: int|
        0 <= i < s.markers.len() ==> #[trigger] s.markers[i].time_ms + s.start_ms <= s.last_ms
}

/// `start`: from Idle, forget the markers, take new baselines and record.
pub open spec fn start_spec(s: SessionView, now_ms: nat, now_secs: nat) -> SessionView {
    if s.running {
        s
    } else {
        SessionView {
            running: true,
            markers: Seq::empty(),
            start_ms: now_ms,
            start_secs: now_secs,
            last_ms: now_ms,
        }
    }
}

/// `stop`: from Recording, go Idle and keep the markers.
pub open spec fn stop_spec(s: SessionView) -> SessionView {
    if s.running {
        SessionView { running: false, ..s }
    } else {
        s
    }
}

/// A trigger: while Recording, add a marker at the elapsed time.
pub open spec fn trigger_spec(s: SessionView, now_ms: nat) -> SessionView {
    if s.running {
        SessionView {
            markers: s.markers.push(
                MarkerView { time_ms: (now_ms - s.start_ms) as nat, name: default_name() },
            ),
            last_ms: now_ms,
            ..s
        }
    } else {
        s
    }
}

/// `rename`: give the marker at 0-based `position` a new name, if it exists.
pub open spec fn rename_spec(s: SessionView, position: int, name: Seq<char>) -> SessionView {
    if 0 <= position < s.markers.len() {
        SessionView {
            markers: s.markers.update(
                position,
                MarkerView { time_ms: s.markers[position].time_ms, name },
            ),
            ..s
        }
    } else {
        s
    }
}

/// A run of triggers at the monotonic readings `nows`, one after another.
pub open spec fn triggers(s: SessionView, nows: Seq<nat>) -> SessionView
    decreases nows.len(),
{
    if nows.len() == 0 {
        s
    } else {
        trigger_spec(triggers(s, nows.drop_last()), nows.last())
    }
}

/// Readings that never go back.
pub open spec fn non_decreasing(nows: Seq<nat>) -> bool {
    forall|i: int, j: int| 0 <= i <= j < nows.len() ==> #[trigger] nows[i] <= #[trigger] nows[j]
}

/// The markers that triggers at `nows` leave in a session started at `start_ms`.
pub open spec fn fresh_markers(start_ms: nat, nows: Seq<nat>) -> Seq<MarkerView> {
    Seq::new(
        nows.len(),
        |i: int| MarkerView { time_ms: (nows[i] - start_ms) as nat, name: default_name() },
    )
}

/// Triggers in a recording session with no markers leave one marker per
/// trigger, in order, each at its reading minus the start.
pub proof fn lemma_triggers_from_empty(s: SessionView, nows: Seq<nat>)
    requires
        s.running,
        s.markers.len() == 0,
    ensures
        triggers(s, nows).running,
        triggers(s, nows).start_ms == s.start_ms,
        triggers(s, nows).markers == fresh_markers(s.start_ms, nows),
    decreases nows.len(),
{
    if nows.len() > 0 {
        lemma_triggers_from_empty(s, nows.drop_last());
        assert(triggers(s, nows).markers =~= fresh_markers(s.start_ms, nows));
    }
}

/// A trigger while idle changes nothing: no marker is added and none changes.
pub proof fn law_idle_trigger_changes_nothing(s: SessionView, now_ms: nat)
    requires
        !s.running,
    ensures
        trigger_spec(s, now_ms) == s,
        trigger_spec(s, now_ms).markers.len() == s.markers.len(),
{
}

/// Right after `start` there are no markers, and the next trigger leaves
/// exactly one, at the time elapsed since that start.
pub proof fn law_start_then_trigger(s: SessionView, now_ms: nat, now_secs: nat, later_ms: nat)
    requires
        !s.running,
        now_ms <= later_ms,
    ensures
        start_spec(s, now_ms, now_secs).running,
        start_spec(s, now_ms, now_secs).markers.len() == 0,
        trigger_spec(start_spec(s, now_ms, now_secs), later_ms).markers == seq![
            MarkerView { time_ms: (later_ms - now_ms) as nat, name: default_name() },
        ],
{
    let s1 = start_spec(s, now_ms, now_secs);
    assert(trigger_spec(s1, later_ms).markers =~= seq![
        MarkerView { time_ms: (later_ms - now_ms) as nat, name: default_name() },
    ]);
}

/// After `start` and N triggers at readings that never go back, the file
/// holds exactly N records of two lines each, numbered 1 to N in order,
/// whose times never decrease.
pub proof fn law_triggers_numbered_in_order(
    s: SessionView,
    now_ms: nat,
    now_secs: nat,
    nows: Seq<nat>,
)
    requires
        !s.running,
        non_decreasing(nows),
        forall|i: int| 0 <= i < nows.len() ==> now_ms <= #[trigger] nows[i],
    ensures
        ({
            let ms = triggers(start_spec(s, now_ms, now_secs), nows).markers;
            &&& ms.len() == nows.len()
            &&& edl_records(ms).len() == nows.len()
            &&& forall|i: int|
                0 <= i < nows.len() ==> #[trigger] edl_records(ms)[i] == edl_record(
                    (i + 1) as nat,
                    MarkerView { time_ms: (nows[i] - now_ms) as nat, name: default_name() },
                )
            &&& forall|i: int| 0 <= i < nows.len() ==> is_two_lines(#[trigger] edl_records(ms)[i])
            &&& forall|i: int, j: int|
                0 <= i <= j < ms.len() ==> #[trigger] ms[i].time_ms <= #[trigger] ms[j].time_ms
        }),
{
    let s1 = start_spec(s, now_ms, now_secs);
    lemma_triggers_from_empty(s1, nows);
    let ms = triggers(s1, nows).markers;
    assert forall|i: int, j: int| 0 <= i <= j < ms.len() implies #[trigger] ms[i].time_ms
        <= #[trigger] ms[j].time_ms by {
        assert(nows[i] <= nows[j]);
    }
    reveal_strlit("Marker");
    assert(no_newline(default_name()));
    assert forall|i: int| 0 <= i < nows.len() implies is_two_lines(
        #[trigger] edl_records(ms)[i],
    ) by {
        law_record_is_two_lines((i + 1) as nat, ms[i]);
    }
}

/// Renaming the marker at `position` changes its record alone, and in that
/// record only the name; every other record stays as it was.
pub proof fn law_rename_changes_one_record(s: SessionView, position: int, name: Seq<char>)
    requires
        0 <= position < s.markers.len(),
    ensures
        edl_records(rename_spec(s, position, name).markers) == edl_records(s.markers).update(
            position,
            edl_record(
                (position + 1) as nat,
                MarkerView { time_ms: s.markers[position].time_ms, name },
            ),
        ),
{
    assert(edl_records(rename_spec(s, position, name).markers) =~= edl_records(s.markers).update(
        position,
        edl_record((position + 1) as nat, MarkerView { time_ms: s.markers[position].time_ms, name }),
    ));
}

/// Stopping and starting again forgets every earlier marker: what triggers
/// leave after the new start, and so the file, depends on the new start and
/// the triggers alone.
pub proof fn law_restart_forgets_markers(s: SessionView, now_ms: nat, now_secs: nat, nows: Seq<nat>)
    ensures
        start_spec(stop_spec(s), now_ms, now_secs).markers.len() == 0,
        triggers(start_spec(stop_spec(s), now_ms, now_secs), nows).markers == fresh_markers(
            now_ms,
            nows,
        ),
        edl_text(triggers(start_spec(stop_spec(s), now_ms, now_secs), nows).markers) == edl_text(
            fresh_markers(now_ms, nows),
        ),
{
    lemma_triggers_from_empty(start_spec(stop_spec(s), now_ms, now_secs), nows);
}

/// Why a session command was refused.
#[derive(Debug, Clone, Copy, PartialEq, Eq, Structural)]
pub enum SessionError {
    /// `start` while already recording.
    AlreadyRecording,
    /// `stop` while idle.
    NotRecording,
    /// `rename` of a position where no marker stands.
    NotFound,
}

/// The session: its state, its clock baselines and its markers.
pub struct MarkerApp {
    markers: MarkerStore,
    running: bool,
    start_ms: u64,
    start_secs: u64,
    last_ms: u64,
}

impl View for MarkerApp {
    type V = SessionView;

    closed spec fn view(&self) -> SessionView {
        SessionView {
            running: self.running,
            markers: self.markers@,
            start_ms: self.start_ms as nat,
            start_secs: self.start_secs as nat,
            last_ms: self.last_ms as nat,
        }
    }
}

impl MarkerApp {
    /// The session's invariant.
    pub closed spec fn wf(&self) -> bool {
        session_ok(self@)
    }

    /// An idle session with no markers, its baselines at the given readings.
    pub fn new(now_ms: u64, now_secs: u64) -> (r: MarkerApp)
        ensures
            r.wf(),
            r@ == (SessionView {
                running: false,
                markers: Seq::empty(),
                start_ms: now_ms as nat,
                start_secs: now_secs as nat,
                last_ms: now_ms as nat,
            }),
    {
        MarkerApp {
            markers: MarkerStore::new(),
            running: false,
            start_ms: now_ms,
            start_secs: now_secs,
            last_ms: now_ms,
        }
    }

    /// Whether the session is recording.
    pub fn is_running(&self) -> (r: bool)
        ensures
            r == self@.running,
    {
        self.running
    }

    /// The latest monotonic reading the session has seen; `start` and
    /// `add_marker` take no earlier one.
    pub fn last_reading(&self) -> (r: u64)
        ensures
            r == self@.last_ms,
    {
        self.last_ms
    }

    /// Number of markers.
    pub fn len(&self) -> (r: usize)
        ensures
            r == self@.markers.len(),
    {
        self.markers.len()
    }

    /// The markers, read-only, in order.
    pub fn markers(&self) -> (r: &Vec<Marker>)
        ensures
            views(r@) == self@.markers,
    {
        self.markers.snapshot()
    }

    /// Starts recording: the markers are cleared and both baselines reset.
    /// Fails with `AlreadyRecording`, changing nothing, while recording.
    pub fn start(&mut self, now_ms: u64, now_secs: u64) -> (r: Result<(), SessionError>)
        requires
            old(self).wf(),
            now_ms >= old(self)@.last_ms,
        ensures
            final(self).wf(),
            final(self)@ == start_spec(old(self)@, now_ms as nat, now_secs as nat),
            r == if old(self)@.running {
                Err::<(), SessionError>(SessionError::AlreadyRecording)
            } else {
                Ok::<(), SessionError>(())
            },
    {
        if self.running {
            Err(SessionError::AlreadyRecording)
        } else {
            self.markers.clear();
            self.start_ms = now_ms;
            self.start_secs = now_secs;
            self.last_ms = now_ms;
            self.running = true;
            Ok(())
        }
    }

    /// Stops recording; the markers stay. Fails with `NotRecording`, changing
    /// nothing, while idle.
    pub fn stop(&mut self) -> (r: Result<(), SessionError>)
        requires
            old(self).wf(),
        ensures
            final(self).wf(),
            final(self)@ == stop_spec(old(self)@),
            r == if old(self)@.running {
                Ok::<(), SessionError>(())
            } else {
                Err::<(), SessionError>(SessionError::NotRecording)
            },
    {
        if !self.running {
            return Err(SessionError::NotRecording);
        }
        self.running = false;
        assert(self@.markers == old(self)@.markers);
        Ok(())
    }

    /// The text of the edit-list file for the current markers.
    pub fn encode(&self) -> (r: String)
        ensures
            r@ == edl_text(self@.markers),
    {
        encode(self.markers.snapshot())
    }

    /// The name of this session's edit-list file.
    pub fn file_name(&self) -> (r: String)
        ensures
            r@ == edl_file_name(self@.start_secs),
    {
        file_name(self.start_secs)
    }

    /// Handles a trigger. While recording, adds a marker named `Marker` at the
    /// time elapsed since the start and returns the new file text; while idle,
    /// changes nothing and returns `None`.
    pub fn add_marker(&mut self, now_ms: u64) -> (r: Option<String>)
        requires
            old(self).wf(),
            now_ms >= old(self)@.last_ms,
        ensures
            final(self).wf(),
            final(self)@ == trigger_spec(old(self)@, now_ms as nat),
            r is Some <==> old(self)@.running,
            r matches Some(t) ==> t@ == edl_text(final(self)@.markers),
    {
        if !self.running {
            return None;
        }
        let elapsed = now_ms - self.start_ms;
        self.markers.append(elapsed, String::from_str("Marker"));
        self.last_ms = now_ms;
        assert(self@.markers =~= trigger_spec(old(self)@, now_ms as nat).markers);
        assert(session_ok(self@)) by {
            let ms = self@.markers;
            assert forall|i: int| 0 <= i < ms.len() implies #[trigger] ms[i].time_ms
                + self@.start_ms <= self@.last_ms by {
                if i < ms.len() - 1 {
                    assert(ms[i] == old(self)@.markers[i]);
                }
            }
            assert forall|i: int, j: int| 0 <= i <= j < ms.len() implies #[trigger] ms[i].time_ms
                <= #[trigger] ms[j].time_ms by {
                if j < ms.len() - 1 {
                    assert(ms[i] == old(self)@.markers[i]);
                    assert(ms[j] == old(self)@.markers[j]);
                } else if i < ms.len() - 1 {
                    assert(ms[i] == old(self)@.markers[i]);
                    assert(old(self)@.markers[i].time_ms + old(self)@.start_ms <= old(self)@.last_ms);
                }
            }
        }
        Some(self.encode())
    }

    /// Renames the marker at 0-based `position` and returns the new file
    /// text; fails with `NotFound`, changing nothing, where no marker stands.
    pub fn rename(&mut self, position: usize, name: String) -> (r: Result<String, SessionError>)
        requires
            old(self).wf(),
        ensures
            final(self).wf(),
            final(self)@ == rename_spec(old(self)@, position as int, name@),
            position < old(self)@.markers.len() <==> r is Ok,
            r matches Ok(t) ==> t@ == edl_text(final(self)@.markers),
            position >= old(self)@.markers.len() ==> r == Err::<String, SessionError>(
                SessionError::NotFound,
            ),
    {
        let ghost name_view = name@;
        match self.markers.rename(position, name) {
            Ok(()) => {
                assert(session_ok(self@)) by {
                    let ms = self@.markers;
                    let om = old(self)@.markers;
                    assert forall|i: int| 0 <= i < ms.len() implies ms[i].time_ms == om[i].time_ms by {
                        if i == position as int {
                        } else {
                            assert(ms[i] == om[i]);
                        }
                    }
                    assert forall|i: int, j: int| 0 <= i <= j < ms.len() implies #[trigger] ms[i].time_ms
                        <= #[trigger] ms[j].time_ms by {
                        assert(ms[i].time_ms == om[i].time_ms);
                        assert(ms[j].time_ms == om[j].time_ms);
                    }
                    assert forall|i: int| 0 <= i < ms.len() implies #[trigger] ms[i].time_ms
                        + self@.start_ms <= self@.last_ms by {
                        assert(ms[i].time_ms == om[i].time_ms);
                    }
                }
                Ok(self.encode())
            },
            Err(_) => Err(SessionError::NotFound),
        }
    }

    /// The clock shown while the session runs: the timecode of the time
    /// elapsed since the start, or of zero while idle.
    pub fn display_timecode(&self, now_ms: u64) -> (r: String)
        ensures
            r@ == timecode(
                if self@.running && now_ms >= self@.start_ms {
                    (now_ms - self@.start_ms) as nat
                } else {
                    0
                },
            ),
    {
        if self.running && now_ms >= self.start_ms {
            to_timecode(now_ms - self.start_ms)
        } else {
            to_timecode(0)
        }
    }
}

} // verus!
