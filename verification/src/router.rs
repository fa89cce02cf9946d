//! The route of one request, as a state machine.
//!
//! The caller performs the work that each state awaits and hands in the
//! outcome as an event; [`step`] decides what comes next. The machine never
//! touches the request itself: whatever the route, the request that is
//! forwarded is the one that was received.
//!
//! | state          | the caller's work                | event            |
//! |----------------|----------------------------------|------------------|
//! | `Received`     | read the request line            | `Request`        |
//! | `SegmentCheck` | fetch the scene list             | `SceneList`      |
//! | `Diagnostic`   | emit the geolocation diagnostic  | `DiagnosticDone` |
//! | `Forward`      | send the request to the backend  | none: final      |
//! | `Failed`       | answer with a server error       | none: final      |

use vstd::prelude::*;
use crate::scenes::{cut_scene, is_segment_cut_scene, ClassifyError};
use crate::segment::{
    ends_in_segment_extension, has_segment_extension, segment_num_of_chars, segment_number,
};
use crate::text::chars_of;

verus! {

/// The backend to which every request is forwarded.
pub const BACKEND_NAME: &'static str = "ShastaRain_backend";

/// The configuration dictionary that holds the scene list.
pub const DICT_NAME: &'static str = "cut_scenes";

/// The key of the scene list in that dictionary.
pub const SCENES_KEY: &'static str = "scenes";

/// Where the route of a request stands.
#[derive(Debug, Clone, Copy, PartialEq, Eq, Structural)]
pub enum State {
    /// The request has arrived and nothing is decided yet.
    Received,
    /// The request asks for a segment; its number is to be classified.
    SegmentCheck { segment: u32 },
    /// The segment is a cut scene; the diagnostic is due before forwarding.
    Diagnostic,
    /// The request goes to the backend, unchanged.
    Forward,
    /// The request cannot be routed.
    Failed { error: ClassifyError },
}

/// What the caller hands to the machine.
#[derive(Debug, PartialEq, Eq)]
pub enum Event {
    /// The method and the path of the request.
    Request { method: String, path: String },
    /// The scene list as the configuration holds it, `None` where it holds
    /// none.
    SceneList { scenes: Option<String> },
    /// The diagnostic has been emitted, or given up.
    DiagnosticDone,
}

/// The method is `GET`, in capitals.
pub open spec fn is_get(method: Seq<char>) -> bool {
    method == seq!['G', 'E', 'T']
}

/// The segment number under which a path is classified: the one it names,
/// and zero where it names none.
pub open spec fn classified_segment(path: Seq<char>) -> u32 {
    match segment_number(path) {
        Some(number) => number,
        None => 0,
    }
}

/// The state that follows `Received` for a request with this method and
/// path.
pub open spec fn after_request(method: Seq<char>, path: Seq<char>) -> State {
    if is_get(method) && has_segment_extension(path) {
        State::SegmentCheck { segment: classified_segment(path) }
    } else {
        State::Forward
    }
}

/// The state that follows `SegmentCheck` for this segment and scene list.
pub open spec fn after_scene_list(segment: u32, scenes: Option<Seq<char>>) -> State {
    match cut_scene(segment, scenes) {
        Ok(true) => State::Diagnostic,
        Ok(false) => State::Forward,
        Err(error) => State::Failed { error },
    }
}

/// The scene list that an event carries, as characters.
pub open spec fn scenes_view(scenes: Option<String>) -> Option<Seq<char>> {
    match scenes {
        Some(raw) => Some(raw@),
        None => None,
    }
}

/// The state that follows `state` on `event`. An event that the state does
/// not await leaves it as it is; so does every event in a final state.
pub open spec fn next_state(state: State, event: Event) -> State {
    match (state, event) {
        (State::Received, Event::Request { method, path }) => after_request(method@, path@),
        (State::SegmentCheck { segment }, Event::SceneList { scenes }) => after_scene_list(
            segment,
            scenes_view(scenes),
        ),
        (State::Diagnostic, Event::DiagnosticDone) => State::Forward,
        _ => state,
    }
}

/// The state is final: the route is decided.
pub open spec fn is_final(state: State) -> bool {
    state is Forward || state is Failed
}

/// The state in which a request ends whose method, path and scene list are
/// these, when every awaited event is handed in, in turn.
pub open spec fn route(method: String, path: String, scenes: Option<String>) -> State {
    let checked = next_state(State::Received, Event::Request { method, path });
    let classified = next_state(checked, Event::SceneList { scenes });
    next_state(classified, Event::DiagnosticDone)
}

/// A request that is no `GET`, or whose path does not end in the segment
/// extension, is forwarded at once: no scene list is asked for and nothing
/// is classified.
pub proof fn other_requests_bypass_classification(method: String, path: String)
    requires
        !is_get(method@) || !has_segment_extension(path@),
    ensures
        next_state(State::Received, Event::Request { method, path }) == State::Forward,
{
}

/// A `GET` request for a path with the segment extension is classified
/// under the number that the path names, or under zero.
pub proof fn segment_requests_are_classified(method: String, path: String)
    requires
        is_get(method@),
        has_segment_extension(path@),
    ensures
        next_state(State::Received, Event::Request { method, path }) == (State::SegmentCheck {
            segment: classified_segment(path@),
        }),
{
}

/// A final state is left by no event.
pub proof fn final_states_stay(state: State, event: Event)
    requires
        is_final(state),
    ensures
        next_state(state, event) == state,
{
}

/// Every route ends, after three events at most, in a final state. It ends
/// in `Forward` unless the request asked for a segment and the scene list
/// could not be read; then it ends in `Failed`, with the reason.
pub proof fn every_route_ends(method: String, path: String, scenes: Option<String>)
    ensures
        is_final(route(method, path, scenes)),
        route(method, path, scenes) is Failed <==> is_get(method@) && has_segment_extension(path@)
            && cut_scene(classified_segment(path@), scenes_view(scenes)) is Err,
        route(method, path, scenes) matches State::Failed { error } ==> cut_scene(
            classified_segment(path@),
            scenes_view(scenes),
        ) == Err::<bool, ClassifyError>(error),
{
}

/// The diagnostic is due on a route exactly when the request asked for a
/// segment that the scene list holds.
pub proof fn diagnostic_only_for_cut_scenes(method: String, path: String, scenes: Option<String>)
    ensures
        next_state(
            next_state(State::Received, Event::Request { method, path }),
            Event::SceneList { scenes },
        ) is Diagnostic <==> is_get(method@) && has_segment_extension(path@) && cut_scene(
            classified_segment(path@),
            scenes_view(scenes),
        ) == Ok::<bool, ClassifyError>(true),
{
}

/// Decides what follows the arrival of a request.
fn dispatch(method: &str, path: &str) -> (next: State)
    ensures
        next == after_request(method@, path@),
{
    let m = chars_of(method);
    if m.len() != 3 || m[0] != 'G' || m[1] != 'E' || m[2] != 'T' {
        return State::Forward;
    }
    assert(method@ == seq!['G', 'E', 'T']);
    let p = chars_of(path);
    if !ends_in_segment_extension(&p) {
        return State::Forward;
    }
    let segment = match segment_num_of_chars(&p) {
        Some(number) => number,
        None => 0,
    };
    State::SegmentCheck { segment }
}

/// Decides what follows the arrival of the scene list.
fn classify(segment: u32, scenes: &Option<String>) -> (next: State)
    ensures
        next == after_scene_list(segment, scenes_view(*scenes)),
{
    let raw: Option<&str> = match scenes {
        Some(raw) => Some(raw.as_str()),
        None => None,
    };
    match is_segment_cut_scene(segment, raw) {
        Ok(true) => State::Diagnostic,
        Ok(false) => State::Forward,
        Err(error) => State::Failed { error },
    }
}

/// Moves the route on by one event.
pub fn step(state: State, event: &Event) -> (next: State)
    ensures
        next == next_state(state, *event),
{
    match state {
        State::Received => match event {
            Event::Request { method, path } => dispatch(method.as_str(), path.as_str()),
            _ => state,
        },
        State::SegmentCheck { segment } => match event {
            Event::SceneList { scenes } => classify(segment, scenes),
            _ => state,
        },
        State::Diagnostic => match event {
            Event::DiagnosticDone => State::Forward,
            _ => state,
        },
        _ => state,
    }
}

} // verus!
