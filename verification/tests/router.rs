use scene_switch::router::{step, Event, State, BACKEND_NAME, DICT_NAME, SCENES_KEY};
use scene_switch::scenes::ClassifyError;

fn request(method: &str, path: &str) -> Event {
    Event::Request { method: method.to_string(), path: path.to_string() }
}

fn scene_list(raw: &str) -> Event {
    Event::SceneList { scenes: Some(raw.to_string()) }
}

/// Feeds the machine the events that its states await, in turn, and gives
/// the states it went through, the first one included.
fn run(method: &str, path: &str, scenes: Option<&str>) -> Vec<State> {
    let mut trace = vec![State::Received];
    let mut state = step(State::Received, &request(method, path));
    trace.push(state);
    loop {
        let event = match state {
            State::Received => panic!("the request was not taken"),
            State::SegmentCheck { .. } => {
                Event::SceneList { scenes: scenes.map(|raw| raw.to_string()) }
            }
            State::Diagnostic => Event::DiagnosticDone,
            State::Forward | State::Failed { .. } => return trace,
        };
        state = step(state, &event);
        trace.push(state);
    }
}

#[test]
fn cut_scene_request_is_forwarded_after_the_diagnostic() {
    assert_eq!(
        run("GET", "/videos/show_5.ts", Some("5,9")),
        vec![
            State::Received,
            State::SegmentCheck { segment: 5 },
            State::Diagnostic,
            State::Forward
        ]
    );
}

#[test]
fn other_segment_request_is_forwarded_without_diagnostic() {
    assert_eq!(
        run("GET", "/videos/show_5.ts", Some("1,2")),
        vec![State::Received, State::SegmentCheck { segment: 5 }, State::Forward]
    );
}

#[test]
fn non_get_request_bypasses_classification() {
    for method in ["POST", "HEAD", "PUT", "DELETE", "OPTIONS", "get", "Get", "", "GETS"] {
        assert_eq!(
            run(method, "/videos/show_5.ts", Some("5,9")),
            vec![State::Received, State::Forward],
            "method {:?}",
            method
        );
    }
}

#[test]
fn path_without_the_extension_bypasses_classification() {
    for path in ["/", "", "/index.html", "/videos/show_5.mp4", "/videos/show_5.ts/", "/a.TS", "ts"] {
        assert_eq!(
            run("GET", path, Some("5,9")),
            vec![State::Received, State::Forward],
            "path {:?}",
            path
        );
    }
}

#[test]
fn bypass_does_not_look_at_the_scene_list() {
    assert_eq!(run("POST", "/videos/show_5.ts", None), vec![State::Received, State::Forward]);
    assert_eq!(run("GET", "/index.html", Some("x")), vec![State::Received, State::Forward]);
}

#[test]
fn path_without_a_number_is_classified_as_segment_zero() {
    assert_eq!(
        step(State::Received, &request("GET", "/videos/intro.ts")),
        State::SegmentCheck { segment: 0 }
    );
    assert_eq!(
        run("GET", "/videos/intro.ts", Some("0,5")),
        vec![
            State::Received,
            State::SegmentCheck { segment: 0 },
            State::Diagnostic,
            State::Forward
        ]
    );
    assert_eq!(
        run("GET", ".ts", Some("5")),
        vec![State::Received, State::SegmentCheck { segment: 0 }, State::Forward]
    );
}

#[test]
fn malformed_scene_list_fails_the_request() {
    assert_eq!(
        run("GET", "/videos/show_5.ts", Some("5,x")),
        vec![
            State::Received,
            State::SegmentCheck { segment: 5 },
            State::Failed { error: ClassifyError::ParseFailure { token: 1 } }
        ]
    );
}

#[test]
fn missing_scene_list_fails_the_request() {
    assert_eq!(
        run("GET", "/videos/show_5.ts", None),
        vec![
            State::Received,
            State::SegmentCheck { segment: 5 },
            State::Failed { error: ClassifyError::KeyMissing }
        ]
    );
}

#[test]
fn final_states_ignore_every_event() {
    let finals = [
        State::Forward,
        State::Failed { error: ClassifyError::KeyMissing },
        State::Failed { error: ClassifyError::ParseFailure { token: 2 } },
    ];
    for state in finals {
        assert_eq!(step(state, &request("GET", "/videos/show_5.ts")), state);
        assert_eq!(step(state, &scene_list("5,9")), state);
        assert_eq!(step(state, &Event::SceneList { scenes: None }), state);
        assert_eq!(step(state, &Event::DiagnosticDone), state);
    }
}

#[test]
fn events_that_are_not_awaited_are_ignored() {
    assert_eq!(step(State::Received, &scene_list("5,9")), State::Received);
    assert_eq!(step(State::Received, &Event::DiagnosticDone), State::Received);
    let check = State::SegmentCheck { segment: 5 };
    assert_eq!(step(check, &request("GET", "/videos/show_9.ts")), check);
    assert_eq!(step(check, &Event::DiagnosticDone), check);
    assert_eq!(step(State::Diagnostic, &request("POST", "/")), State::Diagnostic);
    assert_eq!(step(State::Diagnostic, &scene_list("x")), State::Diagnostic);
}

#[test]
fn each_awaited_event_moves_one_state_on() {
    let check = State::SegmentCheck { segment: 9 };
    assert_eq!(step(check, &scene_list("5,9")), State::Diagnostic);
    assert_eq!(step(check, &scene_list("5")), State::Forward);
    assert_eq!(step(State::Diagnostic, &Event::DiagnosticDone), State::Forward);
}

#[test]
fn routing_is_repeatable() {
    assert_eq!(
        run("GET", "/videos/show_5.ts", Some("5,9")),
        run("GET", "/videos/show_5.ts", Some("5,9"))
    );
}

#[test]
fn names_of_backend_and_dictionary() {
    assert_eq!(BACKEND_NAME, "ShastaRain_backend");
    assert_eq!(DICT_NAME, "cut_scenes");
    assert_eq!(SCENES_KEY, "scenes");
}
