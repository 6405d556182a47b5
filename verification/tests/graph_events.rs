use soundsync::audio::pw::events::{parse_pactl_event, GraphEvent};

#[test]
fn parses_sink_and_server_events() {
    assert_eq!(
        parse_pactl_event("Event 'change' on sink #42"),
        Some(GraphEvent::Sink)
    );
    assert_eq!(
        parse_pactl_event("Event 'remove' on sink #42"),
        Some(GraphEvent::Sink)
    );
    assert_eq!(
        parse_pactl_event("Event 'new' on sink #7"),
        Some(GraphEvent::Sink)
    );
    assert_eq!(
        parse_pactl_event("Event 'change' on server"),
        Some(GraphEvent::Server)
    );
    assert_eq!(
        parse_pactl_event("Event 'change' on sink"),
        Some(GraphEvent::Sink)
    );
}

#[test]
fn ignores_irrelevant_events() {
    assert_eq!(parse_pactl_event("Event 'new' on sink-input #10"), None);
    assert_eq!(parse_pactl_event("Event 'change' on source #3"), None);
    assert_eq!(parse_pactl_event("Event 'new' on client #99"), None);
    assert_eq!(parse_pactl_event("garbage line"), None);
    assert_eq!(parse_pactl_event(""), None);
}

#[test]
fn stdout_lines_become_graph_events() {
    let stdout = "Event 'change' on sink #42\nEvent 'new' on sink-input #10\nEvent 'change' on server\n";
    let events: Vec<GraphEvent> = stdout.lines().filter_map(parse_pactl_event).collect();
    assert_eq!(events, vec![GraphEvent::Sink, GraphEvent::Server]);
}

#[test]
fn the_target_is_what_follows_the_first_on() {
    assert_eq!(parse_pactl_event("  Event 'on on' on sink #1  "), None);
    assert_eq!(parse_pactl_event("Event 'remove' on  server "), Some(GraphEvent::Server));
    assert_eq!(parse_pactl_event("event 'change' on server"), None);
}
