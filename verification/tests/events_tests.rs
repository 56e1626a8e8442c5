use bevy_granite::events::{
    queue_event_request, register_ui_callable_events_with_senders, send_queued_events, EventInfo, EventRequest,
    EventsTabData,
};

fn names(list: &[&str]) -> Vec<String> {
    list.iter().map(|s| s.to_string()).collect()
}

fn request(s: &str, e: &str) -> EventRequest {
    EventRequest { struct_name: s.to_string(), event_name: e.to_string() }
}

#[test]
fn registration_appends() {
    let mut registry: Vec<EventInfo<u32>> = Vec::new();
    register_ui_callable_events_with_senders(&mut registry, "Door".to_string(), names(&["open", "close"]), vec![10, 11]);
    assert_eq!(registry.len(), 1);
    assert_eq!(registry[0].struct_name, "Door");
    assert_eq!(registry[0].event_senders, vec![10, 11]);
}

#[test]
fn queued_requests_go_to_matching_senders() {
    let mut registry: Vec<EventInfo<u32>> = Vec::new();
    register_ui_callable_events_with_senders(&mut registry, "Door".to_string(), names(&["open", "close"]), vec![10, 11]);
    register_ui_callable_events_with_senders(&mut registry, "Lamp".to_string(), names(&["toggle"]), vec![20]);
    let mut queue = vec![request("Lamp", "toggle"), request("Door", "close"), request("Door", "jump"), request("Car", "open")];
    let sent = send_queued_events(&registry, &mut queue);
    assert_eq!(sent, vec![(1, 0), (0, 1)]);
    assert!(queue.is_empty());
}

#[test]
fn missing_sender_falls_through_to_later_struct() {
    let mut registry: Vec<EventInfo<u32>> = Vec::new();
    register_ui_callable_events_with_senders(&mut registry, "Door".to_string(), names(&["open"]), vec![]);
    register_ui_callable_events_with_senders(&mut registry, "Door".to_string(), names(&["open"]), vec![7]);
    let mut queue = vec![request("Door", "open")];
    assert_eq!(send_queued_events(&registry, &mut queue), vec![(1, 0)]);
}

#[test]
fn button_click_queues_request() {
    let mut queue = Vec::new();
    let mut data = EventsTabData { button_clicked: None };
    queue_event_request(&mut queue, &mut data, "Door", "open");
    assert_eq!(queue.len(), 1);
    assert_eq!(queue[0].struct_name, "Door");
    assert_eq!(queue[0].event_name, "open");
    assert_eq!(data.button_clicked, Some("open".to_string()));
}
