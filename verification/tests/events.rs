use mac_dock::compositor::{wm_event_from_hypr, WmEvent};
use mac_dock::events::{parse_event, EventBuffer, EventStep, HyprEvent};

#[test]
fn parse_active_window() {
    match parse_event("activewindowv2>>0x5678abcd") {
        HyprEvent::ActiveWindowV2(addr) => assert_eq!(addr, "0x5678abcd"),
        other => panic!("expected ActiveWindowV2, got {:?}", other),
    }
}

#[test]
fn parse_monitor_added() {
    assert!(matches!(
        parse_event("monitoraddedv2>>DP-1,1920x1080@60"),
        HyprEvent::MonitorChanged
    ));
}

#[test]
fn parse_monitor_removed() {
    assert!(matches!(
        parse_event("monitorremoved>>HDMI-A-1"),
        HyprEvent::MonitorChanged
    ));
}

#[test]
fn parse_other_event() {
    assert!(matches!(parse_event("workspace>>2"), HyprEvent::Other(_)));
}

#[test]
fn active_window_address_is_trimmed() {
    match parse_event("activewindowv2>>  0x1 ") {
        HyprEvent::ActiveWindowV2(addr) => assert_eq!(addr, "0x1"),
        other => panic!("unexpected {:?}", other),
    }
}

#[test]
fn buffer_reassembles_lines_across_chunks() {
    let mut b = EventBuffer::new();
    b.push_chunk("activewindowv2>>0x");
    assert!(matches!(b.next_step(), EventStep::NeedMore));
    b.push_chunk("12\n\nworkspace>>3\npart");
    match b.next_step() {
        EventStep::Event(HyprEvent::ActiveWindowV2(a)) => assert_eq!(a, "0x12"),
        _ => panic!("expected the active window"),
    }
    match b.next_step() {
        EventStep::Event(HyprEvent::Other(s)) => assert_eq!(s, "workspace>>3"),
        _ => panic!("expected another event"),
    }
    assert!(matches!(b.next_step(), EventStep::NeedMore));
    assert_eq!(b.remainder, "part");
}

#[test]
fn buffer_overflows_without_newline() {
    let mut b = EventBuffer::new();
    b.push_chunk(&"x".repeat(65537));
    assert!(matches!(b.next_step(), EventStep::Overflow));
    let mut b = EventBuffer::new();
    b.push_chunk(&"x".repeat(65536));
    assert!(matches!(b.next_step(), EventStep::NeedMore));
}

#[test]
fn hyprland_events_become_compositor_events() {
    match wm_event_from_hypr(HyprEvent::ActiveWindowV2("0x9".to_string())) {
        WmEvent::ActiveWindowChanged(a) => assert_eq!(a, "0x9"),
        _ => panic!(),
    }
    assert!(matches!(wm_event_from_hypr(HyprEvent::MonitorChanged), WmEvent::MonitorChanged));
}

fn drain(b: &mut EventBuffer, out: &mut Vec<String>) {
    while let EventStep::Event(e) = b.next_step() {
        out.push(format!("{:?}", e));
    }
}

#[test]
fn chunking_does_not_change_the_events() {
    let text = "activewindowv2>>0xab\nworkspace>>2\n\nmonitoraddedv2>>1,DP-2,x\nopenwindow>>z";
    let mut whole = EventBuffer::new();
    let mut at_once = Vec::new();
    whole.push_chunk(text);
    drain(&mut whole, &mut at_once);

    for cut in [1, 7, 16, 21, 22, 40, text.len() - 1] {
        let mut b = EventBuffer::new();
        let mut events = Vec::new();
        b.push_chunk(&text[..cut]);
        drain(&mut b, &mut events);
        b.push_chunk(&text[cut..]);
        drain(&mut b, &mut events);
        assert_eq!(events, at_once);
        assert_eq!(b.remainder, whole.remainder);
    }
    assert_eq!(at_once.len(), 3);
    assert_eq!(whole.remainder, "openwindow>>z");
}
