use wam_relay::hub::{handle_inbound, BroadcastHub, InboundDisposition, InboundFrame};
use wam_relay::wire::broadcast_message;

#[test]
fn register_assigns_unique_increasing_ids() {
    let mut hub = BroadcastHub::new(16);
    let mut ids = Vec::new();
    for _ in 0..5 {
        ids.push(hub.register());
    }
    for w in ids.windows(2) {
        assert!(w[0] < w[1]);
    }
    // An id freed by deregister is never handed out again.
    hub.deregister(ids[2]);
    let fresh = hub.register();
    assert!(ids.iter().all(|&old| fresh > old));
}

#[test]
fn publish_fans_out_one_copy_to_each_in_order() {
    let mut hub = BroadcastHub::new(16);
    let a = hub.register();
    let b = hub.register();
    let c = hub.register();
    hub.publish(&String::from("first"));
    hub.publish(&String::from("second"));
    for id in [a, b, c] {
        let frames = hub.drain(id).expect("registered subscriber");
        assert_eq!(frames, vec![String::from("first"), String::from("second")]);
    }
    // Exactly one copy each: draining again finds nothing new.
    for id in [a, b, c] {
        assert_eq!(hub.drain(id).unwrap().len(), 0);
    }
}

#[test]
fn slow_subscriber_does_not_stop_delivery_to_others() {
    let mut hub = BroadcastHub::new(2);
    let slow = hub.register();
    let fast = hub.register();
    // The slow subscriber never reads: fill it to the lag bound.
    hub.publish(&String::from("m1"));
    hub.publish(&String::from("m2"));
    let _ = hub.drain(fast).unwrap();
    // A further publish still reaches the reader; the slow one is marked
    // lagged instead of receiving a backfill.
    hub.publish(&String::from("m3"));
    assert_eq!(hub.drain(fast).unwrap(), vec![String::from("m3")]);
    let slow_frames = hub.drain(slow).unwrap();
    assert_eq!(slow_frames, vec![String::from("m1"), String::from("m2")]);
    assert!(hub.conns.iter().find(|c| c.id == slow).unwrap().lagged);
    assert!(!hub.conns.iter().find(|c| c.id == fast).unwrap().lagged);
}

#[test]
fn deregister_is_idempotent_and_isolated() {
    let mut hub = BroadcastHub::new(4);
    let a = hub.register();
    let b = hub.register();
    hub.deregister(a);
    hub.deregister(a);
    assert_eq!(hub.conns.len(), 1);
    hub.publish(&String::from("still delivered"));
    assert_eq!(hub.drain(b).unwrap().len(), 1);
    assert!(hub.drain(a).is_none());
}

#[test]
fn relayed_text_reaches_all_subscribers_including_sender() {
    let mut hub = BroadcastHub::new(8);
    let one = hub.register();
    let two = hub.register();
    let d = handle_inbound(&mut hub, one, &InboundFrame::Text(String::from("hello")));
    assert_eq!(d, InboundDisposition::Relayed);
    for id in [one, two] {
        let frames = hub.drain(id).unwrap();
        assert_eq!(frames.len(), 1);
        assert!(frames[0].contains("hello"));
    }
}

#[test]
fn binary_frames_are_ignored_and_close_deregisters() {
    let mut hub = BroadcastHub::new(8);
    let one = hub.register();
    let two = hub.register();
    let d = handle_inbound(&mut hub, one, &InboundFrame::Binary(vec![1, 2, 3]));
    assert_eq!(d, InboundDisposition::Ignored);
    assert_eq!(hub.conns.len(), 2);
    let d = handle_inbound(&mut hub, one, &InboundFrame::Close);
    assert_eq!(d, InboundDisposition::ConnectionClosed);
    assert_eq!(hub.conns.len(), 1);
    assert_eq!(hub.conns[0].id, two);
}

#[test]
fn broadcast_message_delivers_the_frame_to_everyone() {
    let mut hub = BroadcastHub::new(8);
    let a = hub.register();
    let b = hub.register();
    broadcast_message(&mut hub, "sytral", "[{\"line\":\"T1\"}]");
    let expected = String::from("{\"msg_type\":\"sytral\",\"message\":[{\"line\":\"T1\"}]}");
    assert_eq!(hub.drain(a).unwrap(), vec![expected.clone()]);
    assert_eq!(hub.drain(b).unwrap(), vec![expected]);
}
