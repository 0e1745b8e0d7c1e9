use daytime::responder::{Action, Event, Failure, Phase, Responder, Transport};

fn bound(transport: Transport) -> Responder {
    let mut r = Responder::new(transport);
    assert!(matches!(r.step::<u32>(Event::Bound), Action::Wait));
    assert_eq!(r.phase, Phase::Serving);
    r
}

#[test]
fn new_responder_waits_for_its_socket() {
    let r = Responder::new(Transport::Udp);
    assert_eq!(r.transport, Transport::Udp);
    assert_eq!(r.phase, Phase::Binding);
}

#[test]
fn tcp_connection_gets_one_reply() {
    let mut r = bound(Transport::Tcp);
    assert!(matches!(r.step(Event::Arrived(7u32)), Action::Reply(7)));
    assert_eq!(r.phase, Phase::Serving);
}

#[test]
fn empty_udp_datagram_gets_one_reply_to_its_source() {
    let mut r = bound(Transport::Udp);
    let source = ("127.0.0.1", 40000u16);
    match r.step(Event::Arrived(source)) {
        Action::Reply(to) => assert_eq!(to, source),
        _ => panic!("expected a reply"),
    }
    assert_eq!(r.phase, Phase::Serving);
}

#[test]
fn hundred_connections_get_hundred_replies_in_order() {
    let mut r = bound(Transport::Tcp);
    let mut replied: Vec<u32> = Vec::new();
    for peer in 0..100u32 {
        match r.step(Event::Arrived(peer)) {
            Action::Reply(to) => replied.push(to),
            _ => panic!("expected a reply"),
        }
    }
    assert_eq!(replied, (0..100u32).collect::<Vec<u32>>());
    assert_eq!(r.phase, Phase::Serving);
}

#[test]
fn failed_accept_is_logged_and_serving_goes_on() {
    let mut r = bound(Transport::Tcp);
    assert!(matches!(r.step::<u32>(Event::SourceFailed), Action::LogAndContinue));
    assert_eq!(r.phase, Phase::Serving);
    assert!(matches!(r.step(Event::Arrived(3u32)), Action::Reply(3)));
}

#[test]
fn ended_listener_stops_tcp_responder() {
    let mut r = bound(Transport::Tcp);
    assert!(matches!(r.step::<u32>(Event::SourceEnded), Action::Exit(Failure::Listener)));
    assert_eq!(r.phase, Phase::Stopped);
}

#[test]
fn failed_receive_stops_udp_responder() {
    let mut r = bound(Transport::Udp);
    assert!(matches!(r.step::<u32>(Event::SourceFailed), Action::Exit(Failure::Receive)));
    assert_eq!(r.phase, Phase::Stopped);
    assert!(matches!(r.step(Event::Arrived(1u32)), Action::Wait));
}

#[test]
fn address_in_use_fails_bind_and_serves_nothing() {
    for transport in [Transport::Tcp, Transport::Udp] {
        let mut r = Responder::new(transport);
        assert!(matches!(r.step::<u32>(Event::BindFailed), Action::Exit(Failure::Bind)));
        assert_eq!(r.phase, Phase::Stopped);
        assert!(matches!(r.step(Event::Arrived(1u32)), Action::Wait));
        assert!(matches!(r.step::<u32>(Event::Bound), Action::Wait));
        assert_eq!(r.phase, Phase::Stopped);
    }
}

#[test]
fn nothing_is_served_before_binding() {
    let mut r = Responder::new(Transport::Tcp);
    assert!(matches!(r.step(Event::Arrived(1u32)), Action::Wait));
    assert_eq!(r.phase, Phase::Binding);
}
