use remote_logger::address::{IpAddr, PeerAddr, SocketAddr};
use remote_logger::io_error::{ErrorKind, IoError};
use remote_logger::monitor::accept::{
    listen, AcceptProgress, AcceptStep, Arrival, ListenerAction, ListenerEvent,
    UpdateStreamsError, READ_TIMEOUT_MILLIS,
};
use remote_logger::monitor::metadata::ConnectionMetadata;
use remote_logger::monitor::report::{closed_line, opened_line};
use remote_logger::monitor::slots::ConnectionId;
use remote_logger::monitor::{NextStep, Polled, ReadFromStreamError, RemoteMonitor};
use remote_logger::protocol::{
    Header, HeaderMessagePart, MessageError, MessagePart, TryReceiveMessageError,
};

fn error() -> IoError {
    IoError { kind: ErrorKind::Other, message: "it broke".to_string() }
}

fn v4(ip: u32, port: u16) -> PeerAddr {
    PeerAddr { addr: SocketAddr::new(IpAddr::V4(ip), port), ip_text: String::new() }
}

fn local(port: u16) -> PeerAddr {
    v4(0x7f00_0001, port)
}

fn metadata(addr: PeerAddr, name: Option<&str>, name_unique: bool) -> ConnectionMetadata {
    ConnectionMetadata { addr, name: name.map(|name| name.to_string()), name_unique }
}

fn open(monitor: &mut RemoteMonitor, port: u16, name: &str) -> ConnectionId {
    let header = Header { name: name.to_string() };
    match monitor.receive_connections(AcceptProgress::HeaderReceived(
        vec![],
        local(port),
        Ok(header),
    )) {
        AcceptStep::Keep(_, id) => id,
        step => panic!("{:?}", step),
    }
}

fn poll_all(
    monitor: &mut RemoteMonitor,
    polled: fn(usize) -> Polled,
) -> (
    Vec<ConnectionId>,
    Result<Option<(ConnectionId, String)>, ReadFromStreamError>,
    Vec<ConnectionId>,
) {
    let mut asked = Vec::new();
    let mut step = monitor.next_message();
    loop {
        match step {
            NextStep::Poll(id) => {
                assert!(monitor.is_polling());
                asked.push(id);
                step = monitor.message_tick(polled(asked.len() - 1));
            }
            NextStep::Done { next, removed } => {
                assert!(!monitor.is_polling());
                return (asked, next, removed);
            }
        }
    }
}

fn closed() -> Polled {
    Err(TryReceiveMessageError::Closed)
}

#[test]
fn addresses_are_written_out() {
    assert_eq!(v4(0x0102_03ff, 80).text(), "1.2.3.255:80");
    assert_eq!(v4(0, 0).text(), "0.0.0.0:0");
    let v6 = |scope_id| PeerAddr {
        addr: SocketAddr::V6 { ip: 1, port: 443, flowinfo: 0, scope_id },
        ip_text: "::1".to_string(),
    };
    assert_eq!(v6(0).text(), "[::1]:443");
    assert_eq!(v6(7).text(), "[::1%7]:443");
}

#[test]
fn the_largest_address_is_written_out() {
    assert_eq!(v4(0xffff_ffff, u16::MAX).text(), "255.255.255.255:65535");
    assert_eq!(v4(0x7f00_0001, 50_033).text(), "127.0.0.1:50033");
}

#[test]
fn connections_are_shown_by_name_or_origin() {
    assert_eq!(metadata(local(1), Some("me"), true).unique_string(), "~me");
    assert_eq!(metadata(local(1), Some("me"), false).unique_string(), ":1~me");
    assert_eq!(metadata(v4(0x0102_0304, 5), Some("me"), false).unique_string(), "1.2.3.4:5~me");
    assert_eq!(metadata(v4(0x0102_0304, 5), Some("me"), true).unique_string(), "~me");
    assert_eq!(metadata(local(1), None, false).unique_string(), ":1");
    assert_eq!(metadata(v4(0x0102_0304, 5), None, false).unique_string(), "1.2.3.4:5");
}

#[test]
fn a_localhost_in_ipv6_is_written_out() {
    let addr = PeerAddr {
        addr: SocketAddr::localhost_v6(8),
        ip_text: "::1".to_string(),
    };
    assert_eq!(metadata(addr, None, false).unique_string(), "[::1]:8");
}

#[test]
fn the_listener_runs_until_nobody_takes_its_connections() {
    assert_eq!(listen(ListenerEvent::Started), ListenerAction::Accept);
    assert_eq!(listen(ListenerEvent::AcceptFailed), ListenerAction::Accept);
    assert_eq!(listen(ListenerEvent::Accepted), ListenerAction::HandOver);
    assert_eq!(listen(ListenerEvent::HandedOver), ListenerAction::Accept);
    assert_eq!(listen(ListenerEvent::ReceiverGone), ListenerAction::Stop);
}

#[test]
fn a_connection_is_taken_up_step_by_step() {
    let mut monitor = RemoteMonitor::new();
    assert_eq!(
        monitor.receive_connections(AcceptProgress::Started),
        AcceptStep::TryAccept(vec![])
    );
    assert_eq!(
        monitor.receive_connections(AcceptProgress::Arrived(
            vec![],
            Arrival::Connection(local(1))
        )),
        AcceptStep::SetReadTimeout(vec![], local(1), 2)
    );
    assert_eq!(READ_TIMEOUT_MILLIS, 2);
    assert_eq!(
        monitor.receive_connections(AcceptProgress::TimeoutSet(vec![], local(1), Ok(()))),
        AcceptStep::ReceiveHeader(vec![], local(1))
    );
    assert_eq!(monitor.num_connections(), 0);
    let header = Header { name: "me".to_string() };
    match monitor.receive_connections(AcceptProgress::HeaderReceived(
        vec![],
        local(1),
        Ok(header),
    )) {
        AcceptStep::Keep(opened, id) => {
            assert_eq!(opened, vec![metadata(local(1), Some("me"), false)]);
            assert!(monitor.is_open(id));
            assert_eq!(monitor.connection_info(id), &metadata(local(1), Some("me"), false));
            assert_eq!(monitor.num_connections(), 1);
            assert_eq!(
                monitor.receive_connections(AcceptProgress::Kept(opened.clone())),
                AcceptStep::TryAccept(opened)
            );
        }
        step => panic!("{:?}", step),
    }
    let opened = || vec![metadata(local(1), Some("me"), false)];
    assert_eq!(
        monitor.receive_connections(AcceptProgress::Arrived(opened(), Arrival::Empty)),
        AcceptStep::Done(Ok(opened()))
    );
}

#[test]
fn a_lost_listener_is_reported_when_nothing_was_taken_up() {
    let mut monitor = RemoteMonitor::new();
    assert_eq!(
        monitor.receive_connections(AcceptProgress::Arrived(vec![], Arrival::Disconnected)),
        AcceptStep::Done(Err(UpdateStreamsError::Disconnected))
    );
    let opened = || vec![metadata(local(1), None, false)];
    assert_eq!(
        monitor.receive_connections(AcceptProgress::Arrived(opened(), Arrival::Disconnected)),
        AcceptStep::Done(Ok(opened()))
    );
    assert_eq!(
        monitor.receive_connections(AcceptProgress::Arrived(vec![], Arrival::Empty)),
        AcceptStep::Done(Ok(vec![]))
    );
}

#[test]
fn taking_up_a_connection_may_fail() {
    let mut monitor = RemoteMonitor::new();
    open(&mut monitor, 1, "kept");
    assert_eq!(
        monitor.receive_connections(AcceptProgress::TimeoutSet(vec![], local(2), Err(error()))),
        AcceptStep::Done(Err(UpdateStreamsError::SetTimeout(local(2), error())))
    );
    let failed = || MessageError(HeaderMessagePart::Name(MessagePart::Body), error());
    assert_eq!(
        monitor.receive_connections(AcceptProgress::HeaderReceived(
            vec![],
            local(2),
            Err(failed())
        )),
        AcceptStep::Done(Err(UpdateStreamsError::ReceiveHeader(local(2), failed())))
    );
    assert_eq!(monitor.num_connections(), 1);
}

#[test]
fn an_empty_name_stands_for_none() {
    let mut monitor = RemoteMonitor::new();
    let one = open(&mut monitor, 1, "");
    let other = open(&mut monitor, 2, "");
    assert_eq!(monitor.connection_info(one), &metadata(local(1), None, false));
    assert_eq!(monitor.connection_info(other), &metadata(local(2), None, false));
}

#[test]
fn a_name_that_is_taken_is_marked() {
    let mut monitor = RemoteMonitor::new();
    let first = open(&mut monitor, 1, "me");
    let second = open(&mut monitor, 2, "me");
    let third = open(&mut monitor, 3, "you");
    assert_eq!(monitor.connection_info(first), &metadata(local(1), Some("me"), false));
    assert_eq!(monitor.connection_info(second), &metadata(local(2), Some("me"), true));
    assert_eq!(monitor.connection_info(third), &metadata(local(3), Some("you"), false));
}

#[test]
fn connections_have_identifiers_of_their_own() {
    let mut monitor = RemoteMonitor::new();
    let one = open(&mut monitor, 1, "");
    let other = open(&mut monitor, 2, "");
    assert_ne!(one, other);
    assert!(monitor.is_open(one) && monitor.is_open(other));
}

#[test]
fn a_monitor_without_connections_has_no_message() {
    let mut monitor = RemoteMonitor::new();
    let (asked, next, removed) = poll_all(&mut monitor, |_| closed());
    assert!(asked.is_empty() && removed.is_empty());
    assert_eq!(next, Ok(None));
}

#[test]
fn every_connection_is_polled_once() {
    let mut monitor = RemoteMonitor::new();
    let one = open(&mut monitor, 1, "");
    let two = open(&mut monitor, 2, "");
    let (asked, next, removed) = poll_all(&mut monitor, |_| Ok(None));
    assert_eq!(asked, vec![one, two]);
    assert_eq!(next, Ok(None));
    assert!(removed.is_empty());
}

#[test]
fn messages_are_handed_out_in_the_order_of_the_connections() {
    let mut monitor = RemoteMonitor::new();
    let one = open(&mut monitor, 1, "");
    let two = open(&mut monitor, 2, "");
    let (asked, next, _) = poll_all(&mut monitor, |at| {
        Ok(Some(if at == 0 { "für eins".as_bytes().to_vec() } else { b"two".to_vec() }))
    });
    assert_eq!(asked, vec![one, two]);
    assert_eq!(next, Ok(Some((one, "für eins".to_string()))));
    let (asked, next, _) = poll_all(&mut monitor, |_| closed());
    assert!(asked.is_empty());
    assert_eq!(next, Ok(Some((two, "two".to_string()))));
    let (asked, next, _) = poll_all(&mut monitor, |_| Ok(None));
    assert_eq!(asked, vec![one, two]);
    assert_eq!(next, Ok(None));
}

#[test]
fn an_invalid_message_is_read_with_replacements() {
    let mut monitor = RemoteMonitor::new();
    let id = open(&mut monitor, 1, "");
    let (_, next, _) = poll_all(&mut monitor, |_| Ok(Some(vec![b'a', 0xff, b'b'])));
    assert_eq!(next, Ok(Some((id, "a\u{fffd}b".to_string()))));
}

#[test]
fn closed_connections_are_taken_out_and_told_of_once() {
    let mut monitor = RemoteMonitor::new();
    let one = open(&mut monitor, 1, "");
    let two = open(&mut monitor, 2, "");
    let three = open(&mut monitor, 3, "");
    let (asked, next, removed) = poll_all(&mut monitor, |at| {
        if at == 1 {
            Ok(Some(b"still here".to_vec()))
        } else {
            closed()
        }
    });
    assert_eq!(asked, vec![one, two, three]);
    assert_eq!(next, Ok(Some((two, "still here".to_string()))));
    assert_eq!(removed, vec![three, one]);
    assert_eq!(monitor.num_connections(), 1);
    assert!(!monitor.is_open(one) && monitor.is_open(two) && !monitor.is_open(three));
    assert_eq!(monitor.connection_info(two), &metadata(local(2), None, false));
    assert_eq!(
        monitor.closed_connections(),
        vec![metadata(local(3), None, false), metadata(local(1), None, false)]
    );
    assert!(monitor.closed_connections().is_empty());
}

#[test]
fn the_last_connection_takes_the_place_of_one_that_was_closed() {
    let mut monitor = RemoteMonitor::new();
    let one = open(&mut monitor, 1, "");
    let two = open(&mut monitor, 2, "");
    let three = open(&mut monitor, 3, "");
    poll_all(&mut monitor, |at| if at == 0 { closed() } else { Ok(None) });
    let four = open(&mut monitor, 4, "");
    assert_ne!(four, one);
    let (asked, _, _) = poll_all(&mut monitor, |_| Ok(None));
    assert_eq!(asked, vec![three, two, four]);
}

#[test]
fn closed_connections_are_taken_out_by_slot_from_high_to_low() {
    let mut monitor = RemoteMonitor::new();
    let one = open(&mut monitor, 1, "");
    let two = open(&mut monitor, 2, "");
    poll_all(&mut monitor, |at| if at == 0 { closed() } else { Ok(None) });
    let again = open(&mut monitor, 3, "");
    assert_ne!(again, one);
    let (asked, _, removed) = poll_all(&mut monitor, |_| closed());
    assert_eq!(asked, vec![two, again]);
    assert_eq!(removed, vec![two, again]);
}

#[test]
fn a_failure_ends_the_round() {
    let mut monitor = RemoteMonitor::new();
    let one = open(&mut monitor, 1, "");
    let two = open(&mut monitor, 2, "");
    let three = open(&mut monitor, 3, "");
    let (asked, next, removed) = poll_all(&mut monitor, |at| match at {
        0 => Ok(Some(b"kept".to_vec())),
        1 => Err(TryReceiveMessageError::Peek(error())),
        _ => closed(),
    });
    assert_eq!(asked, vec![one, two]);
    assert_eq!(next, Err(ReadFromStreamError::Peek(two, error())));
    assert!(removed.is_empty());
    assert!(monitor.is_open(three));
    let (asked, next, _) = poll_all(&mut monitor, |_| closed());
    assert!(asked.is_empty());
    assert_eq!(next, Ok(Some((one, "kept".to_string()))));
}

#[test]
fn a_connection_found_closed_ahead_of_a_failure_stays_open() {
    let mut monitor = RemoteMonitor::new();
    let one = open(&mut monitor, 1, "");
    let two = open(&mut monitor, 2, "");
    let failed = || MessageError(MessagePart::Body, error());
    let (_, next, removed) = poll_all(&mut monitor, |at| {
        if at == 0 {
            closed()
        } else {
            Err(TryReceiveMessageError::Receive(MessageError(MessagePart::Body, error())))
        }
    });
    assert_eq!(next, Err(ReadFromStreamError::Receive(two, failed())));
    assert!(removed.is_empty());
    assert!(monitor.is_open(one));
    assert!(monitor.closed_connections().is_empty());
}

#[test]
fn the_report_says_what_happened() {
    let mut monitor = RemoteMonitor::new();
    let id = open(&mut monitor, 7, "me");
    assert_eq!(opened_line(monitor.connection_info(id)), "new connection from :7~me");
    assert_eq!(closed_line(monitor.connection_info(id)), "connection from :7~me was closed");
    assert_eq!(monitor.message_line(true, id, "hello"), "> hello");
    assert_eq!(monitor.message_line(false, id, "hello"), ":7~me> hello");
}

#[test]
fn later_holders_of_a_name_are_shown_alike() {
    let mut monitor = RemoteMonitor::new();
    let first = open(&mut monitor, 1, "me");
    let second = open(&mut monitor, 2, "me");
    let third = open(&mut monitor, 3, "me");
    assert_eq!(monitor.connection_info(first).unique_string(), ":1~me");
    assert_eq!(monitor.connection_info(second).unique_string(), "~me");
    assert_eq!(monitor.connection_info(third).unique_string(), "~me");
}

#[test]
fn connections_without_a_message_are_passed_over() {
    let mut monitor = RemoteMonitor::new();
    let one = open(&mut monitor, 1, "");
    let two = open(&mut monitor, 2, "");
    let three = open(&mut monitor, 3, "");
    let (asked, next, _) = poll_all(&mut monitor, |at| match at {
        0 => Ok(Some(b"first".to_vec())),
        1 => Ok(None),
        _ => Ok(Some(b"second".to_vec())),
    });
    assert_eq!(asked, vec![one, two, three]);
    assert_eq!(next, Ok(Some((one, "first".to_string()))));
    let (asked, next, _) = poll_all(&mut monitor, |_| Ok(None));
    assert!(asked.is_empty());
    assert_eq!(next, Ok(Some((three, "second".to_string()))));
    let (asked, next, _) = poll_all(&mut monitor, |_| Ok(None));
    assert_eq!(asked, vec![one, two, three]);
    assert_eq!(next, Ok(None));
}
