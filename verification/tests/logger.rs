use remote_logger::address::{IpAddr, SocketAddr, LOCALHOST_V4, LOCALHOST_V6};
use remote_logger::frame::LengthWidth;
use remote_logger::io_error::{ErrorKind, IoError};
use remote_logger::level::{Level, LevelFilter};
use remote_logger::logger::connect::{ConnectProgress, ConnectStep};
use remote_logger::logger::delivery::{Cursor, Delivery, LogProgress, LogStep};
use remote_logger::logger::message::{format_message, format_message_at, Metadata, Record};
use remote_logger::logger::overrides::{find_filter, find_most_permissive, sort_overrides};
use remote_logger::logger::{
    initialized, ConnectError, InitLoggerError, LogFailureStrategy, LoggerSetup, RemoteLogger,
};
use remote_logger::protocol::buffer::read_from_buffer;
use remote_logger::protocol::{Header, MessagePart};

struct Silent;

impl log::Log for Silent {
    fn enabled(&self, _metadata: &log::Metadata) -> bool {
        false
    }

    fn log(&self, _record: &log::Record) {}

    fn flush(&self) {}
}

fn refused() -> IoError {
    IoError { kind: ErrorKind::Other, message: "refused".to_string() }
}

fn record(level: Level) -> Record {
    Record { level, target: "app::net".to_string(), args: "hello".to_string() }
}

fn setup(logger: RemoteLogger) -> LoggerSetup {
    let connects = logger.output_addrs().iter().map(|_| Ok(())).collect();
    match logger.init(connects) {
        Ok(setup) => setup,
        Err(e) => panic!("{:?}", e),
    }
}

fn enabled(setup: &LoggerSetup, level: Level, target: &str) -> bool {
    setup.logger.enabled(&Metadata { level, target: target.to_string() })
}

#[test]
fn the_default_logger_goes_to_localhost() {
    let logger = RemoteLogger::default();
    assert_eq!(logger.output_addrs(), &vec![SocketAddr::V4 { ip: 0x7f00_0001, port: 50_033 }]);
}

#[test]
fn addresses_are_kept_in_order() {
    let far = SocketAddr::new(IpAddr::V4(0x0a00_0001), 1);
    let farther = SocketAddr::new(IpAddr::V6(2), 2);
    let logger = RemoteLogger::new()
        .with_output_addr(far)
        .with_output_localhost(3)
        .with_output_addrs(vec![farther, far])
        .with_output_localhost_v6(4);
    assert_eq!(
        logger.output_addrs(),
        &vec![
            far,
            SocketAddr::new(IpAddr::V4(LOCALHOST_V4), 3),
            farther,
            far,
            SocketAddr::new(IpAddr::V6(LOCALHOST_V6), 4),
        ]
    );
}

#[test]
fn a_new_logger_lets_everything_through() {
    let setup = setup(RemoteLogger::default());
    assert_eq!(setup.max_level, LevelFilter::Trace);
    assert!(setup.failed.is_empty());
    for level in [Level::Error, Level::Warn, Level::Info, Level::Debug, Level::Trace] {
        assert!(enabled(&setup, level, "anything"));
    }
}

#[test]
fn a_logger_without_addresses_is_not_initialized() {
    let mut logger = RemoteLogger::new();
    assert!(matches!(logger.prepare_init(), Err(InitLoggerError::NoOutputAddr)));
    assert!(matches!(logger.init(vec![]), Err(InitLoggerError::NoOutputAddr)));
}

#[test]
fn one_connection_is_enough() {
    let logger = RemoteLogger::new()
        .with_output_localhost(1)
        .with_output_localhost(2)
        .with_output_localhost(3);
    let connects = vec![Err(refused()), Ok(()), Err(refused())];
    match logger.init(connects) {
        Ok(setup) => assert_eq!(
            setup.failed,
            vec![
                ConnectError(SocketAddr::localhost(1), refused()),
                ConnectError(SocketAddr::localhost(3), refused()),
            ]
        ),
        Err(e) => panic!("{:?}", e),
    }
}

#[test]
fn no_connection_is_not_enough() {
    let logger = RemoteLogger::new().with_output_localhost(1).with_output_localhost_v6(2);
    match logger.init(vec![Err(refused()), Err(refused())]) {
        Err(InitLoggerError::Connect(failed)) => assert_eq!(
            failed,
            vec![
                ConnectError(SocketAddr::localhost(1), refused()),
                ConnectError(SocketAddr::localhost_v6(2), refused()),
            ]
        ),
        _ => panic!("initialized without a connection"),
    }
}

#[test]
fn setting_a_second_logger_fails() {
    let first = log::set_boxed_logger(Box::new(Silent));
    assert!(matches!(initialized(vec![], first), Ok(failed) if failed.is_empty()));
    let second = log::set_boxed_logger(Box::new(Silent));
    assert!(matches!(initialized(vec![], second), Err(InitLoggerError::SetLogger(_))));
}

#[test]
fn failed_connections_are_handed_on_once_the_logger_is_set() {
    let failed = vec![ConnectError(SocketAddr::localhost(1), refused())];
    match initialized(failed, Ok(())) {
        Ok(failed) => {
            assert_eq!(failed, vec![ConnectError(SocketAddr::localhost(1), refused())])
        }
        Err(e) => panic!("{:?}", e),
    }
}

#[test]
fn all_connections_may_be_required() {
    assert!(matches!(RemoteLogger::init_all(Ok(vec![])), Ok(())));
    let failed = vec![ConnectError(SocketAddr::localhost(1), refused())];
    match RemoteLogger::init_all(Ok(failed)) {
        Err(InitLoggerError::Connect(failed)) => {
            assert_eq!(failed, vec![ConnectError(SocketAddr::localhost(1), refused())])
        }
        _ => panic!("initialized without all connections"),
    }
    assert!(matches!(
        RemoteLogger::init_all(Err(InitLoggerError::NoOutputAddr)),
        Err(InitLoggerError::NoOutputAddr)
    ));
}

#[test]
fn levels_pass_filters_by_rank() {
    assert!(!Level::Error.passes(LevelFilter::Off));
    assert!(Level::Error.passes(LevelFilter::Error));
    assert!(!Level::Warn.passes(LevelFilter::Error));
    assert!(Level::Info.passes(LevelFilter::Debug));
    assert!(!Level::Trace.passes(LevelFilter::Debug));
    assert!(Level::Trace.passes(LevelFilter::Trace));
}

#[test]
fn ranks_agree_with_the_log_crate() {
    let levels = [
        (Level::Error, log::Level::Error),
        (Level::Warn, log::Level::Warn),
        (Level::Info, log::Level::Info),
        (Level::Debug, log::Level::Debug),
        (Level::Trace, log::Level::Trace),
    ];
    let filters = [
        (LevelFilter::Off, log::LevelFilter::Off),
        (LevelFilter::Error, log::LevelFilter::Error),
        (LevelFilter::Warn, log::LevelFilter::Warn),
        (LevelFilter::Info, log::LevelFilter::Info),
        (LevelFilter::Debug, log::LevelFilter::Debug),
        (LevelFilter::Trace, log::LevelFilter::Trace),
    ];
    for (level, theirs) in levels {
        assert_eq!(level.rank() as usize, theirs as usize);
        for (filter, their_filter) in filters {
            assert_eq!(level.passes(filter), theirs <= their_filter);
        }
    }
    for (one, theirs) in filters {
        for (other, their_other) in filters {
            assert_eq!(one.or(other).rank() as usize, theirs.max(their_other) as usize);
        }
    }
}

#[test]
fn the_most_specific_override_counts() {
    let setup = setup(
        RemoteLogger::default()
            .with_default_level(LevelFilter::Warn)
            .with_module_level("app", LevelFilter::Info)
            .with_module_level("app::net", LevelFilter::Trace)
            .with_module_level("app::net::quiet", LevelFilter::Off),
    );
    assert!(enabled(&setup, Level::Trace, "app::net::tcp"));
    assert!(!enabled(&setup, Level::Error, "app::net::quiet"));
    assert!(enabled(&setup, Level::Info, "app::ui"));
    assert!(!enabled(&setup, Level::Debug, "app::ui"));
    assert!(enabled(&setup, Level::Warn, "other"));
    assert!(!enabled(&setup, Level::Info, "other"));
    assert_eq!(setup.max_level, LevelFilter::Trace);
}

#[test]
fn of_overrides_that_are_as_specific_the_first_counts() {
    let setup = setup(
        RemoteLogger::default()
            .with_default_level(LevelFilter::Off)
            .with_module_levels(vec![
                ("a".to_string(), LevelFilter::Off),
                ("app".to_string(), LevelFilter::Info),
                ("app".to_string(), LevelFilter::Debug),
            ]),
    );
    assert!(enabled(&setup, Level::Info, "app"));
    assert!(!enabled(&setup, Level::Debug, "app"));
    assert_eq!(setup.max_level, LevelFilter::Debug);
}

#[test]
fn specificity_is_measured_in_bytes() {
    let setup = setup(
        RemoteLogger::default()
            .with_default_level(LevelFilter::Off)
            .with_module_level("a", LevelFilter::Error)
            .with_module_level("aä", LevelFilter::Trace),
    );
    assert!(enabled(&setup, Level::Trace, "aäb"));
    assert!(enabled(&setup, Level::Error, "ab"));
    assert!(!enabled(&setup, Level::Warn, "ab"));
}

#[test]
fn an_override_for_the_empty_text_counts_last() {
    let setup = setup(
        RemoteLogger::default()
            .with_default_level(LevelFilter::Off)
            .with_module_level("", LevelFilter::Error)
            .with_module_level("app", LevelFilter::Debug),
    );
    assert!(enabled(&setup, Level::Debug, "app"));
    assert!(!enabled(&setup, Level::Trace, "app"));
    assert!(enabled(&setup, Level::Error, "other"));
    assert!(!enabled(&setup, Level::Warn, "other"));
    assert_eq!(setup.max_level, LevelFilter::Debug);
}

#[test]
fn the_default_may_be_the_most_permissive_filter() {
    let mut logger = RemoteLogger::default()
        .with_default_level(LevelFilter::Debug)
        .with_module_level("app", LevelFilter::Error);
    assert!(matches!(logger.prepare_init(), Ok(LevelFilter::Debug)));
}

#[test]
fn nothing_let_through_is_above_the_most_permissive_filter() {
    let setup = setup(
        RemoteLogger::default()
            .with_default_level(LevelFilter::Error)
            .with_module_level("app", LevelFilter::Info)
            .with_module_level("lib", LevelFilter::Warn),
    );
    assert_eq!(setup.max_level, LevelFilter::Info);
    for level in [Level::Error, Level::Warn, Level::Info, Level::Debug, Level::Trace] {
        for target in ["app", "lib", "other", ""] {
            assert!(!enabled(&setup, level, target) || level.passes(setup.max_level));
        }
    }
}

#[test]
fn a_message_has_its_level_target_and_text() {
    assert_eq!(record(Level::Error).text(), "ERROR [app::net] hello");
    assert_eq!(record(Level::Warn).text(), "WARN  [app::net] hello");
    assert_eq!(record(Level::Info).text(), "INFO  [app::net] hello");
    assert_eq!(record(Level::Debug).text(), "DEBUG [app::net] hello");
    assert_eq!(record(Level::Trace).text(), "TRACE [app::net] hello");
}

#[test]
fn the_time_stands_ahead_of_a_message() {
    assert_eq!(
        format_message_at("2024-02-29 12:34:56.789", &record(Level::Info)),
        "2024-02-29 12:34:56.789 INFO  [app::net] hello"
    );
}

#[test]
fn a_message_that_is_logged_now_has_a_timestamp() {
    let text = format_message(&record(Level::Warn));
    let (timestamp, rest) = text.split_at(23);
    assert_eq!(rest, " WARN  [app::net] hello");
    let pattern: String =
        timestamp.chars().map(|c| if c.is_ascii_digit() { '0' } else { c }).collect();
    assert_eq!(pattern, "0000-00-00 00:00:00.000");
    let number = |at: usize| timestamp[at..at + 2].parse::<u8>().unwrap();
    assert!((1..=12).contains(&number(5)));
    assert!((1..=31).contains(&number(8)));
    assert!(number(11) <= 23 && number(14) <= 59 && number(17) <= 60);
    let parsed = chrono::NaiveDateTime::parse_from_str(timestamp, "%Y-%m-%d %H:%M:%S%.3f");
    assert!(parsed.is_ok());
}

#[test]
fn a_delivery_sends_the_length_and_then_the_message() {
    let delivery = Delivery::new(LengthWidth::U64, LogFailureStrategy::Panic, "aä");
    assert_eq!(delivery.bytes(MessagePart::Length), &vec![0, 0, 0, 0, 0, 0, 0, 3]);
    assert_eq!(delivery.bytes(MessagePart::Body), &vec![0x61, 0xc3, 0xa4]);
    let delivery = Delivery::new(LengthWidth::U128, LogFailureStrategy::Panic, "x");
    assert_eq!(
        delivery.bytes(MessagePart::Length),
        &vec![0, 0, 0, 0, 0, 0, 0, 0, 0, 0, 0, 0, 0, 0, 0, 1]
    );
}

#[test]
fn a_delivered_message_is_received() {
    for width in [LengthWidth::U64, LengthWidth::U128] {
        let setup = setup(RemoteLogger::default().with_length_width(width));
        let delivery = setup.logger.deliver("ein Gruß");
        let mut wire = delivery.bytes(MessagePart::Length).clone();
        wire.extend(delivery.bytes(MessagePart::Body));
        let (body, at) = read_from_buffer::<Vec<u8>>(width, &wire, 0).unwrap();
        assert_eq!(String::from_utf8(body).unwrap(), "ein Gruß");
        assert_eq!(at, wire.len());
    }
}

#[test]
fn a_logged_message_is_delivered_with_its_timestamp() {
    let setup = setup(RemoteLogger::default());
    let delivery = setup.logger.log(&record(Level::Info)).unwrap();
    let body = String::from_utf8(delivery.bytes(MessagePart::Body).clone()).unwrap();
    assert_eq!(&body[23..], " INFO  [app::net] hello");
    assert_eq!(
        delivery.bytes(MessagePart::Length),
        &vec![0, 0, 0, 0, 0, 0, 0, body.len() as u8]
    );
}

fn all_parts(delivery: &Delivery, fails: fn(Cursor) -> bool) -> (Vec<Cursor>, LogStep) {
    let mut tried = Vec::new();
    let mut step = delivery.log(LogProgress::Started);
    assert_eq!(step, LogStep::Lock);
    step = delivery.log(LogProgress::Locked(Ok(2)));
    loop {
        step = match step {
            LogStep::WriteAll(cursor) => {
                tried.push(cursor);
                let outcome = if fails(cursor) { Err(refused()) } else { Ok(()) };
                delivery.log(LogProgress::Written(cursor, outcome))
            }
            LogStep::PeerAddr(cursor, e) => {
                delivery.log(LogProgress::PeerAsked(cursor, e, Some("1.2.3.4:5".to_string())))
            }
            _ => return (tried, step),
        };
    }
}

fn cursor(stream: usize, part: MessagePart) -> Cursor {
    Cursor { stream, count: 2, part }
}

#[test]
fn every_stream_gets_the_whole_message() {
    let delivery = Delivery::new(LengthWidth::U64, LogFailureStrategy::Panic, "x");
    let (tried, last) = all_parts(&delivery, |_| false);
    assert_eq!(
        tried,
        vec![
            cursor(0, MessagePart::Length),
            cursor(0, MessagePart::Body),
            cursor(1, MessagePart::Length),
            cursor(1, MessagePart::Body),
        ]
    );
    assert_eq!(last, LogStep::Done);
}

#[test]
fn ignored_failures_stop_nothing() {
    let delivery = Delivery::new(LengthWidth::U64, LogFailureStrategy::Ignore, "x");
    let (tried, last) = all_parts(&delivery, |_| true);
    assert_eq!(tried.len(), 4);
    assert_eq!(last, LogStep::Done);
}

#[test]
fn the_first_failure_stops_a_delivery() {
    let delivery = Delivery::new(LengthWidth::U64, LogFailureStrategy::Panic, "x");
    let (tried, last) = all_parts(&delivery, |at| at.stream == 1);
    assert_eq!(
        tried,
        vec![
            cursor(0, MessagePart::Length),
            cursor(0, MessagePart::Body),
            cursor(1, MessagePart::Length),
        ]
    );
    assert_eq!(
        last,
        LogStep::Panic("failed to write length of message to 1.2.3.4:5: refused".to_string())
    );
}

#[test]
fn failures_are_described() {
    let delivery = Delivery::new(LengthWidth::U64, LogFailureStrategy::Panic, "x");
    let describe = |part, peer: Option<&str>| {
        delivery.log(LogProgress::PeerAsked(
            cursor(0, part),
            refused(),
            peer.map(|text| text.to_string()),
        ))
    };
    assert_eq!(
        describe(MessagePart::Length, None),
        LogStep::Panic("failed to write length of message to a stream: refused".to_string())
    );
    assert_eq!(
        describe(MessagePart::Body, Some("1.2.3.4:5")),
        LogStep::Panic("failed to write message to 1.2.3.4:5: refused".to_string())
    );
    assert_eq!(
        describe(MessagePart::Body, None),
        LogStep::Panic("failed to write message to a stream: refused".to_string())
    );
}

#[test]
fn streams_that_cannot_be_locked_are_handled_by_strategy() {
    let locked = || LogProgress::Locked(Err("poisoned".to_string()));
    let delivery = Delivery::new(LengthWidth::U64, LogFailureStrategy::Panic, "x");
    assert_eq!(
        delivery.log(locked()),
        LogStep::Panic("failed to obtain lock for streams: poisoned".to_string())
    );
    let delivery = Delivery::new(LengthWidth::U64, LogFailureStrategy::Ignore, "x");
    assert_eq!(delivery.log(locked()), LogStep::Done);
}

#[test]
fn a_delivery_without_streams_has_ended() {
    let delivery = Delivery::new(LengthWidth::U64, LogFailureStrategy::Panic, "x");
    assert_eq!(delivery.log(LogProgress::Locked(Ok(0))), LogStep::Done);
}

#[test]
fn the_failure_strategy_reaches_the_delivery() {
    let setup =
        setup(RemoteLogger::default().with_failure_strategy(LogFailureStrategy::Ignore));
    let delivery = setup.logger.deliver("x");
    assert_eq!(
        delivery.log(LogProgress::Written(cursor(1, MessagePart::Body), Err(refused()))),
        LogStep::Done
    );
}

fn levels(pairs: &[(&str, LevelFilter)]) -> Vec<(String, LevelFilter)> {
    pairs.iter().map(|(text, filter)| (text.to_string(), *filter)).collect()
}

#[test]
fn overrides_are_sorted_by_length_and_keep_their_order_otherwise() {
    let sorted = levels(&[
        ("long", LevelFilter::Error),
        ("bb", LevelFilter::Warn),
        ("aa", LevelFilter::Info),
        ("ä", LevelFilter::Debug),
        ("a", LevelFilter::Trace),
        ("", LevelFilter::Off),
    ]);
    let mut one = levels(&[
        ("a", LevelFilter::Trace),
        ("bb", LevelFilter::Warn),
        ("", LevelFilter::Off),
        ("aa", LevelFilter::Info),
        ("long", LevelFilter::Error),
        ("ä", LevelFilter::Debug),
    ]);
    sort_overrides(&mut one);
    assert_eq!(one, sorted);
    let mut other = levels(&[
        ("", LevelFilter::Off),
        ("bb", LevelFilter::Warn),
        ("aa", LevelFilter::Info),
        ("long", LevelFilter::Error),
        ("ä", LevelFilter::Debug),
        ("a", LevelFilter::Trace),
    ]);
    sort_overrides(&mut other);
    assert_eq!(other, sorted);
}

#[test]
fn the_first_override_that_applies_is_found() {
    let levels = levels(&[("app::net", LevelFilter::Info), ("app", LevelFilter::Warn)]);
    assert_eq!(find_filter(&levels, LevelFilter::Off, "app::net::tcp"), LevelFilter::Info);
    assert_eq!(find_filter(&levels, LevelFilter::Off, "app::ui"), LevelFilter::Warn);
    assert_eq!(find_filter(&levels, LevelFilter::Off, "other"), LevelFilter::Off);
    assert_eq!(find_most_permissive(&levels, LevelFilter::Error), LevelFilter::Info);
    assert_eq!(find_most_permissive(&levels, LevelFilter::Trace), LevelFilter::Trace);
    assert_eq!(find_most_permissive(&vec![], LevelFilter::Off), LevelFilter::Off);
}

#[test]
fn a_message_that_is_not_let_through_is_not_delivered() {
    let setup = setup(
        RemoteLogger::default()
            .with_default_level(LevelFilter::Warn)
            .with_module_level("noisy", LevelFilter::Off)
            .with_module_level("app", LevelFilter::Trace),
    );
    let delivered = |level, target: &str| {
        let record = Record { level, target: target.to_string(), args: "x".to_string() };
        setup.logger.log(&record).is_some()
    };
    assert!(!delivered(Level::Error, "noisy"));
    assert!(!delivered(Level::Error, "noisy::inner"));
    assert!(delivered(Level::Trace, "app"));
    assert!(delivered(Level::Warn, "other"));
    assert!(!delivered(Level::Info, "other"));
    for level in [Level::Error, Level::Warn, Level::Info, Level::Debug, Level::Trace] {
        for target in ["noisy", "app", "other", ""] {
            assert_eq!(delivered(level, target), enabled(&setup, level, target));
        }
    }
}

fn connect_to_buffer(logger: &RemoteLogger) -> Vec<u8> {
    let mut wire = Vec::new();
    assert_eq!(logger.connect(ConnectProgress::Started), ConnectStep::Connect);
    let mut step = logger.connect(ConnectProgress::Connected(Ok(())));
    loop {
        match step {
            ConnectStep::WriteAll(part, bytes) => {
                wire.extend(bytes);
                step = logger.connect(ConnectProgress::Written(part, Ok(())));
            }
            ConnectStep::Done(outcome) => {
                assert_eq!(outcome, Ok(()));
                return wire;
            }
            ConnectStep::Connect => panic!("connected twice"),
        }
    }
}

#[test]
fn connecting_sends_a_header_without_a_name() {
    assert_eq!(connect_to_buffer(&RemoteLogger::default()), vec![0; 8]);
    let wide = RemoteLogger::default().with_length_width(LengthWidth::U128);
    assert_eq!(connect_to_buffer(&wide), vec![0; 16]);
}

#[test]
fn connecting_fails_at_the_first_failure() {
    let logger = RemoteLogger::default();
    let failed = || ConnectStep::Done(Err(refused()));
    assert_eq!(logger.connect(ConnectProgress::Connected(Err(refused()))), failed());
    for part in [MessagePart::Length, MessagePart::Body] {
        assert_eq!(logger.connect(ConnectProgress::Written(part, Err(refused()))), failed());
    }
}

#[test]
fn a_stream_gets_the_header_and_then_the_messages() {
    for width in [LengthWidth::U64, LengthWidth::U128] {
        let logger = RemoteLogger::default().with_length_width(width);
        let mut wire = connect_to_buffer(&logger);
        let setup = setup(logger);
        for text in ["first", "zwö"] {
            let delivery = setup.logger.deliver(text);
            wire.extend(delivery.bytes(MessagePart::Length));
            wire.extend(delivery.bytes(MessagePart::Body));
        }
        let (header, at) = read_from_buffer::<Header>(width, &wire, 0).unwrap();
        assert_eq!(header, Header { name: String::new() });
        let (first, at) = read_from_buffer::<Vec<u8>>(width, &wire, at).unwrap();
        assert_eq!(first, "first".as_bytes().to_vec());
        let (second, at) = read_from_buffer::<Vec<u8>>(width, &wire, at).unwrap();
        assert_eq!(second, "zwö".as_bytes().to_vec());
        assert_eq!(at, wire.len());
    }
}

#[test]
fn timestamps_can_be_turned_off() {
    let plain = setup(RemoteLogger::default().with_timestamps(false));
    let delivery = plain.logger.log(&record(Level::Warn)).unwrap();
    assert_eq!(delivery.bytes(MessagePart::Body), &b"WARN  [app::net] hello".to_vec());
    assert_eq!(delivery.bytes(MessagePart::Length), &vec![0, 0, 0, 0, 0, 0, 0, 22]);
    let dated = setup(RemoteLogger::default().with_timestamps(false).with_timestamps(true));
    let delivery = dated.logger.log(&record(Level::Warn)).unwrap();
    assert_eq!(delivery.bytes(MessagePart::Body).len(), 46);
}

#[test]
fn a_message_that_is_not_let_through_is_not_delivered_without_a_timestamp_either() {
    let plain = setup(
        RemoteLogger::default().with_timestamps(false).with_default_level(LevelFilter::Error),
    );
    assert!(plain.logger.log(&record(Level::Warn)).is_none());
    assert!(plain.logger.log(&record(Level::Error)).is_some());
}
