use remote_logger::frame::LengthWidth;
use remote_logger::io_error::{ErrorKind, IoError};
use remote_logger::protocol::buffer::{read_from_buffer, write_to_buffer};
use remote_logger::protocol::{
    Header, HeaderMessagePart, InitReceiveStep, InitSendStep, MessageError, MessagePart,
    MessageStream, MessageType, ReadProgress, ReadStep, TryReceiveMessageError,
    TryReceiveProgress, TryReceiveStep, WriteProgress, WriteStep,
};

const STREAM: MessageStream = MessageStream { width: LengthWidth::U64 };

fn error(kind: ErrorKind) -> IoError {
    IoError { kind, message: "it broke".to_string() }
}

fn eof() -> IoError {
    IoError {
        kind: ErrorKind::UnexpectedEof,
        message: "failed to fill whole buffer".to_string(),
    }
}

fn header(name: &str) -> Header {
    Header { name: name.to_string() }
}

#[test]
fn parts_have_names() {
    assert_eq!(MessagePart::Length.text(), "length");
    assert_eq!(MessagePart::Body.text(), "body");
    assert_eq!(HeaderMessagePart::Name(MessagePart::Length).text(), "name length");
    assert_eq!(HeaderMessagePart::Name(MessagePart::Body).text(), "name body");
}

#[test]
fn a_binary_message_is_its_length_and_its_bytes() {
    let mut out = vec![9];
    write_to_buffer(&vec![1u8, 2, 3], LengthWidth::U64, &mut out);
    assert_eq!(out, vec![9, 0, 0, 0, 0, 0, 0, 0, 3, 1, 2, 3]);
    let mut out = Vec::new();
    write_to_buffer(&vec![5u8], LengthWidth::U128, &mut out);
    assert_eq!(out, vec![0, 0, 0, 0, 0, 0, 0, 0, 0, 0, 0, 0, 0, 0, 0, 1, 5]);
}

#[test]
fn a_header_is_its_name_in_utf8() {
    let mut out = Vec::new();
    write_to_buffer(&header("tü"), LengthWidth::U64, &mut out);
    assert_eq!(out, vec![0, 0, 0, 0, 0, 0, 0, 3, b't', 0xc3, 0xbc]);
}

#[test]
fn a_session_is_received_as_it_was_sent() {
    for width in [LengthWidth::U64, LengthWidth::U128] {
        let mut wire = Vec::new();
        write_to_buffer(&header("näme"), width, &mut wire);
        write_to_buffer(&b"first".to_vec(), width, &mut wire);
        write_to_buffer(&Vec::<u8>::new(), width, &mut wire);
        write_to_buffer(&b"third".to_vec(), width, &mut wire);

        let (name, at) = read_from_buffer::<Header>(width, &wire, 0).unwrap();
        assert_eq!(name, header("näme"));
        let (first, at) = read_from_buffer::<Vec<u8>>(width, &wire, at).unwrap();
        assert_eq!(first, b"first".to_vec());
        let (second, at) = read_from_buffer::<Vec<u8>>(width, &wire, at).unwrap();
        assert_eq!(second, Vec::<u8>::new());
        let (third, at) = read_from_buffer::<Vec<u8>>(width, &wire, at).unwrap();
        assert_eq!(third, b"third".to_vec());
        assert_eq!(at, wire.len());
    }
}

#[test]
fn an_invalid_name_is_read_with_replacements() {
    let wire = vec![0, 0, 0, 0, 0, 0, 0, 3, b'a', 0xff, b'b'];
    let (received, at) = read_from_buffer::<Header>(LengthWidth::U64, &wire, 0).unwrap();
    assert_eq!(received.name, "a\u{fffd}b");
    assert_eq!(at, 11);
}

#[test]
fn a_cut_message_is_noticed_in_every_place() {
    let mut wire = Vec::new();
    write_to_buffer(&b"body".to_vec(), LengthWidth::U64, &mut wire);
    for end in 0..wire.len() {
        let part = if end < 8 { MessagePart::Length } else { MessagePart::Body };
        let cut = wire[..end].to_vec();
        assert_eq!(
            read_from_buffer::<Vec<u8>>(LengthWidth::U64, &cut, 0),
            Err(MessageError(part, eof()))
        );
        assert_eq!(
            read_from_buffer::<Header>(LengthWidth::U64, &cut, 0),
            Err(MessageError(HeaderMessagePart::Name(part), eof()))
        );
    }
}

#[test]
fn no_two_bodies_are_sent_alike() {
    let mut one = Vec::new();
    let mut other = Vec::new();
    write_to_buffer(&vec![0u8], LengthWidth::U64, &mut one);
    write_to_buffer(&vec![0u8, 0], LengthWidth::U64, &mut other);
    assert_ne!(one, other);
}

#[test]
fn writing_stops_at_the_first_failure() {
    let message = vec![1u8, 2];
    assert_eq!(
        message.write_to(LengthWidth::U64, WriteProgress::Started),
        WriteStep::WriteAll(MessagePart::Length, vec![0, 0, 0, 0, 0, 0, 0, 2])
    );
    assert_eq!(
        message.write_to(LengthWidth::U64, WriteProgress::After(MessagePart::Length, Ok(()))),
        WriteStep::WriteAll(MessagePart::Body, vec![1, 2])
    );
    assert_eq!(
        message.write_to(LengthWidth::U64, WriteProgress::After(MessagePart::Body, Ok(()))),
        WriteStep::Done(Ok(()))
    );
    for part in [MessagePart::Length, MessagePart::Body] {
        assert_eq!(
            message.write_to(
                LengthWidth::U64,
                WriteProgress::After(part, Err(error(ErrorKind::Other)))
            ),
            WriteStep::Done(Err(MessageError(part, error(ErrorKind::Other))))
        );
        assert_eq!(
            header("x").write_to(
                LengthWidth::U64,
                WriteProgress::After(part, Err(error(ErrorKind::Other)))
            ),
            WriteStep::Done(Err(MessageError(
                HeaderMessagePart::Name(part),
                error(ErrorKind::Other)
            )))
        );
        assert_eq!(
            STREAM.write_message(
                &message,
                WriteProgress::After(part, Err(error(ErrorKind::TimedOut)))
            ),
            WriteStep::Done(Err(MessageError(part, error(ErrorKind::TimedOut))))
        );
    }
}

#[test]
fn receiving_a_message_fails_on_a_timeout() {
    assert_eq!(
        STREAM.receive_message::<Vec<u8>>(ReadProgress::Started),
        ReadStep::ReadExact(MessagePart::Length, 8)
    );
    assert_eq!(
        STREAM.receive_message::<Vec<u8>>(ReadProgress::After(
            MessagePart::Length,
            Err(error(ErrorKind::TimedOut))
        )),
        ReadStep::Done(Err(MessageError(MessagePart::Length, error(ErrorKind::TimedOut))))
    );
}

#[test]
fn opening_a_connection_sends_the_header() {
    let hello = header("me");
    assert_eq!(
        MessageStream::init_send(LengthWidth::U64, &hello, WriteProgress::Started),
        InitSendStep::WriteAll(MessagePart::Length, vec![0, 0, 0, 0, 0, 0, 0, 2])
    );
    assert_eq!(
        MessageStream::init_send(
            LengthWidth::U64,
            &hello,
            WriteProgress::After(MessagePart::Length, Ok(()))
        ),
        InitSendStep::WriteAll(MessagePart::Body, b"me".to_vec())
    );
    assert_eq!(
        MessageStream::init_send(
            LengthWidth::U64,
            &hello,
            WriteProgress::After(MessagePart::Body, Ok(()))
        ),
        InitSendStep::Done(Ok(STREAM))
    );
    assert_eq!(
        MessageStream::init_send(
            LengthWidth::U64,
            &hello,
            WriteProgress::After(MessagePart::Body, Err(error(ErrorKind::Other)))
        ),
        InitSendStep::Done(Err(MessageError(
            HeaderMessagePart::Name(MessagePart::Body),
            error(ErrorKind::Other)
        )))
    );
}

#[test]
fn opening_a_connection_receives_the_header() {
    assert_eq!(
        MessageStream::init_receive(LengthWidth::U128, ReadProgress::Started),
        InitReceiveStep::ReadExact(MessagePart::Length, 16)
    );
    assert_eq!(
        MessageStream::init_receive(
            LengthWidth::U64,
            ReadProgress::After(MessagePart::Length, Ok(vec![0, 0, 0, 0, 0, 0, 1, 0]))
        ),
        InitReceiveStep::ReadExact(MessagePart::Body, 256)
    );
    assert_eq!(
        MessageStream::init_receive(
            LengthWidth::U64,
            ReadProgress::After(MessagePart::Body, Ok(b"you".to_vec()))
        ),
        InitReceiveStep::Done(Ok((STREAM, header("you"))))
    );
    assert_eq!(
        MessageStream::init_receive(
            LengthWidth::U64,
            ReadProgress::After(MessagePart::Length, Err(eof()))
        ),
        InitReceiveStep::Done(Err(MessageError(
            HeaderMessagePart::Name(MessagePart::Length),
            eof()
        )))
    );
}

#[test]
fn only_a_timeout_means_that_no_message_is_there() {
    assert_eq!(
        STREAM.try_receive_message::<Vec<u8>>(TryReceiveProgress::Started),
        TryReceiveStep::Peek
    );
    for kind in [ErrorKind::TimedOut, ErrorKind::WouldBlock] {
        assert_eq!(
            STREAM.try_receive_message::<Vec<u8>>(TryReceiveProgress::Peeked(Err(error(kind)))),
            TryReceiveStep::Done(Ok(None))
        );
    }
    for kind in [ErrorKind::UnexpectedEof, ErrorKind::Other] {
        assert_eq!(
            STREAM.try_receive_message::<Vec<u8>>(TryReceiveProgress::Peeked(Err(error(kind)))),
            TryReceiveStep::Done(Err(TryReceiveMessageError::Peek(error(kind))))
        );
    }
}

#[test]
fn nothing_to_peek_at_means_that_the_stream_is_closed() {
    assert_eq!(
        STREAM.try_receive_message::<Vec<u8>>(TryReceiveProgress::Peeked(Ok(0))),
        TryReceiveStep::Done(Err(TryReceiveMessageError::Closed))
    );
}

#[test]
fn a_message_that_is_there_is_received() {
    assert_eq!(
        STREAM.try_receive_message::<Vec<u8>>(TryReceiveProgress::Peeked(Ok(1))),
        TryReceiveStep::ReadExact(MessagePart::Length, 8)
    );
    assert_eq!(
        STREAM.try_receive_message::<Vec<u8>>(TryReceiveProgress::After(
            MessagePart::Length,
            Ok(vec![0, 0, 0, 0, 0, 0, 0, 2])
        )),
        TryReceiveStep::ReadExact(MessagePart::Body, 2)
    );
    assert_eq!(
        STREAM.try_receive_message::<Vec<u8>>(TryReceiveProgress::After(
            MessagePart::Body,
            Ok(vec![7, 8])
        )),
        TryReceiveStep::Done(Ok(Some(vec![7, 8])))
    );
    assert_eq!(
        STREAM.try_receive_message::<Vec<u8>>(TryReceiveProgress::After(
            MessagePart::Body,
            Err(error(ErrorKind::TimedOut))
        )),
        TryReceiveStep::Done(Err(TryReceiveMessageError::Receive(MessageError(
            MessagePart::Body,
            error(ErrorKind::TimedOut)
        ))))
    );
}
