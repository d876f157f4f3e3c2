# remote_logger

A logger that sends its messages to remote addresses, and a monitor that receives
them. What the two do is written in Verus: the functions in `src/` state in their
contracts what they return, and are proved to return it. Not proved are the few
calls into other crates and into the standard library; what is relied on there is
stated where the call is made.

- `src/frame.rs`, `src/protocol/`: the protocol. A message is sent as its length,
  big-endian, followed by its bytes; the first message on a connection is a header
  with the name of the logger.
- `src/logger/`: the logger. How it connects and sends its header, which messages
  it lets through, what they look like, and what is done when one cannot be sent.
- `src/monitor/`: the monitor. Taking up connections, receiving messages from all
  of them in turn, and reporting what happens.
- `app/`: the TCP connections, the thread that listens for them, and the program
  that prints what the monitor receives.

Nothing in `src/` touches a stream. Where something has to be read or written, a
function is told how the last step went and says what the next one is; `app/`
carries the steps out.
