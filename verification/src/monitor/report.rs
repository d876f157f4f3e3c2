//! The lines in which a monitor reports what happens.

use vstd::prelude::*;
use vstd::string::StringExecFns;

use crate::monitor::metadata::ConnectionMetadata;
use crate::monitor::slots::ConnectionId;
use crate::monitor::RemoteMonitor;

verus! {

/// The line for a connection that was opened.
pub fn opened_line(metadata: &ConnectionMetadata) -> (line: String)
    ensures
        line@ == "new connection from "@ + metadata.spec_unique_string(),
{
    let mut line = "new connection from ".to_owned();
    line.append(metadata.unique_string().as_str());
    line
}

/// The line for a connection that was closed.
pub fn closed_line(metadata: &ConnectionMetadata) -> (line: String)
    ensures
        line@ == "connection from "@ + metadata.spec_unique_string() + " was closed"@,
{
    let mut line = "connection from ".to_owned();
    line.append(metadata.unique_string().as_str());
    line.append(" was closed");
    line
}

impl RemoteMonitor {
    /// The line for a message.
    ///
    /// If there is only one connection, it is not said where the message came
    /// from.
    pub fn message_line(&self, only_one: bool, id: ConnectionId, message: &str) -> (line: String)
        requires
            self@.wf(),
            !only_one ==> crate::monitor::slots::holds(self@.open, id),
        ensures
            line@ == (if only_one {
                Seq::<char>::empty()
            } else {
                crate::monitor::entries::info(self@.open, id).spec_unique_string()
            }) + "> "@ + message@,
    {
        let mut line = if only_one {
            String::new()
        } else {
            self.connection_info(id).unique_string()
        };
        line.append("> ");
        line.append(message);
        line
    }
}

} // verus!
