//! What is known of a connection.

use vstd::prelude::*;
use vstd::string::StringExecFns;

use crate::address::{IpAddr, PeerAddr, SocketAddr, LOCALHOST_V4};
use crate::text::push_decimal;

verus! {

/// What is known of a connection.
#[derive(Debug, PartialEq, Eq)]
pub struct ConnectionMetadata {
    /// Where the connection comes from.
    pub addr: PeerAddr,
    /// The name of the logger, if it has one.
    pub name: Option<String>,
    /// Whether the connection is shown with its name alone.
    ///
    /// This is set for a connection whose name another one had already when it
    /// was taken up. All later holders of a name are thus shown alike.
    pub name_unique: bool,
}

impl Clone for ConnectionMetadata {
    fn clone(&self) -> (copy: Self)
        ensures
            copy == *self,
    {
        ConnectionMetadata {
            addr: self.addr.clone(),
            name: match &self.name {
                Some(name) => Some(name.clone()),
                None => None,
            },
            name_unique: self.name_unique,
        }
    }
}

impl ConnectionMetadata {
    /// Where the connection comes from, in short: only the port, if it comes from
    /// this host.
    pub open spec fn spec_origin(&self) -> Seq<char> {
        if self.addr.addr.spec_ip() == IpAddr::V4(LOCALHOST_V4) {
            ":"@ + crate::text::decimal(self.addr.addr.spec_port() as nat)
        } else {
            self.addr.spec_text()
        }
    }

    /// The connection is shown with its name alone.
    pub open spec fn shown_by_name(&self) -> bool {
        self.name is Some && self.name_unique
    }

    /// The text that the connection is shown with: its name alone, or where it
    /// comes from, with the name, if it has one.
    pub open spec fn spec_unique_string(&self) -> Seq<char> {
        match self.name {
            Some(name) => if self.name_unique {
                "~"@ + name@
            } else {
                self.spec_origin() + "~"@ + name@
            },
            None => self.spec_origin(),
        }
    }

    fn origin(&self) -> (text: String)
        ensures
            text@ == self.spec_origin(),
    {
        let is_localhost = self.addr.addr.ip() == IpAddr::V4(LOCALHOST_V4);
        if is_localhost {
            let mut text = ":".to_owned();
            push_decimal(&mut text, self.addr.addr.port() as u64);
            text
        } else {
            self.addr.text()
        }
    }

    /// The text that the connection is shown with.
    ///
    /// Connections that are shown with their name alone share it with all others
    /// of that name that are.
    pub fn unique_string(&self) -> (text: String)
        ensures
            text@ == self.spec_unique_string(),
    {
        match &self.name {
            Some(name) => {
                let mut text = if self.name_unique {
                    String::new()
                } else {
                    self.origin()
                };
                text.append("~");
                text.append(name.as_str());
                assert(Seq::<char>::empty() + "~"@ =~= "~"@);
                text
            },
            None => self.origin(),
        }
    }
}

/// What an origin looks like.
proof fn lemma_origin(metadata: ConnectionMetadata)
    requires
        metadata.addr.has_plain_ip_text(),
    ensures
        metadata.spec_origin().len() > 0,
        !metadata.spec_origin().contains('~'),
        metadata.spec_origin()[0] == ':' <==> metadata.addr.addr.spec_ip() == IpAddr::V4(
            LOCALHOST_V4,
        ),
{
    reveal_strlit(":");
    let origin = metadata.spec_origin();
    if metadata.addr.addr.spec_ip() == IpAddr::V4(LOCALHOST_V4) {
        let n = metadata.addr.addr.spec_port() as nat;
        crate::text::lemma_decimal_digits(n);
        assert forall|i: int| 0 <= i < origin.len() implies origin[i] != '~' by {
            if i > 0 {
                assert(origin[i] == crate::text::decimal(n)[i - 1]);
            }
        }
    } else {
        crate::address::lemma_address_text(metadata.addr);
    }
}

/// The text of a connection tells its name, and whether it is shown with its name
/// alone. If it is not, the text also tells where it comes from: for IPv4, the IP
/// address and the port; for IPv6, those and the scope.
pub proof fn law_unique_strings_tell_names_and_origins(
    one: ConnectionMetadata,
    other: ConnectionMetadata,
)
    requires
        one.addr.has_plain_ip_text(),
        other.addr.has_plain_ip_text(),
        one.spec_unique_string() == other.spec_unique_string(),
    ensures
        one.shown_by_name() == other.shown_by_name(),
        one.name is Some <==> other.name is Some,
        one.name is Some ==> one.name->0@ == other.name->0@,
        !one.shown_by_name() ==> one.addr.is_written_like(other.addr),
{
    reveal_strlit("~");
    reveal_strlit(":");
    lemma_origin(one);
    lemma_origin(other);
    let text = one.spec_unique_string();
    let nothing = Seq::<char>::empty();
    let from = if one.shown_by_name() {
        nothing
    } else {
        one.spec_origin()
    };
    let origin = if other.shown_by_name() {
        nothing
    } else {
        other.spec_origin()
    };
    if one.name is Some {
        assert(text =~= from + seq!['~'] + one.name->0@);
        assert(text[from.len() as int] == '~');
    }
    if other.name is Some {
        assert(text =~= origin + seq!['~'] + other.name->0@);
        assert(text[origin.len() as int] == '~');
    }
    if one.name is Some && other.name is Some {
        crate::text::lemma_first_mark('~', from, one.name->0@, origin, other.name->0@);
    } else if one.name is Some {
        assert(origin[from.len() as int] == '~');
    } else if other.name is Some {
        assert(from[origin.len() as int] == '~');
    }
    if !one.shown_by_name() {
        assert(one.spec_origin() == other.spec_origin());
        if one.addr.addr.spec_ip() == IpAddr::V4(LOCALHOST_V4) {
            let n = one.addr.addr.spec_port() as nat;
            let m = other.addr.addr.spec_port() as nat;
            assert(one.spec_origin().skip(1) =~= crate::text::decimal(n));
            assert(other.spec_origin().skip(1) =~= crate::text::decimal(m));
            crate::text::law_decimal_tells_numbers_apart(n, m);
        } else {
            crate::address::law_address_texts_tell_addresses_apart(one.addr, other.addr);
        }
    }
}

/// What the text of a connection is made of. A name stands whole at its end, behind a
/// tilde; ahead of that, unless the name is shown alone, stands where the connection
/// comes from: a colon and the port for the IPv4 address 127.0.0.1, and the address as
/// it is written out for all others.
pub proof fn law_a_unique_string_is_origin_and_name(metadata: ConnectionMetadata)
    ensures
        ({
            let text = metadata.spec_unique_string();
            let from = match metadata.name {
                Some(name) => text.take(text.len() - name@.len() - 1),
                None => text,
            };
            &&& metadata.name matches Some(name) ==> {
                &&& text.len() > name@.len()
                &&& text[text.len() - name@.len() - 1] == '~'
                &&& text.skip(text.len() - name@.len()) == name@
            }
            &&& metadata.name is Some && metadata.name_unique ==> from.len() == 0
            &&& !(metadata.name is Some && metadata.name_unique) ==> match metadata.addr.addr {
                SocketAddr::V4 { ip: 0x7f00_0001, port } => from.len() > 0 && from[0] == ':'
                    && from.skip(1) == crate::text::decimal(port as nat),
                _ => from == metadata.addr.spec_text(),
            }
        }),
{
    reveal_strlit("~");
    reveal_strlit(":");
    let text = metadata.spec_unique_string();
    let origin = metadata.spec_origin();
    if let Some(name) = metadata.name {
        let at = text.len() - name@.len() - 1;
        assert(text.skip(at + 1) =~= name@);
        if !metadata.name_unique {
            assert(text.take(at) =~= origin);
        }
    }
    if let SocketAddr::V4 { port, .. } = metadata.addr.addr {
        if metadata.addr.addr.spec_ip() == IpAddr::V4(LOCALHOST_V4) {
            assert(origin.skip(1) =~= crate::text::decimal(port as nat));
        }
    }
}

} // verus!
