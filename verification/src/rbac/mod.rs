//! Who may connect to whom.

pub mod agreement;
pub mod authorize;
pub mod chain;
pub mod firewall;
pub mod meaning;
pub mod policy;
pub mod store;

use vstd::prelude::*;

use crate::net::SocketAddr;
use crate::state::workload::Identity;

verus! {

/// Whether a connection comes to the workload or leaves it.
#[derive(Clone, Copy, Debug, PartialEq, Eq, PartialOrd, Ord, Hash, Structural)]
pub enum Direction {
    Inbound,
    Outbound,
}

impl Default for Direction {
    fn default() -> (r: Self)
        ensures
            r == Direction::Inbound,
    {
        Direction::Inbound
    }
}

/// A connection, as far as policies look at it.
#[derive(Clone, Debug, PartialEq, Eq, Hash)]
pub struct Connection {
    pub src: SocketAddr,
    pub dst: SocketAddr,
    pub src_identity: Option<Identity>,
    pub dst_network: String,
    pub direction: Direction,
}

/// What a rule says of the connections that it speaks of.
#[derive(Clone, Copy, Debug, PartialEq, Eq, Hash, Structural)]
pub enum RbacAction {
    Allow,
    Deny,
}

/// What rules say of a connection.
#[derive(Clone, Copy, Debug, PartialEq, Eq, Hash, Structural)]
pub enum RbacDecision {
    Allow,
    Deny,
    NoMatch,
}

/// Why a connection is refused: the policy's namespace or resource, and what in it
/// refuses.
#[derive(Clone, Debug, PartialEq, Eq)]
pub enum AuthorizationRejectionError {
    ExplicitlyDenied(String, String),
}

impl View for AuthorizationRejectionError {
    type V = (Seq<char>, Seq<char>);

    open spec fn view(&self) -> (Seq<char>, Seq<char>) {
        match *self {
            AuthorizationRejectionError::ExplicitlyDenied(a, b) => (a@, b@),
        }
    }
}

/// The outcome of a check: passed, or refused by what.
pub open spec fn outcome<T>(r: Result<T, AuthorizationRejectionError>) -> Result<
    T,
    (Seq<char>, Seq<char>),
> {
    match r {
        Ok(value) => Ok(value),
        Err(e) => Err(e@),
    }
}

impl Connection {
    /// The connection in text: its source, the identity of the source, and its
    /// destination.
    pub open spec fn shown(self) -> Seq<char> {
        self.src.shown() + "("@ + (match self.src_identity {
            Some(identity) => identity.shown(),
            None => "None"@,
        }) + ")->"@ + self.dst.shown()
    }

    /// The connection in text.
    pub fn text(&self) -> (r: String)
        ensures
            r@ == self.shown(),
    {
        let mut out: String = self.src.text();
        out.append("(");
        match &self.src_identity {
            Some(identity) => out.append(identity.text().as_str()),
            None => out.append("None"),
        }
        out.append(")->");
        out.append(self.dst.text().as_str());
        out
    }
}

/// A connection in text begins with its source and ends with its destination, and the
/// identity of the source stands in brackets between the two, or that there is none.
pub proof fn law_connections_in_text(conn: Connection)
    ensures
        conn.src_identity matches Some(id) ==> conn.shown() == conn.src.shown() + seq!['(']
            + id.shown() + seq![')', '-', '>'] + conn.dst.shown(),
        conn.src_identity is None ==> conn.shown() == conn.src.shown() + seq![
            '(',
            'N',
            'o',
            'n',
            'e',
            ')',
            '-',
            '>',
        ] + conn.dst.shown(),
{
    reveal_strlit("(");
    reveal_strlit("None");
    reveal_strlit(")->");
    assert("("@ =~= seq!['(']);
    assert(")->"@ =~= seq![')', '-', '>']);
    if conn.src_identity is None {
        assert("("@ + "None"@ + ")->"@ =~= seq!['(', 'N', 'o', 'n', 'e', ')', '-', '>']);
        assert(conn.shown() =~= conn.src.shown() + ("("@ + "None"@ + ")->"@) + conn.dst.shown());
    }
}

} // verus!
