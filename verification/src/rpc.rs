//! The address side of the RPC client: where a node listens, and the URL that
//! requests to it are posted to. Sending the requests is left to the caller.

use crate::types::PeerId;
use vstd::prelude::*;
use vstd::string::StringExecFns;

verus! {

/// Where a node listens.
#[derive(Debug, PartialEq, Eq)]
pub enum Address {
    /// A TCP endpoint, with the identity of the node where it is known.
    Tcp { peer_id: Option<PeerId>, host: String, port: u16 },
    /// A Unix domain socket.
    Unix { path: String },
}

/// What went wrong with a request.
#[derive(Clone, Copy, Debug, PartialEq, Eq, Structural)]
pub enum Code {
    /// The answer could not be read.
    ParseError,
    /// The request could not be made from what was given.
    InvalidParams,
    /// Any other failure, by its number.
    Other(i32),
}

/// A failed request.
#[derive(Debug, PartialEq, Eq)]
pub struct RpcError {
    pub code: Code,
    pub message: String,
}

/// The character for a decimal digit.
pub open spec fn digit(d: nat) -> char {
    if d == 0 {
        '0'
    } else if d == 1 {
        '1'
    } else if d == 2 {
        '2'
    } else if d == 3 {
        '3'
    } else if d == 4 {
        '4'
    } else if d == 5 {
        '5'
    } else if d == 6 {
        '6'
    } else if d == 7 {
        '7'
    } else if d == 8 {
        '8'
    } else {
        '9'
    }
}

/// The decimal numeral of `n`, without leading zeros.
pub open spec fn decimal(n: nat) -> Seq<char>
    decreases n,
{
    if n < 10 {
        seq![digit(n)]
    } else {
        decimal(n / 10).push(digit(n % 10))
    }
}

/// The URL that requests to a node at `host` and `port` are posted to.
pub open spec fn endpoint_url(host: Seq<char>, port: u16) -> Seq<char> {
    "http://"@ + host + ":"@ + decimal(port as nat) + "/"@
}

/// The text that `{:?}` gives for a string: the string between double quotes,
/// with the characters escaped that std's `Debug` for `str` escapes.
pub uninterp spec fn debug_text(text: Seq<char>) -> Seq<char>;

/// Formats a string with `{:?}`, that is with `<str as core::fmt::Debug>::fmt`.
/// The result depends on the string alone; `debug_text` names it, and nothing
/// more is claimed of it.
#[verifier::external_body]
fn debug_of(text: &str) -> (r: String)
    ensures
        r@ == debug_text(text@),
{
    format!("{:?}", text)
}

/// What the client says of a Unix socket address, which it cannot post to:
/// the address as `{:?}` shows it, where `quoted` is the path as `{:?}` shows it.
pub open spec fn invalid_address_message(quoted: Seq<char>) -> Seq<char> {
    "invalid RPC address: Unix { path: "@ + quoted + " }"@
}

/// The error for a Unix socket address, from its path as `{:?}` shows it.
pub fn invalid_address(quoted: &str) -> (e: RpcError)
    ensures
        e.code == Code::InvalidParams,
        e.message@ == invalid_address_message(quoted@),
{
    let mut message = String::from_str("invalid RPC address: Unix { path: ");
    message.append(quoted);
    message.append(" }");
    RpcError { code: Code::InvalidParams, message }
}

/// The numeral of one decimal digit.
fn digit_str(d: u16) -> (r: &'static str)
    requires
        d < 10,
    ensures
        r@ == seq![digit(d as nat)],
{
    proof {
        reveal_strlit("0");
        reveal_strlit("1");
        reveal_strlit("2");
        reveal_strlit("3");
        reveal_strlit("4");
        reveal_strlit("5");
        reveal_strlit("6");
        reveal_strlit("7");
        reveal_strlit("8");
        reveal_strlit("9");
    }
    let r = if d == 0 {
        "0"
    } else if d == 1 {
        "1"
    } else if d == 2 {
        "2"
    } else if d == 3 {
        "3"
    } else if d == 4 {
        "4"
    } else if d == 5 {
        "5"
    } else if d == 6 {
        "6"
    } else if d == 7 {
        "7"
    } else if d == 8 {
        "8"
    } else {
        "9"
    };
    assert(r@ =~= seq![digit(d as nat)]);
    r
}

/// Appends the decimal numeral of `n` to `out`.
fn push_decimal(out: &mut String, n: u16)
    ensures
        final(out)@ == old(out)@ + decimal(n as nat),
    decreases n,
{
    if n >= 10 {
        push_decimal(out, n / 10);
    }
    out.append(digit_str(n % 10));
    proof {
        assert(final(out)@ =~= old(out)@ + decimal(n as nat));
    }
}

/// An RPC client for one node.
#[derive(Debug, PartialEq, Eq)]
pub struct Client {
    /// Address of the RPC server.
    address: Address,
}

impl Client {
    /// The address the client talks to.
    pub closed spec fn server(&self) -> Address {
        self.address
    }

    /// Creates a client for the node at `address`.
    pub fn new(address: Address) -> (client: Self)
        ensures
            client.server() == address,
    {
        Client { address }
    }

    /// The address the client talks to.
    pub fn address(&self) -> (r: &Address)
        ensures
            *r == self.server(),
    {
        &self.address
    }

    /// The URL to post requests to. Only a TCP address has one.
    pub fn endpoint(&self) -> (r: Result<String, RpcError>)
        ensures
            match self.server() {
                Address::Tcp { host, port, .. } => r matches Ok(url) && url@ == endpoint_url(
                    host@,
                    port,
                ),
                Address::Unix { path } => r matches Err(e) && e.code == Code::InvalidParams
                    && e.message@ == invalid_address_message(debug_text(path@)),
            },
    {
        match &self.address {
            Address::Tcp { host, port, .. } => {
                let mut url = String::from_str("http://");
                url.append(host.as_str());
                url.append(":");
                push_decimal(&mut url, *port);
                url.append("/");
                Ok(url)
            },
            Address::Unix { path } => {
                let quoted = debug_of(path.as_str());
                Err(invalid_address(quoted.as_str()))
            },
        }
    }
}

} // verus!
