//! Everything that can go wrong in the server, with the message of each failure.

use crate::net::{socket_text, SocketAddr};
use vstd::prelude::*;

verus! {

/// Everything that can go wrong. A failure of the system or of the SSH engine carries
/// the text that it was reported with.
#[derive(Debug)]
#[non_exhaustive]
pub enum Error {
    /// A failure of input or output.
    Io(String),
    /// The address could not be bound.
    Bind { addr: SocketAddr, source: String },
    /// A host key file could not be loaded.
    HostKeyLoad { path: String, source: String },
    /// A host key could not be generated or kept.
    HostKeyGenerate(String),
    /// No host key was there after loading and generating.
    NoHostKey,
    /// A file of authorized keys could not be read.
    AuthorizedKeys { path: String, source: String },
    /// A public key could not be read.
    PublicKey(String),
    /// A configuration value is not valid.
    Config(String),
    /// A configuration file could not be read.
    ConfigFile { path: String, message: String },
    /// A failure of the SSH engine.
    Ssh(String),
    /// A failure of key handling.
    Key(String),
}

/// What an [`Error`] says.
pub enum ErrorView {
    Io(Seq<char>),
    Bind { addr: SocketAddr, source: Seq<char> },
    HostKeyLoad { path: Seq<char>, source: Seq<char> },
    HostKeyGenerate(Seq<char>),
    NoHostKey,
    AuthorizedKeys { path: Seq<char>, source: Seq<char> },
    PublicKey(Seq<char>),
    Config(Seq<char>),
    ConfigFile { path: Seq<char>, message: Seq<char> },
    Ssh(Seq<char>),
    Key(Seq<char>),
}

impl View for Error {
    type V = ErrorView;

    open spec fn view(&self) -> ErrorView {
        match self {
            Error::Io(s) => ErrorView::Io(s@),
            Error::Bind { addr, source } => ErrorView::Bind { addr: *addr, source: source@ },
            Error::HostKeyLoad { path, source } => ErrorView::HostKeyLoad {
                path: path@,
                source: source@,
            },
            Error::HostKeyGenerate(s) => ErrorView::HostKeyGenerate(s@),
            Error::NoHostKey => ErrorView::NoHostKey,
            Error::AuthorizedKeys { path, source } => ErrorView::AuthorizedKeys {
                path: path@,
                source: source@,
            },
            Error::PublicKey(s) => ErrorView::PublicKey(s@),
            Error::Config(s) => ErrorView::Config(s@),
            Error::ConfigFile { path, message } => ErrorView::ConfigFile {
                path: path@,
                message: message@,
            },
            Error::Ssh(s) => ErrorView::Ssh(s@),
            Error::Key(s) => ErrorView::Key(s@),
        }
    }
}

/// The message of a failure.
pub open spec fn error_text(e: ErrorView) -> Seq<char> {
    match e {
        ErrorView::Io(s) => "i/o error: "@ + s,
        ErrorView::Bind { addr, source } => "failed to bind "@ + socket_text(addr) + ": "@ + source,
        ErrorView::HostKeyLoad { path, source } => "failed to load host key "@ + path + ": "@
            + source,
        ErrorView::HostKeyGenerate(s) => "failed to generate host key: "@ + s,
        ErrorView::NoHostKey => "no host key available"@,
        ErrorView::AuthorizedKeys { path, source } => "failed to read authorized_keys "@ + path
            + ": "@ + source,
        ErrorView::PublicKey(s) => "invalid public key: "@ + s,
        ErrorView::Config(s) => "invalid configuration: "@ + s,
        ErrorView::ConfigFile { path, message } => "failed to parse config file "@ + path + ": "@
            + message,
        ErrorView::Ssh(s) => "ssh error: "@ + s,
        ErrorView::Key(s) => "key error: "@ + s,
    }
}

fn two(a: &str, b: &str) -> (r: String)
    ensures
        r@ == a@ + b@,
{
    let mut r = a.to_owned();
    r.append(b);
    r
}

fn four(a: &str, b: &str, c: &str, d: &str) -> (r: String)
    ensures
        r@ == a@ + b@ + c@ + d@,
{
    let mut r = two(a, b);
    r.append(c);
    r.append(d);
    r
}

impl Error {
    /// The message of the failure.
    pub fn to_string(&self) -> (r: String)
        ensures
            r@ == error_text(self@),
    {
        match self {
            Error::Io(s) => two("i/o error: ", s.as_str()),
            Error::Bind { addr, source } => four(
                "failed to bind ",
                addr.to_string().as_str(),
                ": ",
                source.as_str(),
            ),
            Error::HostKeyLoad { path, source } => four(
                "failed to load host key ",
                path.as_str(),
                ": ",
                source.as_str(),
            ),
            Error::HostKeyGenerate(s) => two("failed to generate host key: ", s.as_str()),
            Error::NoHostKey => "no host key available".to_owned(),
            Error::AuthorizedKeys { path, source } => four(
                "failed to read authorized_keys ",
                path.as_str(),
                ": ",
                source.as_str(),
            ),
            Error::PublicKey(s) => two("invalid public key: ", s.as_str()),
            Error::Config(s) => two("invalid configuration: ", s.as_str()),
            Error::ConfigFile { path, message } => four(
                "failed to parse config file ",
                path.as_str(),
                ": ",
                message.as_str(),
            ),
            Error::Ssh(s) => two("ssh error: ", s.as_str()),
            Error::Key(s) => two("key error: ", s.as_str()),
        }
    }
}

/// The message of a failure says what failed and why.
pub proof fn what_messages_say(cause: Seq<char>, path: Seq<char>, addr: SocketAddr)
    ensures
        error_text(ErrorView::Io(cause)) == "i/o error: "@ + cause,
        error_text(ErrorView::Bind { addr, source: cause }) == "failed to bind "@ + socket_text(addr)
            + ": "@ + cause,
        error_text(ErrorView::HostKeyLoad { path, source: cause }) == "failed to load host key "@
            + path + ": "@ + cause,
        error_text(ErrorView::HostKeyGenerate(cause)) == "failed to generate host key: "@ + cause,
        error_text(ErrorView::NoHostKey) == "no host key available"@,
        error_text(ErrorView::AuthorizedKeys { path, source: cause })
            == "failed to read authorized_keys "@ + path + ": "@ + cause,
        error_text(ErrorView::PublicKey(cause)) == "invalid public key: "@ + cause,
        error_text(ErrorView::Config(cause)) == "invalid configuration: "@ + cause,
        error_text(ErrorView::ConfigFile { path, message: cause }) == "failed to parse config file "@
            + path + ": "@ + cause,
        error_text(ErrorView::Ssh(cause)) == "ssh error: "@ + cause,
        error_text(ErrorView::Key(cause)) == "key error: "@ + cause,
{
}

} // verus!
