use vstd::prelude::*;

use crate::text::{append_decimal, decimal, str_eq};
use crate::url_parts::{UrlParts, parse_url, parsed_url};

pub mod quic;
pub mod tcp;

verus! {

broadcast use vstd::string::group_string_axioms;

/// A server that accepts connections until it is stopped.
pub trait TransportServer {
    fn stop(&self);
}

/// The transports the proxy speaks.
#[derive(Debug, Clone, Copy, PartialEq, Eq, Structural)]
pub enum TransportKind {
    Tcp,
    Quic,
}

/// The name `tcp`.
pub open spec fn tcp_name() -> Seq<char> {
    seq!['t', 'c', 'p']
}

/// The name `quic`.
pub open spec fn quic_name() -> Seq<char> {
    seq!['q', 'u', 'i', 'c']
}

/// Why a transport name or a passthrough URL is refused.
#[derive(Debug, Clone, PartialEq, Eq)]
pub enum TransportError {
    /// The transport is neither `tcp` nor `quic`.
    UnknownTransport(String),
    /// The passthrough URL does not parse.
    InvalidUrl,
    /// The passthrough URL has no host: the proxy does not start with it.
    MissingHost,
    /// The scheme of the passthrough URL is neither `tcp` nor `quic`.
    UnknownScheme(String),
}

/// The view of a `TransportError`.
pub enum TransportErrorView {
    UnknownTransport(Seq<char>),
    InvalidUrl,
    MissingHost,
    UnknownScheme(Seq<char>),
}

impl View for TransportError {
    type V = TransportErrorView;

    open spec fn view(&self) -> TransportErrorView {
        match self {
            TransportError::UnknownTransport(t) => TransportErrorView::UnknownTransport(t@),
            TransportError::InvalidUrl => TransportErrorView::InvalidUrl,
            TransportError::MissingHost => TransportErrorView::MissingHost,
            TransportError::UnknownScheme(s) => TransportErrorView::UnknownScheme(s@),
        }
    }
}

/// The transport that the name `transport` selects.
pub open spec fn transport_kind_of(transport: Seq<char>) -> Result<TransportKind, TransportErrorView> {
    if transport == tcp_name() {
        Ok(TransportKind::Tcp)
    } else if transport == quic_name() {
        Ok(TransportKind::Quic)
    } else {
        Err(TransportErrorView::UnknownTransport(transport))
    }
}

/// The transport that the server listens with: `tcp` or `quic`.
pub fn transport_kind(transport: &str) -> (r: Result<TransportKind, TransportError>)
    ensures
        match r {
            Ok(k) => transport_kind_of(transport@) == Ok::<TransportKind, TransportErrorView>(k),
            Err(e) => transport_kind_of(transport@) == Err::<TransportKind, TransportErrorView>(e@),
        },
{
    proof {
        reveal_strlit("tcp");
        reveal_strlit("quic");
    }
    let tcp = "tcp";
    let quic = "quic";
    assert(tcp@ =~= tcp_name());
    assert(quic@ =~= quic_name());
    if str_eq(transport, tcp) {
        Ok(TransportKind::Tcp)
    } else if str_eq(transport, quic) {
        Ok(TransportKind::Quic)
    } else {
        Err(TransportError::UnknownTransport(transport.to_owned()))
    }
}

/// Where passed-through traffic goes: the transport and the address.
pub struct PassthroughTarget {
    pub kind: TransportKind,
    pub address: String,
}

/// The passthrough target that a parsed URL names: the transport is its
/// scheme, the address its host followed by `:port` where it gives a port.
pub open spec fn passthrough_target_of(
    url: Option<(Seq<char>, Option<Seq<char>>, Option<u16>, Seq<char>)>,
) -> Result<(TransportKind, Seq<char>), TransportErrorView> {
    match url {
        None => Err(TransportErrorView::InvalidUrl),
        Some((scheme, host, port, _)) => match host {
            None => Err(TransportErrorView::MissingHost),
            Some(h) => {
                let address = match port {
                    Some(p) => h + seq![':'] + decimal(p as nat),
                    None => h,
                };
                if scheme == tcp_name() {
                    Ok((TransportKind::Tcp, address))
                } else if scheme == quic_name() {
                    Ok((TransportKind::Quic, address))
                } else {
                    Err(TransportErrorView::UnknownScheme(scheme))
                }
            },
        },
    }
}

/// The view of a passthrough result.
pub open spec fn target_view(r: Result<PassthroughTarget, TransportError>) -> Result<(TransportKind, Seq<char>), TransportErrorView> {
    match r {
        Ok(t) => Ok((t.kind, t.address@)),
        Err(e) => Err(e@),
    }
}

/// The passthrough target of a parsed URL (`None` where it did not parse).
pub fn passthrough_target_from(url: Option<UrlParts>) -> (r: Result<PassthroughTarget, TransportError>)
    ensures
        target_view(r) == passthrough_target_of(match url {
            Some(u) => Some(u@),
            None => None,
        }),
{
    match url {
        None => Err(TransportError::InvalidUrl),
        Some(u) => match u.host {
            None => Err(TransportError::MissingHost),
            Some(host) => {
                let mut address = host;
                match u.port {
                    Some(p) => {
                        proof {
                            reveal_strlit(":");
                        }
                        let colon = ":";
                        assert(colon@ =~= seq![':']);
                        address.append(colon);
                        append_decimal(&mut address, p);
                    },
                    None => {},
                }
                proof {
                    reveal_strlit("tcp");
                    reveal_strlit("quic");
                }
                let tcp = "tcp";
                let quic = "quic";
                assert(tcp@ =~= tcp_name());
                assert(quic@ =~= quic_name());
                if str_eq(u.scheme.as_str(), tcp) {
                    Ok(PassthroughTarget { kind: TransportKind::Tcp, address })
                } else if str_eq(u.scheme.as_str(), quic) {
                    Ok(PassthroughTarget { kind: TransportKind::Quic, address })
                } else {
                    Err(TransportError::UnknownScheme(u.scheme))
                }
            },
        },
    }
}

/// The passthrough target that `url` names, such as `quic://host:1080`.
pub fn passthrough_target(url: &str) -> (r: Result<PassthroughTarget, TransportError>)
    ensures
        target_view(r) == passthrough_target_of(parsed_url(url@)),
{
    passthrough_target_from(parse_url(url))
}

/// The name `tcp` selects TCP, `quic` selects QUIC, and any other name is
/// refused with that name.
pub proof fn transport_names(transport: Seq<char>)
    ensures
        transport == seq!['t', 'c', 'p'] ==> transport_kind_of(transport) == Ok::<TransportKind, TransportErrorView>(
            TransportKind::Tcp,
        ),
        transport == seq!['q', 'u', 'i', 'c'] ==> transport_kind_of(transport) == Ok::<
            TransportKind,
            TransportErrorView,
        >(TransportKind::Quic),
        transport != seq!['t', 'c', 'p'] && transport != seq!['q', 'u', 'i', 'c'] ==> transport_kind_of(transport)
            == Err::<TransportKind, TransportErrorView>(TransportErrorView::UnknownTransport(transport)),
{
}

/// A passthrough URL with a host names a TCP or QUIC target, as its scheme
/// says, at its host followed by `:port` where it gives a port; any other
/// scheme is refused with that scheme; a URL without a host, or one that does
/// not parse, names no target.
pub proof fn passthrough_targets(scheme: Seq<char>, host: Seq<char>, port: Option<u16>, rest: Seq<char>)
    ensures
        ({
            let address = match port {
                Some(p) => host + seq![':'] + decimal(p as nat),
                None => host,
            };
            &&& scheme == seq!['t', 'c', 'p'] ==> passthrough_target_of(Some((scheme, Some(host), port, rest))) == Ok::<
                (TransportKind, Seq<char>),
                TransportErrorView,
            >((TransportKind::Tcp, address))
            &&& scheme == seq!['q', 'u', 'i', 'c'] ==> passthrough_target_of(Some((scheme, Some(host), port, rest)))
                == Ok::<(TransportKind, Seq<char>), TransportErrorView>((TransportKind::Quic, address))
            &&& scheme != seq!['t', 'c', 'p'] && scheme != seq!['q', 'u', 'i', 'c'] ==> passthrough_target_of(
                Some((scheme, Some(host), port, rest)),
            ) == Err::<(TransportKind, Seq<char>), TransportErrorView>(TransportErrorView::UnknownScheme(scheme))
        }),
        passthrough_target_of(Some((scheme, None, port, rest))) == Err::<(TransportKind, Seq<char>), TransportErrorView>(
            TransportErrorView::MissingHost,
        ),
        passthrough_target_of(None) == Err::<(TransportKind, Seq<char>), TransportErrorView>(
            TransportErrorView::InvalidUrl,
        ),
{
}

} // verus!
