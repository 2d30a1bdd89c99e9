use vstd::prelude::*;

verus! {

/// What the proxy reads of a parsed URL, as plain values.
pub struct UrlParts {
    /// The scheme, without the `:`.
    pub scheme: String,
    /// The host, where the URL has one.
    pub host: Option<String>,
    /// The port, where one is given that is not the scheme's default.
    pub port: Option<u16>,
    /// Everything from the start of the path to the end: path, query, fragment.
    pub from_path: String,
}

impl View for UrlParts {
    type V = (Seq<char>, Option<Seq<char>>, Option<u16>, Seq<char>);

    open spec fn view(&self) -> Self::V {
        (
            self.scheme@,
            match self.host {
                Some(h) => Some(h@),
                None => None,
            },
            self.port,
            self.from_path@,
        )
    }
}

/// The view of an optional `UrlParts`.
pub open spec fn url_parts_view(p: Option<UrlParts>) -> Option<(Seq<char>, Option<Seq<char>>, Option<u16>, Seq<char>)> {
    match p {
        Some(u) => Some(u@),
        None => None,
    }
}

/// What `url::Url::parse` makes of `input`, read through `scheme`,
/// `host_str`, `port` and the slice from `Position::BeforePath`; `None`
/// where the parse fails.
pub uninterp spec fn parsed_url(input: Seq<char>) -> Option<(Seq<char>, Option<Seq<char>>, Option<u16>, Seq<char>)>;

/// Calls `url::Url::parse` and reads the parsed URL through `Url::scheme`,
/// `Url::host_str`, `Url::port` and indexing from `Position::BeforePath`.
/// Trusted: the parts are the named result above, which depends on the input
/// alone; a parse error becomes `None`.
#[verifier::external_body]
pub(crate) fn parse_url(input: &str) -> (res: Option<UrlParts>)
    ensures
        url_parts_view(res) == parsed_url(input@),
{
    match url::Url::parse(input) {
        Ok(url) => Some(UrlParts {
            scheme: url.scheme().to_string(),
            host: match url.host_str() {
                Some(h) => Some(h.to_string()),
                None => None,
            },
            port: url.port(),
            from_path: url[url::Position::BeforePath..].to_string(),
        }),
        Err(_) => None,
    }
}

} // verus!
