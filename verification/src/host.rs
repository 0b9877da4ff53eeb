//! The bridge to the host application: what it may load and which addresses leave the machine.

use vstd::prelude::*;
use vstd::string::*;

use crate::codegen::wrap;
use crate::mlx::endpoint;
use crate::mlx::endpoint::host_of_url;
use crate::text;
use crate::text::{or_empty, same, trim_leading, trim_trailing};

verus! {

/// The directory and the service that the host uses.
#[derive(Debug)]
pub struct HostBridgeConfig {
    pub frontend_dir: String,
    pub backend_endpoint: String,
    pub block_external: bool,
}

/// Why a configuration is refused.
#[derive(Debug)]
pub enum HostConfigError {
    /// The directory does not exist.
    FrontendMissing(String),
    /// The directory has no `index.html`.
    IndexMissing(String),
    /// The endpoint is no URL.
    InvalidEndpoint(String),
    /// The endpoint is not on this machine.
    PublicEndpoint(String),
}

/// What a `HostConfigError` holds.
#[verifier::ext_equal]
pub enum HostConfigErrorView {
    FrontendMissing(Seq<char>),
    IndexMissing(Seq<char>),
    InvalidEndpoint(Seq<char>),
    PublicEndpoint(Seq<char>),
}

impl HostConfigError {
    pub open spec fn view(&self) -> HostConfigErrorView {
        match *self {
            HostConfigError::FrontendMissing(s) => HostConfigErrorView::FrontendMissing(s@),
            HostConfigError::IndexMissing(s) => HostConfigErrorView::IndexMissing(s@),
            HostConfigError::InvalidEndpoint(s) => HostConfigErrorView::InvalidEndpoint(s@),
            HostConfigError::PublicEndpoint(s) => HostConfigErrorView::PublicEndpoint(s@),
        }
    }
}

impl HostConfigError {
    /// The error in words.
    pub fn message(&self) -> (r: String)
        ensures
            r@ == match self@ {
                HostConfigErrorView::FrontendMissing(s) => "前端目录不存在: "@ + s,
                HostConfigErrorView::IndexMissing(s) => "前端目录缺少 index.html: "@ + s,
                HostConfigErrorView::InvalidEndpoint(s) => "无效 endpoint: "@ + s,
                HostConfigErrorView::PublicEndpoint(s) => "违反离线约束：endpoint host "@ + s
                    + " 非 localhost"@,
            },
    {
        match self {
            HostConfigError::FrontendMissing(s) => "前端目录不存在: ".to_owned().concat(s.as_str()),
            HostConfigError::IndexMissing(s) => "前端目录缺少 index.html: ".to_owned().concat(
                s.as_str(),
            ),
            HostConfigError::InvalidEndpoint(s) => "无效 endpoint: ".to_owned().concat(s.as_str()),
            HostConfigError::PublicEndpoint(s) => wrap(
                "违反离线约束：endpoint host ",
                s.as_str(),
                " 非 localhost",
            ),
        }
    }
}

/// The host is this machine.
pub open spec fn is_this_machine(host: Seq<char>) -> bool {
    host == "127.0.0.1"@ || host == "localhost"@ || host == "::1"@
}

/// Why an endpoint is refused.
pub open spec fn endpoint_fault(parsed: Result<Option<Seq<char>>, Seq<char>>) -> Option<
    HostConfigErrorView,
> {
    match parsed {
        Ok(h) => {
            let host = text::without_trailing(
                text::without_leading(text::text_or_empty(h), '['),
                ']',
            );
            if is_this_machine(host) {
                None
            } else {
                Some(HostConfigErrorView::PublicEndpoint(host))
            }
        },
        Err(e) => Some(HostConfigErrorView::InvalidEndpoint(e)),
    }
}

/// Why a configuration is refused: the directory is looked at first, then the endpoint.
pub open spec fn config_fault(
    dir: Seq<char>,
    dir_exists: bool,
    index_exists: bool,
    parsed: Result<Option<Seq<char>>, Seq<char>>,
) -> Option<HostConfigErrorView> {
    if !dir_exists {
        Some(HostConfigErrorView::FrontendMissing(dir))
    } else if !index_exists {
        Some(HostConfigErrorView::IndexMissing(dir))
    } else {
        endpoint_fault(parsed)
    }
}

/// Refuses an endpoint that is not on this machine. `parsed` is its host, or why it is no URL.
pub fn check_endpoint_host(parsed: Result<Option<String>, String>) -> (r: Result<
    (),
    HostConfigError,
>)
    ensures
        match endpoint_fault(endpoint::parsed_view(parsed)) {
            Some(e) => r is Err && r->Err_0@ == e,
            None => r is Ok,
        },
{
    match parsed {
        Ok(h) => {
            let host = trim_trailing(trim_leading(or_empty(&h).as_str(), '[').as_str(), ']');
            if same(host.as_str(), "127.0.0.1") || same(host.as_str(), "localhost") || same(
                host.as_str(),
                "::1",
            ) {
                Ok(())
            } else {
                Err(HostConfigError::PublicEndpoint(host))
            }
        },
        Err(e) => Err(HostConfigError::InvalidEndpoint(e)),
    }
}

impl HostBridgeConfig {
    /// Refuses a configuration without a page to load, or with a service that is not on this
    /// machine. The caller says whether the directory and its `index.html` exist.
    pub fn validate(&self, dir_exists: bool, index_exists: bool) -> (r: Result<(), HostConfigError>)
        ensures
            match config_fault(
                self.frontend_dir@,
                dir_exists,
                index_exists,
                endpoint::url_host(self.backend_endpoint@),
            ) {
                Some(e) => r is Err && r->Err_0@ == e,
                None => r is Ok,
            },
    {
        if !dir_exists {
            return Err(HostConfigError::FrontendMissing(self.frontend_dir.clone()));
        }
        if !index_exists {
            return Err(HostConfigError::IndexMissing(self.frontend_dir.clone()));
        }
        check_endpoint_host(host_of_url(self.backend_endpoint.as_str()))
    }

    /// The address of the page to load.
    pub fn index_url(&self) -> (r: String)
        ensures
            r@ == "file://"@ + text::path_in(self.frontend_dir@, "index.html"@),
    {
        let path = text::join_path(self.frontend_dir.as_str(), "index.html");
        "file://".to_owned().concat(path.as_str())
    }
}

/// An address leaves the machine where it is a URL with a host that is another machine.
pub open spec fn leaves_machine(parsed: Result<Option<Seq<char>>, Seq<char>>) -> bool {
    match parsed {
        Ok(Some(host)) => host.len() > 0 && !is_this_machine(host),
        _ => false,
    }
}

/// Whether an address leaves the machine. `parsed` is its host, or why it is no URL.
pub fn is_external_host(parsed: &Result<Option<String>, String>) -> (r: bool)
    ensures
        r == leaves_machine(endpoint::parsed_view(*parsed)),
{
    match parsed {
        Ok(Some(h)) => {
            let host = h.as_str();
            !same(host, "127.0.0.1") && !same(host, "localhost") && !same(host, "::1")
                && !host.is_empty()
        },
        _ => false,
    }
}

/// Whether an address leaves the machine.
pub fn is_external_url(url: &str) -> (r: bool)
    ensures
        r == leaves_machine(endpoint::url_host(url@)),
{
    is_external_host(&host_of_url(url))
}

/// A configuration that is accepted talks to this machine only: its endpoint has a host, and that
/// host is this machine.
pub proof fn law_accepted_endpoint_is_local(
    dir: Seq<char>,
    dir_exists: bool,
    index_exists: bool,
    parsed: Result<Option<Seq<char>>, Seq<char>>,
)
    requires
        config_fault(dir, dir_exists, index_exists, parsed) is None,
    ensures
        dir_exists && index_exists,
        parsed matches Ok(Some(h)) && is_this_machine(
            text::without_trailing(text::without_leading(h, '['), ']'),
        ),
{
    reveal_strlit("127.0.0.1");
    reveal_strlit("localhost");
    reveal_strlit("::1");
    let nothing = Seq::<char>::empty();
    assert(text::without_leading(nothing, '[') =~= nothing);
    assert(text::without_trailing(nothing, ']') =~= nothing);
}

/// A configuration is refused for a missing directory first, then for a missing start page, then for
/// its endpoint, and only for these.
pub proof fn law_configuration_is_refused_for_a_reason(
    dir: Seq<char>,
    dir_exists: bool,
    index_exists: bool,
    parsed: Result<Option<Seq<char>>, Seq<char>>,
)
    ensures
        ({
            let fault = config_fault(dir, dir_exists, index_exists, parsed);
            &&& !dir_exists <==> fault == Some(HostConfigErrorView::FrontendMissing(dir))
            &&& dir_exists && !index_exists <==> fault == Some(HostConfigErrorView::IndexMissing(dir))
            &&& dir_exists && index_exists ==> fault == endpoint_fault(parsed)
            &&& parsed matches Err(e) ==> endpoint_fault(parsed) == Some(
                HostConfigErrorView::InvalidEndpoint(e),
            )
        }),
{
}

/// The names of this machine are accepted, in brackets or without, and any other host is told as a
/// public one.
pub proof fn law_only_this_machine_is_accepted(host: Seq<char>)
    requires
        host.len() > 0,
        host[0] != '[',
        host.last() != ']',
    ensures
        endpoint_fault(Ok(Some(host))) is None <==> is_this_machine(host),
        !is_this_machine(host) ==> endpoint_fault(Ok(Some(host))) == Some(
            HostConfigErrorView::PublicEndpoint(host),
        ),
        endpoint_fault(Ok(Some(seq!['['] + host + seq![']']))) == endpoint_fault(Ok(Some(host))),
        leaves_machine(Ok(Some(host))) <==> endpoint_fault(Ok(Some(host))) is Some,
        is_this_machine("127.0.0.1"@) && is_this_machine("localhost"@) && is_this_machine("::1"@),
{
    let b = seq!['['] + host + seq![']'];
    assert(b[0] == '[');
    assert(b.skip(1) =~= host + seq![']']);
    assert(text::without_leading(host + seq![']'], '[') == host + seq![']']);
    assert((host + seq![']']).last() == ']');
    assert((host + seq![']']).drop_last() =~= host);
    assert(text::without_trailing(host, ']') == host);
}

/// An address without a host, or that is none, does not leave the machine.
pub proof fn law_addresses_without_a_host_stay(e: Seq<char>)
    ensures
        !leaves_machine(Err(e)),
        !leaves_machine(Ok(None)),
        !leaves_machine(Ok(Some(Seq::empty()))),
{
}

} // verus!
