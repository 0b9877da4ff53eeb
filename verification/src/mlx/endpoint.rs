//! Endpoints: which are tried, and which may be tried at all.

use vstd::arithmetic::div_mod::{lemma_fundamental_div_mod, lemma_fundamental_div_mod_converse};
use vstd::arithmetic::mul::lemma_mul_is_distributive_add;
use vstd::prelude::*;
use vstd::string::*;

use crate::mlx::address;
use crate::mlx::address::{is_private_or_local, loopback, read_address, AddressView};
use crate::text;
use crate::text::{same, split, trim, trim_leading, trim_trailing};

verus! {

/// Where the service is looked for where nothing else is said.
pub const DEFAULT_MLX_ENDPOINT: &'static str = "http://127.0.0.1:11432";

/// Why an endpoint is refused.
#[derive(Debug)]
pub enum EndpointError {
    /// There is none.
    Empty,
    /// It is no URL.
    Invalid { endpoint: String, reason: String },
    /// Its host is an address outside the local network.
    PublicAddress(String),
    /// Its host is a name other than `localhost`.
    UnknownName(String),
}

/// What an `EndpointError` holds.
#[verifier::ext_equal]
pub enum EndpointErrorView {
    Empty,
    Invalid { endpoint: Seq<char>, reason: Seq<char> },
    PublicAddress(Seq<char>),
    UnknownName(Seq<char>),
}

impl EndpointError {
    pub open spec fn view(&self) -> EndpointErrorView {
        match *self {
            EndpointError::Empty => EndpointErrorView::Empty,
            EndpointError::Invalid { endpoint, reason } => EndpointErrorView::Invalid {
                endpoint: endpoint@,
                reason: reason@,
            },
            EndpointError::PublicAddress(h) => EndpointErrorView::PublicAddress(h@),
            EndpointError::UnknownName(h) => EndpointErrorView::UnknownName(h@),
        }
    }
}

/// What `reqwest::Url::parse` makes of a text: the host, where the URL has one, or the reason why
/// the text is no URL.
pub uninterp spec fn url_host(text: Seq<char>) -> Result<Option<Seq<char>>, Seq<char>>;

/// Calls `reqwest::Url::parse` and takes the host out of the URL: the host, or why there is no URL,
/// follows from the text alone.
#[verifier::external_body]
pub(crate) fn host_of_url(s: &str) -> (r: Result<Option<String>, String>)
    ensures
        match r {
            Ok(h) => url_host(s@) == Ok::<Option<Seq<char>>, Seq<char>>(text::opt_text(h)),
            Err(e) => url_host(s@) == Err::<Option<Seq<char>>, Seq<char>>(e@),
        },
{
    match reqwest::Url::parse(s) {
        Ok(url) => Ok(url.host_str().map(|h| h.to_owned())),
        Err(e) => Err(e.to_string()),
    }
}

// ---------------------------------------------------------------------------
// Which endpoints
// ---------------------------------------------------------------------------

/// The parts without white space around them, but for those that hold nothing else.
pub open spec fn trimmed_parts(parts: Seq<Seq<char>>) -> Seq<Seq<char>>
    decreases parts.len(),
{
    if parts.len() == 0 {
        Seq::empty()
    } else {
        let rest = trimmed_parts(parts.drop_last());
        let last = text::trimmed(parts.last());
        if last.len() == 0 {
            rest
        } else {
            rest.push(last)
        }
    }
}

/// The endpoints that a list names; the default where it names none.
pub open spec fn listed(raw: Seq<char>) -> Seq<Seq<char>> {
    let parts = trimmed_parts(text::split_on(raw, ','));
    if parts.len() == 0 {
        seq![DEFAULT_MLX_ENDPOINT@]
    } else {
        parts
    }
}

/// What is asked for: the argument, or the environment's value, or the default; blank ones do not
/// count.
pub open spec fn chosen(argument: Seq<char>, environment: Option<Seq<char>>) -> Seq<char> {
    if text::trimmed(argument).len() > 0 {
        text::trimmed(argument)
    } else {
        match environment {
            Some(e) => if text::trimmed(e).len() > 0 {
                text::trimmed(e)
            } else {
                DEFAULT_MLX_ENDPOINT@
            },
            None => DEFAULT_MLX_ENDPOINT@,
        }
    }
}

/// The endpoints of a list that is separated by commas.
pub fn parse_endpoints(raw: &str) -> (r: Vec<String>)
    ensures
        text::texts(r@) == listed(raw@),
{
    let parts = split(raw, ',');
    let ghost views = text::texts(parts@);
    let mut out: Vec<String> = Vec::new();
    let mut i: usize = 0;
    proof {
        assert(text::texts(out@) =~= Seq::empty());
    }
    while i < parts.len()
        invariant
            i <= parts@.len(),
            views == text::texts(parts@),
            text::texts(out@) == trimmed_parts(views.take(i as int)),
        decreases parts.len() - i,
    {
        let ghost before = text::texts(out@);
        let part = trim(parts[i].as_str());
        proof {
            text::lemma_take_step(views, i as int);
        }
        if !part.as_str().is_empty() {
            out.push(part);
            proof {
                assert(text::texts(out@) =~= before.push(part@));
            }
        }
        i = i + 1;
    }
    proof {
        text::lemma_take_all(views);
        assert(text::texts(out@).len() == out@.len());
    }
    if out.len() == 0 {
        let r: Vec<String> = vec![DEFAULT_MLX_ENDPOINT.to_owned()];
        proof {
            assert(text::texts(r@) =~= seq![DEFAULT_MLX_ENDPOINT@]);
        }
        r
    } else {
        out
    }
}

/// The endpoints to try: those of the argument, or of the environment, or the default.
pub fn resolve_endpoint(cli_endpoint: &str, environment: &Option<String>) -> (r: Vec<String>)
    ensures
        text::texts(r@) == listed(chosen(cli_endpoint@, text::opt_text(*environment))),
{
    let given = trim(cli_endpoint);
    if !given.as_str().is_empty() {
        return parse_endpoints(given.as_str());
    }
    match environment {
        Some(e) => {
            let value = trim(e.as_str());
            if !value.as_str().is_empty() {
                return parse_endpoints(value.as_str());
            }
        },
        None => {},
    }
    parse_endpoints(DEFAULT_MLX_ENDPOINT)
}

// ---------------------------------------------------------------------------
// Which are allowed
// ---------------------------------------------------------------------------

/// A host without the brackets around it.
pub open spec fn bare_host(host: Option<Seq<char>>) -> Seq<char> {
    text::without_trailing(text::without_leading(text::text_or_empty(host), '['), ']')
}

/// A host that is `localhost`, or an address of the machine or of its network.
pub open spec fn is_local(host: Seq<char>) -> bool {
    host == "localhost"@ || (address::address(host) matches Some(a) && (address::is_loopback(a)
        || address::is_nearby(a)))
}

/// Why an endpoint is refused. `parsed` is its host, or why it is no URL.
pub open spec fn refusal(
    endpoint: Seq<char>,
    parsed: Result<Option<Seq<char>>, Seq<char>>,
) -> Option<EndpointErrorView> {
    match parsed {
        Ok(h) => if is_local(bare_host(h)) {
            None
        } else if address::address(bare_host(h)) is Some {
            Some(EndpointErrorView::PublicAddress(bare_host(h)))
        } else {
            Some(EndpointErrorView::UnknownName(bare_host(h)))
        },
        Err(reason) => Some(EndpointErrorView::Invalid { endpoint, reason }),
    }
}

/// Why the first of the endpoints that are refused is.
pub open spec fn first_refusal(endpoints: Seq<Seq<char>>) -> Option<EndpointErrorView>
    decreases endpoints.len(),
{
    if endpoints.len() == 0 {
        None
    } else {
        match refusal(endpoints[0], url_host(endpoints[0])) {
            Some(e) => Some(e),
            None => first_refusal(endpoints.skip(1)),
        }
    }
}

pub open spec fn parsed_view(parsed: Result<Option<String>, String>) -> Result<
    Option<Seq<char>>,
    Seq<char>,
> {
    match parsed {
        Ok(h) => Ok(text::opt_text(h)),
        Err(e) => Err(e@),
    }
}

/// Refuses an endpoint whose host is outside the machine and its network. `parsed` is its host, or
/// why it is no URL.
pub fn check_parsed(endpoint: &str, parsed: Result<Option<String>, String>) -> (r: Result<
    (),
    EndpointError,
>)
    ensures
        match refusal(endpoint@, parsed_view(parsed)) {
            Some(e) => r is Err && r->Err_0@ == e,
            None => r is Ok,
        },
{
    let host = match parsed {
        Ok(h) => trim_trailing(trim_leading(text::or_empty(&h).as_str(), '[').as_str(), ']'),
        Err(reason) => return Err(
            EndpointError::Invalid { endpoint: endpoint.to_owned(), reason },
        ),
    };
    if same(host.as_str(), "localhost") {
        return Ok(());
    }
    match read_address(host.as_str()) {
        Some(a) => if loopback(&a) || is_private_or_local(&a) {
            Ok(())
        } else {
            Err(EndpointError::PublicAddress(host))
        },
        None => Err(EndpointError::UnknownName(host)),
    }
}

/// Refuses an endpoint whose host is outside the machine and its network.
pub fn validate_localhost(endpoint: &str) -> (r: Result<(), EndpointError>)
    ensures
        match refusal(endpoint@, url_host(endpoint@)) {
            Some(e) => r is Err && r->Err_0@ == e,
            None => r is Ok,
        },
{
    check_parsed(endpoint, host_of_url(endpoint))
}

/// Refuses a list of endpoints that is empty or holds one that is not allowed.
pub fn check_endpoints(endpoints: &Vec<String>) -> (r: Result<(), EndpointError>)
    ensures
        endpoints@.len() == 0 ==> r is Err && r->Err_0@ == EndpointErrorView::Empty,
        endpoints@.len() > 0 ==> match first_refusal(text::texts(endpoints@)) {
            Some(e) => r is Err && r->Err_0@ == e,
            None => r is Ok,
        },
{
    if endpoints.len() == 0 {
        return Err(EndpointError::Empty);
    }
    let ghost views = text::texts(endpoints@);
    let mut i: usize = 0;
    proof {
        assert(views.skip(0) =~= views);
    }
    while i < endpoints.len()
        invariant
            i <= endpoints@.len(),
            endpoints@.len() > 0,
            views == text::texts(endpoints@),
            first_refusal(views) == first_refusal(views.skip(i as int)),
        decreases endpoints.len() - i,
    {
        proof {
            assert(views.skip(i as int)[0] == endpoints@[i as int]@);
            assert(views.skip(i as int).skip(1) =~= views.skip(i + 1));
        }
        match validate_localhost(endpoints[i].as_str()) {
            Ok(_) => {},
            Err(e) => return Err(e),
        }
        i = i + 1;
    }
    Ok(())
}

// ---------------------------------------------------------------------------
// Whose turn it is
// ---------------------------------------------------------------------------

/// The endpoint whose turn it is: a single one always, of several each in turn.
pub open spec fn turn(count: nat, counter: nat) -> int {
    if count <= 1 {
        0
    } else {
        (counter % count) as int
    }
}

/// The position of the endpoint for the next request, and the counter after it; a single endpoint
/// leaves the counter.
pub fn endpoint_for_attempt(count: usize, counter: u32) -> (r: (usize, u32))
    requires
        count > 0,
    ensures
        r.0 == turn(count as nat, counter as nat),
        r.0 < count,
        r.1 == if count == 1 {
            counter as int
        } else if counter == u32::MAX {
            0
        } else {
            counter + 1
        },
{
    if count == 1 {
        return (0, counter);
    }
    let next: u32 = if counter == u32::MAX {
        0
    } else {
        counter + 1
    };
    ((counter as usize) % count, next)
}

// ---------------------------------------------------------------------------
// Laws
// ---------------------------------------------------------------------------

/// There is always an endpoint to try.
pub proof fn law_some_endpoint_is_listed(raw: Seq<char>)
    ensures
        listed(raw).len() >= 1,
{
}

/// No endpoint that is listed is blank.
pub proof fn law_listed_parts_are_not_blank(parts: Seq<Seq<char>>, i: int)
    requires
        0 <= i < trimmed_parts(parts).len(),
    ensures
        trimmed_parts(parts)[i].len() > 0,
    decreases parts.len(),
{
    let rest = trimmed_parts(parts.drop_last());
    if i < rest.len() {
        law_listed_parts_are_not_blank(parts.drop_last(), i);
    }
}

/// Where a list of endpoints is accepted, each of them is a URL whose host is `localhost` or an
/// address of the machine or of its network.
pub proof fn law_accepted_endpoints_are_local(endpoints: Seq<Seq<char>>, i: int)
    requires
        first_refusal(endpoints) is None,
        0 <= i < endpoints.len(),
    ensures
        url_host(endpoints[i]) matches Ok(h) && is_local(bare_host(h)),
    decreases endpoints.len(),
{
    if i > 0 {
        law_accepted_endpoints_are_local(endpoints.skip(1), i - 1);
        assert(endpoints.skip(1)[i - 1] == endpoints[i]);
    }
}

/// A host in dotted decimal is allowed where it is an address of the machine or of its network; any
/// other is refused as a public address.
pub proof fn law_public_address_is_refused(endpoint: Seq<char>, a: Seq<u8>)
    requires
        a.len() == 4,
    ensures
        ({
            let host = address::dotted(a);
            let near = a[0] == 127 || a[0] == 10 || (a[0] == 172 && 16 <= a[1] <= 31) || (a[0]
                == 192 && a[1] == 168) || (a[0] == 169 && a[1] == 254);
            refusal(endpoint, Ok(Some(host))) == if near {
                None
            } else {
                Some(EndpointErrorView::PublicAddress(host))
            }
        }),
{
    let host = address::dotted(a);
    address::law_dotted_decimal_is_read(a);
    lemma_localhost_is_a_name();
    address::lemma_dotted_ends(a);
    assert(bare_host(Some(host)) == host);
}

/// An address in IPv6 that is global, or that stands for any address, is refused.
pub proof fn law_public_v6_address_is_refused(
    endpoint: Seq<char>,
    host: Option<Seq<char>>,
    s: Seq<u16>,
)
    requires
        address::address(bare_host(host)) == Some(AddressView::V6(s)),
        (0x2000 <= s[0] <= 0x3fff) || (forall|i: int| 0 <= i < 8 ==> #[trigger] s[i] == 0),
    ensures
        refusal(endpoint, Ok(host)) == Some(EndpointErrorView::PublicAddress(bare_host(host))),
{
    lemma_localhost_is_a_name();
    assert(s[7] == 0 || s[0] != 0);
}

proof fn lemma_localhost_is_a_name()
    ensures
        address::address("localhost"@) is None,
{
    reveal_strlit("localhost");
    address::law_plain_name_is_no_address("localhost"@);
}

/// Several endpoints take turns: as many requests in a row as there are endpoints go to each once.
pub proof fn law_turns_reach_every_endpoint(count: nat, start: nat, i: nat)
    requires
        count > 1,
        i < count,
    ensures
        exists|k: nat| k < count && #[trigger] turn(count, start + k) == i,
{
    let s = (start % count) as int;
    let k: int = if i >= s {
        i - s
    } else {
        i - s + count
    };
    let n = count as int;
    let q = start as int / n;
    lemma_fundamental_div_mod(start as int, n);
    assert(start as int == n * q + s);
    if i >= s {
        lemma_fundamental_div_mod_converse(start + k, n, q, i as int);
    } else {
        lemma_mul_is_distributive_add(n, q, 1);
        lemma_fundamental_div_mod_converse(start + k, n, q + 1, i as int);
    }
    assert(turn(count, start + k as nat) == i);
}

/// Endpoints are listed in the order in which they are written.
pub proof fn law_endpoints_keep_their_order(a: Seq<Seq<char>>, b: Seq<Seq<char>>)
    ensures
        trimmed_parts(a + b) == trimmed_parts(a) + trimmed_parts(b),
    decreases b.len(),
{
    if b.len() == 0 {
        assert(a + b =~= a);
        assert(trimmed_parts(a) + trimmed_parts(b) =~= trimmed_parts(a));
    } else {
        law_endpoints_keep_their_order(a, b.drop_last());
        assert((a + b).drop_last() =~= a + b.drop_last());
        assert((a + b).last() == b.last());
        assert(trimmed_parts(a + b) =~= trimmed_parts(a) + trimmed_parts(b));
    }
}

/// A text without a comma names itself; two with a comma between them name both.
pub proof fn law_written_endpoints_are_listed(a: Seq<char>, b: Seq<char>)
    requires
        !a.contains(',') && !b.contains(','),
        text::trimmed(a).len() > 0 && text::trimmed(b).len() > 0,
    ensures
        listed(a) == seq![text::trimmed(a)],
        listed(a + seq![','] + b) == seq![text::trimmed(a), text::trimmed(b)],
{
    let nothing = Seq::<char>::empty();
    assert(nothing + a =~= a);
    text::lemma_split_tail(nothing, a, ',');
    assert(text::split_on(nothing, ',') =~= seq![nothing]);
    assert(text::split_on(a, ',') =~= seq![a]);
    text::lemma_split_more(a, b, ',');
    assert(seq![a].push(b) =~= seq![a, b]);
    lemma_one_part(a);
    lemma_one_part(b);
    law_endpoints_keep_their_order(seq![a], seq![b]);
    assert(seq![a] + seq![b] =~= seq![a, b]);
    assert(seq![text::trimmed(a)] + seq![text::trimmed(b)] =~= seq![
        text::trimmed(a),
        text::trimmed(b),
    ]);
}

proof fn lemma_one_part(a: Seq<char>)
    requires
        text::trimmed(a).len() > 0,
    ensures
        trimmed_parts(seq![a]) == seq![text::trimmed(a)],
{
    assert(seq![a].drop_last() =~= Seq::<Seq<char>>::empty());
    assert(trimmed_parts(Seq::<Seq<char>>::empty()) == Seq::<Seq<char>>::empty());
    assert(trimmed_parts(seq![a]) =~= seq![text::trimmed(a)]);
}

/// The argument counts before the environment, and the environment before the default; white space
/// counts for nothing.
pub proof fn law_argument_counts_first(argument: Seq<char>, environment: Seq<char>)
    ensures
        text::trimmed(argument).len() > 0 ==> chosen(argument, Some(environment)) == text::trimmed(
            argument,
        ) && chosen(argument, None) == text::trimmed(argument),
        text::trimmed(argument).len() == 0 && text::trimmed(environment).len() > 0 ==> chosen(
            argument,
            Some(environment),
        ) == text::trimmed(environment),
        text::trimmed(argument).len() == 0 && text::trimmed(environment).len() == 0 ==> chosen(
            argument,
            Some(environment),
        ) == DEFAULT_MLX_ENDPOINT@ && chosen(argument, None) == DEFAULT_MLX_ENDPOINT@,
{
}

} // verus!
