//! Request templates, weighted endpoint selection and HTTP client settings.
use vstd::prelude::*;
use crate::config::{EndpointConfig, EndpointView, GroupConfig, TimeSpan};
use crate::error::{DhanushError, ErrorView};
use crate::text::clone_opt_string;
use rand::distributions::{Distribution, WeightedIndex};

verus! {

// ------------------------------------------------------------------
// HTTP tokens
// ------------------------------------------------------------------

/// A character allowed in an HTTP method or header name (an RFC 9110 token
/// character).
pub open spec fn is_token_char(c: char) -> bool {
    ||| ('a' <= c && c <= 'z')
    ||| ('A' <= c && c <= 'Z')
    ||| ('0' <= c && c <= '9')
    ||| c == '!' || c == '#' || c == '$' || c == '%' || c == '&' || c == '\''
    ||| c == '*' || c == '+' || c == '-' || c == '.' || c == '^' || c == '_'
    ||| c == '`' || c == '|' || c == '~'
}

/// The methods that `http::Method::from_str` accepts: non-empty strings of
/// token characters.
pub open spec fn method_is_valid(s: Seq<char>) -> bool {
    s.len() > 0 && forall|i: int| 0 <= i < s.len() ==> is_token_char(#[trigger] s[i])
}

/// The header values that `http::HeaderValue::from_str` accepts: each
/// character is a tab or has a code of at least 32 other than 127.
pub open spec fn header_value_is_valid(s: Seq<char>) -> bool {
    forall|i: int| 0 <= i < s.len() ==> (#[trigger] s[i] == '\t' || (s[i] >= ' ' && s[i] != '\u{7f}'))
}

/// The header names that `http::HeaderName::from_str` accepts: from 1 to
/// 65535 token characters (upper case ones are taken and made lower case).
pub open spec fn header_name_is_valid(s: Seq<char>) -> bool {
    &&& 0 < s.len() <= 65535
    &&& forall|i: int| 0 <= i < s.len() ==> is_token_char(#[trigger] s[i])
}

/// Calls `http::Method::from_str` (re-exported by `reqwest`) and tells
/// whether it accepted the text. The contract claims what its source shows:
/// a non-empty string of token characters is accepted, nothing else.
#[verifier::external_body]
fn method_parses(s: &str) -> (b: bool)
    ensures
        b == method_is_valid(s@),
{
    s.parse::<reqwest::Method>().is_ok()
}

/// Calls `http::HeaderName::from_str` (re-exported by `reqwest`) and tells
/// whether it accepted the text. The contract claims what its source shows:
/// a name of 1 to 65535 bytes each of which its table of header characters
/// maps to a token character is accepted, nothing else (a character outside
/// ASCII has bytes that the table refuses).
#[verifier::external_body]
fn header_name_parses(s: &str) -> (b: bool)
    ensures
        b == header_name_is_valid(s@),
{
    s.parse::<reqwest::header::HeaderName>().is_ok()
}

/// Calls `http::HeaderValue::from_str` (re-exported by `reqwest`) and tells
/// whether it accepted the text. The contract claims what its source shows
/// (it checks each UTF-8 byte: a tab, or at least 32 and not 127).
#[verifier::external_body]
fn header_value_parses(s: &str) -> (b: bool)
    ensures
        b == header_value_is_valid(s@),
{
    s.parse::<reqwest::header::HeaderValue>().is_ok()
}

// ------------------------------------------------------------------
// Request templates
// ------------------------------------------------------------------

/// A request ready to be sent, built once per endpoint.
#[derive(Debug, Clone)]
pub struct RequestTemplate {
    pub url: String,
    /// A method that `http::Method` accepts.
    pub method: String,
    /// Headers whose names and values `http` accepts.
    pub headers: Vec<(String, String)>,
    pub body: Option<String>,
}

/// The mathematical value of a `RequestTemplate`.
pub struct TemplateView {
    pub url: Seq<char>,
    pub method: Seq<char>,
    pub headers: Seq<(Seq<char>, Seq<char>)>,
    pub body: Option<Seq<char>>,
}

impl DeepView for RequestTemplate {
    type V = TemplateView;

    open spec fn deep_view(&self) -> TemplateView {
        TemplateView {
            url: self.url@,
            method: self.method@,
            headers: self.headers.deep_view(),
            body: self.body.deep_view(),
        }
    }
}

/// The headers of `hs` whose name and value `http` accepts, in order.
pub open spec fn valid_headers(hs: Seq<(Seq<char>, Seq<char>)>) -> Seq<(Seq<char>, Seq<char>)>
    decreases hs.len(),
{
    if hs.len() == 0 {
        Seq::empty()
    } else {
        let rest = valid_headers(hs.drop_last());
        if header_name_is_valid(hs.last().0) && header_value_is_valid(hs.last().1) {
            rest.push(hs.last())
        } else {
            rest
        }
    }
}

/// The template of an endpoint: its method when `http` accepts it, `GET`
/// otherwise; the headers that `http` accepts; URL and body as they are.
pub open spec fn template_of(ep: EndpointView) -> TemplateView {
    TemplateView {
        url: ep.url,
        method: if method_is_valid(ep.method) {
            ep.method
        } else {
            "GET"@
        },
        headers: valid_headers(ep.headers),
        body: ep.body,
    }
}

/// The template of one endpoint.
pub fn template_from_endpoint(ep: &EndpointConfig) -> (t: RequestTemplate)
    ensures
        t.deep_view() == template_of(ep.deep_view()),
{
    let method = if method_parses(ep.method.as_str()) {
        ep.method.clone()
    } else {
        String::from_str("GET")
    };
    let ghost hs = ep.headers.deep_view();
    let mut headers: Vec<(String, String)> = Vec::new();
    assert(hs.take(0) =~= Seq::<(Seq<char>, Seq<char>)>::empty());
    assert(headers.deep_view() =~= valid_headers(hs.take(0)));
    for i in 0..ep.headers.len()
        invariant
            hs == ep.headers.deep_view(),
            headers.deep_view() == valid_headers(hs.take(i as int)),
    {
        let (k, v) = &ep.headers[i];
        assert(hs.take(i + 1).drop_last() =~= hs.take(i as int));
        assert(hs.take(i + 1).last() == (k@, v@));
        if header_name_parses(k.as_str()) && header_value_parses(v.as_str()) {
            let ghost before = headers.deep_view();
            headers.push((k.clone(), v.clone()));
            assert(headers.deep_view() =~= before.push((k@, v@)));
        }
    }
    assert(hs.take(ep.headers.len() as int) =~= hs);
    RequestTemplate { url: ep.url.clone(), method, headers, body: clone_opt_string(&ep.body) }
}

// ------------------------------------------------------------------
// Weighted selection
// ------------------------------------------------------------------

/// A `rand` weighted index over `u32` weights. Verus cannot read that type,
/// so it is held here, out of its sight.
#[verifier::external_body]
pub struct WeightedChoice {
    inner: WeightedIndex<u32>,
}

/// The weights a weighted choice was made from.
pub uninterp spec fn choice_weights(d: WeightedChoice) -> Seq<u32>;

/// The sum of a sequence of weights.
pub open spec fn weight_sum(w: Seq<u32>) -> int
    decreases w.len(),
{
    if w.len() == 0 {
        0
    } else {
        weight_sum(w.drop_last()) + w.last()
    }
}

/// The text of the error `rand::distributions::WeightedIndex::new` gives for
/// `w`, which is empty or sums to zero.
pub open spec fn weights_error_text(w: Seq<u32>) -> Seq<char> {
    if w.len() == 0 {
        "No weights provided in distribution"@
    } else {
        "All weights are zero in distribution"@
    }
}

/// Calls `rand::distributions::WeightedIndex::new`. The contract claims what
/// its source shows: with a total that fits `u32` (it adds the weights in
/// `u32`), it fails exactly when there is no weight or all are zero, with
/// the texts its `Display` gives for those errors, and otherwise keeps the
/// weights.
#[verifier::external_body]
fn weighted_choice_new(weights: &Vec<u32>) -> (r: Result<WeightedChoice, String>)
    requires
        weight_sum(weights@) <= u32::MAX,
    ensures
        r is Ok <==> (weights.len() > 0 && weight_sum(weights@) > 0),
        r matches Ok(d) ==> choice_weights(d) == weights@,
        r matches Err(m) ==> m@ == weights_error_text(weights@),
{
    match WeightedIndex::new(weights) {
        Ok(inner) => Ok(WeightedChoice { inner }),
        Err(e) => Err(e.to_string()),
    }
}

/// Calls `Distribution::sample` of a `WeightedIndex` with `rand::thread_rng`.
/// The contract claims what its source shows of every outcome: an index into
/// the weights whose weight is positive (it draws a number below the total
/// and takes the first index whose running sum exceeds it). Which index is
/// drawn is chance and is not stated.
#[verifier::external_body]
fn weighted_choice_sample(d: &WeightedChoice) -> (i: usize)
    ensures
        i < choice_weights(*d).len(),
        choice_weights(*d)[i as int] > 0,
{
    d.inner.sample(&mut rand::thread_rng())
}

/// The weights of a list of endpoints.
pub open spec fn endpoint_weights(eps: Seq<EndpointView>) -> Seq<u32> {
    eps.map_values(|e: EndpointView| e.weight)
}

/// The total weight of a group's endpoints.
pub fn total_weight_of(endpoints: &[EndpointConfig]) -> (t: u32)
    requires
        weight_sum(endpoint_weights(endpoints.deep_view())) <= u32::MAX,
    ensures
        t == weight_sum(endpoint_weights(endpoints.deep_view())),
{
    let ghost w = endpoint_weights(endpoints.deep_view());
    let mut t: u32 = 0;
    for i in 0..endpoints.len()
        invariant
            w == endpoint_weights(endpoints.deep_view()),
            w.len() == endpoints.len(),
            weight_sum(w) <= u32::MAX,
            t == weight_sum(w.take(i as int)),
    {
        assert(w.take(i + 1).drop_last() =~= w.take(i as int));
        proof {
            lemma_weight_sum_prefix(w, i + 1);
        }
        t = t + endpoints[i].weight;
    }
    assert(w.take(endpoints.len() as int) =~= w);
    t
}

/// A prefix weighs no more than the whole.
proof fn lemma_weight_sum_prefix(w: Seq<u32>, i: int)
    requires
        0 <= i <= w.len(),
    ensures
        weight_sum(w.take(i)) <= weight_sum(w),
    decreases w.len() - i,
{
    if i < w.len() {
        lemma_weight_sum_prefix(w, i + 1);
        assert(w.take(i + 1).drop_last() =~= w.take(i));
    } else {
        assert(w.take(i) =~= w);
    }
}

/// The message for weights that cannot be chosen from.
pub open spec fn invalid_weights_message(w: Seq<u32>) -> Seq<char> {
    "Invalid weights: "@ + weights_error_text(w)
}

/// Picks the request template for each request of a group, each endpoint
/// as often as its weight says.
pub struct RequestSelector {
    templates: Vec<RequestTemplate>,
    dist: WeightedChoice,
}

impl RequestSelector {
    #[verifier::type_invariant]
    spec fn inv(self) -> bool {
        self.templates.len() == choice_weights(self.dist).len()
    }

    /// The templates, one per endpoint.
    pub closed spec fn templates(&self) -> Seq<TemplateView> {
        self.templates.deep_view()
    }

    /// The weights, one per endpoint.
    pub closed spec fn weights(&self) -> Seq<u32> {
        choice_weights(self.dist)
    }

    /// The selector for `endpoints`; an error when there is no endpoint or
    /// all weights are zero.
    pub fn new(endpoints: &[EndpointConfig]) -> (r: Result<Self, DhanushError>)
        requires
            weight_sum(endpoint_weights(endpoints.deep_view())) <= u32::MAX,
        ensures
            r is Ok <==> (endpoints.len() > 0 && weight_sum(
                endpoint_weights(endpoints.deep_view()),
            ) > 0),
            r matches Ok(s) ==> s.templates() == endpoints.deep_view().map_values(
                |e: EndpointView| template_of(e),
            ) && s.weights() == endpoint_weights(endpoints.deep_view()),
            r matches Err(e) ==> e.deep_view() == ErrorView::Config(
                invalid_weights_message(endpoint_weights(endpoints.deep_view())),
            ),
    {
        let ghost eps = endpoints.deep_view();
        let mut weights: Vec<u32> = Vec::new();
        for i in 0..endpoints.len()
            invariant
                eps == endpoints.deep_view(),
                weights@ =~= endpoint_weights(eps).take(i as int),
        {
            weights.push(endpoints[i].weight);
        }
        assert(weights@ =~= endpoint_weights(eps));
        let dist = match weighted_choice_new(&weights) {
            Ok(d) => d,
            Err(m) => {
                let mut msg = String::from_str("Invalid weights: ");
                msg.append(m.as_str());
                return Err(DhanushError::Config(msg));
            },
        };
        let mut templates: Vec<RequestTemplate> = Vec::new();
        for i in 0..endpoints.len()
            invariant
                eps == endpoints.deep_view(),
                templates.deep_view() =~= eps.take(i as int).map_values(
                    |e: EndpointView| template_of(e),
                ),
        {
            let t = template_from_endpoint(&endpoints[i]);
            let ghost before = templates.deep_view();
            templates.push(t);
            assert(templates.deep_view() =~= before.push(t.deep_view()));
        }
        assert(eps.take(endpoints.len() as int) =~= eps);
        Ok(RequestSelector { templates, dist })
    }

    /// The template for the next request: that of an endpoint with a
    /// positive weight, drawn at random in proportion to the weights.
    pub fn select(&self) -> (t: &RequestTemplate)
        ensures
            exists|i: int|
                0 <= i < self.templates().len() && self.weights()[i] > 0 && t.deep_view()
                    == self.templates()[i],
    {
        proof {
            use_type_invariant(self);
        }
        let i = weighted_choice_sample(&self.dist);
        let t = &self.templates[i];
        assert(t.deep_view() == self.templates()[i as int]);
        t
    }
}

// ------------------------------------------------------------------
// Client settings
// ------------------------------------------------------------------

/// How the HTTP client of a group is set up.
#[derive(Debug, Clone, Copy, PartialEq, Eq, Structural)]
pub struct ClientSettings {
    /// Time allowed for each request.
    pub timeout: TimeSpan,
    /// Idle connections kept per host.
    pub pool_max_idle_per_host: usize,
    /// How long an idle connection is kept.
    pub pool_idle_timeout: TimeSpan,
    /// Whether Nagle's algorithm is switched off.
    pub tcp_nodelay: bool,
    /// Whether invalid TLS certificates are accepted.
    pub accept_invalid_certs: bool,
}

/// The client settings of a group: its timeout, one idle connection per
/// worker, idle connections kept 90 seconds, no Nagle delay, and invalid
/// certificates accepted only when the group is insecure.
pub fn client_settings(group: &GroupConfig) -> (s: ClientSettings)
    ensures
        s == (ClientSettings {
            timeout: group.timeout,
            pool_max_idle_per_host: group.connections,
            pool_idle_timeout: TimeSpan { secs: 90, nanos: 0 },
            tcp_nodelay: true,
            accept_invalid_certs: group.insecure,
        }),
{
    ClientSettings {
        timeout: group.timeout,
        pool_max_idle_per_host: group.connections,
        pool_idle_timeout: TimeSpan { secs: 90, nanos: 0 },
        tcp_nodelay: true,
        accept_invalid_certs: group.insecure,
    }
}

} // verus!
