//! The quote provider's side: which server to ask, and the shape of the
//! candles it answers with.

use vstd::prelude::*;

verus! {

/// Which of the provider's servers to talk to.
#[derive(Clone, Copy, Debug, PartialEq, Eq, Structural)]
pub enum Environment {
    Practice,
    Live,
}

impl Environment {
    /// The address of the server for this environment.
    pub open spec fn spec_base_url(self) -> Seq<char> {
        match self {
            Environment::Practice => "https://api-fxpractice.oanda.com"@,
            Environment::Live => "https://api-fxtrade.oanda.com"@,
        }
    }

    pub fn base_url(&self) -> (r: &'static str)
        ensures
            r@ == self.spec_base_url(),
    {
        match self {
            Environment::Practice => "https://api-fxpractice.oanda.com",
            Environment::Live => "https://api-fxtrade.oanda.com",
        }
    }

    /// The environment that a setting names once lower-cased: `live` is the
    /// live server, anything else the practice server.
    pub fn from_lowercase(name: &str) -> (r: Environment)
        ensures
            r == (if name@ == "live"@ {
                Environment::Live
            } else {
                Environment::Practice
            }),
    {
        if str_eq(name, "live") {
            Environment::Live
        } else {
            Environment::Practice
        }
    }

    /// The environment that a setting names, whatever its letter case.
    pub fn from_setting(setting: &str) -> (r: Environment)
        ensures
            r == (if lower_of(setting@) == "live"@ {
                Environment::Live
            } else {
                Environment::Practice
            }),
    {
        let lower = lowercase(setting);
        Environment::from_lowercase(lower.as_str())
    }
}

/// Whether two texts are the same, character by character.
fn str_eq(a: &str, b: &str) -> (r: bool)
    ensures
        r == (a@ == b@),
{
    let n = a.unicode_len();
    if n != b.unicode_len() {
        return false;
    }
    let mut i: usize = 0;
    while i < n
        invariant
            i <= n,
            n == a@.len(),
            n == b@.len(),
            forall|k: int| 0 <= k < i ==> a@[k] == b@[k],
        decreases n - i,
    {
        if a.get_char(i) != b.get_char(i) {
            return false;
        }
        i = i + 1;
    }
    assert(a@ =~= b@);
    true
}

/// What `str::to_lowercase` gives for a text.
pub uninterp spec fn lower_of(s: Seq<char>) -> Seq<char>;

/// Relies on `str::to_lowercase`: the lower-case form of a text depends on
/// its characters alone.
#[verifier::external_body]
fn lowercase(s: &str) -> (r: String)
    ensures
        r@ == lower_of(s@),
{
    s.to_lowercase()
}

/// The four prices of a candle, as decimal text.
#[derive(Clone, Debug)]
pub struct Ohlc {
    pub o: String,
    pub h: String,
    pub l: String,
    pub c: String,
}

pub struct OhlcView {
    pub o: Seq<char>,
    pub h: Seq<char>,
    pub l: Seq<char>,
    pub c: Seq<char>,
}

impl View for Ohlc {
    type V = OhlcView;

    open spec fn view(&self) -> OhlcView {
        OhlcView { o: self.o@, h: self.h@, l: self.l@, c: self.c@ }
    }
}

/// One candle as the provider sends it. `mid` is there only when mid
/// prices were asked for; `complete` is false while its window is open.
#[derive(Clone, Debug)]
pub struct Candle {
    pub time: String,
    pub volume: i64,
    pub complete: bool,
    pub mid: Option<Ohlc>,
}

pub struct CandleView {
    pub time: Seq<char>,
    pub volume: i64,
    pub complete: bool,
    pub mid: Option<OhlcView>,
}

impl View for Candle {
    type V = CandleView;

    open spec fn view(&self) -> CandleView {
        CandleView {
            time: self.time@,
            volume: self.volume,
            complete: self.complete,
            mid: match self.mid {
                Some(m) => Some(m@),
                None => None,
            },
        }
    }
}

/// The views of a sequence of candles.
pub open spec fn candles_view(cs: Seq<Candle>) -> Seq<CandleView> {
    cs.map_values(|c: Candle| c@)
}

/// The provider's answer to a request for candles.
#[derive(Clone, Debug)]
pub struct CandleResponse {
    pub instrument: String,
    pub granularity: String,
    pub candles: Vec<Candle>,
}

#[verifier::external_type_specification]
#[verifier::external_body]
pub struct ExClient(reqwest::Client);

#[verifier::external_type_specification]
#[verifier::external_body]
pub struct ExHeaderValue(reqwest::header::HeaderValue);

/// Whether `c` may stand in an HTTP header value: a tab, or any character
/// from the space on but DEL (a character past ASCII is encoded as bytes of
/// 128 and more, which are all accepted).
pub open spec fn is_header_char(c: char) -> bool {
    c == '\t' || (' ' <= c && c != '\x7f')
}

/// Whether every character of `s` may stand in an HTTP header value.
pub open spec fn is_header_text(s: Seq<char>) -> bool {
    forall|i: int| 0 <= i < s.len() ==> is_header_char(#[trigger] s[i])
}

/// Relies on `HeaderValue::from_str` (crate `http`, re-exported by reqwest):
/// it succeeds exactly when every byte is a tab, or at least 32 and not 127.
#[verifier::external_body]
fn header_value(s: &str) -> (r: Option<reqwest::header::HeaderValue>)
    ensures
        r is Some <==> is_header_text(s@),
{
    reqwest::header::HeaderValue::from_str(s).ok()
}

/// Relies on reqwest's `ClientBuilder::build`, given the authorisation value
/// and a JSON content type as default headers. Building may fail for reasons
/// of the machine (its TLS backend), so nothing is promised of the outcome.
#[verifier::external_body]
fn build_client(authorization: reqwest::header::HeaderValue) -> (r: Option<reqwest::Client>) {
    let mut headers = reqwest::header::HeaderMap::new();
    headers.insert(reqwest::header::AUTHORIZATION, authorization);
    headers.insert(
        reqwest::header::CONTENT_TYPE,
        reqwest::header::HeaderValue::from_static("application/json"),
    );
    reqwest::Client::builder().default_headers(headers).build().ok()
}

/// Relies on `u32`'s `to_string`: the decimal numeral of the number.
#[verifier::external_body]
fn u32_text(n: u32) -> (r: String)
    ensures
        r@ == decimal_text(n as nat),
{
    n.to_string()
}

/// The decimal numeral of `n`, without sign or leading zeros.
pub open spec fn decimal_text(n: nat) -> Seq<char>
    decreases n,
{
    if n < 10 {
        seq![digit_char(n)]
    } else {
        decimal_text(n / 10).push(digit_char(n % 10))
    }
}

/// The ASCII digit for `d`, below ten.
pub open spec fn digit_char(d: nat) -> char {
    (d + 48) as char
}

/// Why a client could not be made.
#[derive(Clone, Copy, Debug, PartialEq, Eq, Structural)]
pub enum ClientError {
    /// The key holds a character that no HTTP header may carry.
    InvalidApiKey,
    /// The HTTP client could not be set up on this machine.
    ClientBuild,
}

/// The authorisation header's value for an API key.
pub open spec fn bearer_text(api_key: Seq<char>) -> Seq<char> {
    "Bearer "@ + api_key
}

/// A client of the provider's REST interface, bound to one server and one
/// API key.
pub struct OandaClient {
    client: reqwest::Client,
    base_url: String,
    account_id: String,
}

impl OandaClient {
    pub closed spec fn spec_base_url(&self) -> Seq<char> {
        self.base_url@
    }

    pub closed spec fn spec_account_id(&self) -> Seq<char> {
        self.account_id@
    }

    /// A client that sends `Bearer <api_key>` with every request to the
    /// server of `env`. The key is refused when the header cannot carry it.
    pub fn new(api_key: &str, account_id: &str, env: Environment) -> (r: Result<
        OandaClient,
        ClientError,
    >)
        ensures
            r == Err::<OandaClient, ClientError>(ClientError::InvalidApiKey) <==> !is_header_text(
                bearer_text(api_key@),
            ),
            r matches Ok(c) ==> c.spec_base_url() == env.spec_base_url()
                && c.spec_account_id() == account_id@,
    {
        let mut auth = String::from_str("Bearer ");
        auth.append(api_key);
        let value = match header_value(auth.as_str()) {
            Some(v) => v,
            None => {
                return Err(ClientError::InvalidApiKey);
            },
        };
        let client = match build_client(value) {
            Some(c) => c,
            None => {
                return Err(ClientError::ClientBuild);
            },
        };
        Ok(
            OandaClient {
                client,
                base_url: String::from_str(env.base_url()),
                account_id: String::from_str(account_id),
            },
        )
    }

    /// The HTTP client, with the authorisation header set.
    pub fn http(&self) -> &reqwest::Client {
        &self.client
    }

    pub fn base_url(&self) -> (r: &str)
        ensures
            r@ == self.spec_base_url(),
    {
        self.base_url.as_str()
    }

    /// The address that lists the candles of `instrument`.
    pub fn candles_url(&self, instrument: &str) -> (r: String)
        ensures
            r@ == self.spec_base_url() + "/v3/instruments/"@ + instrument@ + "/candles"@,
    {
        let mut url = self.base_url.clone();
        url.append("/v3/instruments/");
        url.append(instrument);
        url.append("/candles");
        url
    }
}

/// The query of a candle request: the `granularity` code, the number of
/// most recent candles, and mid prices.
pub fn candle_query(granularity: &str, count: u32) -> (r: Vec<(String, String)>)
    ensures
        r@.len() == 3,
        r@[0].0@ == "granularity"@ && r@[0].1@ == granularity@,
        r@[1].0@ == "count"@ && r@[1].1@ == decimal_text(count as nat),
        r@[2].0@ == "price"@ && r@[2].1@ == "M"@,
{
    let mut q: Vec<(String, String)> = Vec::new();
    q.push((String::from_str("granularity"), String::from_str(granularity)));
    q.push((String::from_str("count"), u32_text(count)));
    q.push((String::from_str("price"), String::from_str("M")));
    q
}

} // verus!
