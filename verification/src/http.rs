//! The HTTP sink: request shape by backend flavor, and bounded retry.

use vstd::prelude::*;
use vstd::string::StringExecFns;

verus! {

/// The backend flavor the HTTP sink talks to.
#[derive(Debug)]
pub enum APIVersion {
    /// Token-authenticated endpoint taking bucket, precision and
    /// organisation query parameters.
    Influx {
        /// The destination bucket.
        bucket: String,
        /// The timestamp precision advertised in the query.
        precision: Option<String>,
        /// The owning organisation.
        org: Option<String>,
    },
    /// Bearer-authenticated endpoint taking no query parameters.
    GrafanaCloud,
}

/// Everything the HTTP sink is configured with.
#[derive(Debug)]
pub struct HttpConfig {
    /// The backend flavor.
    pub api_version: APIVersion,
    /// Whether the body is gzip compressed in transit.
    pub gzip: bool,
    /// The endpoint, as accepted URL text.
    pub endpoint: String,
    /// The user name part of the credentials.
    pub username: Option<String>,
    /// The password part of the credentials.
    pub password: Option<String>,
}

pub uninterp spec fn url_error(s: Seq<char>) -> Option<Seq<char>>;

/// Whether the text is a well-formed URL.
pub open spec fn url_parses(s: Seq<char>) -> bool {
    url_error(s) is None
}

/// Relies on `reqwest::Url::parse`: well-formed URL text parses and
/// yields nothing; anything else yields the parser's error message.
#[verifier::external_body]
pub fn check_url(s: &str) -> (r: Option<String>)
    ensures
        (r is None) == url_parses(s@),
        r matches Some(m) ==> url_error(s@) matches Some(t) && m@ == t,
{
    match reqwest::Url::parse(s) {
        Ok(_) => None,
        Err(e) => Some(e.to_string()),
    }
}

/// The query parameters a flavor sends: the bucket, precision and
/// organisation where configured, nothing for the bearer flavor.
pub open spec fn spec_request_query(v: &APIVersion) -> Seq<(Seq<char>, Seq<char>)> {
    match v {
        APIVersion::GrafanaCloud => Seq::empty(),
        APIVersion::Influx { bucket, precision, org } => seq![
            (seq!['b', 'u', 'c', 'k', 'e', 't'], bucket@),
        ] + (match precision {
            Some(p) => seq![(seq!['p', 'r', 'e', 'c', 'i', 's', 'i', 'o', 'n'], p@)],
            None => Seq::empty(),
        }) + (match org {
            Some(o) => seq![(seq!['o', 'r', 'g'], o@)],
            None => Seq::empty(),
        }),
    }
}

/// The authorization header value a flavor sends when both credential
/// parts are configured: `Bearer user:password` for the bearer flavor,
/// `Token user:password` otherwise.
pub open spec fn spec_auth_header(
    v: &APIVersion,
    username: &Option<String>,
    password: &Option<String>,
) -> Option<Seq<char>> {
    match (username, password) {
        (Some(u), Some(p)) => match v {
            APIVersion::GrafanaCloud => Some(
                seq!['B', 'e', 'a', 'r', 'e', 'r', ' '] + u@ + seq![':'] + p@,
            ),
            APIVersion::Influx { .. } => Some(
                seq!['T', 'o', 'k', 'e', 'n', ' '] + u@ + seq![':'] + p@,
            ),
        },
        _ => None,
    }
}

/// What one delivery request looks like, besides the body: the query
/// parameters and the authorization header value, if any.
#[derive(Debug)]
pub struct RequestPlan {
    /// Query parameter keys and values, in order.
    pub query: Vec<(String, String)>,
    /// The authorization header value, when credentials are set.
    pub auth_header: Option<String>,
}

impl HttpConfig {
    /// Lays out the query parameters and the authorization header that
    /// every delivery request carries.
    pub fn request_plan(&self) -> (r: RequestPlan)
        ensures
            r.query.deep_view() == spec_request_query(&self.api_version),
            match (r.auth_header, spec_auth_header(
                &self.api_version,
                &self.username,
                &self.password,
            )) {
                (Some(h), Some(s)) => h@ == s,
                (None, None) => true,
                _ => false,
            },
    {
        let mut query: Vec<(String, String)> = Vec::new();
        proof {
            reveal_strlit("bucket");
            reveal_strlit("precision");
            reveal_strlit("org");
            reveal_strlit("Bearer ");
            reveal_strlit("Token ");
            reveal_strlit(":");
            assert(("bucket")@ =~= seq!['b', 'u', 'c', 'k', 'e', 't']);
            assert(("precision")@ =~= seq!['p', 'r', 'e', 'c', 'i', 's', 'i', 'o', 'n']);
            assert(("org")@ =~= seq!['o', 'r', 'g']);
            assert(("Bearer ")@ =~= seq!['B', 'e', 'a', 'r', 'e', 'r', ' ']);
            assert(("Token ")@ =~= seq!['T', 'o', 'k', 'e', 'n', ' ']);
            assert((":")@ =~= seq![':']);
        }
        match &self.api_version {
            APIVersion::Influx { bucket, precision, org } => {
                query.push((String::from_str("bucket"), bucket.clone()));
                match precision {
                    Some(p) => {
                        query.push((String::from_str("precision"), p.clone()));
                    },
                    None => {},
                }
                match org {
                    Some(o) => {
                        query.push((String::from_str("org"), o.clone()));
                    },
                    None => {},
                }
                proof {
                    assert(query.deep_view() =~~= spec_request_query(&self.api_version));
                }
            },
            APIVersion::GrafanaCloud => {
                proof {
                    assert(query.deep_view() =~~= spec_request_query(&self.api_version));
                }
            },
        }
        let auth_header: Option<String> = match (&self.username, &self.password) {
            (Some(u), Some(p)) => {
                let mut h = match &self.api_version {
                    APIVersion::GrafanaCloud => String::from_str("Bearer "),
                    APIVersion::Influx { .. } => String::from_str("Token "),
                };
                h.append(u.as_str());
                h.append(":");
                h.append(p.as_str());
                Some(h)
            },
            _ => None,
        };
        RequestPlan { query, auth_header }
    }
}

/// How one delivery attempt sequence ended, so far.
#[derive(Debug, PartialEq, Eq, Structural)]
pub enum DeliveryState {
    /// Attempts may still be made.
    Pending,
    /// One attempt succeeded; the batch is delivered.
    Delivered,
    /// Every allowed attempt failed; the batch is dropped.
    GivenUp,
}

/// One batch's delivery: the body, how many attempts were made, and
/// the backoff delays still to come. Attempts are sequential; after a
/// failure the caller waits out the returned delay before the next.
#[derive(Debug)]
pub struct HttpWriteSession {
    /// The rendered batch to deliver.
    pub body: String,
    /// How many attempts have been made.
    pub attempts: u64,
    /// The largest number of attempts allowed.
    pub max_attempts: u64,
    /// The delay before the next retry, in milliseconds.
    pub delay_ms: u64,
    /// The delay after that one, continuing the backoff sequence.
    pub next_delay_ms: u64,
    /// Where the delivery stands.
    pub state: DeliveryState,
}

impl HttpWriteSession {
    /// A session that has not finished while attempts remain.
    pub open spec fn wf(&self) -> bool {
        &&& self.attempts <= self.max_attempts
        &&& (self.state is Pending ==> self.attempts < self.max_attempts)
        &&& (self.state is GivenUp ==> self.attempts == self.max_attempts)
        &&& (self.state is Delivered ==> self.attempts >= 1)
    }

    /// Opens the delivery of one rendered batch: no attempts yet, four
    /// allowed in all, backoff starting at half a second.
    pub fn new(body: String) -> (r: HttpWriteSession)
        ensures
            r.wf(),
            r.body@ == body@,
            r.attempts == 0,
            r.max_attempts == 4,
            r.delay_ms == 500,
            r.next_delay_ms == 500,
            r.state is Pending,
    {
        HttpWriteSession {
            body,
            attempts: 0,
            max_attempts: 4,
            delay_ms: 500,
            next_delay_ms: 500,
            state: DeliveryState::Pending,
        }
    }

    /// Whether another request should be sent now.
    pub fn should_send(&self) -> (r: bool)
        ensures
            r == (self.state is Pending),
    {
        match self.state {
            DeliveryState::Pending => true,
            _ => false,
        }
    }

    /// Accounts one attempt's outcome. Success delivers the batch. A
    /// failure either schedules a retry, handing back the delay to
    /// wait out, or, once every allowed attempt is spent, gives the
    /// batch up.
    pub fn on_response(&mut self, success: bool) -> (delay: Option<u64>)
        requires
            old(self).wf(),
            old(self).state is Pending,
        ensures
            final(self).wf(),
            final(self).body@ == old(self).body@,
            final(self).max_attempts == old(self).max_attempts,
            final(self).attempts == old(self).attempts + 1,
            success ==> final(self).state is Delivered && delay is None,
            !success && old(self).attempts + 1 < old(self).max_attempts ==> {
                &&& final(self).state is Pending
                &&& delay == Some(old(self).delay_ms)
                &&& final(self).delay_ms == old(self).next_delay_ms
                &&& final(self).next_delay_ms == old(self).delay_ms + old(self).next_delay_ms
                    || (old(self).delay_ms + old(self).next_delay_ms > u64::MAX
                        && final(self).next_delay_ms == u64::MAX)
            },
            !success && old(self).attempts + 1 == old(self).max_attempts ==> final(self).state
                is GivenUp && delay is None,
    {
        self.attempts = self.attempts + 1;
        if success {
            self.state = DeliveryState::Delivered;
            None
        } else if self.attempts == self.max_attempts {
            self.state = DeliveryState::GivenUp;
            None
        } else {
            let d = self.delay_ms;
            let sum = self.delay_ms.checked_add(self.next_delay_ms);
            self.delay_ms = self.next_delay_ms;
            self.next_delay_ms = match sum {
                Some(s) => s,
                None => u64::MAX,
            };
            Some(d)
        }
    }

    /// Where the delivery stands.
    pub fn state(&self) -> (r: DeliveryState)
        ensures
            r == self.state,
    {
        match self.state {
            DeliveryState::Pending => DeliveryState::Pending,
            DeliveryState::Delivered => DeliveryState::Delivered,
            DeliveryState::GivenUp => DeliveryState::GivenUp,
        }
    }
}

} // verus!
