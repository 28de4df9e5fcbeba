//! The remote sink client's decisions: building the JSON bodies of the three
//! exchanges (request-code, authorize, add), holding the session credentials,
//! assembling the browser-navigable authorization URL, and classifying each
//! exchange's response. The HTTP transport itself stays outside the library.

use vstd::prelude::*;

use crate::config::{opt_string_view, Configuration};
use crate::errors::{digit_char, status_message, status_to_string, PocketError, PocketSetupError};
use crate::feed::success_status;
use crate::urls::{urlencode_two_pairs, urlencoded_pairs};

verus! {

/// Where the authorization page sends the user afterwards; plain text, so
/// the exchange works without a web server. The final period is encoded so
/// terminals do not exclude it from the clickable URL.
pub open spec fn redirect_uri_text() -> Seq<char> {
    "data:text/plain,Return%20to%20feeds-to-pocket%20and%20press%20Enter%20to%20finish%2E"@
}

pub open spec fn hex_char(n: int) -> char {
    if n < 10 {
        digit_char(n)
    } else if n == 10 {
        'a'
    } else if n == 11 {
        'b'
    } else if n == 12 {
        'c'
    } else if n == 13 {
        'd'
    } else if n == 14 {
        'e'
    } else {
        'f'
    }
}

/// How one character appears inside a JSON string literal.
pub open spec fn esc_char(c: char) -> Seq<char> {
    if c == '"' {
        seq!['\\', '"']
    } else if c == '\\' {
        seq!['\\', '\\']
    } else if c == '\n' {
        seq!['\\', 'n']
    } else if c == '\r' {
        seq!['\\', 'r']
    } else if c == '\t' {
        seq!['\\', 't']
    } else if (c as u32) < 0x20 {
        seq!['\\', 'u', '0', '0', hex_char((c as u32) as int / 16), hex_char((c as u32) as int % 16)]
    } else {
        seq![c]
    }
}

/// A text with every character escaped for JSON.
pub open spec fn json_escaped(s: Seq<char>) -> Seq<char>
    decreases s.len(),
{
    if s.len() == 0 {
        Seq::<char>::empty()
    } else {
        json_escaped(s.drop_last()) + esc_char(s.last())
    }
}

/// A JSON string literal: the escaped text between double quotes.
pub open spec fn json_string(s: Seq<char>) -> Seq<char> {
    seq!['"'] + json_escaped(s) + seq!['"']
}

/// An optional JSON string: `null` when absent.
pub open spec fn json_opt_string(o: Option<Seq<char>>) -> Seq<char> {
    match o {
        Some(s) => json_string(s),
        None => "null"@,
    }
}

fn hex_to_str(d: u32) -> (r: &'static str)
    requires
        d < 16,
    ensures
        r@ == seq![hex_char(d as int)],
{
    proof {
        reveal_strlit("0");
        reveal_strlit("1");
        reveal_strlit("2");
        reveal_strlit("3");
        reveal_strlit("4");
        reveal_strlit("5");
        reveal_strlit("6");
        reveal_strlit("7");
        reveal_strlit("8");
        reveal_strlit("9");
        reveal_strlit("a");
        reveal_strlit("b");
        reveal_strlit("c");
        reveal_strlit("d");
        reveal_strlit("e");
        reveal_strlit("f");
    }
    if d == 0 {
        "0"
    } else if d == 1 {
        "1"
    } else if d == 2 {
        "2"
    } else if d == 3 {
        "3"
    } else if d == 4 {
        "4"
    } else if d == 5 {
        "5"
    } else if d == 6 {
        "6"
    } else if d == 7 {
        "7"
    } else if d == 8 {
        "8"
    } else if d == 9 {
        "9"
    } else if d == 10 {
        "a"
    } else if d == 11 {
        "b"
    } else if d == 12 {
        "c"
    } else if d == 13 {
        "d"
    } else if d == 14 {
        "e"
    } else {
        "f"
    }
}

/// Append the JSON-escaped form of a text.
fn append_json_escaped(out: &mut String, s: &str)
    ensures
        final(out)@ == old(out)@ + json_escaped(s@),
{
    let n = s.unicode_len();
    let mut i: usize = 0;
    proof {
        assert(s@.take(0) =~= Seq::<char>::empty());
        assert(out@ =~= out@ + json_escaped(s@.take(0)));
    }
    while i < n
        invariant
            0 <= i <= n,
            n == s@.len(),
            out@ == old(out)@ + json_escaped(s@.take(i as int)),
        decreases n - i,
    {
        let c = s.get_char(i);
        proof {
            assert(s@.take(i + 1).drop_last() =~= s@.take(i as int));
            assert(s@.take(i + 1).last() == s@[i as int]);
        }
        if c == '"' {
            out.append("\\\"");
            proof {
                reveal_strlit("\\\"");
                assert(out@ =~= old(out)@ + json_escaped(s@.take(i + 1)));
            }
        } else if c == '\\' {
            out.append("\\\\");
            proof {
                reveal_strlit("\\\\");
                assert(out@ =~= old(out)@ + json_escaped(s@.take(i + 1)));
            }
        } else if c == '\n' {
            out.append("\\n");
            proof {
                reveal_strlit("\\n");
                assert(out@ =~= old(out)@ + json_escaped(s@.take(i + 1)));
            }
        } else if c == '\r' {
            out.append("\\r");
            proof {
                reveal_strlit("\\r");
                assert(out@ =~= old(out)@ + json_escaped(s@.take(i + 1)));
            }
        } else if c == '\t' {
            out.append("\\t");
            proof {
                reveal_strlit("\\t");
                assert(out@ =~= old(out)@ + json_escaped(s@.take(i + 1)));
            }
        } else if (c as u32) < 0x20 {
            let code = c as u32;
            out.append("\\u00");
            out.append(hex_to_str(code / 16));
            out.append(hex_to_str(code % 16));
            proof {
                reveal_strlit("\\u00");
                assert(out@ =~= old(out)@ + json_escaped(s@.take(i + 1)));
            }
        } else {
            let piece = s.substring_char(i, i + 1);
            out.append(piece);
            proof {
                assert(piece@ =~= seq![s@[i as int]]);
                assert(out@ =~= old(out)@ + json_escaped(s@.take(i + 1)));
            }
        }
        i = i + 1;
    }
    proof {
        assert(s@.take(n as int) =~= s@);
    }
}

/// Append a JSON string literal.
fn append_json_string(out: &mut String, s: &str)
    ensures
        final(out)@ == old(out)@ + json_string(s@),
{
    out.append("\"");
    append_json_escaped(out, s);
    out.append("\"");
    proof {
        reveal_strlit("\"");
        assert(out@ =~= old(out)@ + json_string(s@));
    }
}

/// Append an optional JSON string, `null` when absent.
fn append_json_opt_string(out: &mut String, o: &Option<String>)
    ensures
        final(out)@ == old(out)@ + json_opt_string(opt_string_view(*o)),
{
    match o {
        Some(s) => append_json_string(out, s.as_str()),
        None => {
            out.append("null");
            proof {
                reveal_strlit("null");
            }
        },
    }
}

/// The body of the OAuth request-code exchange.
pub open spec fn oauth_request_json(
    consumer_key: Seq<char>,
    redirect_uri: Seq<char>,
    state: Option<Seq<char>>,
) -> Seq<char> {
    "{\"consumer_key\":"@ + json_string(consumer_key) + ",\"redirect_uri\":"@ + json_string(
        redirect_uri,
    ) + ",\"state\":"@ + json_opt_string(state) + "}"@
}

/// The body of the OAuth authorize exchange.
pub open spec fn authorize_request_json(consumer_key: Seq<char>, code: Seq<char>) -> Seq<char> {
    "{\"consumer_key\":"@ + json_string(consumer_key) + ",\"code\":"@ + json_string(code) + "}"@
}

/// The body of the add-item exchange.
pub open spec fn add_request_json(
    consumer_key: Seq<char>,
    access_token: Seq<char>,
    url: Seq<char>,
    title: Option<Seq<char>>,
    tags: Option<Seq<char>>,
    tweet_id: Option<Seq<char>>,
) -> Seq<char> {
    "{\"consumer_key\":"@ + json_string(consumer_key) + ",\"access_token\":"@ + json_string(
        access_token,
    ) + ",\"url\":"@ + json_string(url) + ",\"title\":"@ + json_opt_string(title) + ",\"tags\":"@
        + json_opt_string(tags) + ",\"tweet_id\":"@ + json_opt_string(tweet_id) + "}"@
}

/// The request-code exchange: the consumer key, where the browser should
/// land afterwards, and an optional opaque state.
pub struct PocketOAuthRequest {
    pub consumer_key: String,
    pub redirect_uri: String,
    pub state: Option<String>,
}

impl PocketOAuthRequest {
    /// The exchange's JSON body.
    pub fn to_json(&self) -> (r: String)
        ensures
            r@ == oauth_request_json(
                self.consumer_key@,
                self.redirect_uri@,
                opt_string_view(self.state),
            ),
    {
        let mut out = String::new();
        out.append("{\"consumer_key\":");
        append_json_string(&mut out, self.consumer_key.as_str());
        out.append(",\"redirect_uri\":");
        append_json_string(&mut out, self.redirect_uri.as_str());
        out.append(",\"state\":");
        append_json_opt_string(&mut out, &self.state);
        out.append("}");
        proof {
            reveal_strlit("{\"consumer_key\":");
            reveal_strlit(",\"redirect_uri\":");
            reveal_strlit(",\"state\":");
            reveal_strlit("}");
            assert(out@ =~= oauth_request_json(
                self.consumer_key@,
                self.redirect_uri@,
                opt_string_view(self.state),
            ));
        }
        out
    }
}

/// What the request-code exchange returns: the one-time authorization code.
pub struct PocketOAuthResponse {
    pub code: String,
}

/// The authorize exchange: the consumer key and the code being redeemed.
pub struct PocketAuthorizeRequest {
    pub consumer_key: String,
    pub code: String,
}

impl PocketAuthorizeRequest {
    /// The exchange's JSON body.
    pub fn to_json(&self) -> (r: String)
        ensures
            r@ == authorize_request_json(self.consumer_key@, self.code@),
    {
        let mut out = String::new();
        out.append("{\"consumer_key\":");
        append_json_string(&mut out, self.consumer_key.as_str());
        out.append(",\"code\":");
        append_json_string(&mut out, self.code.as_str());
        out.append("}");
        proof {
            reveal_strlit("{\"consumer_key\":");
            reveal_strlit(",\"code\":");
            reveal_strlit("}");
            assert(out@ =~= authorize_request_json(self.consumer_key@, self.code@));
        }
        out
    }
}

/// What the authorize exchange returns: the long-lived access token and the
/// account's username.
pub struct PocketAuthorizeResponse {
    pub access_token: String,
    pub username: String,
}

/// The add-item exchange: credentials, the URL to store, and the optional
/// title, tags and tweet id.
pub struct PocketAddRequest {
    pub consumer_key: String,
    pub access_token: String,
    pub url: String,
    pub title: Option<String>,
    pub tags: Option<String>,
    pub tweet_id: Option<String>,
}

impl PocketAddRequest {
    /// The exchange's JSON body.
    pub fn to_json(&self) -> (r: String)
        ensures
            r@ == add_request_json(
                self.consumer_key@,
                self.access_token@,
                self.url@,
                opt_string_view(self.title),
                opt_string_view(self.tags),
                opt_string_view(self.tweet_id),
            ),
    {
        let mut out = String::new();
        out.append("{\"consumer_key\":");
        append_json_string(&mut out, self.consumer_key.as_str());
        out.append(",\"access_token\":");
        append_json_string(&mut out, self.access_token.as_str());
        out.append(",\"url\":");
        append_json_string(&mut out, self.url.as_str());
        out.append(",\"title\":");
        append_json_opt_string(&mut out, &self.title);
        out.append(",\"tags\":");
        append_json_opt_string(&mut out, &self.tags);
        out.append(",\"tweet_id\":");
        append_json_opt_string(&mut out, &self.tweet_id);
        out.append("}");
        proof {
            reveal_strlit("{\"consumer_key\":");
            reveal_strlit(",\"access_token\":");
            reveal_strlit(",\"url\":");
            reveal_strlit(",\"title\":");
            reveal_strlit(",\"tags\":");
            reveal_strlit(",\"tweet_id\":");
            reveal_strlit("}");
            assert(out@ =~= add_request_json(
                self.consumer_key@,
                self.access_token@,
                self.url@,
                opt_string_view(self.title),
                opt_string_view(self.tags),
                opt_string_view(self.tweet_id),
            ));
        }
        out
    }
}

/// The mathematical state of a sink session: its credentials and the
/// authorization code it is holding between the two OAuth exchanges.
pub struct PocketView {
    pub consumer_key: Seq<char>,
    pub access_token: Option<Seq<char>>,
    pub code: Option<Seq<char>>,
}

/// A sink session: the consumer credential, an optional access token, and
/// the authorization code once one has been obtained. The HTTP exchanges
/// themselves happen outside; this type decides what each exchange sends and
/// records what it returned.
pub struct Pocket {
    consumer_key: String,
    access_token: Option<String>,
    code: Option<String>,
}

impl View for Pocket {
    type V = PocketView;

    closed spec fn view(&self) -> PocketView {
        PocketView {
            consumer_key: self.consumer_key@,
            access_token: opt_string_view(self.access_token),
            code: opt_string_view(self.code),
        }
    }
}

impl Pocket {
    /// A session from the stored credentials; no authorization code yet.
    pub fn new(consumer_key: &str, access_token: Option<&str>) -> (r: Pocket)
        ensures
            r@.consumer_key == consumer_key@,
            r@.access_token == (match access_token {
                Some(t) => Some(t@),
                None => None::<Seq<char>>,
            }),
            r@.code is None,
    {
        Pocket {
            consumer_key: consumer_key.to_owned(),
            access_token: match access_token {
                Some(t) => Some(t.to_owned()),
                None => None,
            },
            code: None,
        }
    }

    /// The access token held by this session, if any.
    pub fn access_token(&self) -> (r: Option<&str>)
        ensures
            match r {
                Some(t) => self@.access_token == Some(t@),
                None => self@.access_token is None,
            },
    {
        match &self.access_token {
            Some(t) => Some(t.as_str()),
            None => None,
        }
    }

    /// The body of the request-code exchange this session would send.
    pub fn oauth_request(&self) -> (r: PocketOAuthRequest)
        ensures
            r.consumer_key@ == self@.consumer_key,
            r.redirect_uri@ == redirect_uri_text(),
            r.state is None,
    {
        PocketOAuthRequest {
            consumer_key: self.consumer_key.clone(),
            redirect_uri: String::from_str(
                "data:text/plain,Return%20to%20feeds-to-pocket%20and%20press%20Enter%20to%20finish%2E",
            ),
            state: None,
        }
    }

    /// Record the authorization code the request-code exchange returned, and
    /// give back the URL the user must open to grant access: the authorize
    /// page with the code and the redirect target form-urlencoded into its
    /// query.
    pub fn accept_auth_code(&mut self, code: String) -> (r: String)
        ensures
            final(self)@.consumer_key == old(self)@.consumer_key,
            final(self)@.access_token == old(self)@.access_token,
            final(self)@.code == Some(code@),
            r@ == "https://getpocket.com/auth/authorize?"@ + urlencoded_pairs(
                "request_token"@,
                code@,
                "redirect_uri"@,
                redirect_uri_text(),
            ),
    {
        let query = urlencode_two_pairs(
            "request_token",
            code.as_str(),
            "redirect_uri",
            "data:text/plain,Return%20to%20feeds-to-pocket%20and%20press%20Enter%20to%20finish%2E",
        );
        self.code = Some(code);
        let mut url = String::new();
        url.append("https://getpocket.com/auth/authorize?");
        url.append(query.as_str());
        proof {
            reveal_strlit("request_token");
            reveal_strlit("redirect_uri");
        }
        url
    }

    /// The body of the authorize exchange. The session must be holding the
    /// code from a previous request-code exchange.
    pub fn authorize_request(&self) -> (r: PocketAuthorizeRequest)
        requires
            self@.code is Some,
        ensures
            r.consumer_key@ == self@.consumer_key,
            Some(r.code@) == self@.code,
    {
        let code = match &self.code {
            Some(c) => c.clone(),
            None => vstd::pervasive::unreached(),
        };
        PocketAuthorizeRequest { consumer_key: self.consumer_key.clone(), code }
    }

    /// Record the access token the authorize exchange returned; the
    /// username comes back for reporting.
    pub fn accept_authorize_response(&mut self, response: PocketAuthorizeResponse) -> (r: String)
        ensures
            final(self)@.consumer_key == old(self)@.consumer_key,
            final(self)@.code == old(self)@.code,
            final(self)@.access_token == Some(response.access_token@),
            r@ == response.username@,
    {
        let PocketAuthorizeResponse { access_token, username } = response;
        self.access_token = Some(access_token);
        username
    }

    /// The body of the add-item exchange for one URL. The session must hold
    /// an access token.
    pub fn add_request(
        &self,
        url: &String,
        title: Option<String>,
        tags: Option<String>,
        tweet_id: Option<String>,
    ) -> (r: PocketAddRequest)
        requires
            self@.access_token is Some,
        ensures
            r.consumer_key@ == self@.consumer_key,
            Some(r.access_token@) == self@.access_token,
            r.url@ == url@,
            opt_string_view(r.title) == opt_string_view(title),
            opt_string_view(r.tags) == opt_string_view(tags),
            opt_string_view(r.tweet_id) == opt_string_view(tweet_id),
    {
        let access_token = match &self.access_token {
            Some(t) => t.clone(),
            None => vstd::pervasive::unreached(),
        };
        PocketAddRequest {
            consumer_key: self.consumer_key.clone(),
            access_token,
            url: url.clone(),
            title,
            tags,
            tweet_id,
        }
    }
}

/// The message used when the sink signals an error without explaining it.
pub open spec fn unknown_protocol_error_text() -> Seq<char> {
    "unknown protocol error"@
}

/// The message attached to a sink response with an unacceptable status.
pub open spec fn sink_status_text(status: int) -> Seq<char> {
    "the sink returned HTTP status "@ + status_message(status)
}

/// Classify one sink exchange's response. A structured error header
/// overrides everything: its code and message (or a fixed text when the
/// message header is missing) become a protocol error carrying whatever body
/// was read. Otherwise a non-2xx status fails the exchange with the body;
/// otherwise a failure to read the body fails it; otherwise the body is the
/// exchange's result.
pub fn classify_sink_response(
    status: u16,
    x_error_code: Option<String>,
    x_error: Option<String>,
    body: Result<String, String>,
) -> (r: Result<String, PocketError>)
    ensures
        x_error_code matches Some(code) ==> (r matches Err(e) && (e matches PocketError::Proto(
            c,
            m,
            b,
        ) && c == code && m@ == (match x_error {
            Some(x) => x@,
            None => unknown_protocol_error_text(),
        }) && b == (match body {
            Ok(s) => Some(s),
            Err(_) => None::<String>,
        }))),
        x_error_code is None && !success_status(status) ==> (r matches Err(e) && (e matches
            PocketError::Http(m, b) && m@ == sink_status_text(status as int) && b == (match body {
            Ok(s) => Some(s),
            Err(_) => None::<String>,
        }))),
        x_error_code is None && success_status(status) ==> (match body {
            Ok(s) => r == Ok::<String, PocketError>(s),
            Err(m) => r matches Err(e) && (e matches PocketError::Io(im) && im == m),
        }),
{
    match x_error_code {
        Some(code) => {
            let message = match x_error {
                Some(x) => x,
                None => String::from_str("unknown protocol error"),
            };
            Err(PocketError::Proto(code, message, body.ok()))
        },
        None => {
            if !(200 <= status && status < 300) {
                let mut message = String::new();
                message.append("the sink returned HTTP status ");
                let digits = status_to_string(status);
                message.append(digits.as_str());
                proof {
                    reveal_strlit("the sink returned HTTP status ");
                }
                Err(PocketError::Http(message, body.ok()))
            } else {
                match body {
                    Ok(s) => Ok(s),
                    Err(m) => Err(PocketError::Io(m)),
                }
            }
        },
    }
}

/// A session from the configuration's credentials; the consumer key must be
/// set.
pub fn get_pocket(config: &Configuration) -> (r: Result<Pocket, PocketSetupError>)
    ensures
        config.consumer_key matches Some(k) ==> (r matches Ok(p) && p@.consumer_key == k@
            && p@.access_token == opt_string_view(config.access_token) && p@.code is None),
        config.consumer_key is None ==> (r matches Err(e) && e is MissingConsumerKey),
{
    match &config.consumer_key {
        Some(consumer_key) => Ok(
            Pocket::new(
                consumer_key.as_str(),
                match &config.access_token {
                    Some(t) => Some(t.as_str()),
                    None => None,
                },
            ),
        ),
        None => Err(PocketSetupError::MissingConsumerKey),
    }
}

/// A session ready to deliver: both the consumer key and the access token
/// must be set.
pub fn get_authenticated_pocket(config: &Configuration) -> (r: Result<Pocket, PocketSetupError>)
    ensures
        config.consumer_key is Some && config.access_token is Some ==> (r matches Ok(p)
            && p@.consumer_key == (config.consumer_key->0)@ && p@.access_token == opt_string_view(
            config.access_token,
        ) && p@.code is None),
        config.consumer_key is None ==> (r matches Err(e) && e is MissingConsumerKey),
        config.consumer_key is Some && config.access_token is None ==> (r matches Err(e) && e
            is MissingAccessToken),
{
    match get_pocket(config) {
        Ok(pocket) => {
            match &config.access_token {
                Some(_) => Ok(pocket),
                None => Err(PocketSetupError::MissingAccessToken),
            }
        },
        Err(e) => Err(e),
    }
}

} // verus!
