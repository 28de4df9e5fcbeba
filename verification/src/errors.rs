//! The closed set of error kinds the library reports, and the rendering of an
//! error chain as text: a context line, then the underlying cause indented by
//! two spaces per nesting level.

use vstd::prelude::*;

use crate::text::{indent_after_line_feeds, indented};

verus! {

/// Credential checks that fail before any network call is attempted.
#[derive(Debug)]
pub enum PocketSetupError {
    MissingConsumerKey,
    MissingAccessToken,
}

/// Failures of one exchange with the remote sink. `Proto` is a structured
/// application-level error (code, message, response body); `Http` a transport
/// or status failure with the response body when one was read; `Io` and
/// `SerdeJson` carry the rendered message of the underlying failure.
#[derive(Debug)]
pub enum PocketError {
    Http(String, Option<String>),
    Io(String),
    SerdeJson(String),
    Proto(String, String, Option<String>),
}

/// Neither feed format accepted the fetched body; both parse failures are
/// kept for reporting.
#[derive(Debug)]
pub struct FeedError {
    pub atom_error: String,
    pub rss_error: String,
}

/// A collection of failures reported together, one line each.
#[derive(Debug)]
pub struct Errors {
    pub errors: Vec<String>,
}

/// The cause underneath a context line: one of the library's error kinds, a
/// plain rendered message from an edge the library does not model, several
/// failures at once, or a nested context chain.
#[derive(Debug)]
pub enum Cause {
    Pocket(PocketError),
    Setup(PocketSetupError),
    UnacceptableStatus(u16),
    FeedNotFound(String),
    Feed(FeedError),
    Message(String),
    Multiple(Errors),
    Nested(Box<ErrorWithContext>),
}

/// An error wrapped with a line of context; chains of these render as a
/// context line followed by the indented cause.
#[derive(Debug)]
pub struct ErrorWithContext {
    pub error: Cause,
    pub context: String,
}

pub open spec fn opt_body_suffix(body: Option<Seq<char>>) -> Seq<char> {
    match body {
        Option::Some(b) => seq!['\n'] + b,
        Option::None => Seq::<char>::empty(),
    }
}

/// The message of a sink failure: the protocol message with its code, or the
/// transport message, each followed by the response body when one was kept.
pub open spec fn pocket_error_message(e: PocketError) -> Seq<char> {
    match e {
        PocketError::Http(m, body) => m@ + opt_body_suffix(match body {
            Option::Some(b) => Option::Some(b@),
            Option::None => Option::None,
        }),
        PocketError::Io(m) => m@,
        PocketError::SerdeJson(m) => m@,
        PocketError::Proto(code, m, body) => m@ + " (code "@ + code@ + ")"@ + opt_body_suffix(
            match body {
                Option::Some(b) => Option::Some(b@),
                Option::None => Option::None,
            },
        ),
    }
}

pub open spec fn setup_error_message(e: PocketSetupError) -> Seq<char> {
    match e {
        PocketSetupError::MissingConsumerKey => {
            "The consumer key is not set in the configuration file. Run `feeds-to-pocket help set-consumer-key` for help and instructions."@
        },
        PocketSetupError::MissingAccessToken => {
            "The access token is not set in the configuration file. Run `feeds-to-pocket help login` for help and instructions."@
        },
    }
}

pub open spec fn feed_error_message(e: FeedError) -> Seq<char> {
    "could not parse input as either Atom or RSS:\n  parsing as Atom failed with:\n    "@
        + indented(indented(e.atom_error@)) + "\n  parsing as RSS failed with:\n    "@ + indented(
        indented(e.rss_error@),
    )
}

/// One line per failure, each introduced by a dash and indented under it.
pub open spec fn errors_message(msgs: Seq<Seq<char>>) -> Seq<char>
    decreases msgs.len(),
{
    if msgs.len() == 0 {
        Seq::<char>::empty()
    } else if msgs.len() == 1 {
        "- "@ + indented(msgs[0])
    } else {
        errors_message(msgs.drop_last()) + seq!['\n'] + "- "@ + indented(msgs.last())
    }
}

pub open spec fn cause_message_spec(c: Cause) -> Seq<char>
    decreases c,
{
    match c {
        Cause::Pocket(e) => pocket_error_message(e),
        Cause::Setup(e) => setup_error_message(e),
        Cause::UnacceptableStatus(status) => status_message(status as int),
        Cause::FeedNotFound(url) => "No feed with URL "@ + url@ + " was found."@,
        Cause::Feed(e) => feed_error_message(e),
        Cause::Message(m) => m@,
        Cause::Multiple(errs) => errors_message(errs.errors.deep_view()),
        Cause::Nested(e) => e.context@ + ":\n  "@ + indented(cause_message_spec(e.error)),
    }
}

/// A context line, a colon, then the cause indented under it.
pub open spec fn error_with_context_message(e: ErrorWithContext) -> Seq<char> {
    e.context@ + ":\n  "@ + indented(cause_message_spec(e.error))
}

/// The decimal digits of a status code, as text.
pub open spec fn status_message(n: int) -> Seq<char>
    decreases n,
{
    if n < 0 {
        Seq::<char>::empty()
    } else if n < 10 {
        seq![digit_char(n)]
    } else {
        status_message(n / 10) + seq![digit_char(n % 10)]
    }
}

pub open spec fn digit_char(n: int) -> char {
    if n == 0 {
        '0'
    } else if n == 1 {
        '1'
    } else if n == 2 {
        '2'
    } else if n == 3 {
        '3'
    } else if n == 4 {
        '4'
    } else if n == 5 {
        '5'
    } else if n == 6 {
        '6'
    } else if n == 7 {
        '7'
    } else if n == 8 {
        '8'
    } else {
        '9'
    }
}

fn digit_to_str(d: u16) -> (r: &'static str)
    requires
        d < 10,
    ensures
        r@ == seq![digit_char(d as int)],
{
    proof {
        reveal_strlit("0");
        reveal_strlit("1");
        reveal_strlit("2");
        reveal_strlit("3");
        reveal_strlit("4");
        reveal_strlit("5");
        reveal_strlit("6");
        reveal_strlit("7");
        reveal_strlit("8");
        reveal_strlit("9");
    }
    if d == 0 {
        "0"
    } else if d == 1 {
        "1"
    } else if d == 2 {
        "2"
    } else if d == 3 {
        "3"
    } else if d == 4 {
        "4"
    } else if d == 5 {
        "5"
    } else if d == 6 {
        "6"
    } else if d == 7 {
        "7"
    } else if d == 8 {
        "8"
    } else {
        "9"
    }
}

/// Render a status code as decimal text.
pub fn status_to_string(status: u16) -> (r: String)
    ensures
        r@ == status_message(status as int),
    decreases status,
{
    if status < 10 {
        let mut out = String::new();
        out.append(digit_to_str(status));
        out
    } else {
        let mut out = status_to_string(status / 10);
        out.append(digit_to_str(status % 10));
        out
    }
}

fn opt_body_append(out: &mut String, body: &Option<String>)
    ensures
        final(out)@ == old(out)@ + opt_body_suffix(
            match *body {
                Option::Some(ref b) => Option::Some(b@),
                Option::None => Option::None,
            },
        ),
{
    match body {
        Option::Some(b) => {
            out.append("\n");
            out.append(b.as_str());
            proof {
                reveal_strlit("\n");
            }
        },
        Option::None => {
            proof {
                assert(out@ =~= old(out)@ + Seq::<char>::empty());
            }
        },
    }
}

impl PocketError {
    /// The text of this failure, as the run's report prints it.
    pub fn message(&self) -> (r: String)
        ensures
            r@ == pocket_error_message(*self),
    {
        match self {
            PocketError::Http(m, body) => {
                let mut out = String::new();
                out.append(m.as_str());
                opt_body_append(&mut out, body);
                out
            },
            PocketError::Io(m) => m.clone(),
            PocketError::SerdeJson(m) => m.clone(),
            PocketError::Proto(code, m, body) => {
                let mut out = String::new();
                out.append(m.as_str());
                out.append(" (code ");
                out.append(code.as_str());
                out.append(")");
                proof {
                    reveal_strlit(" (code ");
                    reveal_strlit(")");
                }
                opt_body_append(&mut out, body);
                out
            },
        }
    }
}

impl PocketSetupError {
    /// The fixed explanation for the missing credential.
    pub fn message(&self) -> (r: String)
        ensures
            r@ == setup_error_message(*self),
    {
        let mut out = String::new();
        match self {
            PocketSetupError::MissingConsumerKey => {
                out.append(
                    "The consumer key is not set in the configuration file. Run `feeds-to-pocket help set-consumer-key` for help and instructions.",
                );
            },
            PocketSetupError::MissingAccessToken => {
                out.append(
                    "The access token is not set in the configuration file. Run `feeds-to-pocket help login` for help and instructions.",
                );
            },
        }
        out
    }
}

impl FeedError {
    /// Both parse failures, each indented under the format it belongs to.
    pub fn message(&self) -> (r: String)
        ensures
            r@ == feed_error_message(*self),
    {
        let mut out = String::new();
        out.append("could not parse input as either Atom or RSS:\n  parsing as Atom failed with:\n    ");
        let atom_once = indent_after_line_feeds(self.atom_error.as_str());
        let atom_twice = indent_after_line_feeds(atom_once.as_str());
        out.append(atom_twice.as_str());
        out.append("\n  parsing as RSS failed with:\n    ");
        let rss_once = indent_after_line_feeds(self.rss_error.as_str());
        let rss_twice = indent_after_line_feeds(rss_once.as_str());
        out.append(rss_twice.as_str());
        out
    }
}

impl Errors {
    /// Wrap several failures, already rendered, to be reported together.
    pub fn new(errors: Vec<String>) -> (r: Errors)
        ensures
            r.errors == errors,
    {
        Errors { errors }
    }

    /// One dash-introduced line per failure.
    pub fn message(&self) -> (r: String)
        ensures
            r@ == errors_message(self.errors.deep_view()),
    {
        let mut out = String::new();
        let mut k: usize = 0;
        while k < self.errors.len()
            invariant
                0 <= k <= self.errors@.len(),
                out@ == errors_message(self.errors.deep_view().take(k as int)),
            decreases self.errors@.len() - k,
        {
            if k > 0 {
                out.append("\n");
            }
            out.append("- ");
            let ind = indent_after_line_feeds(self.errors[k].as_str());
            out.append(ind.as_str());
            proof {
                reveal_strlit("\n");
                reveal_strlit("- ");
                let dv = self.errors.deep_view();
                assert(dv[k as int] == self.errors@[k as int]@);
                assert(dv.take(k + 1).drop_last() =~= dv.take(k as int));
                assert(dv.take(k + 1).last() == dv[k as int]);
                if k == 0 {
                    assert(out@ =~= errors_message(dv.take(k + 1)));
                } else {
                    assert(out@ =~= errors_message(dv.take(k + 1)));
                }
            }
            k = k + 1;
        }
        proof {
            assert(self.errors.deep_view().take(self.errors@.len() as int) =~= self.errors.deep_view());
        }
        out
    }
}

/// What the atomic save reports when its final rename fails: if the original
/// file was put back, the rename failure alone; if even that rollback
/// failed, both failures together under one context line.
pub fn save_swap_failure(
    rename_error: ErrorWithContext,
    rollback: Result<(), ErrorWithContext>,
) -> (r: ErrorWithContext)
    ensures
        rollback is Ok ==> r == rename_error,
        rollback matches Err(e) ==> (r.context@ == "failed to save configuration"@
            && (r.error matches Cause::Multiple(errs) && errs.errors.deep_view() =~= seq![
            error_with_context_message(rename_error),
            error_with_context_message(e),
        ])),
{
    match rollback {
        Ok(()) => rename_error,
        Err(rollback_error) => {
            let first = rename_error.message();
            let second = rollback_error.message();
            let r = ErrorWithContext::new(
                Cause::Multiple(Errors::new(vec![first, second])),
                String::from_str("failed to save configuration"),
            );
            proof {
                reveal_strlit("failed to save configuration");
            }
            r
        },
    }
}

impl Cause {
    /// The text of the cause, recursing through nested context chains.
    pub fn message(&self) -> (r: String)
        ensures
            r@ == cause_message_spec(*self),
        decreases *self,
    {
        match self {
            Cause::Pocket(e) => e.message(),
            Cause::Setup(e) => e.message(),
            Cause::UnacceptableStatus(status) => status_to_string(*status),
            Cause::FeedNotFound(url) => {
                let mut out = String::new();
                out.append("No feed with URL ");
                out.append(url.as_str());
                out.append(" was found.");
                proof {
                    reveal_strlit("No feed with URL ");
                    reveal_strlit(" was found.");
                }
                out
            },
            Cause::Feed(e) => e.message(),
            Cause::Message(m) => m.clone(),
            Cause::Multiple(errs) => errs.message(),
            Cause::Nested(e) => {
                let inner = e.error.message();
                let ind = indent_after_line_feeds(inner.as_str());
                let mut out = String::new();
                out.append(e.context.as_str());
                out.append(":\n  ");
                out.append(ind.as_str());
                proof {
                    reveal_strlit(":\n  ");
                }
                out
            },
        }
    }
}

impl ErrorWithContext {
    /// Attach a line of context to an error; the pair renders as the context,
    /// a colon, and the cause indented under it.
    pub fn new(error: Cause, context: String) -> (r: ErrorWithContext)
        ensures
            r.error == error,
            r.context == context,
    {
        ErrorWithContext { error, context }
    }

    /// The full rendered chain.
    pub fn message(&self) -> (r: String)
        ensures
            r@ == error_with_context_message(*self),
    {
        let inner = self.error.message();
        let ind = indent_after_line_feeds(inner.as_str());
        let mut out = String::new();
        out.append(self.context.as_str());
        out.append(":\n  ");
        out.append(ind.as_str());
        proof {
            reveal_strlit(":\n  ");
        }
        out
    }
}

} // verus!
