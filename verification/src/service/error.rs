//! Errors that are answered with an HTTP error page.
use vstd::prelude::*;

verus! {

/// Error conditions that could not be handled as a HTTP response.
#[derive(Debug, PartialEq, Eq, Clone, Copy)]
pub struct TamaWikiError {}

impl TamaWikiError {
    /// The error's text, as it is displayed.
    pub fn message(&self) -> (r: &'static str)
        ensures
            r@ == "TamaWikiError"@,
    {
        "TamaWikiError"
    }
}

/// A request that is answered with an error page.
#[derive(Debug, PartialEq)]
pub enum HttpError {
    /// Something failed while handling the request
    InternalServerError(String),
    /// The request's method is not served here
    MethodNotAllowed,
    /// The request is malformed
    BadRequest,
    /// Nothing is served at the request's path
    NotFound,
    /// The requested file may not be read
    Unauthorized,
}

/// The HTTP status code of an error.
pub open spec fn status_of(e: HttpError) -> u16 {
    match e {
        HttpError::MethodNotAllowed => 405,
        HttpError::BadRequest => 400,
        HttpError::NotFound => 404,
        HttpError::Unauthorized => 401,
        HttpError::InternalServerError(_) => 500,
    }
}

/// The digits of `n` in decimal, most significant first.
pub open spec fn decimal(n: nat) -> Seq<char>
    decreases n,
{
    if n < 10 {
        seq![digit_char(n)]
    } else {
        decimal(n / 10).push(digit_char(n % 10))
    }
}

/// The ASCII digit for `d` (below ten).
pub open spec fn digit_char(d: nat) -> char {
    ((d + 48) as u8) as char
}

/// The one-digit string for `d`.
fn digit_str(d: u16) -> (r: &'static str)
    requires
        d < 10,
    ensures
        r@ == seq![digit_char(d as nat)],
{
    proof {
        reveal_strlit("0");
        reveal_strlit("1");
        reveal_strlit("2");
        reveal_strlit("3");
        reveal_strlit("4");
        reveal_strlit("5");
        reveal_strlit("6");
        reveal_strlit("7");
        reveal_strlit("8");
        reveal_strlit("9");
    }
    let r = match d {
        0 => "0",
        1 => "1",
        2 => "2",
        3 => "3",
        4 => "4",
        5 => "5",
        6 => "6",
        7 => "7",
        8 => "8",
        _ => "9",
    };
    assert(r@ =~= seq![digit_char(d as nat)]);
    r
}

/// `n` written in decimal.
pub fn decimal_string(n: u16) -> (r: String)
    ensures
        r@ == decimal(n as nat),
    decreases n,
{
    if n < 10 {
        String::from_str(digit_str(n))
    } else {
        let mut s = decimal_string(n / 10);
        s.append(digit_str(n % 10));
        s
    }
}

/// What to answer when rendering an error page failed.
#[derive(Debug, PartialEq)]
pub enum RenderFallback {
    /// A plain "Internal Server Error" answer with status 500
    Plain,
    /// Render the page of this error instead
    Retry(HttpError),
}

impl HttpError {
    /// The HTTP status code of the error.
    pub fn status_code(&self) -> (r: u16)
        ensures
            r == status_of(*self),
    {
        match self {
            HttpError::MethodNotAllowed => 405,
            HttpError::BadRequest => 400,
            HttpError::NotFound => 404,
            HttpError::Unauthorized => 401,
            HttpError::InternalServerError(_) => 500,
        }
    }

    /// The name of the template that renders the error: its status code
    /// followed by ".html".
    pub fn default_template(&self) -> (r: String)
        ensures
            r@ == decimal(status_of(*self) as nat) + ".html"@,
    {
        let mut s = decimal_string(self.status_code());
        s.append(".html");
        s
    }

    /// The error's title, as it is displayed.
    pub fn title(&self) -> (r: &'static str)
        ensures
            r@ == match self {
                HttpError::MethodNotAllowed => "Method Not Allowed"@,
                HttpError::BadRequest => "Bad Request"@,
                HttpError::NotFound => "Not Found"@,
                HttpError::Unauthorized => "Unauthorized"@,
                HttpError::InternalServerError(_) => "Internal Server Error"@,
            },
    {
        match self {
            HttpError::MethodNotAllowed => "Method Not Allowed",
            HttpError::BadRequest => "Bad Request",
            HttpError::NotFound => "Not Found",
            HttpError::Unauthorized => "Unauthorized",
            HttpError::InternalServerError(_) => "Internal Server Error",
        }
    }

    /// A description of the error: the cause of an internal error.
    pub fn description(&self) -> (r: String)
        ensures
            r@ == match self {
                HttpError::MethodNotAllowed => "method not allowed"@,
                HttpError::BadRequest => "bad request"@,
                HttpError::NotFound => "not found"@,
                HttpError::Unauthorized => "unauthorized"@,
                HttpError::InternalServerError(err) => err@,
            },
    {
        match self {
            HttpError::MethodNotAllowed => String::from_str("method not allowed"),
            HttpError::BadRequest => String::from_str("bad request"),
            HttpError::NotFound => String::from_str("not found"),
            HttpError::Unauthorized => String::from_str("unauthorized"),
            HttpError::InternalServerError(err) => err.clone(),
        }
    }

    /// The detail shown on the error page: the cause of an internal
    /// error, and nothing for the others.
    pub fn detail(&self) -> (r: Option<String>)
        ensures
            match self {
                HttpError::InternalServerError(err) => r matches Some(d) && d@ == err@,
                _ => r is None,
            },
    {
        match self {
            HttpError::InternalServerError(err) => Some(err.clone()),
            _ => None,
        }
    }

    /// What to answer when rendering this error's page failed with
    /// `error_text`: a plain answer if this is already an internal
    /// error, else the page of an internal error about the template.
    pub fn on_render_failure(&self, error_text: &str) -> (r: RenderFallback)
        ensures
            match self {
                HttpError::InternalServerError(_) => r == RenderFallback::Plain,
                _ => r matches RenderFallback::Retry(HttpError::InternalServerError(m)) && m@
                    == "Template error: "@ + error_text@,
            },
    {
        match self {
            HttpError::InternalServerError(_) => RenderFallback::Plain,
            _ => {
                let mut m = String::from_str("Template error: ");
                m.append(error_text);
                RenderFallback::Retry(HttpError::InternalServerError(m))
            },
        }
    }
}

} // verus!
