//! The answers that the server gives by itself.

use vstd::prelude::*;
use vstd::string::*;

verus! {

/// An answer that the server gives by itself.
#[derive(Clone, Copy, Debug, PartialEq, Eq, Structural)]
pub enum Response {
    /// The request is addressed to no host of this server.
    InvalidHost,
    /// The request names no tunnel, or none that is open.
    NotFound,
    /// It could not be found out who serves the tunnel.
    ErrorLocatingHost,
    /// The client of the tunnel refused the connection.
    TunnelRefused,
    /// The request lacks the token of a protected tunnel.
    Unauthorized,
    /// The server is in good health.
    Healthy,
}

/// The status of an answer, as it stands in the first line.
pub open spec fn status(response: Response) -> Seq<char> {
    match response {
        Response::InvalidHost => "400"@,
        Response::NotFound => "404"@,
        Response::ErrorLocatingHost => "500"@,
        Response::TunnelRefused => "500"@,
        Response::Unauthorized => "401"@,
        Response::Healthy => "200 OK"@,
    }
}

/// The body of an answer.
pub open spec fn body(response: Response) -> Seq<char> {
    match response {
        Response::InvalidHost => "Error: Invalid Hostname"@,
        Response::NotFound => "Error: Tunnel Not Found"@,
        Response::ErrorLocatingHost => "Error: Error finding tunnel"@,
        Response::TunnelRefused => "Tunnel says: connection refused."@,
        Response::Unauthorized => "Error: Unauthorized"@,
        Response::Healthy => "ok"@,
    }
}

/// The whole text of an answer.
pub open spec fn response_text(response: Response) -> Seq<char> {
    match response {
        Response::InvalidHost =>
            "HTTP/1.1 400\r\nContent-Length: 23\r\n\r\nError: Invalid Hostname"@,
        Response::NotFound =>
            "HTTP/1.1 404\r\nContent-Length: 23\r\n\r\nError: Tunnel Not Found"@,
        Response::ErrorLocatingHost =>
            "HTTP/1.1 500\r\nContent-Length: 27\r\n\r\nError: Error finding tunnel"@,
        Response::TunnelRefused =>
            "HTTP/1.1 500\r\nContent-Length: 32\r\n\r\nTunnel says: connection refused."@,
        Response::Unauthorized =>
            "HTTP/1.1 401\r\nContent-Length: 19\r\n\r\nError: Unauthorized"@,
        Response::Healthy => "HTTP/1.1 200 OK\r\nContent-Length: 2\r\n\r\nok"@,
    }
}

impl Response {
    /// The text to write to the connection.
    pub fn text(&self) -> (t: &'static str)
        ensures
            t@ == response_text(*self),
    {
        match self {
            Response::InvalidHost =>
                "HTTP/1.1 400\r\nContent-Length: 23\r\n\r\nError: Invalid Hostname",
            Response::NotFound =>
                "HTTP/1.1 404\r\nContent-Length: 23\r\n\r\nError: Tunnel Not Found",
            Response::ErrorLocatingHost =>
                "HTTP/1.1 500\r\nContent-Length: 27\r\n\r\nError: Error finding tunnel",
            Response::TunnelRefused =>
                "HTTP/1.1 500\r\nContent-Length: 32\r\n\r\nTunnel says: connection refused.",
            Response::Unauthorized =>
                "HTTP/1.1 401\r\nContent-Length: 19\r\n\r\nError: Unauthorized",
            Response::Healthy => "HTTP/1.1 200 OK\r\nContent-Length: 2\r\n\r\nok",
        }
    }
}

/// The number that an answer gives for the length of its body, as it writes it.
pub open spec fn declared(response: Response) -> Seq<char> {
    match response {
        Response::InvalidHost => "23"@,
        Response::NotFound => "23"@,
        Response::ErrorLocatingHost => "27"@,
        Response::TunnelRefused => "32"@,
        Response::Unauthorized => "19"@,
        Response::Healthy => "2"@,
    }
}

/// Every answer is one line with its status, one header with the length of its body, an
/// empty line and its body, and the length is right.
pub proof fn law_responses_are_well_formed(response: Response)
    ensures
        response_text(response) == "HTTP/1.1 "@ + status(response) + "\r\nContent-Length: "@
            + declared(response) + "\r\n\r\n"@ + body(response),
        crate::text::decimal(declared(response)) == Some(body(response).len() as usize),
        vstd::utf8::is_ascii_chars(response_text(response)),
{
    reveal_strlit("HTTP/1.1 ");
    reveal_strlit("\r\nContent-Length: ");
    reveal_strlit("\r\n\r\n");
    match response {
        Response::InvalidHost => {
            reveal_strlit("400");
            reveal_strlit("23");
            reveal_strlit("Error: Invalid Hostname");
            reveal_strlit("HTTP/1.1 400\r\nContent-Length: 23\r\n\r\nError: Invalid Hostname");
            lemma_two_digits("23"@);
        },
        Response::NotFound => {
            reveal_strlit("404");
            reveal_strlit("23");
            reveal_strlit("Error: Tunnel Not Found");
            reveal_strlit("HTTP/1.1 404\r\nContent-Length: 23\r\n\r\nError: Tunnel Not Found");
            lemma_two_digits("23"@);
        },
        Response::ErrorLocatingHost => {
            reveal_strlit("500");
            reveal_strlit("27");
            reveal_strlit("Error: Error finding tunnel");
            reveal_strlit("HTTP/1.1 500\r\nContent-Length: 27\r\n\r\nError: Error finding tunnel");
            lemma_two_digits("27"@);
        },
        Response::TunnelRefused => {
            reveal_strlit("500");
            reveal_strlit("32");
            reveal_strlit("Tunnel says: connection refused.");
            reveal_strlit(
                "HTTP/1.1 500\r\nContent-Length: 32\r\n\r\nTunnel says: connection refused.",
            );
            lemma_two_digits("32"@);
        },
        Response::Unauthorized => {
            reveal_strlit("401");
            reveal_strlit("19");
            reveal_strlit("Error: Unauthorized");
            reveal_strlit("HTTP/1.1 401\r\nContent-Length: 19\r\n\r\nError: Unauthorized");
            lemma_two_digits("19"@);
        },
        Response::Healthy => {
            reveal_strlit("200 OK");
            reveal_strlit("2");
            reveal_strlit("ok");
            reveal_strlit("HTTP/1.1 200 OK\r\nContent-Length: 2\r\n\r\nok");
            reveal_with_fuel(crate::text::digits_value, 2);
            assert("2"@.drop_last() =~= Seq::<char>::empty());
        },
    }
    assert(response_text(response) =~= "HTTP/1.1 "@ + status(response) + "\r\nContent-Length: "@
        + declared(response) + "\r\n\r\n"@ + body(response));
}

/// The value of two digits.
proof fn lemma_two_digits(s: Seq<char>)
    requires
        s.len() == 2,
    ensures
        crate::text::digits_value(s) == (s[0] as u32 - '0' as u32) as nat * 10 + (s[1] as u32
            - '0' as u32) as nat,
{
    reveal_with_fuel(crate::text::digits_value, 3);
    assert(s.drop_last().drop_last() =~= Seq::<char>::empty());
}

} // verus!
