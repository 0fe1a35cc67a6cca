use crate::request::Request;
use crate::strutil::{
    contains_ci, dec_digits, lemma_split_seq_nonempty, split_seq, split_str, split_ws,
    str_contains_ci, str_eq, usize_to_string, ws_tokens,
};
use flate2::write::GzEncoder;
use flate2::Compression;
use std::io::Write;
use vstd::prelude::*;
use vstd::utf8::encode_utf8;

verus! {

/// An HTTP reply: its text, status, body type, and whether the body goes
/// out compressed.
pub struct Response {
    pub message: String,
    pub code: Code,
    pub content_type: ContentType,
    pub compression: bool,
}

/// The body types the server serves.
pub enum ContentType {
    Text,
    Html,
    Json,
    Octet,
}

impl ContentType {
    /// The media-type name sent in the content-type header.
    pub open spec fn display_seq(&self) -> Seq<char> {
        match self {
            ContentType::Text => "text/plain"@,
            ContentType::Html => "text/html"@,
            ContentType::Json => "application/json"@,
            ContentType::Octet => "application/octet-stream"@,
        }
    }

    /// Renders the media-type name.
    pub fn to_string(&self) -> (r: String)
        ensures
            r@ == self.display_seq(),
    {
        match self {
            ContentType::Text => String::from_str("text/plain"),
            ContentType::Html => String::from_str("text/html"),
            ContentType::Json => String::from_str("application/json"),
            ContentType::Octet => String::from_str("application/octet-stream"),
        }
    }
}

/// The status codes the server sends.
pub enum Code {
    Okay,
    Created,
    InternalServerError,
    Unauthorized,
    NotFound,
    BadRequest,
    Teapot,
}

impl Code {
    /// The bare status number.
    pub open spec fn code_seq(&self) -> Seq<char> {
        match self {
            Code::Okay => "200"@,
            Code::Created => "201"@,
            Code::InternalServerError => "500"@,
            Code::Unauthorized => "401"@,
            Code::NotFound => "404"@,
            Code::BadRequest => "400"@,
            Code::Teapot => "418"@,
        }
    }

    /// Renders the bare status number.
    pub fn to_code(&self) -> (r: String)
        ensures
            r@ == self.code_seq(),
    {
        match self {
            Code::Okay => String::from_str("200"),
            Code::Created => String::from_str("201"),
            Code::InternalServerError => String::from_str("500"),
            Code::Unauthorized => String::from_str("401"),
            Code::NotFound => String::from_str("404"),
            Code::BadRequest => String::from_str("400"),
            Code::Teapot => String::from_str("418"),
        }
    }

    /// The status line text: number and reason phrase.
    pub open spec fn display_seq(&self) -> Seq<char> {
        match self {
            Code::Okay => "200 OK"@,
            Code::Created => "201 Created"@,
            Code::InternalServerError => "500 Internal Server Error"@,
            Code::Unauthorized => "401 Unauthorized"@,
            Code::NotFound => "404 Not Found"@,
            Code::BadRequest => "400 Bad Request"@,
            Code::Teapot => "418 I'm a teapot"@,
        }
    }

    /// Renders the status line text.
    pub fn to_string(&self) -> (r: String)
        ensures
            r@ == self.display_seq(),
    {
        match self {
            Code::Okay => String::from_str("200 OK"),
            Code::Created => String::from_str("201 Created"),
            Code::InternalServerError => String::from_str("500 Internal Server Error"),
            Code::Unauthorized => String::from_str("401 Unauthorized"),
            Code::NotFound => String::from_str("404 Not Found"),
            Code::BadRequest => String::from_str("400 Bad Request"),
            Code::Teapot => String::from_str("418 I'm a teapot"),
        }
    }
}

// ---------------------------------------------------------------------------
// Rendering a reply.
// ---------------------------------------------------------------------------

/// What the compressed body looks like.  Relied-on behaviour of flate2's
/// gzip encoder, which builds reproducible streams on purpose -- time
/// stamp zero, fixed system marker -- so the output is a function of the
/// input bytes alone at the default level.
pub uninterp spec fn gzip_of(data: Seq<u8>) -> Seq<u8>;

/// Relies on flate2's `GzEncoder` writing into a byte vector: such writes
/// cannot fail, and the stream that `finish` yields is [`gzip_of`] of the
/// input.
#[verifier::external_body]
fn gzip_compress(data: &Vec<u8>) -> (r: Vec<u8>)
    ensures
        r@ == gzip_of(data@),
{
    let mut encoder = GzEncoder::new(Vec::new(), Compression::default());
    encoder.write_all(data.as_slice()).expect("Failed to write body to gzip encoder");
    encoder.finish().expect("Failed to finish gzip compression")
}

/// Relies on chrono's clock conversion and formatter for the date header's
/// text, going through the time-stamp conversion that also handles a clock
/// set before the epoch, where the direct clock read would refuse to
/// return.  The result depends on the moment of the call, so nothing is
/// promised of it.
#[verifier::external_body]
fn http_date_now() -> String {
    let now: chrono::DateTime<chrono::Utc> = chrono::DateTime::from(std::time::SystemTime::now());
    now.format("%a, %d %b %Y %H:%M:%S GMT").to_string()
}

impl Response {
    /// The status line and headers of the wire reply, given the date
    /// header's text and the body length: the status line, then the
    /// server, date, cache and body-type headers, the transfer coding when
    /// the body is compressed, and the body length, closed by the blank
    /// line.
    pub open spec fn header_text(self, date: Seq<char>, body_len: nat) -> Seq<char> {
        "HTTP/1.1 "@ + self.code.display_seq() + "\r\nServer: Ferriscuit\r\nDate: "@ + date
            + "\r\nCache-Control: no-cache\r\nContent-Type: "@ + self.content_type.display_seq()
            + (if self.compression {
            "\r\nContent-Encoding: gzip"@
        } else {
            Seq::<char>::empty()
        }) + "\r\nContent-Length: "@ + dec_digits(body_len) + "\r\n\r\n"@
    }

    /// The reply's body bytes: the text's bytes, compressed when asked.
    pub open spec fn body_bytes(self) -> Seq<u8> {
        if self.compression {
            gzip_of(encode_utf8(self.message@))
        } else {
            encode_utf8(self.message@)
        }
    }

    /// Renders the whole wire reply: headers for some date read from the
    /// clock at the moment of the call, then the body.
    pub fn to_bytes(&self) -> (r: Vec<u8>)
        ensures
            exists|date: Seq<char>|
                r@ == encode_utf8(
                    #[trigger] self.header_text(date, self.body_bytes().len()),
                ) + self.body_bytes(),
    {
        let date = http_date_now();
        let msg_bytes = self.message.as_str().as_bytes_vec();
        let body: Vec<u8> = if self.compression {
            gzip_compress(&msg_bytes)
        } else {
            msg_bytes
        };
        let mut h = String::from_str("HTTP/1.1 ");
        let code_text = self.code.to_string();
        h.append(code_text.as_str());
        h.append("\r\nServer: Ferriscuit\r\nDate: ");
        h.append(date.as_str());
        h.append("\r\nCache-Control: no-cache\r\nContent-Type: ");
        let ct = self.content_type.to_string();
        h.append(ct.as_str());
        if self.compression {
            h.append("\r\nContent-Encoding: gzip");
        }
        h.append("\r\nContent-Length: ");
        let n = usize_to_string(body.len());
        h.append(n.as_str());
        h.append("\r\n\r\n");
        proof {
            assert(h@ =~= self.header_text(date@, self.body_bytes().len()));
        }
        let mut out = h.as_str().as_bytes_vec();
        let m = body.len();
        let mut i: usize = 0;
        while i < m
            invariant
                i <= m,
                m == body@.len(),
                out@ == encode_utf8(self.header_text(date@, self.body_bytes().len()))
                    + body@.take(i as int),
            decreases m - i,
        {
            let ghost prev = out@;
            out.push(body[i]);
            i = i + 1;
            proof {
                assert(out@ =~= prev.push(body@[i - 1]));
                assert(out@ =~= encode_utf8(self.header_text(date@, self.body_bytes().len()))
                    + body@.take(i as int));
            }
        }
        proof {
            assert(body@.take(m as int) =~= body@);
            assert(body@ == self.body_bytes());
        }
        out
    }

    /// The reply's plain-text form: for a success, the status line (with
    /// the bare number repeated before the phrase), body type, optional
    /// coding, the text's byte length, blank line, text; for anything else
    /// a bare status line and the text between blank lines.
    pub open spec fn display_seq(self) -> Seq<char> {
        if self.code is Okay {
            "HTTP/1.1 "@ + self.code.code_seq() + " "@ + self.code.display_seq()
                + "\r\nContent-Type: "@ + self.content_type.display_seq() + (if self.compression {
                "\r\nContent-Encoding: gzip"@
            } else {
                Seq::<char>::empty()
            }) + "\r\nContent-Length: "@ + dec_digits(encode_utf8(self.message@).len())
                + "\r\n\r\n"@ + self.message@
        } else {
            "HTTP/1.1 "@ + self.code.code_seq() + " "@ + self.code.display_seq() + "\r\n\r\n"@
                + self.message@ + "\r\n\r\n"@
        }
    }

    /// Renders the plain-text form.
    pub fn to_string(&self) -> (r: String)
        ensures
            r@ == self.display_seq(),
    {
        let mut s = String::from_str("HTTP/1.1 ");
        let num = self.code.to_code();
        s.append(num.as_str());
        s.append(" ");
        let phrase = self.code.to_string();
        s.append(phrase.as_str());
        match self.code {
            Code::Okay => {
                s.append("\r\nContent-Type: ");
                let ct = self.content_type.to_string();
                s.append(ct.as_str());
                if self.compression {
                    s.append("\r\nContent-Encoding: gzip");
                }
                s.append("\r\nContent-Length: ");
                let n = usize_to_string(self.message.as_str().as_bytes_vec().len());
                s.append(n.as_str());
                s.append("\r\n\r\n");
                s.append(self.message.as_str());
            },
            _ => {
                s.append("\r\n\r\n");
                s.append(self.message.as_str());
                s.append("\r\n\r\n");
            },
        }
        proof {
            assert(s@ =~= self.display_seq());
        }
        s
    }
}

// ---------------------------------------------------------------------------
// Routing decisions.  The servers' request handlers read files and write
// sockets between these decisions; the decisions themselves live here.
// ---------------------------------------------------------------------------

/// Where a retrieval request is routed.
#[derive(PartialEq, Eq, Structural)]
pub enum GetRoute {
    /// The bare root path: answered with a plain acknowledgement.
    Root,
    /// An echo path: answered with the path's last segment.
    Echo,
    /// The browser-identification path: answered from the second header.
    UserAgent,
    /// A stored-file path: answered with the file's contents.
    Files,
    /// Anything else.
    NotFound,
}

/// The route a retrieval request takes: the bare root first, then the
/// path's words in a fixed precedence, case-insensitively.
pub open spec fn get_route_of(uri: Seq<char>) -> GetRoute {
    if uri == "/"@ {
        GetRoute::Root
    } else if contains_ci(uri, "echo"@) {
        GetRoute::Echo
    } else if contains_ci(uri, "user-agent"@) {
        GetRoute::UserAgent
    } else if contains_ci(uri, "files"@) {
        GetRoute::Files
    } else {
        GetRoute::NotFound
    }
}

/// Decides the route of a retrieval request.
pub fn route_get(uri: &String) -> (r: GetRoute)
    ensures
        r == get_route_of(uri@),
{
    if str_eq(uri.as_str(), "/") {
        GetRoute::Root
    } else if str_contains_ci(uri.as_str(), "echo") {
        GetRoute::Echo
    } else if str_contains_ci(uri.as_str(), "user-agent") {
        GetRoute::UserAgent
    } else if str_contains_ci(uri.as_str(), "files") {
        GetRoute::Files
    } else {
        GetRoute::NotFound
    }
}

/// The text echoed back for an echo path: its last segment.
pub fn echo_message(uri: &String) -> (r: String)
    ensures
        r@ == split_seq(uri@, "/"@).last(),
{
    proof {
        reveal_strlit("/");
    }
    let parts = split_str(uri.as_str(), "/");
    proof {
        lemma_split_seq_nonempty(uri@, "/"@);
        assert(parts.deep_view()[parts@.len() - 1] == split_seq(uri@, "/"@).last());
    }
    let last = parts[parts.len() - 1];
    last.to_owned()
}

/// The browser identification: the second word of the second header, when
/// both exist; callers that insist on it treat its absence as fatal.
pub fn user_agent_of(req: &Request) -> (r: Option<String>)
    ensures
        ({
            let hs = req.request_headers.deep_view();
            if hs.len() >= 2 && ws_tokens(hs[1]).len() >= 2 {
                r matches Some(u) && u@ == ws_tokens(hs[1])[1]
            } else {
                r is None
            }
        }),
{
    if req.request_headers.len() < 2 {
        return None;
    }
    let toks = split_ws(req.request_headers[1].as_str());
    if toks.len() < 2 {
        return None;
    }
    proof {
        assert(toks.deep_view()[1] == toks@[1]@);
    }
    Some(toks[1].clone())
}

} // verus!
