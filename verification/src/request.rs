use crate::errors::ServerError;
use crate::strutil::{
    ascii_lower_seq, contains_ci, lemma_split_seq_nonempty, split_seq, split_str, split_ws,
    str_contains_ci, str_eq, to_ascii_lower, trim_seq, trim_str, ws_tokens,
};
use vstd::prelude::*;

verus! {

/// The request methods the HTTP server answers.
#[derive(Debug, PartialEq, Eq, Structural)]
pub enum HttpMethod {
    GET,
    POST,
    PUT,
    DELETE,
}

/// The method named in a request-line word: the first known method name
/// that occurs in it, up to ASCII case, with everything unknown read as a
/// deletion request.
pub open spec fn method_of(s: Seq<char>) -> HttpMethod {
    if contains_ci(s, "GET"@) {
        HttpMethod::GET
    } else if contains_ci(s, "POST"@) {
        HttpMethod::POST
    } else if contains_ci(s, "PUT"@) {
        HttpMethod::PUT
    } else {
        HttpMethod::DELETE
    }
}

impl HttpMethod {
    /// Reads the method out of the request line's first word.
    pub fn get_method(method: &String) -> (r: HttpMethod)
        ensures
            r == method_of(method@),
    {
        if str_contains_ci(method.as_str(), "GET") {
            HttpMethod::GET
        } else if str_contains_ci(method.as_str(), "POST") {
            HttpMethod::POST
        } else if str_contains_ci(method.as_str(), "PUT") {
            HttpMethod::PUT
        } else {
            HttpMethod::DELETE
        }
    }
}

/// A header line that offers compressed transfer: it names the
/// accept-encoding field and its second word, lowered, is the gzip coding.
/// A header whose field name matches but which has no second word is
/// counted as no offer.
pub open spec fn header_offers_gzip(h: Seq<char>) -> bool {
    contains_ci(h, "accept-encoding"@) && ({
        let toks = ws_tokens(ascii_lower_seq(h));
        toks.len() >= 2 && toks[1] == "gzip"@
    })
}

/// One parsed HTTP request: the trimmed header lines after the request
/// line, the method, and the requested path.
#[derive(Debug)]
pub struct Request {
    pub request_headers: Vec<String>,
    pub method: HttpMethod,
    pub uri: String,
}

impl Request {
    /// Parses a whole request: the text is cut at line breaks, every line
    /// is trimmed, the first line must carry exactly method, path and the
    /// one supported protocol, and the remaining lines become the headers.
    pub fn new(request: String) -> (r: Result<Self, ServerError>)
        ensures
            ({
                let pieces = split_seq(request@, "\r\n"@);
                let trimmed = pieces.map_values(|p: Seq<char>| trim_seq(p));
                let toks = ws_tokens(trim_seq(pieces[0]));
                if pieces.len() < 3 {
                    r matches Err(e) && e.message@ == "Invalid request"@
                } else if toks.len() != 3 {
                    r matches Err(e) && e.message@ == "Invalid request line"@
                } else if toks[2] != "HTTP/1.1"@ {
                    r matches Err(e) && e.message@ == "Invalid protocol"@
                } else {
                    r matches Ok(q) && q.uri@ == toks[1] && q.method == method_of(toks[0])
                        && q.request_headers.deep_view() == trimmed.skip(1)
                }
            }),
    {
        let ghost reqv = request@;
        let request = match Self::seporate_request(request) {
            Ok(v) => v,
            Err(e) => {
                return Err(e);
            },
        };
        proof {
            let pieces = split_seq(reqv, "\r\n"@);
            assert(request.deep_view()[0] == pieces.map_values(|p: Seq<char>| trim_seq(p))[0]);
            assert(request.deep_view()[0] == trim_seq(pieces[0]));
            assert(request@[0]@ == request.deep_view()[0]);
        }
        let parsed = match Self::parse_request_line(&request[0]) {
            Ok(t) => t,
            Err(e) => {
                return Err(e);
            },
        };
        let (method, uri, protocol) = parsed;
        if !str_eq(protocol.as_str(), "HTTP/1.1") {
            return Err(ServerError { message: String::from_str("Invalid protocol") });
        }
        let method = HttpMethod::get_method(&method);
        let mut request_headers: Vec<String> = Vec::new();
        let n = request.len();
        let mut i: usize = 1;
        while i < n
            invariant
                1 <= i <= n,
                n == request@.len(),
                n >= 1,
                request_headers.deep_view() == request.deep_view().subrange(1, i as int),
            decreases n - i,
        {
            let ghost prev_dv = request_headers.deep_view();
            request_headers.push(request[i].clone());
            i = i + 1;
            proof {
                assert(request_headers.deep_view() =~= prev_dv.push(request.deep_view()[i - 1]));
                assert(request_headers.deep_view() =~= request.deep_view().subrange(1, i as int));
            }
        }
        proof {
            assert(request_headers.deep_view() =~= request.deep_view().skip(1));
        }
        Ok(Request { request_headers, method, uri })
    }

    /// Cuts the request at line breaks and trims each line; fewer than
    /// three lines cannot carry a request line and a header block.
    fn seporate_request(request: String) -> (r: Result<Vec<String>, ServerError>)
        ensures
            ({
                let pieces = split_seq(request@, "\r\n"@);
                if pieces.len() < 3 {
                    r matches Err(e) && e.message@ == "Invalid request"@
                } else {
                    r matches Ok(v) && v.deep_view() == pieces.map_values(
                        |p: Seq<char>| trim_seq(p),
                    ) && v@.len() == pieces.len()
                }
            }),
    {
        proof {
            reveal_strlit("\r\n");
        }
        let pieces = split_str(request.as_str(), "\r\n");
        if pieces.len() < 3 {
            return Err(ServerError { message: String::from_str("Invalid request") });
        }
        let ghost pv = pieces.deep_view();
        let mut req: Vec<String> = Vec::new();
        let n = pieces.len();
        let mut i: usize = 0;
        while i < n
            invariant
                i <= n,
                n == pv.len(),
                pv == pieces.deep_view(),
                req.deep_view() == pv.map_values(|p: Seq<char>| trim_seq(p)).take(i as int),
            decreases n - i,
        {
            let ghost prev_dv = req.deep_view();
            let t = trim_str(pieces[i]);
            req.push(t);
            i = i + 1;
            proof {
                assert(req.deep_view() =~= prev_dv.push(trim_seq(pv[i - 1])));
                assert(req.deep_view() =~= pv.map_values(|p: Seq<char>| trim_seq(p)).take(
                    i as int,
                ));
            }
        }
        proof {
            assert(req.deep_view() =~= pv.map_values(|p: Seq<char>| trim_seq(p)));
        }
        Ok(req)
    }

    /// Cuts the request line at whitespace into exactly method, path and
    /// protocol; any other word count is malformed.
    pub fn parse_request_line(request: &String) -> (r: Result<(String, String, String), ServerError>)
        ensures
            ({
                let toks = ws_tokens(request@);
                if toks.len() == 3 {
                    r matches Ok(t) && t.0@ == toks[0] && t.1@ == toks[1] && t.2@ == toks[2]
                } else {
                    r matches Err(e) && e.message@ == "Invalid request line"@
                }
            }),
    {
        let toks = split_ws(request.as_str());
        if toks.len() != 3 {
            return Err(ServerError { message: String::from_str("Invalid request line") });
        }
        proof {
            assert(toks.deep_view()[0] == toks@[0]@);
            assert(toks.deep_view()[1] == toks@[1]@);
            assert(toks.deep_view()[2] == toks@[2]@);
        }
        Ok((toks[0].clone(), toks[1].clone(), toks[2].clone()))
    }

    /// The stored file path for this request: the directory named by the
    /// third invocation argument, then the last segment of the request
    /// path.  Fewer than two arguments are reported; exactly two cannot
    /// name a directory and are not allowed.
    pub fn get_file_path(&self, args: &Vec<String>) -> (r: Result<String, ServerError>)
        requires
            args@.len() != 2,
        ensures
            args@.len() < 2 ==> (r matches Err(e) && e.message@
                == "Invalid command line arguments"@),
            args@.len() >= 3 ==> (r matches Ok(p) && p@ == args.deep_view()[2] + split_seq(
                self.uri@,
                "/"@,
            ).last()),
    {
        proof {
            reveal_strlit("/");
        }
        let parts = split_str(self.uri.as_str(), "/");
        proof {
            lemma_split_seq_nonempty(self.uri@, "/"@);
        }
        let file_name = parts[parts.len() - 1];
        if args.len() < 2 {
            return Err(ServerError { message: String::from_str("Invalid command line arguments") });
        }
        let dir = &args[2];
        let mut path = String::new();
        path.append(dir.as_str());
        path.append(file_name);
        proof {
            assert(parts.deep_view()[parts@.len() - 1] == split_seq(self.uri@, "/"@).last());
        }
        Ok(path)
    }

    /// The uploaded text of a storage request: the last header line with
    /// its trailing NUL padding removed; nothing when no header line
    /// exists, which callers that insist on a body treat as fatal.
    pub fn post_content(&self) -> (r: Option<String>)
        ensures
            ({
                let hs = self.request_headers.deep_view();
                if hs.len() > 0 {
                    r matches Some(c) && c@ == crate::strutil::drop_trailing_nuls(
                        hs[hs.len() - 1],
                    )
                } else {
                    r is None
                }
            }),
    {
        let n = self.request_headers.len();
        if n == 0 {
            return None;
        }
        proof {
            assert(self.request_headers.deep_view()[n - 1] == self.request_headers@[n - 1]@);
        }
        Some(crate::strutil::trim_trailing_nuls(self.request_headers[n - 1].as_str()))
    }

    /// True when some header offers the compressed transfer coding.
    pub fn is_compression_supported(&self) -> (r: bool)
        ensures
            r == exists|i: int|
                0 <= i < self.request_headers.deep_view().len() && header_offers_gzip(
                    #[trigger] self.request_headers.deep_view()[i],
                ),
    {
        let n = self.request_headers.len();
        let mut i: usize = 0;
        while i < n
            invariant
                i <= n,
                n == self.request_headers.deep_view().len(),
                forall|k: int|
                    0 <= k < i ==> !header_offers_gzip(
                        #[trigger] self.request_headers.deep_view()[k],
                    ),
            decreases n - i,
        {
            let h = &self.request_headers[i];
            if str_contains_ci(h.as_str(), "accept-encoding") {
                let low = to_ascii_lower(h.as_str());
                let toks = split_ws(low.as_str());
                if toks.len() >= 2 {
                    proof {
                        assert(toks.deep_view()[1] == toks@[1]@);
                    }
                    if str_eq(toks[1].as_str(), "gzip") {
                        proof {
                            assert(header_offers_gzip(self.request_headers.deep_view()[i as int]));
                        }
                        return true;
                    }
                }
            }
            proof {
                assert(!header_offers_gzip(self.request_headers.deep_view()[i as int]));
            }
            i = i + 1;
        }
        false
    }
}

} // verus!
