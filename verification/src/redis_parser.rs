use crate::db::Database;
use crate::errors::Error;
use crate::strutil::{
    char_is_ws, contains_any_char, contains_ci, dec_digits, first_ws, is_ws, lemma_first_ws,
    str_contains_any_char, str_eq, usize_to_string,
};
use vstd::prelude::*;
use vstd::utf8::encode_utf8;

verus! {

/// A value of the key-value server's wire protocol.  Rendering is exact:
/// [`RedisType::to_string`] returns precisely [`RedisType::encoding`],
/// whose length prefixes count bytes, as the wire format demands.
#[derive(Debug)]
pub enum RedisType<'a> {
    SimpleString(&'a str),
    Error(&'a str),
    Integer(String),
    BulkString(String),
    Array(Box<Vec<RedisType<'a>>>),
    Null,
    Boolean(bool),
    NullBulk,
    Delay(Message<'a>),
}

/// A delayed-expiry notice: remove `key` after `time` milliseconds.
#[derive(Debug)]
pub struct Message<'a> {
    pub key: &'a str,
    pub time: u64,
}

impl<'a> Message<'a> {
    pub fn new(time: u64, key: &'a str) -> (r: Self)
        ensures
            r.time == time,
            r.key@ == key@,
    {
        Message { key, time }
    }
}

impl<'a> Clone for Message<'a> {
    fn clone(&self) -> (r: Self)
        ensures
            r.key@ == self.key@,
            r.time == self.time,
    {
        Message { key: self.key, time: self.time }
    }
}

impl<'a> vstd::std_specs::cmp::PartialEqSpecImpl for Message<'a> {
    open spec fn obeys_eq_spec() -> bool {
        true
    }

    open spec fn eq_spec(&self, other: &Message<'a>) -> bool {
        self.key@ == other.key@ && self.time == other.time
    }
}

impl<'a> PartialEq for Message<'a> {
    fn eq(&self, other: &Self) -> (r: bool) {
        str_eq(self.key, other.key) && self.time == other.time
    }
}

// ---------------------------------------------------------------------------
// Rendering.
// ---------------------------------------------------------------------------

impl<'a> RedisType<'a> {
    /// The wire form of this value.
    pub open spec fn encoding(self) -> Seq<char>
        decreases self,
    {
        match self {
            RedisType::SimpleString(m) => "+"@ + m@ + "\r\n"@,
            RedisType::Error(m) => "-"@ + m@ + "\r\n"@,
            RedisType::Integer(m) => ":"@ + m@ + "\r\n"@,
            RedisType::BulkString(m) => "$"@ + dec_digits(encode_utf8(m@).len()) + "\r\n"@ + m@
                + "\r\n"@,
            RedisType::Array(v) => "*"@ + dec_digits(v@.len()) + "\r\n"@ + encodings_of(v@),
            RedisType::Null => "_\r\n"@,
            RedisType::Boolean(b) => if b {
                "#t\r\n"@
            } else {
                "#f\r\n"@
            },
            RedisType::NullBulk => "$-1\r\n"@,
            RedisType::Delay(_) => "$+OK\r\n"@,
        }
    }

    /// True for the delayed-expiry variant.
    pub fn is_delay(&self) -> (r: bool)
        ensures
            r == (self is Delay),
    {
        match self {
            RedisType::Delay(_) => true,
            _ => false,
        }
    }

    /// Renders this value in its wire form.
    #[verifier::loop_isolation(false)]
    pub fn to_string(&self) -> (r: String)
        ensures
            r@ == self.encoding(),
        decreases *self,
    {
        match self {
            RedisType::SimpleString(m) => {
                let mut s = String::from_str("+");
                s.append(m);
                s.append("\r\n");
                s
            },
            RedisType::Error(m) => {
                let mut s = String::from_str("-");
                s.append(m);
                s.append("\r\n");
                s
            },
            RedisType::Integer(m) => {
                let mut s = String::from_str(":");
                s.append(m.as_str());
                s.append("\r\n");
                s
            },
            RedisType::BulkString(m) => {
                let mut s = String::from_str("$");
                let n = usize_to_string(m.as_str().as_bytes_vec().len());
                s.append(n.as_str());
                s.append("\r\n");
                s.append(m.as_str());
                s.append("\r\n");
                s
            },
            RedisType::Array(v) => {
                let mut s = String::from_str("*");
                let n = usize_to_string(v.len());
                s.append(n.as_str());
                s.append("\r\n");
                let mut i: usize = 0;
                proof {
                    assert(v@.subrange(0, 0) =~= Seq::<RedisType<'a>>::empty());
                    assert(encodings_of(v@.subrange(0, 0)) == Seq::<char>::empty());
                    assert(s@ =~= "*"@ + dec_digits(v@.len()) + "\r\n"@ + encodings_of(
                        v@.subrange(0, 0),
                    ));
                }
                while i < v.len()
                    invariant
                        i <= v@.len(),
                        s@ == "*"@ + dec_digits(v@.len()) + "\r\n"@ + encodings_of(
                            v@.subrange(0, i as int),
                        ),
                    decreases v@.len() - i,
                {
                    proof {
                        let ghost gv = self->Array_0;
                        assert(gv@ == (**v)@);
                        assert(decreases_to!(*self => self->Array_0));
                        assert(decreases_to!(gv => gv@));
                        assert(decreases_to!(gv@ => gv@[i as int]));
                        assert(decreases_to!(*self => (**v)[i as int]));
                    }
                    let ghost prev = s@;
                    let piece = (&(**v)[i]).to_string();
                    s.append(piece.as_str());
                    i = i + 1;
                    proof {
                        lemma_encodings_of_push(v@.subrange(0, i - 1), v@[i - 1]);
                        assert(v@.subrange(0, i - 1).push(v@[i - 1]) =~= v@.subrange(0, i as int));
                        assert(s@ =~= "*"@ + dec_digits(v@.len()) + "\r\n"@ + encodings_of(
                            v@.subrange(0, i as int),
                        ));
                    }
                }
                proof {
                    assert(v@.subrange(0, v@.len() as int) =~= v@);
                }
                s
            },
            RedisType::Null => String::from_str("_\r\n"),
            RedisType::Boolean(b) => {
                if *b {
                    String::from_str("#t\r\n")
                } else {
                    String::from_str("#f\r\n")
                }
            },
            RedisType::NullBulk => String::from_str("$-1\r\n"),
            RedisType::Delay(_) => String::from_str("$+OK\r\n"),
        }
    }
}

/// The concatenated wire forms of a sequence of values.
pub open spec fn encodings_of<'a>(v: Seq<RedisType<'a>>) -> Seq<char>
    decreases v,
{
    if v.len() == 0 {
        Seq::empty()
    } else {
        v[0].encoding() + encodings_of(v.drop_first())
    }
}

/// Appending a value appends its wire form.
proof fn lemma_encodings_of_push<'a>(v: Seq<RedisType<'a>>, t: RedisType<'a>)
    ensures
        encodings_of(v.push(t)) == encodings_of(v) + t.encoding(),
    decreases v.len(),
{
    if v.len() == 0 {
        let s1 = v.push(t);
        assert(s1.len() == 1);
        assert(s1[0] == t);
        assert(s1.drop_first() =~= Seq::<RedisType<'a>>::empty());
        assert(encodings_of(s1) == s1[0].encoding() + encodings_of(s1.drop_first()));
        assert(encodings_of(s1.drop_first()) == Seq::<char>::empty());
        assert(encodings_of(v) == Seq::<char>::empty());
        assert(encodings_of(s1) =~= encodings_of(v) + t.encoding());
    } else {
        assert(v.push(t).drop_first() =~= v.drop_first().push(t));
        assert(v.push(t)[0] == v[0]);
        lemma_encodings_of_push(v.drop_first(), t);
        assert(v[0].encoding() + (encodings_of(v.drop_first()) + t.encoding()) =~= (
        v[0].encoding() + encodings_of(v.drop_first())) + t.encoding());
    }
}

// ---------------------------------------------------------------------------
// Equality.
// ---------------------------------------------------------------------------

/// Structural equality of protocol values, with one deliberate quirk: any
/// two delayed-expiry values count as equal, whatever their messages say,
/// since both stand for the same acknowledgement on the wire.
pub open spec fn resp_eq<'a>(a: RedisType<'a>, b: RedisType<'a>) -> bool
    decreases a,
{
    match (a, b) {
        (RedisType::SimpleString(x), RedisType::SimpleString(y)) => x@ == y@,
        (RedisType::Error(x), RedisType::Error(y)) => x@ == y@,
        (RedisType::Integer(x), RedisType::Integer(y)) => x@ == y@,
        (RedisType::BulkString(x), RedisType::BulkString(y)) => x@ == y@,
        (RedisType::Array(x), RedisType::Array(y)) => resp_eq_seq(x@, y@),
        (RedisType::Null, RedisType::Null) => true,
        (RedisType::Boolean(x), RedisType::Boolean(y)) => x == y,
        (RedisType::NullBulk, RedisType::NullBulk) => true,
        (RedisType::Delay(_), RedisType::Delay(_)) => true,
        _ => false,
    }
}

/// Element-wise [`resp_eq`] of two sequences of protocol values.
pub open spec fn resp_eq_seq<'a>(a: Seq<RedisType<'a>>, b: Seq<RedisType<'a>>) -> bool
    decreases a,
{
    a.len() == b.len() && (a.len() == 0 || (resp_eq(a[0], b[0]) && resp_eq_seq(
        a.drop_first(),
        b.drop_first(),
    )))
}

/// Executable test for [`resp_eq`].
#[verifier::loop_isolation(false)]
fn resp_eq_exec<'a>(a: &RedisType<'a>, b: &RedisType<'a>) -> (r: bool)
    ensures
        r == resp_eq(*a, *b),
    decreases *a,
{
    match (a, b) {
        (RedisType::SimpleString(x), RedisType::SimpleString(y)) => str_eq(x, y),
        (RedisType::Error(x), RedisType::Error(y)) => str_eq(x, y),
        (RedisType::Integer(x), RedisType::Integer(y)) => str_eq(x.as_str(), y.as_str()),
        (RedisType::BulkString(x), RedisType::BulkString(y)) => str_eq(x.as_str(), y.as_str()),
        (RedisType::Array(x), RedisType::Array(y)) => {
            proof {
                assert(resp_eq(*a, *b) == resp_eq_seq(x@, y@));
            }
            if x.len() != y.len() {
                assert(!resp_eq_seq(x@, y@));
                return false;
            }
            let n = x.len();
            let mut i: usize = 0;
            proof {
                assert(x@.subrange(0, n as int) =~= x@);
                assert(y@.subrange(0, n as int) =~= y@);
            }
            while i < n
                invariant
                    i <= n,
                    n == x@.len(),
                    n == y@.len(),
                    resp_eq_seq(x@, y@) == resp_eq_seq(
                        x@.subrange(i as int, n as int),
                        y@.subrange(i as int, n as int),
                    ),
                decreases n - i,
            {
                proof {
                    assert(*a == RedisType::Array(*x));
                    let ghost gx = a->Array_0;
                    assert(gx@ == (**x)@);
                    assert(decreases_to!(*a => a->Array_0));
                    assert(decreases_to!(gx => gx@));
                    assert(decreases_to!(gx@ => gx@[i as int]));
                    assert(decreases_to!(*a => (**x)[i as int]));
                }
                let ghost xr = x@.subrange(i as int, n as int);
                let ghost yr = y@.subrange(i as int, n as int);
                proof {
                    assert(xr[0] == x@[i as int]);
                    assert(yr[0] == y@[i as int]);
                }
                if !resp_eq_exec(&(**x)[i], &(**y)[i]) {
                    assert(!resp_eq_seq(xr, yr));
                    return false;
                }
                i = i + 1;
                proof {
                    assert(xr.drop_first() =~= x@.subrange(i as int, n as int));
                    assert(yr.drop_first() =~= y@.subrange(i as int, n as int));
                }
            }
            proof {
                assert(x@.subrange(n as int, n as int) =~= Seq::<RedisType>::empty());
                assert(y@.subrange(n as int, n as int) =~= Seq::<RedisType>::empty());
            }
            true
        },
        (RedisType::Null, RedisType::Null) => true,
        (RedisType::Boolean(x), RedisType::Boolean(y)) => x == y,
        (RedisType::NullBulk, RedisType::NullBulk) => true,
        (RedisType::Delay(_), RedisType::Delay(_)) => true,
        _ => false,
    }
}

impl<'a> vstd::std_specs::cmp::PartialEqSpecImpl for RedisType<'a> {
    open spec fn obeys_eq_spec() -> bool {
        true
    }

    open spec fn eq_spec(&self, other: &RedisType<'a>) -> bool {
        resp_eq(*self, *other)
    }
}

impl<'a> PartialEq for RedisType<'a> {
    fn eq(&self, other: &Self) -> (r: bool) {
        resp_eq_exec(self, other)
    }
}

// ---------------------------------------------------------------------------
// Command splitting.
// ---------------------------------------------------------------------------

/// Splits a plain-text command at its first whitespace character into the
/// command word and the rest of the line, or yields nothing when no
/// whitespace occurs.
pub fn split_command<'a>(command: &'a str) -> (r: Option<Vec<&'a str>>)
    ensures
        r is None <==> first_ws(command@) == command@.len(),
        r matches Some(v) ==> ({
            let p = first_ws(command@);
            &&& v.deep_view() =~= seq![
                command@.subrange(0, p),
                command@.subrange(p + 1, command@.len() as int),
            ]
        }),
{
    let len = command.unicode_len();
    let mut i: usize = 0;
    while i < len
        invariant
            i <= len,
            len == command@.len(),
            forall|k: int| 0 <= k < i ==> !is_ws(command@[k]),
        decreases len - i,
    {
        if char_is_ws(command.get_char(i)) {
            proof {
                lemma_first_ws(command@, i as int);
            }
            let head = command.substring_char(0, i);
            let tail = command.substring_char(i + 1, len);
            let mut v: Vec<&'a str> = Vec::new();
            v.push(head);
            v.push(tail);
            proof {
                assert(v.deep_view() =~= seq![
                    command@.subrange(0, i as int),
                    command@.subrange(i + 1, len as int),
                ]);
            }
            return Some(v);
        }
        i = i + 1;
    }
    proof {
        lemma_first_ws(command@, len as int);
    }
    None
}

// ---------------------------------------------------------------------------
// Extracting message payloads from split request lines.
// ---------------------------------------------------------------------------

/// The marker characters that open the protocol's framing lines.
pub open spec fn resp_symbols() -> Seq<char> {
    seq!['*', ':', '+', '-', '$', '_', '#']
}

/// A payload line: one that carries no framing marker anywhere.
pub open spec fn is_payload(s: Seq<char>) -> bool {
    !contains_any_char(s, resp_symbols())
}

/// The payload lines of `req` from position `start` on, in order.
pub open spec fn payload_items(req: Seq<Seq<char>>, start: int) -> Seq<Seq<char>>
    decreases req.len() - start,
{
    if start < 0 || start >= req.len() {
        Seq::empty()
    } else if is_payload(req[start]) {
        seq![req[start]] + payload_items(req, start + 1)
    } else {
        payload_items(req, start + 1)
    }
}

/// Collects the payload lines of `req` from `start` on: every line free of
/// framing markers, or, when `count` limits the harvest, the first
/// `max(count, 1)` of them.
pub fn extract_msg<'a>(req: &Vec<&'a str>, start: usize, count: Option<usize>) -> (r: Vec<&'a str>)
    ensures
        count is None ==> r.deep_view() == payload_items(req.deep_view(), start as int),
        count matches Some(num) ==> ({
            let all = payload_items(req.deep_view(), start as int);
            let cap = if num < 1 {
                1int
            } else {
                num as int
            };
            r.deep_view() == all.take(if cap < all.len() {
                cap
            } else {
                all.len() as int
            })
        }),
{
    let symbols = "*:+-$_#";
    let mut out: Vec<&'a str> = Vec::new();
    let n = req.len();
    let mut s: usize = start;
    let cap: Option<usize> = match count {
        Some(num) => if num < 1 {
            Some(1)
        } else {
            Some(num)
        },
        None => None,
    };
    proof {
        reveal_strlit("*:+-$_#");
        assert(symbols@ =~= resp_symbols());
    }
    while s < n
        invariant
            start <= s <= n || s == start,
            n == req.deep_view().len(),
            symbols@ == resp_symbols(),
            cap == (match count {
                Some(num) => if num < 1 {
                    Some(1usize)
                } else {
                    Some(num)
                },
                None => None::<usize>,
            }),
            cap matches Some(c) ==> out@.len() < c,
            payload_items(req.deep_view(), start as int) == out.deep_view() + payload_items(
                req.deep_view(),
                s as int,
            ),
            out.deep_view() == payload_items(req.deep_view(), start as int).take(
                out@.len() as int,
            ),
        decreases n - s,
    {
        let ghost prev_dv = out.deep_view();
        if !str_contains_any_char(req[s], symbols) {
            out.push(req[s]);
            proof {
                assert(out.deep_view() =~= prev_dv.push(req.deep_view()[s as int]));
                assert(prev_dv.push(req.deep_view()[s as int]) + payload_items(
                    req.deep_view(),
                    s + 1,
                ) =~= prev_dv + (seq![req.deep_view()[s as int]] + payload_items(
                    req.deep_view(),
                    s + 1,
                )));
                assert(out.deep_view() =~= payload_items(req.deep_view(), start as int).take(
                    out@.len() as int,
                ));
            }
            match cap {
                Some(c) => {
                    if out.len() >= c {
                        s = s + 1;
                        return out;
                    }
                },
                None => {},
            }
        }
        s = s + 1;
    }
    proof {
        assert(payload_items(req.deep_view(), n as int) =~= Seq::<Seq<char>>::empty());
        assert(out.deep_view() + Seq::<Seq<char>>::empty() =~= out.deep_view());
        let all = payload_items(req.deep_view(), start as int);
        assert(out.deep_view() == all);
        assert(all.take(all.len() as int) =~= all);
    }
    out
}

// ---------------------------------------------------------------------------
// The command dispatcher.
// ---------------------------------------------------------------------------

/// The request's lines: the pieces between line breaks, with the trailing
/// piece after the final break discarded.
pub open spec fn req_lines(rs: Seq<char>) -> Seq<Seq<char>> {
    crate::strutil::split_seq(rs, "\r\n"@).drop_last()
}

/// Index of the first line equal to `w` up to ASCII case, or the number of
/// lines when none is.
pub open spec fn first_ci_index(ls: Seq<Seq<char>>, w: Seq<char>) -> int
    decreases ls.len(),
{
    if ls.len() == 0 {
        0
    } else if crate::strutil::seq_eq_ci(ls[0], w) {
        0
    } else {
        1 + first_ci_index(ls.drop_first(), w)
    }
}

proof fn lemma_first_ci_index(ls: Seq<Seq<char>>, w: Seq<char>, p: int)
    requires
        0 <= p <= ls.len(),
        forall|k: int| 0 <= k < p ==> !crate::strutil::seq_eq_ci(ls[k], w),
        p == ls.len() || crate::strutil::seq_eq_ci(ls[p], w),
    ensures
        first_ci_index(ls, w) == p,
    decreases p,
{
    if p > 0 {
        lemma_first_ci_index(ls.drop_first(), w, p - 1);
    }
}

/// Finds the first line equal to `w` up to ASCII case.
fn find_ci(ls: &Vec<&str>, w: &str) -> (r: usize)
    ensures
        r == first_ci_index(ls.deep_view(), w@),
        r <= ls.deep_view().len(),
{
    let n = ls.len();
    let mut i: usize = 0;
    while i < n
        invariant
            i <= n,
            n == ls.deep_view().len(),
            forall|k: int| 0 <= k < i ==> !crate::strutil::seq_eq_ci(ls.deep_view()[k], w@),
        decreases n - i,
    {
        if crate::strutil::str_eq_ci(ls[i], w) {
            proof {
                lemma_first_ci_index(ls.deep_view(), w@, i as int);
            }
            return i;
        }
        i = i + 1;
    }
    proof {
        lemma_first_ci_index(ls.deep_view(), w@, n as int);
    }
    n
}

/// Answers one request of the key-value wire protocol against the store.
///
/// The request's lines are examined for the first known command word --
/// echo, store, configuration lookup, lookup, key listing, in that order
/// of precedence -- and the reply is built from the payload lines after
/// the command word.  A request carrying a command word without the lines
/// the command needs is answered with an error rather than torn down;
/// anything without a known command word is answered with a pong.  Reading
/// the store's file for the key listing is its caller's business, as is
/// every other byte of input and output.
#[verifier::loop_isolation(false)]
pub fn get_redis_response<'a>(req: &'a String, data: &mut Database) -> (r: Result<
    RedisType<'a>,
    Error,
>)
    requires
        old(data).wf(),
    ensures
        final(data).wf(),
        ({
            let ls = req_lines(req@);
            let echo = contains_ci(req@, "ECHO"@);
            let set = contains_ci(req@, "SET"@);
            let config = contains_ci(req@, "CONFIG"@);
            let get = contains_ci(req@, "GET"@);
            let keys = contains_ci(req@, "KEYS"@);
            &&& (echo ==> *final(data) == *old(data) && ({
                let i = first_ci_index(ls, "ECHO"@);
                let ps = payload_items(ls, i + 1);
                if i == ls.len() || ps.len() == 0 {
                    r is Err
                } else {
                    r matches Ok(t) && t is BulkString && t->BulkString_0@ == ps[0]
                }
            }))
            &&& (!echo && set ==> ({
                let i = first_ci_index(ls, "SET"@);
                let ps = payload_items(ls, i + 1);
                if i == ls.len() || ps.len() < 2 {
                    r is Err && *final(data) == *old(data)
                } else {
                    ({
                        &&& (old(data).has_key(ps[0]) ==> final(data).keys() == old(data).keys()
                            && final(data).vals() == old(data).vals().update(
                            old(data).index_of_key(ps[0]),
                            ps[1],
                        ))
                        &&& (!old(data).has_key(ps[0]) ==> final(data).keys() == old(
                            data,
                        ).keys().push(ps[0]) && final(data).vals() == old(data).vals().push(ps[1]))
                        &&& final(data).value_of(ps[0]) == ps[1]
                        &&& if ps.len() > 2 && crate::strutil::seq_eq_ci(ps[2], "px"@) {
                            if ps.len() > 3 && ps[3].len() > 0 && crate::strutil::all_digits(ps[3])
                                && crate::strutil::dec_value(ps[3]) <= u64::MAX {
                                r matches Ok(t) && t is Delay && t->Delay_0.key@ == ps[0]
                                    && t->Delay_0.time == crate::strutil::dec_value(ps[3])
                            } else {
                                r is Err
                            }
                        } else {
                            r matches Ok(t) && t is SimpleString && t->SimpleString_0@ == "OK"@
                        }
                    })
                }
            }))
            &&& (!echo && !set && config ==> *final(data) == *old(data) && ({
                let i = first_ci_index(ls, "GET"@);
                let ps = payload_items(ls, i + 1);
                if i == ls.len() {
                    r matches Err(e) && e.message@ == "Error attaing index for CONFIG command"@
                } else if ps.len() == 0 {
                    r is Err
                } else {
                    ({
                        let k = crate::strutil::ascii_lower_seq(ps[0]);
                        if old(data).has_key(k) {
                            r matches Ok(t) && t is Array && ({
                                let v = t->Array_0@;
                                &&& v.len() == 2
                                &&& v[0] is BulkString
                                &&& v[0]->BulkString_0@ == ps[0]
                                &&& v[1] is BulkString
                                &&& v[1]->BulkString_0@ == old(data).value_of(k)
                            })
                        } else {
                            r matches Ok(t) && t is NullBulk
                        }
                    })
                }
            }))
            &&& (!echo && !set && !config && get ==> *final(data) == *old(data) && ({
                let i = first_ci_index(ls, "GET"@);
                let ps = payload_items(ls, i + 1);
                if i == ls.len() || ps.len() == 0 {
                    r is Err
                } else if old(data).has_key(ps[0]) {
                    r matches Ok(t) && t is BulkString && t->BulkString_0@ == old(data).value_of(
                        ps[0],
                    )
                } else {
                    r matches Ok(t) && t is NullBulk
                }
            }))
            &&& (!echo && !set && !config && !get && keys ==> *final(data) == *old(data) && ({
                let ks = if old(data).keys().len() >= 2 {
                    old(data).keys().skip(2)
                } else {
                    Seq::<Seq<char>>::empty()
                };
                r matches Ok(t) && t is Array && t->Array_0@.len() == ks.len() && (forall|j: int|
                    0 <= j < ks.len() ==> (#[trigger] t->Array_0@[j]) is BulkString
                        && t->Array_0@[j]->BulkString_0@ == ks[j])
            }))
            &&& (!echo && !set && !config && !get && !keys ==> *final(data) == *old(data) && (r
                matches Ok(t) && t is SimpleString && t->SimpleString_0@ == "PONG"@))
        }),
{
    proof {
        reveal_strlit("\r\n");
    }
    let mut request: Vec<&'a str> = crate::strutil::split_str(req.as_str(), "\r\n");
    proof {
        crate::strutil::lemma_split_seq_nonempty(req@, "\r\n"@);
    }
    request.pop();
    proof {
        assert(request.deep_view() =~= req_lines(req@));
    }

    if crate::strutil::str_contains_ci(req.as_str(), "ECHO") {
        let idx = find_ci(&request, "ECHO");
        if idx == request.len() {
            return Err(Error { message: String::from_str("Error attaining index for ECHO command") });
        }
        let msgs = extract_msg(&request, idx + 1, None);
        if msgs.len() == 0 {
            return Err(Error { message: String::from_str("Error extracting message for ECHO command") });
        }
        proof {
            assert(msgs.deep_view()[0] == msgs@[0]@);
        }
        return Ok(RedisType::BulkString(msgs[0].to_owned()));
    } else if crate::strutil::str_contains_ci(req.as_str(), "SET") {
        let idx = find_ci(&request, "SET");
        if idx == request.len() {
            return Err(Error { message: String::from_str("Error attaining index for SET command") });
        }
        let params = extract_msg(&request, idx + 1, None);
        if params.len() < 2 {
            return Err(Error { message: String::from_str("Error extracting message for SET command") });
        }
        proof {
            assert(params.deep_view()[0] == params@[0]@);
            assert(params.deep_view()[1] == params@[1]@);
        }
        data.add(params[0], params[1]);
        if params.len() > 2 && crate::strutil::str_eq_ci(params[2], "px") {
            proof {
                assert(params.deep_view()[2] == params@[2]@);
            }
            if params.len() < 4 {
                return Err(Error { message: String::from_str("Error parsing delay for SET command") });
            }
            proof {
                assert(params.deep_view()[3] == params@[3]@);
            }
            match crate::strutil::parse_u64(params[3]) {
                Some(t) => {
                    return Ok(RedisType::Delay(Message::new(t, params[0])));
                },
                None => {
                    return Err(Error { message: String::from_str("Error parsing delay for SET command") });
                },
            }
        }
        return Ok(RedisType::SimpleString("OK"));
    } else if crate::strutil::str_contains_ci(req.as_str(), "CONFIG") {
        let idx = find_ci(&request, "GET");
        if idx == request.len() {
            return Err(Error { message: String::from_str("Error attaing index for CONFIG command") });
        }
        let params = extract_msg(&request, idx + 1, Some(1));
        if params.len() == 0 {
            proof {
                let all = payload_items(request.deep_view(), idx + 1);
                if all.len() > 0 {
                    assert(params.deep_view().len() > 0);
                }
            }
            return Err(Error { message: String::from_str("Error extracting message for CONFIG command") });
        }
        proof {
            assert(params.deep_view()[0] == params@[0]@);
            let all = payload_items(request.deep_view(), idx + 1);
            if all.len() == 0 {
                assert(all.take(0) =~= Seq::<Seq<char>>::empty());
                assert(false);
            }
            assert(params.deep_view()[0] == all[0]);
        }
        let key = crate::strutil::to_ascii_lower(params[0]);
        match data.try_get(key.as_str()) {
            Some(_) => {
                match data.get(key.as_str()) {
                    Some(v) => {
                        let mut arr: Vec<RedisType<'a>> = Vec::new();
                        arr.push(RedisType::BulkString(params[0].to_owned()));
                        arr.push(RedisType::BulkString(v));
                        return Ok(RedisType::Array(Box::new(arr)));
                    },
                    None => unreached(),
                }
            },
            None => {
                return Ok(RedisType::NullBulk);
            },
        }
    } else if crate::strutil::str_contains_ci(req.as_str(), "GET") {
        let idx = find_ci(&request, "GET");
        if idx == request.len() {
            return Err(Error { message: String::from_str("Error attaining index for GET command") });
        }
        let params = extract_msg(&request, idx + 1, Some(1));
        if params.len() == 0 {
            proof {
                let all = payload_items(request.deep_view(), idx + 1);
                if all.len() > 0 {
                    assert(params.deep_view().len() > 0);
                }
            }
            return Err(Error { message: String::from_str("Error extracting message for GET command") });
        }
        proof {
            assert(params.deep_view()[0] == params@[0]@);
            let all = payload_items(request.deep_view(), idx + 1);
            if all.len() == 0 {
                assert(all.take(0) =~= Seq::<Seq<char>>::empty());
                assert(false);
            }
            assert(params.deep_view()[0] == all[0]);
        }
        match data.try_get(params[0]) {
            Some(_) => {
                match data.get(params[0]) {
                    Some(v) => {
                        return Ok(RedisType::BulkString(v));
                    },
                    None => unreached(),
                }
            },
            None => {
                return Ok(RedisType::NullBulk);
            },
        }
    } else if crate::strutil::str_contains_ci(req.as_str(), "KEYS") {
        let keys = data.get_keys();
        let ghost ks = keys.deep_view();
        let mut arr: Vec<RedisType<'a>> = Vec::new();
        let n = keys.len();
        let mut j: usize = 0;
        while j < n
            invariant
                j <= n,
                n == ks.len(),
                ks == keys.deep_view(),
                arr@.len() == j,
                forall|k: int| 0 <= k < j ==> (#[trigger] arr@[k]) is BulkString
                    && arr@[k]->BulkString_0@ == ks[k],
            decreases n - j,
        {
            arr.push(RedisType::BulkString(keys[j].clone()));
            j = j + 1;
        }
        return Ok(RedisType::Array(Box::new(arr)));
    }
    return Ok(RedisType::SimpleString("PONG"));
}

/// The lines of `req` from `start` on, unfiltered.
pub fn extract_regex<'a>(req: &Vec<&'a str>, start: usize) -> (r: Vec<&'a str>)
    ensures
        start <= req.deep_view().len() ==> r.deep_view() == req.deep_view().skip(start as int),
        start > req.deep_view().len() ==> r.deep_view() == Seq::<Seq<char>>::empty(),
{
    let mut out: Vec<&'a str> = Vec::new();
    let n = req.len();
    let mut s: usize = start;
    if s > n {
        proof {
            assert(out.deep_view() =~= Seq::<Seq<char>>::empty());
        }
        return out;
    }
    while s < n
        invariant
            start <= s <= n,
            n == req.deep_view().len(),
            out.deep_view() == req.deep_view().subrange(start as int, s as int),
        decreases n - s,
    {
        let ghost prev_dv = out.deep_view();
        out.push(req[s]);
        s = s + 1;
        proof {
            assert(out.deep_view() =~= prev_dv.push(req.deep_view()[s - 1]));
            assert(out.deep_view() =~= req.deep_view().subrange(start as int, s as int));
        }
    }
    proof {
        assert(out.deep_view() =~= req.deep_view().skip(start as int));
    }
    out
}

} // verus!
