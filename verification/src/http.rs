//! HTTP/1.1 message model: the `Request` and `Response` value types, the
//! request parser and the response serializer.
//!
//! Parsing is total: any input that is not shaped like a supported start
//! line yields the canonical unsupported request instead of an error.

use vstd::prelude::*;
use vstd::string::*;

verus! {

/// Only `GET` and `POST` are supported; any other method token is
/// recognized as `Unsupported`.
#[derive(Clone, Copy, Debug, PartialEq, Eq, Structural)]
pub enum RequestMethod {
    GET,
    POST,
    Unsupported,
}

/// A parsed HTTP request: the method and target taken from the start line,
/// and the body found after the first blank line, stored verbatim.
pub struct Request {
    pub method: RequestMethod,
    pub view: String,
    pub message: String,
}

/// The four response statuses that can be sent; no other status is
/// representable.
#[derive(Clone, Copy, Debug, PartialEq, Eq, Structural)]
pub enum ResponseStatus {
    OK,
    NotFound,
    Forbidden,
    InternalServerError,
}

/// A response to serialize: a status and a body sent verbatim.
pub struct Response {
    pub status: ResponseStatus,
    pub message: String,
}

/// The two-character line terminator.
pub open spec fn next_line() -> Seq<char> {
    "\r\n"@
}

/// The four-character blank-line separator between start line/headers and body.
pub open spec fn void_line() -> Seq<char> {
    "\r\n\r\n"@
}

/// The protocol marker that a well-formed start line must end with.
pub open spec fn first_line_ending() -> Seq<char> {
    " HTTP/1.1"@
}

/// The pattern `pat` occurs in `s` at position `i`.
pub open spec fn match_at(s: Seq<char>, pat: Seq<char>, i: int) -> bool {
    &&& 0 <= i
    &&& i + pat.len() <= s.len()
    &&& s.subrange(i, i + pat.len()) == pat
}

/// The position of the first occurrence of `pat` in `s` at or after `i`,
/// if any.
pub open spec fn find_from(s: Seq<char>, pat: Seq<char>, i: int) -> Option<int>
    decreases s.len() - i + 1,
        when 0 <= i
{
    if i + pat.len() > s.len() {
        None
    } else if match_at(s, pat, i) {
        Some(i)
    } else {
        find_from(s, pat, i + 1)
    }
}

/// The position of the first occurrence of `pat` in `s`, if any.
pub open spec fn find_sub(s: Seq<char>, pat: Seq<char>) -> Option<int> {
    find_from(s, pat, 0)
}

/// `s` ends with the suffix `pat`.
pub open spec fn ends_with(s: Seq<char>, pat: Seq<char>) -> bool {
    pat.len() <= s.len() && match_at(s, pat, s.len() - pat.len())
}

/// Splitting `s` on single space characters, as `str::split(" ")` does:
/// the result always has at least one token, and adjacent or leading or
/// trailing spaces contribute empty tokens.
pub open spec fn split_spaces(s: Seq<char>) -> Seq<Seq<char>>
    decreases s.len(),
{
    if s.len() == 0 {
        seq![Seq::<char>::empty()]
    } else if s[0] == ' ' {
        seq![Seq::<char>::empty()] + split_spaces(s.subrange(1, s.len() as int))
    } else {
        let rest = split_spaces(s.subrange(1, s.len() as int));
        seq![seq![s[0]] + rest[0]] + rest.subrange(1, rest.len() as int)
    }
}

/// The start line: everything up to the first line terminator, or the whole
/// input when no terminator occurs.
pub open spec fn first_line_of(s: Seq<char>) -> Seq<char> {
    match find_sub(s, next_line()) {
        None => s,
        Some(i) => s.subrange(0, i),
    }
}

/// The body: everything after the first blank-line separator, verbatim, or
/// empty when no separator occurs.
pub open spec fn message_of(s: Seq<char>) -> Seq<char> {
    match find_sub(s, void_line()) {
        None => Seq::<char>::empty(),
        Some(i) => s.subrange(i + void_line().len(), s.len() as int),
    }
}

/// The method a token denotes: an exact match against `GET` or `POST`,
/// anything else is unsupported.
pub open spec fn method_of(tok: Seq<char>) -> RequestMethod {
    if tok == "GET"@ {
        RequestMethod::GET
    } else if tok == "POST"@ {
        RequestMethod::POST
    } else {
        RequestMethod::Unsupported
    }
}

/// The start line is well-formed: it ends with the protocol marker and
/// splits on spaces into exactly three tokens.
pub open spec fn start_line_ok(s: Seq<char>) -> bool {
    &&& ends_with(first_line_of(s), first_line_ending())
    &&& split_spaces(first_line_of(s)).len() == 3
}

/// The mathematical value of a parsed request.
pub ghost struct RequestModel {
    pub method: RequestMethod,
    pub view: Seq<char>,
    pub message: Seq<char>,
}

/// The canonical unsupported request, returned whenever parsing cannot
/// confidently extract a request.
pub open spec fn unsupported_model() -> RequestModel {
    RequestModel { method: RequestMethod::Unsupported, view: Seq::<char>::empty(), message: Seq::<char>::empty() }
}

/// What parsing an input yields: method and target from the start line when
/// it is well-formed, the canonical unsupported request otherwise.
pub open spec fn parse_model(s: Seq<char>) -> RequestModel {
    if start_line_ok(s) {
        RequestModel {
            method: method_of(split_spaces(first_line_of(s))[0]),
            view: split_spaces(first_line_of(s))[1],
            message: message_of(s),
        }
    } else {
        unsupported_model()
    }
}

/// `r` carries exactly the parsed value `m`.
pub open spec fn models(r: Request, m: RequestModel) -> bool {
    &&& r.method == m.method
    &&& r.view@ == m.view
    &&& r.message@ == m.message
}

/// The fixed first line each status serializes to, trailing spaces included.
pub open spec fn status_line(status: ResponseStatus) -> Seq<char> {
    match status {
        ResponseStatus::OK => "HTTP/1.1 200 OK\r\n\r\n"@,
        ResponseStatus::NotFound => "HTTP/1.1 404 Not Found \r\n\r\n"@,
        ResponseStatus::Forbidden => "HTTP/1.1 403 Forbidden \r\n\r\n"@,
        ResponseStatus::InternalServerError => "HTTP/1.1 500 Internal Server Error\r\n\r\n"@,
    }
}

/// What serializing a response yields: its status line followed by its body,
/// with no further transformation.
pub open spec fn render(status: ResponseStatus, message: Seq<char>) -> Seq<char> {
    status_line(status) + message
}

impl ResponseStatus {
    /// The first line of the serialized response for this status.
    pub fn to_first_line(&self) -> (r: &str)
        ensures
            r@ == status_line(*self),
    {
        match self {
            ResponseStatus::OK => "HTTP/1.1 200 OK\r\n\r\n",
            ResponseStatus::NotFound => "HTTP/1.1 404 Not Found \r\n\r\n",
            ResponseStatus::Forbidden => "HTTP/1.1 403 Forbidden \r\n\r\n",
            ResponseStatus::InternalServerError => "HTTP/1.1 500 Internal Server Error\r\n\r\n",
        }
    }
}

impl Response {
    /// Serialize this response: the status line followed by the body,
    /// verbatim.
    pub fn to_string(&self) -> (r: String)
        ensures
            r@ == render(self.status, self.message@),
    {
        let first = String::from_str(self.status.to_first_line());
        first.concat(self.message.as_str())
    }
}

impl RequestMethod {
    /// The method a token denotes: an exact match against `GET` or `POST`,
    /// anything else is unsupported.
    pub fn from(raw_str: &str) -> (m: RequestMethod)
        ensures
            m == method_of(raw_str@),
    {
        let cs = chars_of(raw_str);
        method_from_chars(&cs)
    }
}

/// The method a token, given as characters, denotes.
fn method_from_chars(tok: &Vec<char>) -> (m: RequestMethod)
    ensures
        m == method_of(tok@),
{
    let get = chars_of("GET");
    if eq_chars(tok, &get) {
        return RequestMethod::GET;
    }
    let post = chars_of("POST");
    if eq_chars(tok, &post) {
        return RequestMethod::POST;
    }
    RequestMethod::Unsupported
}

impl Request {
    /// Parse a request from raw request text.
    ///
    /// Parsing is total: when the start line is well-formed the method,
    /// target and body are extracted, and any other input yields the
    /// canonical unsupported request.
    pub fn from(request_str: &str) -> (r: Request)
        ensures
            models(r, parse_model(request_str@)),
    {
        let cs = chars_of(request_str);
        let nl = chars_of("\r\n");
        let first_line: Vec<char> = match find_pattern(&cs, &nl) {
            None => {
                proof {
                    assert(cs@.subrange(0, cs@.len() as int) =~= cs@);
                }
                subrange_vec(&cs, 0, cs.len())
            },
            Some(i) => {
                proof {
                    lemma_find_from_some(cs@, nl@, 0, i as int);
                }
                subrange_vec(&cs, 0, i)
            },
        };

        // filter out a start line that does not end with the protocol marker.
        let ending = chars_of(" HTTP/1.1");
        if !ends_with_exec(&first_line, &ending) {
            return Request::default_unsupported();
        }

        // filter out a start line with the wrong number of tokens.
        let tokens = split_spaces_exec(&first_line);
        if tokens.len() != 3 {
            return Request::default_unsupported();
        }

        let method = method_from_chars(&tokens[0]);
        let view = string_of_chars(&tokens[1]);
        let message = Request::parse_message(request_str);
        Request { method, view, message }
    }

    /// The canonical unsupported request.
    pub fn default_unsupported() -> (r: Request)
        ensures
            models(r, unsupported_model()),
    {
        Request { method: RequestMethod::Unsupported, view: String::new(), message: String::new() }
    }

    /// The body of raw request text: everything after the first blank-line
    /// separator, verbatim, or empty when no separator occurs.
    pub fn parse_message(request_str: &str) -> (m: String)
        ensures
            m@ == message_of(request_str@),
    {
        let cs = chars_of(request_str);
        let sep = chars_of("\r\n\r\n");
        match find_pattern(&cs, &sep) {
            None => String::new(),
            Some(i) => {
                let n: usize = cs.len();
                proof {
                    lemma_find_from_some(cs@, sep@, 0, i as int);
                    assert(i + sep@.len() <= n);
                }
                let tail = subrange_vec(&cs, i + sep.len(), n);
                string_of_chars(&tail)
            },
        }
    }
}

/// For every input whose start line does not end with the protocol marker,
/// parsing yields the canonical unsupported request.
pub proof fn lemma_bad_ending_unsupported(s: Seq<char>)
    requires
        !ends_with(first_line_of(s), first_line_ending()),
    ensures
        parse_model(s) == unsupported_model(),
{
}

/// For every input whose start line splits into a token count other than
/// three, parsing yields the canonical unsupported request.
pub proof fn lemma_bad_token_count_unsupported(s: Seq<char>)
    requires
        split_spaces(first_line_of(s)).len() != 3,
    ensures
        parse_model(s) == unsupported_model(),
{
}

/// Relies on `String::push`: it appends the given character to the end of
/// the string.
pub assume_specification[ String::push ](s: &mut String, c: char)
    ensures
        final(s)@ == old(s)@.push(c),
;

/// The characters of `s`, as a vector.
fn chars_of(s: &str) -> (v: Vec<char>)
    ensures
        v@ == s@,
{
    let n: usize = s.unicode_len();
    let mut v: Vec<char> = Vec::new();
    let mut i: usize = 0;
    while i < n
        invariant
            n == s@.len(),
            i <= n,
            v@ == s@.subrange(0, i as int),
        decreases n - i,
    {
        v.push(s.get_char(i));
        i = i + 1;
        proof {
            assert(v@ =~= s@.subrange(0, i as int));
        }
    }
    proof {
        assert(s@.subrange(0, n as int) =~= s@);
    }
    v
}

/// A string holding exactly the characters of `v`.
fn string_of_chars(v: &Vec<char>) -> (r: String)
    ensures
        r@ == v@,
{
    let mut r = String::new();
    let mut i: usize = 0;
    while i < v.len()
        invariant
            i <= v@.len(),
            r@ == v@.subrange(0, i as int),
        decreases v@.len() - i,
    {
        r.push(v[i]);
        i = i + 1;
        proof {
            assert(r@ =~= v@.subrange(0, i as int));
        }
    }
    proof {
        assert(v@.subrange(0, v@.len() as int) =~= v@);
    }
    r
}

/// The characters of `v` from `from` (inclusive) to `to` (exclusive).
fn subrange_vec(v: &Vec<char>, from: usize, to: usize) -> (r: Vec<char>)
    requires
        from <= to <= v@.len(),
    ensures
        r@ == v@.subrange(from as int, to as int),
{
    let mut r: Vec<char> = Vec::new();
    let mut i: usize = from;
    while i < to
        invariant
            from <= i <= to <= v@.len(),
            r@ == v@.subrange(from as int, i as int),
        decreases to - i,
    {
        r.push(v[i]);
        i = i + 1;
        proof {
            assert(r@ =~= v@.subrange(from as int, i as int));
        }
    }
    r
}

/// Whether `pat` occurs in `hay` at position `i`.
fn match_at_exec(hay: &Vec<char>, pat: &Vec<char>, i: usize) -> (b: bool)
    requires
        i + pat@.len() <= hay@.len(),
    ensures
        b == match_at(hay@, pat@, i as int),
{
    let n: usize = hay.len();
    let mut j: usize = 0;
    while j < pat.len()
        invariant
            j <= pat@.len(),
            i + pat@.len() <= hay@.len(),
            n == hay@.len(),
            forall|k: int| 0 <= k < j ==> hay@[i + k] == pat@[k],
        decreases pat@.len() - j,
    {
        if hay[i + j] != pat[j] {
            proof {
                assert(hay@.subrange(i as int, i + pat@.len())[j as int] == hay@[i + j]);
            }
            return false;
        }
        j = j + 1;
    }
    proof {
        assert(hay@.subrange(i as int, i + pat@.len()) =~= pat@);
    }
    true
}

/// The position of the first occurrence of `pat` in `hay`, if any.
fn find_pattern(hay: &Vec<char>, pat: &Vec<char>) -> (r: Option<usize>)
    ensures
        match r {
            Some(i) => find_sub(hay@, pat@) == Some(i as int),
            None => find_sub(hay@, pat@) is None,
        },
{
    if pat.len() > hay.len() {
        return None;
    }
    if pat.len() == 0 {
        proof {
            assert(hay@.subrange(0, 0) =~= pat@);
        }
        return Some(0);
    }
    let hn: usize = hay.len();
    let pn: usize = pat.len();
    let mut i: usize = 0;
    while i <= hn - pn
        invariant
            1 <= pn == pat@.len(),
            pn <= hn == hay@.len(),
            i <= hn - pn + 1,
            find_sub(hay@, pat@) == find_from(hay@, pat@, i as int),
        decreases hn - i,
    {
        if match_at_exec(hay, pat, i) {
            return Some(i);
        }
        i = i + 1;
    }
    None
}

/// Whether `hay` ends with the suffix `pat`.
fn ends_with_exec(hay: &Vec<char>, pat: &Vec<char>) -> (b: bool)
    ensures
        b == ends_with(hay@, pat@),
{
    if pat.len() > hay.len() {
        return false;
    }
    match_at_exec(hay, pat, hay.len() - pat.len())
}

/// Whether `a` and `b` hold the same characters.
fn eq_chars(a: &Vec<char>, b: &Vec<char>) -> (r: bool)
    ensures
        r == (a@ == b@),
{
    if a.len() != b.len() {
        return false;
    }
    let r = match_at_exec(a, b, 0);
    proof {
        if r {
            assert(a@.subrange(0, a@.len() as int) =~= a@);
        } else {
            assert(a@.subrange(0, b@.len() as int) =~= a@);
        }
    }
    r
}

/// A split always yields at least one token.
pub proof fn lemma_split_spaces_nonempty(s: Seq<char>)
    ensures
        split_spaces(s).len() >= 1,
    decreases s.len(),
{
    if s.len() == 0 {
    } else {
        lemma_split_spaces_nonempty(s.subrange(1, s.len() as int));
    }
}

/// A found position is a real occurrence, at or after where the search began.
pub proof fn lemma_find_from_some(s: Seq<char>, pat: Seq<char>, i: int, j: int)
    requires
        0 <= i,
        find_from(s, pat, i) == Some(j),
    ensures
        i <= j,
        match_at(s, pat, j),
    decreases s.len() - i + 1,
{
    if i + pat.len() > s.len() {
    } else if match_at(s, pat, i) {
    } else {
        lemma_find_from_some(s, pat, i + 1, j);
    }
}

/// The tokens still to come, with the partial token `cur` carried into the
/// first of them.
spec fn carry_first(cur: Seq<char>, rest: Seq<Seq<char>>) -> Seq<Seq<char>> {
    seq![cur + rest[0]] + rest.subrange(1, rest.len() as int)
}

/// The tokens of `v` split on single space characters.
fn split_spaces_exec(v: &Vec<char>) -> (tokens: Vec<Vec<char>>)
    ensures
        tokens@.len() == split_spaces(v@).len(),
        forall|k: int| 0 <= k < tokens@.len() ==> tokens@[k]@ == split_spaces(v@)[k],
{
    let mut done: Vec<Vec<char>> = Vec::new();
    let ghost mut model: Seq<Seq<char>> = Seq::empty();
    let mut cur: Vec<char> = Vec::new();
    let mut i: usize = 0;
    proof {
        assert(v@.subrange(0, v@.len() as int) =~= v@);
    }
    while i < v.len()
        invariant
            i <= v@.len(),
            model.len() == done@.len(),
            forall|k: int| 0 <= k < model.len() ==> #[trigger] model[k] == done@[k]@,
            split_spaces(v@) == model + carry_first(
                cur@,
                split_spaces(v@.subrange(i as int, v@.len() as int)),
            ),
        decreases v@.len() - i,
    {
        let ghost tail_i = v@.subrange(i as int, v@.len() as int);
        let ghost tail_i1 = v@.subrange(i + 1, v@.len() as int);
        let ghost rest = split_spaces(tail_i1);
        proof {
            assert(tail_i[0] == v@[i as int]);
            assert(tail_i.subrange(1, tail_i.len() as int) =~= tail_i1);
            lemma_split_spaces_nonempty(tail_i1);
        }
        let c = v[i];
        if c == ' ' {
            proof {
                assert(split_spaces(tail_i) =~~= seq![Seq::<char>::empty()] + rest);
                assert(carry_first(cur@, split_spaces(tail_i)) =~~= seq![cur@] + rest);
                assert(carry_first(Seq::<char>::empty(), rest) =~~= rest);
                assert(model + (seq![cur@] + rest) =~~= model.push(cur@) + carry_first(
                    Seq::<char>::empty(),
                    rest,
                ));
            }
            done.push(cur);
            proof {
                model = model.push(cur@);
            }
            cur = Vec::new();
        } else {
            proof {
                assert(split_spaces(tail_i) =~~= seq![seq![v@[i as int]] + rest[0]]
                    + rest.subrange(1, rest.len() as int));
                assert(cur@ + (seq![v@[i as int]] + rest[0]) =~= cur@.push(v@[i as int]) + rest[0]);
                assert(carry_first(cur@, split_spaces(tail_i)) =~~= carry_first(
                    cur@.push(v@[i as int]),
                    rest,
                ));
            }
            cur.push(c);
        }
        i = i + 1;
    }
    proof {
        let tail = v@.subrange(i as int, v@.len() as int);
        assert(tail =~= Seq::<char>::empty());
        assert(carry_first(cur@, split_spaces(tail)) =~~= seq![cur@]);
        assert(split_spaces(v@) =~~= model.push(cur@));
    }
    done.push(cur);
    done
}

/// Serialization is total and never produces an empty byte sequence: every
/// status line is non-empty.
pub proof fn lemma_render_nonempty(status: ResponseStatus, message: Seq<char>)
    ensures
        render(status, message).len() > 0,
{
    reveal_strlit("HTTP/1.1 200 OK\r\n\r\n");
    reveal_strlit("HTTP/1.1 404 Not Found \r\n\r\n");
    reveal_strlit("HTTP/1.1 403 Forbidden \r\n\r\n");
    reveal_strlit("HTTP/1.1 500 Internal Server Error\r\n\r\n");
}

} // verus!
