//! Parsing of HTTP/1.1 requests and responses from text lines.
use vstd::prelude::*;
use crate::text::{
    chars_of, find_char, lacks, lemma_next_index_at, lemma_next_index_shift, next_index,
    same_text, split_lines, substring, text_lines, trim, trim_start, trimmed_substring,
};

verus! {

/// Why a request or a response could not be parsed.
#[derive(Debug, Clone, Copy, PartialEq, Eq, Structural)]
pub enum ParseError {
    /// There was no line at all.
    MissingRequestLine,
    /// The request line is empty.
    MissingMethod,
    /// The request line has no second field.
    MissingUri,
    /// The request line has no third field.
    MissingVersion,
    /// The method is not one of the known verbs.
    InvalidMethod,
    /// A header line has no `:`.
    MissingHeaderValue,
    /// A header line has nothing but whitespace before its `:`.
    EmptyHeaderName,
    /// The `Host` header has no port after its host name.
    MissingHostPort,
    /// There was no status line at all.
    MissingStatusLine,
    /// The status line has no second field.
    MissingStatusCode,
    /// The status code is not a decimal number that fits in 16 bits.
    InvalidStatusCode,
    /// The status line has no third field.
    MissingStatusData,
}

/// The first line of a request: `METHOD SP URI SP VERSION`.
#[derive(Debug, Clone)]
pub struct RequestLine {
    pub method: String,
    pub uri: String,
    pub http_version: String,
}

/// The fields of a request line, split on single spaces; fields after the third are ignored.
pub open spec fn request_line_spec(s: Seq<char>) -> Result<
    (Seq<char>, Seq<char>, Seq<char>),
    ParseError,
> {
    if s.len() == 0 {
        Err(ParseError::MissingMethod)
    } else {
        let a = next_index(s, ' ', 0);
        if a == s.len() {
            Err(ParseError::MissingUri)
        } else {
            let b = next_index(s, ' ', a + 1);
            if b == s.len() {
                Err(ParseError::MissingVersion)
            } else {
                let c = next_index(s, ' ', b + 1);
                Ok((s.subrange(0, a), s.subrange(a + 1, b), s.subrange(b + 1, c)))
            }
        }
    }
}

impl RequestLine {
    /// The three fields, as sequences of characters.
    pub open spec fn fields(&self) -> (Seq<char>, Seq<char>, Seq<char>) {
        (self.method@, self.uri@, self.http_version@)
    }

    /// Parses a request line; the method is kept verbatim.
    pub fn from_str(s: &str) -> (r: Result<RequestLine, ParseError>)
        ensures
            match r {
                Ok(l) => request_line_spec(s@) == Ok::<_, ParseError>(l.fields()),
                Err(e) => request_line_spec(s@) == Err::<(Seq<char>, Seq<char>, Seq<char>), _>(e),
            },
    {
        let cs = chars_of(s);
        if cs.len() == 0 {
            return Err(ParseError::MissingMethod);
        }
        let a = find_char(&cs, ' ', 0);
        if a == cs.len() {
            return Err(ParseError::MissingUri);
        }
        let b = find_char(&cs, ' ', a + 1);
        if b == cs.len() {
            return Err(ParseError::MissingVersion);
        }
        let c = find_char(&cs, ' ', b + 1);
        Ok(RequestLine {
            method: substring(s, 0, a),
            uri: substring(s, a + 1, b),
            http_version: substring(s, b + 1, c),
        })
    }
}

/// The request methods this server knows.
#[derive(Debug, Clone, Copy, PartialEq, Eq, Structural)]
pub enum Method {
    GET,
    POST,
    HEAD,
    OPTIONS,
    DELETE,
    PUT,
    CONNECT,
    TRACE,
}

/// The method a name denotes: upper-case names, and `put` in lower case as well.
pub open spec fn method_spec(s: Seq<char>) -> Option<Method> {
    if s == "GET"@ {
        Some(Method::GET)
    } else if s == "POST"@ {
        Some(Method::POST)
    } else if s == "PUT"@ || s == "put"@ {
        Some(Method::PUT)
    } else if s == "DELETE"@ {
        Some(Method::DELETE)
    } else if s == "HEAD"@ {
        Some(Method::HEAD)
    } else if s == "OPTIONS"@ {
        Some(Method::OPTIONS)
    } else if s == "CONNECT"@ {
        Some(Method::CONNECT)
    } else if s == "TRACE"@ {
        Some(Method::TRACE)
    } else {
        None
    }
}

impl Method {
    /// Recognises a method name; any other name is `InvalidMethod`.
    pub fn from_str(s: &str) -> (r: Result<Method, ParseError>)
        ensures
            match method_spec(s@) {
                Some(m) => r == Ok::<_, ParseError>(m),
                None => r == Err::<Method, _>(ParseError::InvalidMethod),
            },
    {
        if same_text(s, "GET") {
            Ok(Method::GET)
        } else if same_text(s, "POST") {
            Ok(Method::POST)
        } else if same_text(s, "PUT") || same_text(s, "put") {
            Ok(Method::PUT)
        } else if same_text(s, "DELETE") {
            Ok(Method::DELETE)
        } else if same_text(s, "HEAD") {
            Ok(Method::HEAD)
        } else if same_text(s, "OPTIONS") {
            Ok(Method::OPTIONS)
        } else if same_text(s, "CONNECT") {
            Ok(Method::CONNECT)
        } else if same_text(s, "TRACE") {
            Ok(Method::TRACE)
        } else {
            Err(ParseError::InvalidMethod)
        }
    }
}

/// A header line split on its first `:`: the trimmed name and the trimmed value.
/// For `Host`, whose value is `host:port`, the value is the host and the port
/// (the second and third `:`-separated fields) joined by their `:`.
pub open spec fn header_line_spec(l: Seq<char>) -> Result<(Seq<char>, Seq<char>), ParseError> {
    let a = next_index(l, ':', 0);
    let key = trim(l.subrange(0, a));
    if a == l.len() {
        Err(ParseError::MissingHeaderValue)
    } else if key.len() == 0 {
        Err(ParseError::EmptyHeaderName)
    } else if key == "Host"@ {
        let b = next_index(l, ':', a + 1);
        if b == l.len() {
            Err(ParseError::MissingHostPort)
        } else {
            Ok((key, trim(l.subrange(a + 1, next_index(l, ':', b + 1)))))
        }
    } else {
        Ok((key, trim(l.subrange(a + 1, l.len() as int))))
    }
}

/// Parses one header line into its name and value.
pub fn parse_header_line(l: &str) -> (r: Result<(String, String), ParseError>)
    ensures
        match r {
            Ok((k, v)) => header_line_spec(l@) == Ok::<_, ParseError>((k@, v@)),
            Err(e) => header_line_spec(l@) == Err::<(Seq<char>, Seq<char>), _>(e),
        },
{
    let cs = chars_of(l);
    let a = find_char(&cs, ':', 0);
    let key = trimmed_substring(l, &cs, 0, a);
    if a == cs.len() {
        return Err(ParseError::MissingHeaderValue);
    }
    if key.as_str().unicode_len() == 0 {
        return Err(ParseError::EmptyHeaderName);
    }
    if same_text(key.as_str(), "Host") {
        let b = find_char(&cs, ':', a + 1);
        if b == cs.len() {
            return Err(ParseError::MissingHostPort);
        }
        let c = find_char(&cs, ':', b + 1);
        let value = trimmed_substring(l, &cs, a + 1, c);
        Ok((key, value))
    } else {
        let value = trimmed_substring(l, &cs, a + 1, cs.len());
        Ok((key, value))
    }
}

/// The mapping that a list of entries denotes: a later entry overrides an earlier one.
pub open spec fn entries_map(es: Seq<(Seq<char>, Seq<char>)>) -> Map<Seq<char>, Seq<char>>
    decreases es.len(),
{
    if es.len() == 0 {
        Map::empty()
    } else {
        entries_map(es.drop_last()).insert(es.last().0, es.last().1)
    }
}

/// No two entries share a name.
pub open spec fn unique_keys(es: Seq<(Seq<char>, Seq<char>)>) -> bool {
    forall|i: int, j: int| 0 <= i < j < es.len() ==> es[i].0 != es[j].0
}

pub proof fn lemma_entries_map_keys(es: Seq<(Seq<char>, Seq<char>)>, k: Seq<char>)
    ensures
        entries_map(es).contains_key(k) <==> exists|i: int| 0 <= i < es.len() && es[i].0 == k,
    decreases es.len(),
{
    if es.len() > 0 {
        lemma_entries_map_keys(es.drop_last(), k);
        if entries_map(es).contains_key(k) && k != es.last().0 {
            let i = choose|i: int| 0 <= i < es.len() - 1 && es.drop_last()[i].0 == k;
            assert(es[i].0 == k);
        }
        if exists|i: int| 0 <= i < es.len() && es[i].0 == k {
            let i = choose|i: int| 0 <= i < es.len() && es[i].0 == k;
            if i < es.len() - 1 {
                assert(es.drop_last()[i].0 == k);
            }
        }
    }
}

pub proof fn lemma_entries_map_value(es: Seq<(Seq<char>, Seq<char>)>, i: int)
    requires
        unique_keys(es),
        0 <= i < es.len(),
    ensures
        entries_map(es).contains_key(es[i].0),
        entries_map(es)[es[i].0] == es[i].1,
    decreases es.len(),
{
    if i < es.len() - 1 {
        assert(es.drop_last()[i] == es[i]);
        lemma_entries_map_value(es.drop_last(), i);
    }
}

pub proof fn lemma_entries_map_update(es: Seq<(Seq<char>, Seq<char>)>, i: int, v: Seq<char>)
    requires
        unique_keys(es),
        0 <= i < es.len(),
    ensures
        entries_map(es.update(i, (es[i].0, v))) == entries_map(es).insert(es[i].0, v),
    decreases es.len(),
{
    let k = es[i].0;
    let us = es.update(i, (k, v));
    if i == es.len() - 1 {
        assert(us.drop_last() =~= es.drop_last());
        assert(entries_map(us) =~= entries_map(es).insert(k, v));
    } else {
        assert(us.drop_last() =~= es.drop_last().update(i, (k, v)));
        lemma_entries_map_update(es.drop_last(), i, v);
        assert(es.last().0 != k);
        assert(entries_map(us) =~= entries_map(es).insert(k, v));
    }
}

/// The headers of a message: each name at most once.
#[derive(Debug)]
pub struct HTTPHeaders {
    entries: Vec<(String, String)>,
}

impl View for HTTPHeaders {
    type V = Map<Seq<char>, Seq<char>>;

    open spec fn view(&self) -> Map<Seq<char>, Seq<char>> {
        entries_map(self.pairs())
    }
}

impl Clone for HTTPHeaders {
    fn clone(&self) -> (r: HTTPHeaders)
        ensures
            r@ == self@,
    {
        proof {
            use_type_invariant(self);
        }
        let mut es: Vec<(String, String)> = Vec::new();
        let mut i: usize = 0;
        while i < self.entries.len()
            invariant
                i <= self.entries@.len(),
                pairs_of(es@) =~= self.pairs().take(i as int),
            decreases self.entries@.len() - i,
        {
            let ghost before = es@;
            es.push((self.entries[i].0.clone(), self.entries[i].1.clone()));
            assert(pairs_of(es@) =~= pairs_of(before).push(self.pairs()[i as int]));
            assert(self.pairs().take(i + 1) =~= self.pairs().take(i as int).push(
                self.pairs()[i as int],
            ));
            i = i + 1;
        }
        assert(self.pairs().take(i as int) =~= self.pairs());
        HTTPHeaders { entries: es }
    }
}

/// The names and values of a list of entries.
pub open spec fn pairs_of(es: Seq<(String, String)>) -> Seq<(Seq<char>, Seq<char>)> {
    Seq::new(es.len(), |i: int| (es[i].0@, es[i].1@))
}

impl HTTPHeaders {
    /// The entries, name and value, in order of first appearance.
    pub closed spec fn pairs(&self) -> Seq<(Seq<char>, Seq<char>)> {
        pairs_of(self.entries@)
    }

    #[verifier::type_invariant]
    closed spec fn names_unique(&self) -> bool {
        unique_keys(self.pairs())
    }

    /// No headers.
    pub fn empty() -> (r: HTTPHeaders)
        ensures
            r@ == Map::<Seq<char>, Seq<char>>::empty(),
    {
        HTTPHeaders { entries: Vec::new() }
    }

    /// Position of the entry named `key`, if any.
    fn position(&self, key: &str) -> (r: Option<usize>)
        ensures
            match r {
                Some(i) => i < self.pairs().len() && self.pairs()[i as int].0 == key@,
                None => forall|i: int| 0 <= i < self.pairs().len() ==> self.pairs()[i].0 != key@,
            },
    {
        let mut i: usize = 0;
        while i < self.entries.len()
            invariant
                i <= self.entries@.len(),
                forall|j: int| 0 <= j < i ==> self.pairs()[j].0 != key@,
            decreases self.entries@.len() - i,
        {
            if same_text(self.entries[i].0.as_str(), key) {
                return Some(i);
            }
            i = i + 1;
        }
        None
    }

    /// Sets `key` to `value`, replacing an earlier value of the same name.
    pub fn insert(&mut self, key: String, value: String)
        ensures
            final(self)@ == old(self)@.insert(key@, value@),
    {
        proof {
            use_type_invariant(&*self);
        }
        let pos = self.position(key.as_str());
        let mut es: Vec<(String, String)> = Vec::new();
        std::mem::swap(&mut es, &mut self.entries);
        let ghost before = pairs_of(es@);
        match pos {
            Some(i) => {
                proof {
                    lemma_entries_map_update(before, i as int, value@);
                }
                es.set(i, (key, value));
                assert(pairs_of(es@) =~= before.update(i as int, (before[i as int].0, value@)));
                assert(forall|j: int|
                    0 <= j < before.len() ==> #[trigger] pairs_of(es@)[j].0 == before[j].0);
            },
            None => {
                es.push((key, value));
                assert(pairs_of(es@).drop_last() =~= before);
                assert(forall|j: int|
                    0 <= j < before.len() ==> #[trigger] pairs_of(es@)[j] == before[j]);
            },
        }
        self.entries = es;
    }

    /// The value of the header named `key`.
    pub fn get(&self, key: &str) -> (r: Option<String>)
        ensures
            match r {
                Some(v) => self@.contains_key(key@) && self@[key@] == v@,
                None => !self@.contains_key(key@),
            },
    {
        proof {
            use_type_invariant(self);
            lemma_entries_map_keys(self.pairs(), key@);
        }
        match self.position(key) {
            Some(i) => {
                proof {
                    lemma_entries_map_value(self.pairs(), i as int);
                }
                Some(self.entries[i].1.clone())
            },
            None => None,
        }
    }

    /// Reads the header block that starts at line `*cursor`, and leaves
    /// `*cursor` at the first line after the block.
    pub fn new(lines: &Vec<String>, cursor: &mut usize) -> (r: Result<HTTPHeaders, ParseError>)
        requires
            *old(cursor) <= lines@.len(),
        ensures
            *old(cursor) <= *final(cursor) <= lines@.len(),
            match r {
                Ok(h) => header_block_spec(
                    lines_view(lines@),
                    *old(cursor) as int,
                    Map::empty(),
                ) == Ok::<_, ParseError>((h@, *final(cursor) as int)),
                Err(e) => header_block_spec(lines_view(lines@), *old(cursor) as int, Map::empty())
                    == Err::<(Map<Seq<char>, Seq<char>>, int), _>(e),
            },
    {
        let ghost lv = lines_view(lines@);
        let ghost start = *cursor as int;
        let mut h = HTTPHeaders::empty();
        let mut i: usize = *cursor;
        while i < lines.len()
            invariant
                lv == lines_view(lines@),
                start == *old(cursor) as int,
                start <= i <= lines@.len(),
                header_block_spec(lv, start, Map::empty()) == header_block_spec(lv, i as int, h@),
            decreases lines@.len() - i,
        {
            assert(lv[i as int] == lines@[i as int]@);
            if lines[i].as_str().is_empty() {
                *cursor = i + 1;
                return Ok(h);
            }
            match parse_header_line(lines[i].as_str()) {
                Err(e) => {
                    *cursor = i;
                    return Err(e);
                },
                Ok((k, v)) => {
                    h.insert(k, v);
                },
            }
            i = i + 1;
        }
        *cursor = i;
        Ok(h)
    }

    /// Number of distinct header names.
    pub fn len(&self) -> (r: usize)
        ensures
            r == self@.dom().len(),
    {
        proof {
            use_type_invariant(self);
            lemma_entries_map_len(self.pairs());
        }
        self.entries.len()
    }
}

/// The request line `m SP u SP v` gives back its three fields exactly; with one
/// field missing, the error names the first field that is missing.
pub proof fn lemma_request_line_fields(m: Seq<char>, u: Seq<char>, v: Seq<char>)
    requires
        lacks(m, ' '),
        lacks(u, ' '),
        lacks(v, ' '),
    ensures
        request_line_spec(m + seq![' '] + u + seq![' '] + v) == Ok::<_, ParseError>((m, u, v)),
        request_line_spec(m + seq![' '] + u) == Err::<(Seq<char>, Seq<char>, Seq<char>), _>(
            ParseError::MissingVersion,
        ),
        m.len() > 0 ==> request_line_spec(m) == Err::<(Seq<char>, Seq<char>, Seq<char>), _>(
            ParseError::MissingUri,
        ),
        request_line_spec(Seq::empty()) == Err::<(Seq<char>, Seq<char>, Seq<char>), _>(
            ParseError::MissingMethod,
        ),
{
    let p1 = m + seq![' '];
    let p2 = p1 + u + seq![' '];
    let s = p2 + v;
    assert(s == m + seq![' '] + u + seq![' '] + v);
    lemma_next_index_at(m, ' ', 0, m.len() as int);
    lemma_next_index_shift(Seq::empty(), m, ' ', 0);
    lemma_next_index_at(s, ' ', 0, m.len() as int);
    lemma_next_index_at(s, ' ', m.len() as int + 1, p2.len() - 1);
    lemma_next_index_shift(p2, v, ' ', 0);
    lemma_next_index_at(v, ' ', 0, v.len() as int);
    assert(s.subrange(0, m.len() as int) =~= m);
    assert(s.subrange(m.len() as int + 1, p2.len() - 1) =~= u);
    assert(s.subrange(p2.len() as int, s.len() as int) =~= v);
    let t = p1 + u;
    lemma_next_index_at(t, ' ', 0, m.len() as int);
    lemma_next_index_at(t, ' ', m.len() as int + 1, t.len() as int);
}

/// The header line `k: v`.
pub open spec fn header_line(k: Seq<char>, v: Seq<char>) -> Seq<char> {
    k + seq![':', ' '] + v
}

/// A header that `header_line` writes so that it reads back with its name
/// unchanged: a non-empty name without `:` or surrounding whitespace, and for
/// `Host` a value with exactly one `:`.
pub open spec fn plain_header(k: Seq<char>, v: Seq<char>) -> bool {
    &&& k.len() > 0
    &&& lacks(k, ':')
    &&& trim(k) == k
    &&& k == "Host"@ ==> {
        let i = next_index(v, ':', 0);
        i < v.len() && next_index(v, ':', i + 1) == v.len()
    }
}

pub proof fn lemma_header_line(k: Seq<char>, v: Seq<char>)
    requires
        plain_header(k, v),
    ensures
        header_line(k, v).len() > 0,
        header_line_spec(header_line(k, v)) == Ok::<_, ParseError>((k, trim(v))),
{
    let l = header_line(k, v);
    let p = k + seq![':', ' '];
    assert(l == p + v);
    let a = k.len() as int;
    lemma_next_index_at(l, ':', 0, a);
    assert(l.subrange(0, a) =~= k);
    assert(l.subrange(a + 1, l.len() as int) =~= seq![' '] + v);
    assert((seq![' '] + v).drop_first() =~= v);
    assert(trim_start(seq![' '] + v) == trim_start(v));
    assert(trim(seq![' '] + v) == trim(v));
    if k == "Host"@ {
        let i = next_index(v, ':', 0);
        crate::text::lemma_next_index_bounds(v, ':', 0);
        lemma_next_index_shift(p, v, ':', 0);
        assert(next_index(l, ':', a + 1) == next_index(l, ':', a + 2));
        lemma_next_index_shift(p, v, ':', i + 1);
    }
}

/// The header lines of a list of headers, one per entry.
pub open spec fn header_lines(hs: Seq<(Seq<char>, Seq<char>)>) -> Seq<Seq<char>> {
    Seq::new(hs.len(), |i: int| header_line(hs[i].0, hs[i].1))
}

/// The headers with their values trimmed.
pub open spec fn trimmed_values(hs: Seq<(Seq<char>, Seq<char>)>) -> Seq<(Seq<char>, Seq<char>)> {
    Seq::new(hs.len(), |i: int| (hs[i].0, trim(hs[i].1)))
}

/// Reading back the lines written for headers with distinct names gives
/// exactly those names, each with its value trimmed, and reads every line.
pub proof fn lemma_header_block_round_trip(hs: Seq<(Seq<char>, Seq<char>)>)
    requires
        unique_keys(hs),
        forall|i: int| 0 <= i < hs.len() ==> plain_header(#[trigger] hs[i].0, hs[i].1),
    ensures
        ({
            let r = header_block_spec(header_lines(hs), 0, Map::empty());
            &&& r is Ok
            &&& r->Ok_0.1 == hs.len()
            &&& forall|k: Seq<char>|
                #[trigger] r->Ok_0.0.contains_key(k) <==> exists|i: int|
                    0 <= i < hs.len() && hs[i].0 == k
            &&& forall|i: int|
                0 <= i < hs.len() ==> r->Ok_0.0[#[trigger] hs[i].0] == trim(hs[i].1)
        }),
{
    let ts = trimmed_values(hs);
    lemma_header_block_from(hs, 0);
    assert(ts.take(0) =~= Seq::empty());
    assert(ts.take(ts.len() as int) =~= ts);
    assert(unique_keys(ts));
    assert forall|k: Seq<char>| #[trigger]
        entries_map(ts).contains_key(k) <==> exists|i: int| 0 <= i < hs.len() && hs[i].0 == k by {
        lemma_entries_map_keys(ts, k);
        if exists|i: int| 0 <= i < hs.len() && hs[i].0 == k {
            let i = choose|i: int| 0 <= i < hs.len() && hs[i].0 == k;
            assert(ts[i].0 == k);
        }
    }
    assert forall|i: int| 0 <= i < hs.len() implies entries_map(ts)[#[trigger] hs[i].0] == trim(
        hs[i].1,
    ) by {
        lemma_entries_map_value(ts, i);
    }
}

proof fn lemma_header_block_from(hs: Seq<(Seq<char>, Seq<char>)>, i: int)
    requires
        0 <= i <= hs.len(),
        forall|j: int| 0 <= j < hs.len() ==> plain_header(#[trigger] hs[j].0, hs[j].1),
    ensures
        header_block_spec(header_lines(hs), i, entries_map(trimmed_values(hs).take(i))) == Ok::<
            _,
            ParseError,
        >((entries_map(trimmed_values(hs)), hs.len() as int)),
    decreases hs.len() - i,
{
    let ts = trimmed_values(hs);
    if i == hs.len() {
        assert(ts.take(i) =~= ts);
    } else {
        lemma_header_line(hs[i].0, hs[i].1);
        assert(ts.take(i + 1).drop_last() =~= ts.take(i));
        lemma_header_block_from(hs, i + 1);
    }
}

/// The characters of each line.
pub open spec fn lines_view(ls: Seq<String>) -> Seq<Seq<char>> {
    crate::text::strings_view(ls)
}

/// The headers from line `i` on, added to `acc`, up to the first empty line,
/// with the index of the first line after the block (past the empty line, if any).
pub open spec fn header_block_spec(
    lines: Seq<Seq<char>>,
    i: int,
    acc: Map<Seq<char>, Seq<char>>,
) -> Result<(Map<Seq<char>, Seq<char>>, int), ParseError>
    decreases lines.len() - i,
{
    if i < 0 || i >= lines.len() {
        Ok((acc, lines.len() as int))
    } else if lines[i].len() == 0 {
        Ok((acc, i + 1))
    } else {
        match header_line_spec(lines[i]) {
            Err(e) => Err(e),
            Ok((k, v)) => header_block_spec(lines, i + 1, acc.insert(k, v)),
        }
    }
}

pub proof fn lemma_entries_map_len(es: Seq<(Seq<char>, Seq<char>)>)
    requires
        unique_keys(es),
    ensures
        entries_map(es).dom().len() == es.len(),
        entries_map(es).dom().finite(),
    decreases es.len(),
{
    if es.len() > 0 {
        lemma_entries_map_len(es.drop_last());
        lemma_entries_map_keys(es.drop_last(), es.last().0);
        if entries_map(es.drop_last()).contains_key(es.last().0) {
            let i = choose|i: int| 0 <= i < es.len() - 1 && es.drop_last()[i].0 == es.last().0;
            assert(es[i].0 == es[es.len() - 1].0);
        }
    }
}

/// Lines joined back together, separated by CRLF.
pub open spec fn join_lines(ls: Seq<Seq<char>>) -> Seq<char>
    decreases ls.len(),
{
    if ls.len() == 0 {
        Seq::empty()
    } else if ls.len() == 1 {
        ls[0]
    } else {
        join_lines(ls.drop_last()) + seq!['\r', '\n'] + ls.last()
    }
}

/// The body: every line from `next` on, joined by CRLF, or nothing if no line is left.
pub open spec fn body_spec(lines: Seq<Seq<char>>, next: int) -> Option<Seq<char>> {
    if 0 <= next < lines.len() {
        Some(join_lines(lines.subrange(next, lines.len() as int)))
    } else {
        None
    }
}

/// The characters of an optional string.
pub open spec fn opt_view(o: Option<String>) -> Option<Seq<char>> {
    match o {
        Some(s) => Some(s@),
        None => None,
    }
}

/// Joins the lines from `from` on with CRLF; `None` when there are none.
fn join_from(lines: &Vec<String>, from: usize) -> (r: Option<String>)
    requires
        from <= lines@.len(),
    ensures
        opt_view(r) == body_spec(lines_view(lines@), from as int),
{
    let ghost lv = lines_view(lines@);
    if from == lines.len() {
        return None;
    }
    let mut out = lines[from].clone();
    let mut i: usize = from + 1;
    assert(lv.subrange(from as int, i as int) =~= seq![lv[from as int]]);
    let sep = "\r\n";
    proof {
        reveal_strlit("\r\n");
    }
    while i < lines.len()
        invariant
            lv == lines_view(lines@),
            sep@ == seq!['\r', '\n'],
            from < i <= lines@.len(),
            out@ == join_lines(lv.subrange(from as int, i as int)),
        decreases lines@.len() - i,
    {
        let ghost before = lv.subrange(from as int, i as int);
        out.append(sep);
        out.append(lines[i].as_str());
        assert(lv.subrange(from as int, i + 1).drop_last() =~= before);
        i = i + 1;
    }
    assert(lv.subrange(from as int, lv.len() as int) =~= lv.subrange(from as int, i as int));
    Some(out)
}

/// A request: request line, headers and an optional body.
#[derive(Debug, Clone)]
pub struct HTTPRequest {
    pub request_line: RequestLine,
    pub headers: HTTPHeaders,
    pub body: Option<String>,
}

/// What a request made of these lines holds: the request line's fields, the
/// headers up to the first empty line, and whatever follows as the body.
pub open spec fn request_spec(lines: Seq<Seq<char>>) -> Result<
    ((Seq<char>, Seq<char>, Seq<char>), Map<Seq<char>, Seq<char>>, Option<Seq<char>>),
    ParseError,
> {
    if lines.len() == 0 {
        Err(ParseError::MissingRequestLine)
    } else {
        match request_line_spec(lines[0]) {
            Err(e) => Err(e),
            Ok(rl) => match header_block_spec(lines, 1, Map::empty()) {
                Err(e) => Err(e),
                Ok((h, next)) => Ok((rl, h, body_spec(lines, next))),
            },
        }
    }
}

impl HTTPRequest {
    /// What the request holds, in the shape `request_spec` gives.
    pub open spec fn parts(&self) -> (
        (Seq<char>, Seq<char>, Seq<char>),
        Map<Seq<char>, Seq<char>>,
        Option<Seq<char>>,
    ) {
        (self.request_line.fields(), self.headers@, opt_view(self.body))
    }

    /// Assembles a request from its lines (already split at line breaks).
    pub fn from_lines(lines: &Vec<String>) -> (r: Result<HTTPRequest, ParseError>)
        ensures
            match r {
                Ok(req) => request_spec(lines_view(lines@)) == Ok::<
                    _,
                    ParseError,
                >(req.parts()),
                Err(e) => request_spec(lines_view(lines@)) == Err::<
                    ((Seq<char>, Seq<char>, Seq<char>), Map<Seq<char>, Seq<char>>, Option<Seq<char>>),
                    _,
                >(e),
            },
    {
        if lines.len() == 0 {
            return Err(ParseError::MissingRequestLine);
        }
        let request_line = match RequestLine::from_str(lines[0].as_str()) {
            Ok(l) => l,
            Err(e) => return Err(e),
        };
        let mut cursor: usize = 1;
        let headers = match HTTPHeaders::new(lines, &mut cursor) {
            Ok(h) => h,
            Err(e) => return Err(e),
        };
        let body = join_from(lines, cursor);
        Ok(HTTPRequest { request_line, headers, body })
    }

    /// Parses a request from its text, split into lines as a line reader would.
    pub fn parse(text: &str) -> (r: Result<HTTPRequest, ParseError>)
        ensures
            match r {
                Ok(req) => request_spec(text_lines(text@)) == Ok::<
                    _,
                    ParseError,
                >(req.parts()),
                Err(e) => request_spec(text_lines(text@)) == Err::<
                    ((Seq<char>, Seq<char>, Seq<char>), Map<Seq<char>, Seq<char>>, Option<Seq<char>>),
                    _,
                >(e),
            },
    {
        let lines = split_lines(text);
        HTTPRequest::from_lines(&lines)
    }
}

/// Every character is an ASCII decimal digit.
pub open spec fn all_digits(s: Seq<char>) -> bool {
    forall|i: int| 0 <= i < s.len() ==> '0' <= #[trigger] s[i] <= '9'
}

/// The number that a string of decimal digits denotes.
pub open spec fn digits_value(s: Seq<char>) -> int
    decreases s.len(),
{
    if s.len() == 0 {
        0
    } else {
        digits_value(s.drop_last()) * 10 + (s.last() as int - '0' as int)
    }
}

/// A decimal number that fits in 16 bits, with an optional leading `+`.
pub open spec fn u16_spec(s: Seq<char>) -> Option<u16> {
    let d = if s.len() > 0 && s[0] == '+' {
        s.drop_first()
    } else {
        s
    };
    if d.len() > 0 && all_digits(d) && digits_value(d) <= 65535 {
        Some(digits_value(d) as u16)
    } else {
        None
    }
}

/// The numeric status of a response.
#[derive(Debug, Clone, Copy, PartialEq, Eq, Structural)]
pub struct StatusCode(pub u16);

impl StatusCode {
    /// Parses a decimal status code.
    pub fn from_str(s: &str) -> (r: Result<StatusCode, ParseError>)
        ensures
            match u16_spec(s@) {
                Some(n) => r == Ok::<_, ParseError>(StatusCode(n)),
                None => r == Err::<StatusCode, _>(ParseError::InvalidStatusCode),
            },
    {
        let cs = chars_of(s);
        let mut start: usize = 0;
        if cs.len() > 0 && cs[0] == '+' {
            start = 1;
        }
        let ghost d = if s@.len() > 0 && s@[0] == '+' {
            s@.drop_first()
        } else {
            s@
        };
        assert(d =~= cs@.subrange(start as int, cs@.len() as int));
        if start == cs.len() {
            return Err(ParseError::InvalidStatusCode);
        }
        let mut acc: u32 = 0;
        let mut i: usize = start;
        while i < cs.len()
            invariant
                cs@ == s@,
                start <= i <= cs@.len(),
                d == cs@.subrange(start as int, cs@.len() as int),
                d == (if s@.len() > 0 && s@[0] == '+' {
                    s@.drop_first()
                } else {
                    s@
                }),
                all_digits(cs@.subrange(start as int, i as int)),
                acc == if digits_value(cs@.subrange(start as int, i as int)) > 65536 {
                    65536
                } else {
                    digits_value(cs@.subrange(start as int, i as int))
                },
            decreases cs@.len() - i,
        {
            let c = cs[i];
            if c < '0' || c > '9' {
                assert(!all_digits(d)) by {
                    assert(d[i - start] == c);
                }
                return Err(ParseError::InvalidStatusCode);
            }
            let ghost prev = cs@.subrange(start as int, i as int);
            let ghost next = cs@.subrange(start as int, i + 1);
            assert(next.drop_last() =~= prev);
            assert(all_digits(next)) by {
                assert(forall|j: int| 0 <= j < prev.len() ==> next[j] == prev[j]);
            }
            acc = acc * 10 + ((c as u32) - 48);
            if acc > 65536 {
                acc = 65536;
            }
            i = i + 1;
        }
        assert(cs@.subrange(start as int, i as int) =~= d);
        if acc > 65535 {
            Err(ParseError::InvalidStatusCode)
        } else {
            Ok(StatusCode(acc as u16))
        }
    }
}

/// The first line of a response: `VERSION SP CODE SP REASON`.
#[derive(Debug, Clone)]
pub struct StatusLine {
    pub http_version: String,
    pub status_code: StatusCode,
    pub status_data: String,
}

/// The fields of a status line, split on single spaces; the reason is its third field.
pub open spec fn status_line_spec(s: Seq<char>) -> Result<(Seq<char>, u16, Seq<char>), ParseError> {
    let a = next_index(s, ' ', 0);
    if a == s.len() {
        Err(ParseError::MissingStatusCode)
    } else {
        let b = next_index(s, ' ', a + 1);
        match u16_spec(s.subrange(a + 1, b)) {
            None => Err(ParseError::InvalidStatusCode),
            Some(code) => if b == s.len() {
                Err(ParseError::MissingStatusData)
            } else {
                Ok((s.subrange(0, a), code, s.subrange(b + 1, next_index(s, ' ', b + 1))))
            },
        }
    }
}

impl StatusLine {
    /// The three fields: version, code and reason.
    pub open spec fn fields(&self) -> (Seq<char>, u16, Seq<char>) {
        (self.http_version@, self.status_code.0, self.status_data@)
    }

    /// Parses a status line.
    pub fn from_str(s: &str) -> (r: Result<StatusLine, ParseError>)
        ensures
            match r {
                Ok(l) => status_line_spec(s@) == Ok::<_, ParseError>(l.fields()),
                Err(e) => status_line_spec(s@) == Err::<(Seq<char>, u16, Seq<char>), _>(e),
            },
    {
        let cs = chars_of(s);
        let a = find_char(&cs, ' ', 0);
        if a == cs.len() {
            return Err(ParseError::MissingStatusCode);
        }
        let b = find_char(&cs, ' ', a + 1);
        let code_text = substring(s, a + 1, b);
        let status_code = match StatusCode::from_str(code_text.as_str()) {
            Ok(c) => c,
            Err(e) => return Err(e),
        };
        if b == cs.len() {
            return Err(ParseError::MissingStatusData);
        }
        let c = find_char(&cs, ' ', b + 1);
        Ok(StatusLine {
            http_version: substring(s, 0, a),
            status_code,
            status_data: substring(s, b + 1, c),
        })
    }
}

/// A response: status line, headers and an optional body.
#[derive(Debug, Clone)]
pub struct HTTPResponse {
    pub status_line: StatusLine,
    pub headers: HTTPHeaders,
    pub body: Option<String>,
}

/// What a response made of these lines holds, laid out as for a request.
pub open spec fn response_spec(lines: Seq<Seq<char>>) -> Result<
    ((Seq<char>, u16, Seq<char>), Map<Seq<char>, Seq<char>>, Option<Seq<char>>),
    ParseError,
> {
    if lines.len() == 0 {
        Err(ParseError::MissingStatusLine)
    } else {
        match status_line_spec(lines[0]) {
            Err(e) => Err(e),
            Ok(sl) => match header_block_spec(lines, 1, Map::empty()) {
                Err(e) => Err(e),
                Ok((h, next)) => Ok((sl, h, body_spec(lines, next))),
            },
        }
    }
}

impl HTTPResponse {
    /// What the response holds, in the shape `response_spec` gives.
    pub open spec fn parts(&self) -> (
        (Seq<char>, u16, Seq<char>),
        Map<Seq<char>, Seq<char>>,
        Option<Seq<char>>,
    ) {
        (self.status_line.fields(), self.headers@, opt_view(self.body))
    }

    /// Assembles a response from its lines (already split at line breaks).
    pub fn from_lines(lines: &Vec<String>) -> (r: Result<HTTPResponse, ParseError>)
        ensures
            match r {
                Ok(res) => response_spec(lines_view(lines@)) == Ok::<
                    _,
                    ParseError,
                >(res.parts()),
                Err(e) => response_spec(lines_view(lines@)) == Err::<
                    ((Seq<char>, u16, Seq<char>), Map<Seq<char>, Seq<char>>, Option<Seq<char>>),
                    _,
                >(e),
            },
    {
        if lines.len() == 0 {
            return Err(ParseError::MissingStatusLine);
        }
        let status_line = match StatusLine::from_str(lines[0].as_str()) {
            Ok(l) => l,
            Err(e) => return Err(e),
        };
        let mut cursor: usize = 1;
        let headers = match HTTPHeaders::new(lines, &mut cursor) {
            Ok(h) => h,
            Err(e) => return Err(e),
        };
        let body = join_from(lines, cursor);
        Ok(HTTPResponse { status_line, headers, body })
    }

    /// Parses a response from its text, split into lines as a line reader would.
    pub fn parse(text: &str) -> (r: Result<HTTPResponse, ParseError>)
        ensures
            match r {
                Ok(res) => response_spec(text_lines(text@)) == Ok::<
                    _,
                    ParseError,
                >(res.parts()),
                Err(e) => response_spec(text_lines(text@)) == Err::<
                    ((Seq<char>, u16, Seq<char>), Map<Seq<char>, Seq<char>>, Option<Seq<char>>),
                    _,
                >(e),
            },
    {
        let lines = split_lines(text);
        HTTPResponse::from_lines(&lines)
    }
}

} // verus!
