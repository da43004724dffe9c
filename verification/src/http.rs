//! What the engine exchanges with the network: the text of a request, and
//! the parts of a response.

use crate::error::{Error, ErrorModel};
use crate::text::{
    chars_of, copy_range, find_char, index_of, is_ascii_digit, is_whitespace, number_value,
    parse_decimal, skip_whitespace, spec_is_ascii_digit, string_of, string_of_range, trim,
    trimmed,
};
use vstd::prelude::*;
use vstd::string::StringExecFns;

verus! {

/// One header of a response.
#[derive(Debug, PartialEq, Eq)]
pub struct Header {
    pub name: String,
    pub value: String,
}

pub struct HeaderModel {
    pub name: Seq<char>,
    pub value: Seq<char>,
}

impl View for Header {
    type V = HeaderModel;

    open spec fn view(&self) -> HeaderModel {
        HeaderModel { name: self.name@, value: self.value@ }
    }
}

impl Header {
    pub fn new(name: String, value: String) -> (h: Self)
        ensures
            h@ == (HeaderModel { name: name@, value: value@ }),
    {
        Self { name, value }
    }
}

pub open spec fn headers_model(headers: Seq<Header>) -> Seq<HeaderModel> {
    headers.map_values(|h: Header| h@)
}

/// A response: its status, its headers in order, and its body.
#[derive(Debug, PartialEq, Eq)]
pub struct HttpResponse {
    pub version: String,
    pub status_code: u32,
    pub reason: String,
    pub headers: Vec<Header>,
    pub body: String,
}

pub struct HttpResponseModel {
    pub version: Seq<char>,
    pub status_code: u32,
    pub reason: Seq<char>,
    pub headers: Seq<HeaderModel>,
    pub body: Seq<char>,
}

impl View for HttpResponse {
    type V = HttpResponseModel;

    open spec fn view(&self) -> HttpResponseModel {
        HttpResponseModel {
            version: self.version@,
            status_code: self.status_code,
            reason: self.reason@,
            headers: headers_model(self.headers@),
            body: self.body@,
        }
    }
}

/// The value of the first header with the given name, if there is one.
pub open spec fn first_header(headers: Seq<HeaderModel>, name: Seq<char>) -> Option<Seq<char>>
    decreases headers.len(),
{
    if headers.len() == 0 {
        None
    } else if headers[0].name == name {
        Some(headers[0].value)
    } else {
        first_header(headers.drop_first(), name)
    }
}

/// Where a response sends the client on.
pub open spec fn redirect_of(response: HttpResponseModel) -> Option<Seq<char>> {
    if response.status_code == 302 {
        first_header(response.headers, "Location"@)
    } else {
        None
    }
}

/// The text from `from` on with every carriage return that stands before a
/// line feed left out.
pub open spec fn unix_lines(s: Seq<char>, from: int) -> Seq<char>
    decreases s.len() - from,
{
    if 0 <= from && from + 1 < s.len() && s[from] == '\r' && s[from + 1] == '\n' {
        seq!['\n'] + unix_lines(s, from + 2)
    } else if 0 <= from < s.len() {
        seq![s[from]] + unix_lines(s, from + 1)
    } else {
        Seq::empty()
    }
}

/// Part `k` of the parts into which single spaces divide the text from `from`
/// on; the empty text where there are not that many parts.
pub open spec fn field(s: Seq<char>, k: nat, from: int) -> Seq<char>
    decreases k,
{
    let end = find_char(s, ' ', from);
    if 0 <= from <= end <= s.len() {
        if k == 0 {
            s.subrange(from, end)
        } else if end < s.len() {
            field(s, (k - 1) as nat, end + 1)
        } else {
            Seq::empty()
        }
    } else {
        Seq::empty()
    }
}

/// The status that a text denotes: its number if it is a decimal numeral
/// that fits 32 bits, else 404.
pub open spec fn status_of(s: Seq<char>) -> u32 {
    if s.len() > 0 && (forall|i: int| 0 <= i < s.len() ==> spec_is_ascii_digit(#[trigger] s[i]))
        && number_value(s) <= u32::MAX {
        number_value(s) as u32
    } else {
        404
    }
}

/// The first index at or after `from` at which two line feeds follow one
/// another, or the length if there is none.
pub open spec fn find_gap(s: Seq<char>, from: int) -> int
    decreases s.len() - from,
{
    if 0 <= from < s.len() && !(s[from] == '\n' && from + 1 < s.len() && s[from + 1] == '\n') {
        find_gap(s, from + 1)
    } else {
        from
    }
}

/// The header that a line holds: the name before the first `:` and the value
/// behind it, both trimmed.
pub open spec fn header_of(line: Seq<char>) -> HeaderModel {
    let colon = find_char(line, ':', 0);
    HeaderModel {
        name: trim(line.subrange(0, colon)),
        value: if colon < line.len() {
            trim(line.subrange(colon + 1, line.len() as int))
        } else {
            Seq::empty()
        },
    }
}

/// The headers that the lines of a text from `from` on hold.
pub open spec fn headers_from(head: Seq<char>, from: int) -> Seq<HeaderModel>
    decreases head.len() - from,
{
    let end = find_char(head, '\n', from);
    if 0 <= from <= end < head.len() {
        seq![header_of(head.subrange(from, end))] + headers_from(head, end + 1)
    } else if 0 <= from <= end {
        seq![header_of(head.subrange(from, end))]
    } else {
        Seq::empty()
    }
}

pub open spec fn invalid_response_message(text: Seq<char>) -> Seq<char> {
    "invalid http response: "@ + text
}

/// The parts of a response.
///
/// Whitespace before the response is dropped, and line ends are read in
/// either form. The first line is the status line: version, status and
/// reason, divided by single spaces. The headers follow, one in each line,
/// up to an empty line; what comes after that is the body. Without an empty
/// line there are no headers, and everything after the status line is the
/// body. A text of one line only is no response.
pub open spec fn parse_response(raw: Seq<char>) -> Result<HttpResponseModel, ErrorModel> {
    let text = unix_lines(raw, skip_whitespace(raw, 0));
    let end = find_char(text, '\n', 0);
    if end < text.len() {
        let status_line = text.subrange(0, end);
        let remaining = text.subrange(end + 1, text.len() as int);
        let gap = find_gap(remaining, 0);
        Ok(
            HttpResponseModel {
                version: field(status_line, 0, 0),
                status_code: status_of(field(status_line, 1, 0)),
                reason: field(status_line, 2, 0),
                headers: if gap < remaining.len() {
                    headers_from(remaining.subrange(0, gap), 0)
                } else {
                    Seq::empty()
                },
                body: if gap < remaining.len() {
                    remaining.subrange(gap + 2, remaining.len() as int)
                } else {
                    remaining
                },
            },
        )
    } else {
        Err(ErrorModel::Network(invalid_response_message(text)))
    }
}

proof fn lemma_find_gap(s: Seq<char>, from: int)
    requires
        0 <= from <= s.len(),
    ensures
        from <= find_gap(s, from) <= s.len(),
        find_gap(s, from) < s.len() ==> find_gap(s, from) + 2 <= s.len(),
    decreases s.len() - from,
{
    if from < s.len() && !(s[from] == '\n' && from + 1 < s.len() && s[from + 1] == '\n') {
        lemma_find_gap(s, from + 1);
    }
}

/// Part `k` of the parts into which single spaces divide `v` from `from` on.
fn field_of(v: &Vec<char>, k: usize, from: usize) -> (r: Vec<char>)
    requires
        from <= v.len(),
    ensures
        r@ == field(v@, k as nat, from as int),
    decreases k,
{
    let end = index_of(v, ' ', from);
    if k == 0 {
        copy_range(v, from, end)
    } else if end < v.len() {
        field_of(v, k - 1, end + 1)
    } else {
        Vec::new()
    }
}

fn status_code_of(s: &Vec<char>) -> (r: u32)
    ensures
        r == status_of(s@),
{
    if s.len() == 0 {
        return 404;
    }
    let mut i: usize = 0;
    while i < s.len()
        invariant
            i <= s.len(),
            forall|k: int| 0 <= k < i ==> spec_is_ascii_digit(#[trigger] s[k]),
        decreases s.len() - i,
    {
        if !is_ascii_digit(s[i]) {
            return 404;
        }
        i += 1;
    }
    assert(s@.subrange(0, s.len() as int) =~= s@);
    match parse_decimal(s, 0, s.len()) {
        Some(n) => if n <= u32::MAX as u64 {
            n as u32
        } else {
            404
        },
        None => 404,
    }
}

fn header_from_line(line: &Vec<char>) -> (h: Header)
    ensures
        h@ == header_of(line@),
{
    let colon = index_of(line, ':', 0);
    let name = trimmed(line, 0, colon);
    let value = if colon < line.len() {
        trimmed(line, colon + 1, line.len())
    } else {
        Vec::new()
    };
    Header::new(string_of(&name), string_of(&value))
}

fn headers_of(head: &Vec<char>) -> (r: Vec<Header>)
    ensures
        headers_model(r@) == headers_from(head@, 0),
{
    let mut headers: Vec<Header> = Vec::new();
    let mut from: usize = 0;
    assert(headers_model(headers@) =~= Seq::empty());
    loop
        invariant
            from <= head.len(),
            headers_from(head@, 0) == headers_model(headers@) + headers_from(head@, from as int),
        decreases head.len() - from,
    {
        let ghost so_far = headers_model(headers@);
        let end = index_of(head, '\n', from);
        let line = copy_range(head, from, end);
        let header = header_from_line(&line);
        headers.push(header);
        assert(headers_model(headers@) =~= so_far.push(header_of(line@)));
        if end < head.len() {
            proof {
                assert(so_far + (seq![header_of(line@)] + headers_from(head@, end + 1))
                    =~= so_far.push(header_of(line@)) + headers_from(head@, end + 1));
            }
            from = end + 1;
        } else {
            proof {
                assert(so_far + seq![header_of(line@)] =~= so_far.push(header_of(line@)));
            }
            return headers;
        }
    }
}

impl HttpResponse {
    /// Reads a response from the text that was received.
    pub fn new(raw_response: String) -> (r: Result<Self, Error>)
        ensures
            match parse_response(raw_response@) {
                Ok(response) => r is Ok && r->Ok_0@ == response,
                Err(e) => r is Err && r->Err_0@ == e,
            },
    {
        let raw = chars_of(raw_response.as_str());
        let mut start: usize = 0;
        while start < raw.len() && is_whitespace(raw[start])
            invariant
                start <= raw.len(),
                skip_whitespace(raw@, 0) == skip_whitespace(raw@, start as int),
            decreases raw.len() - start,
        {
            start += 1;
        }
        let mut text: Vec<char> = Vec::new();
        let mut i: usize = start;
        assert(text@ + unix_lines(raw@, start as int) =~= unix_lines(raw@, start as int));
        while i < raw.len()
            invariant
                start <= i <= raw.len(),
                text@ + unix_lines(raw@, i as int) == unix_lines(raw@, start as int),
            decreases raw.len() - i,
        {
            let ghost before = text@;
            if raw[i] == '\r' && raw.len() - i > 1 && raw[i + 1] == '\n' {
                text.push('\n');
                assert(before + (seq!['\n'] + unix_lines(raw@, i + 2)) =~= text@ + unix_lines(
                    raw@,
                    i + 2,
                ));
                i += 2;
            } else {
                text.push(raw[i]);
                assert(before + (seq![raw@[i as int]] + unix_lines(raw@, i + 1)) =~= text@
                    + unix_lines(raw@, i + 1));
                i += 1;
            }
        }
        assert(text@ + Seq::<char>::empty() =~= text@);
        let end = index_of(&text, '\n', 0);
        if end >= text.len() {
            let mut message = String::from_str("invalid http response: ");
            let shown = string_of(&text);
            message.append(shown.as_str());
            return Err(Error::Network(message));
        }
        let status_line = copy_range(&text, 0, end);
        let remaining = copy_range(&text, end + 1, text.len());
        let version = field_of(&status_line, 0, 0);
        let status = field_of(&status_line, 1, 0);
        let reason = field_of(&status_line, 2, 0);
        let mut gap: usize = 0;
        while gap < remaining.len() && !(remaining[gap] == '\n' && remaining.len() - gap > 1
            && remaining[gap + 1] == '\n')
            invariant
                gap <= remaining.len(),
                find_gap(remaining@, 0) == find_gap(remaining@, gap as int),
            decreases remaining.len() - gap,
        {
            gap += 1;
        }
        proof {
            lemma_find_gap(remaining@, 0);
        }
        let (headers, body) = if gap < remaining.len() {
            let head = copy_range(&remaining, 0, gap);
            (headers_of(&head), string_of_range(&remaining, gap + 2, remaining.len()))
        } else {
            let none: Vec<Header> = Vec::new();
            assert(headers_model(none@) =~= Seq::empty());
            (none, string_of(&remaining))
        };
        Ok(
            HttpResponse {
                version: string_of(&version),
                status_code: status_code_of(&status),
                reason: string_of(&reason),
                headers,
                body,
            },
        )
    }

    /// A response with the given parts.
    pub fn from_parts(
        version: String,
        status_code: u32,
        reason: String,
        headers: Vec<Header>,
        body: String,
    ) -> (r: Self)
        ensures
            r@ == (HttpResponseModel {
                version: version@,
                status_code,
                reason: reason@,
                headers: headers_model(headers@),
                body: body@,
            }),
    {
        Self { version, status_code, reason, headers, body }
    }

    pub fn version(&self) -> (r: String)
        ensures
            r@ == self@.version,
    {
        self.version.clone()
    }

    pub fn status_code(&self) -> (r: u32)
        ensures
            r == self@.status_code,
    {
        self.status_code
    }

    pub fn reason(&self) -> (r: String)
        ensures
            r@ == self@.reason,
    {
        self.reason.clone()
    }

    pub fn body(&self) -> (r: String)
        ensures
            r@ == self@.body,
    {
        self.body.clone()
    }

    /// Where the response sends the client on: the value of its first
    /// `Location` header, if its status is 302.
    pub fn redirect_location(&self) -> (r: Option<String>)
        ensures
            match redirect_of(self@) {
                Some(v) => r is Some && r->0@ == v,
                None => r is None,
            },
    {
        if self.status_code == 302 {
            self.header_value(&String::from_str("Location"))
        } else {
            None
        }
    }

    /// The value of the first header with the given name.
    pub fn header_value(&self, name: &String) -> (r: Option<String>)
        ensures
            match first_header(self@.headers, name@) {
                Some(v) => r is Some && r->0@ == v,
                None => r is None,
            },
    {
        let ghost all = headers_model(self.headers@);
        let mut i: usize = 0;
        assert(all.subrange(0, all.len() as int) =~= all);
        while i < self.headers.len()
            invariant
                i <= self.headers.len(),
                all == headers_model(self.headers@),
                first_header(all, name@) == first_header(
                    all.subrange(i as int, all.len() as int),
                    name@,
                ),
            decreases self.headers.len() - i,
        {
            let ghost rest = all.subrange(i as int, all.len() as int);
            assert(rest[0] == self.headers[i as int]@);
            assert(rest.drop_first() =~= all.subrange(i + 1, all.len() as int));
            if self.headers[i].name == *name {
                return Some(self.headers[i].value.clone());
            }
            i += 1;
        }
        None
    }
}

/// The text of the request for a path on a host.
pub open spec fn request_text(host: Seq<char>, path: Seq<char>) -> Seq<char> {
    "GET /"@ + path + " HTTP/1.1\n"@ + "Host: "@ + host + "\n"@ + "Accept: text/html\n"@
        + "Connection: close\n"@ + "\n"@
}

/// A client for fetching documents.
#[derive(Debug, PartialEq, Eq)]
pub struct HttpClient {}

impl HttpClient {
    pub fn new() -> (client: Self)
        ensures
            client == (HttpClient {  }),
    {
        Self {  }
    }

    /// The text that asks a host for a path.
    pub fn request(&self, host: &String, path: &String) -> (r: String)
        ensures
            r@ == request_text(host@, path@),
    {
        let mut request = String::from_str("GET /");
        request.append(path.as_str());
        request.append(" HTTP/1.1\n");
        request.append("Host: ");
        request.append(host.as_str());
        request.append("\n");
        request.append("Accept: text/html\n");
        request.append("Connection: close\n");
        request.append("\n");
        request
    }
}

} // verus!
