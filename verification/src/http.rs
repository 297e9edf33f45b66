//! Parsing of a raw HTTP response, and the verdict of the reachability
//! probe.
//!
//! Opening the connection, sending the request and reading the reply happen
//! outside the library; the raw reply text is handed in here.  The split of
//! status line, header lines and body is verified against the specification
//! functions below; the probe's verdict is a plain check of the status line.

use vstd::prelude::*;
use crate::text::chars_of;
use crate::text::string_from_chars;

verus! {

/// Whether the blank line separating headers from body starts at `i`.
pub open spec fn blank_at(s: Seq<char>, i: int) -> bool {
    i + 4 <= s.len() && s[i] == '\r' && s[i + 1] == '\n' && s[i + 2] == '\r' && s[i + 3] == '\n'
}

/// The position of the first header/body separator at or after `from`, or
/// the text's length when there is none.
pub open spec fn first_blank_from(s: Seq<char>, from: int) -> int
    decreases s.len() - from,
{
    if from < 0 || from + 4 > s.len() {
        s.len() as int
    } else if blank_at(s, from) {
        from
    } else {
        first_blank_from(s, from + 1)
    }
}

/// The header section: everything before the first separator.
pub open spec fn headers_part(s: Seq<char>) -> Seq<char> {
    s.take(first_blank_from(s, 0))
}

/// The body: everything after the first separator, empty when there is none.
pub open spec fn body_part(s: Seq<char>) -> Seq<char> {
    let e = first_blank_from(s, 0);
    if e + 4 <= s.len() {
        s.skip(e + 4)
    } else {
        Seq::empty()
    }
}

/// The position of the first line feed at or after `from`, or the text's
/// length when there is none.
pub open spec fn first_nl_from(s: Seq<char>, from: int) -> int
    decreases s.len() - from,
{
    if from < 0 || from >= s.len() {
        s.len() as int
    } else if s[from] == '\n' {
        from
    } else {
        first_nl_from(s, from + 1)
    }
}

/// The status line: the first line of the header section, with a carriage
/// return before the line feed stripped.
pub open spec fn status_of(s: Seq<char>) -> Seq<char> {
    let h = headers_part(s);
    let e = first_nl_from(h, 0);
    let line = h.take(e);
    if e < h.len() && line.len() > 0 && line.last() == '\r' {
        line.drop_last()
    } else {
        line
    }
}

proof fn lemma_first_blank_scan(s: Seq<char>, a: int, b: int)
    requires
        0 <= a <= b,
        forall|j: int| a <= j < b ==> !blank_at(s, j),
    ensures
        first_blank_from(s, a) == first_blank_from(s, b),
    decreases b - a,
{
    if a < b {
        if a + 4 > s.len() {
            lemma_first_blank_scan(s, a + 1, b);
        } else {
            lemma_first_blank_scan(s, a + 1, b);
        }
    }
}

proof fn lemma_first_nl_scan(s: Seq<char>, a: int, b: int)
    requires
        0 <= a <= b,
        forall|j: int| a <= j < b ==> s.len() <= j || s[j] != '\n',
    ensures
        first_nl_from(s, a) == first_nl_from(s, b),
    decreases b - a,
{
    if a < b {
        lemma_first_nl_scan(s, a + 1, b);
    }
}

/// A parsed HTTP response: status line, header pairs in order of
/// appearance, and the body text.
#[derive(Clone, Debug)]
pub struct HttpResponse {
    status_line: String,
    headers: Vec<(String, String)>,
    body: String,
}

impl HttpResponse {
    /// The status line, viewed for contracts.
    pub closed spec fn status_view(&self) -> Seq<char> {
        self.status_line@
    }

    /// The header pairs, viewed for contracts.
    pub closed spec fn headers_view(&self) -> Seq<(String, String)> {
        self.headers@
    }

    /// The body, viewed for contracts.
    pub closed spec fn body_view(&self) -> Seq<char> {
        self.body@
    }

    /// The response's status line.
    pub fn status_line(&self) -> (r: &str)
        ensures
            r@ == self.status_view(),
    {
        self.status_line.as_str()
    }

    /// The response's header pairs, in order of appearance.
    pub fn headers(&self) -> (r: &Vec<(String, String)>)
        ensures
            r@ == self.headers_view(),
    {
        &self.headers
    }

    /// The response's body.
    pub fn body(&self) -> (r: &str)
        ensures
            r@ == self.body_view(),
    {
        self.body.as_str()
    }
}

/// The error of response parsing: the reply held no status line.
#[derive(Clone, Copy, Debug, PartialEq, Eq, Structural)]
pub enum HttpError {
    NoStatusLine,
}

impl HttpError {
    /// The diagnostic text of this error.
    pub fn message(&self) -> (r: String)
        ensures
            r@ == "No status line found"@,
    {
        "No status line found".to_owned()
    }
}

/// Splits a raw HTTP reply into status line, header pairs and body.  The
/// header section is everything before the first blank line; the status line
/// is its first line; each later header line is split at the first ": ".
/// Fails exactly when the header section is empty.  The body is kept only
/// when asked for.
pub fn parse_http_response(raw: &str, include_body: bool) -> (r: Result<HttpResponse, HttpError>)
    ensures
        match r {
            Ok(resp) => {
                &&& headers_part(raw@).len() > 0
                &&& resp.status_view() == status_of(raw@)
                &&& resp.body_view() == (if include_body {
                    body_part(raw@)
                } else {
                    Seq::<char>::empty()
                })
            },
            Err(e) => e == HttpError::NoStatusLine && headers_part(raw@).len() == 0,
        },
{
    let s = chars_of(raw);
    let n = s.len();
    // Find the first blank line separating headers from body.
    let mut he: usize = 0;
    let mut found_blank: bool = false;
    while !found_blank && he < n && n - he >= 4
        invariant
            0 <= he <= n,
            n == s@.len(),
            s@ == raw@,
            forall|j: int| 0 <= j < he ==> !blank_at(s@, j),
            found_blank ==> blank_at(s@, he as int),
        decreases n - he + (if found_blank {
            0int
        } else {
            1int
        }),
    {
        if s[he] == '\r' && s[he + 1] == '\n' && s[he + 2] == '\r' && s[he + 3] == '\n' {
            found_blank = true;
        } else {
            he = he + 1;
        }
    }
    proof {
        lemma_first_blank_scan(s@, 0, he as int);
        if found_blank {
            assert(first_blank_from(s@, he as int) == he);
        } else {
            assert(first_blank_from(s@, he as int) == s@.len());
        }
    }
    let header_end: usize = if found_blank {
        he
    } else {
        n
    };
    if header_end == 0 {
        return Err(HttpError::NoStatusLine);
    }
    // The status line: up to the first line feed within the header section.
    let ghost h = headers_part(raw@);
    proof {
        assert(h =~= s@.take(header_end as int));
    }
    let mut le: usize = 0;
    while le < header_end && s[le] != '\n'
        invariant
            0 <= le <= header_end <= n,
            n == s@.len(),
            s@ == raw@,
            h == headers_part(raw@),
            h == s@.take(header_end as int),
            forall|j: int| 0 <= j < le ==> h[j] != '\n',
        decreases header_end - le,
    {
        le = le + 1;
    }
    proof {
        lemma_first_nl_scan(h, 0, le as int);
        assert(first_nl_from(h, le as int) == le);
    }
    let status_end: usize = if le > 0 && s[le - 1] == '\r' && le < header_end {
        le - 1
    } else {
        le
    };
    let mut status_chars: Vec<char> = Vec::new();
    let mut i: usize = 0;
    while i < status_end
        invariant
            0 <= i <= status_end <= n,
            n == s@.len(),
            status_chars@ == s@.take(status_end as int).take(i as int),
        decreases status_end - i,
    {
        status_chars.push(s[i]);
        proof {
            assert(status_chars@ =~= s@.take(status_end as int).take(i + 1));
        }
        i = i + 1;
    }
    proof {
        assert(status_chars@ =~= s@.take(status_end as int));
        assert(status_chars@ =~= status_of(raw@));
    }
    let status_line = string_from_chars(&status_chars);
    // Header lines after the status line, split at the first ": ".
    let mut headers: Vec<(String, String)> = Vec::new();
    let mut pos: usize = if le < header_end {
        le + 1
    } else {
        header_end
    };
    while pos < header_end
        invariant
            0 <= pos <= header_end <= n,
            n == s@.len(),
        decreases header_end - pos,
    {
        // One line: up to the next line feed or the end of the headers.
        let mut eol: usize = pos;
        while eol < header_end && s[eol] != '\n'
            invariant
                pos <= eol <= header_end <= n,
                n == s@.len(),
            decreases header_end - eol,
        {
            eol = eol + 1;
        }
        let line_end: usize = if eol > pos && s[eol - 1] == '\r' {
            eol - 1
        } else {
            eol
        };
        // Split the line at the first ": ".
        let mut sep: usize = pos;
        let mut found_sep: bool = false;
        while !found_sep && sep < line_end && line_end - sep >= 2
            invariant
                pos <= sep <= line_end <= n,
                n == s@.len(),
                found_sep ==> sep + 2 <= line_end,
            decreases line_end - sep + (if found_sep {
                0int
            } else {
                1int
            }),
        {
            if s[sep] == ':' && s[sep + 1] == ' ' {
                found_sep = true;
            } else {
                sep = sep + 1;
            }
        }
        if found_sep {
            let mut key: Vec<char> = Vec::new();
            let mut k: usize = pos;
            while k < sep
                invariant
                    pos <= k <= sep <= n,
                    n == s@.len(),
                decreases sep - k,
            {
                key.push(s[k]);
                k = k + 1;
            }
            let mut value: Vec<char> = Vec::new();
            let mut v: usize = sep + 2;
            while v < line_end
                invariant
                    sep + 2 <= v <= n,
                    v <= line_end <= n,
                    n == s@.len(),
                decreases line_end - v,
            {
                value.push(s[v]);
                v = v + 1;
            }
            headers.push((string_from_chars(&key), string_from_chars(&value)));
        }
        pos = if eol < header_end {
            eol + 1
        } else {
            header_end
        };
    }
    // The body: everything after the blank line, when asked for.
    let mut body_chars: Vec<char> = Vec::new();
    if include_body && found_blank {
        let mut b: usize = he + 4;
        while b < n
            invariant
                he + 4 <= b <= n,
                n == s@.len(),
                s@ == raw@,
                body_chars@ == s@.skip(he + 4).take(b - (he + 4)),
            decreases n - b,
        {
            body_chars.push(s[b]);
            proof {
                assert(body_chars@ =~= s@.skip(he + 4).take(b + 1 - (he + 4)));
            }
            b = b + 1;
        }
        proof {
            assert(body_chars@ =~= body_part(raw@));
        }
    }
    proof {
        if !(include_body && found_blank) {
            assert(body_chars@ =~= Seq::<char>::empty());
        }
        if include_body && !found_blank {
            assert(body_part(raw@) =~= Seq::<char>::empty());
        }
    }
    let body = string_from_chars(&body_chars);
    Ok(HttpResponse { status_line, headers, body })
}

/// Whether a status line reports success: it starts with `HTTP/1.1 200`.
pub open spec fn status_ok(line: Seq<char>) -> bool {
    line.len() >= 12 && line.take(12) == "HTTP/1.1 200"@
}

/// Decides the reachability probe from a status line: reachable exactly
/// when the line starts with `HTTP/1.1 200`.
pub fn connection_ok(status_line: &str) -> (r: bool)
    ensures
        r == status_ok(status_line@),
{
    let s = chars_of(status_line);
    proof {
        reveal_strlit("HTTP/1.1 200");
    }
    if s.len() < 12 {
        return false;
    }
    let expected = chars_of("HTTP/1.1 200");
    let mut i: usize = 0;
    while i < 12
        invariant
            0 <= i <= 12,
            s@.len() >= 12,
            s@ == status_line@,
            expected@ == "HTTP/1.1 200"@,
            expected@.len() == 12,
            forall|j: int| 0 <= j < i ==> s@[j] == "HTTP/1.1 200"@[j],
        decreases 12 - i,
    {
        if s[i] != expected[i] {
            assert(s@.take(12)[i as int] != "HTTP/1.1 200"@[i as int]);
            return false;
        }
        i = i + 1;
    }
    proof {
        assert(s@.take(12) =~= "HTTP/1.1 200"@);
    }
    true
}

/// The exact request text sent by the probe and the low-level client.
pub fn request_text(method: &str, path: &str, host: &str) -> (r: String)
    ensures
        r@ == method@ + " "@ + path@ + " HTTP/1.1\r\nHost: "@ + host@ + "\r\nConnection: close\r\n\r\n"@,
{
    let mut r = String::new();
    r.append(method);
    r.append(" ");
    r.append(path);
    r.append(" HTTP/1.1\r\nHost: ");
    r.append(host);
    r.append("\r\nConnection: close\r\n\r\n");
    r
}

} // verus!
