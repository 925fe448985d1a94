//! Request options shared with the transport, and the response size
//! estimate.
use vstd::prelude::*;
use vstd::utf8::encode_utf8;

verus! {

/// HTTP method of the request.
#[derive(Debug, Clone, Copy, PartialEq, Eq, Structural, Hash)]
pub enum Method {
    Get,
    Head,
    Post,
    Put,
    Delete,
    Options,
    Trace,
    Patch,
}

pub open spec fn method_name(m: Method) -> Seq<char> {
    match m {
        Method::Get => seq!['G', 'E', 'T'],
        Method::Head => seq!['H', 'E', 'A', 'D'],
        Method::Post => seq!['P', 'O', 'S', 'T'],
        Method::Put => seq!['P', 'U', 'T'],
        Method::Delete => seq!['D', 'E', 'L', 'E', 'T', 'E'],
        Method::Options => seq!['O', 'P', 'T', 'I', 'O', 'N', 'S'],
        Method::Trace => seq!['T', 'R', 'A', 'C', 'E'],
        Method::Patch => seq!['P', 'A', 'T', 'C', 'H'],
    }
}

impl Method {
    /// The method's name as sent on the wire, in upper case.
    pub fn as_str(&self) -> (r: &'static str)
        ensures
            r@ == method_name(*self),
    {
        proof {
            reveal_strlit("GET");
            reveal_strlit("HEAD");
            reveal_strlit("POST");
            reveal_strlit("PUT");
            reveal_strlit("DELETE");
            reveal_strlit("OPTIONS");
            reveal_strlit("TRACE");
            reveal_strlit("PATCH");
        }
        match self {
            Method::Get => "GET",
            Method::Head => "HEAD",
            Method::Post => "POST",
            Method::Put => "PUT",
            Method::Delete => "DELETE",
            Method::Options => "OPTIONS",
            Method::Trace => "TRACE",
            Method::Patch => "PATCH",
        }
    }
}

/// HTTP protocol version.
#[derive(Debug, Clone, Copy, PartialEq, Eq, Structural)]
pub enum HttpVersion {
    Http11,
    Http2,
}

/// Bytes of a text in UTF-8.
pub open spec fn byte_len(s: Seq<char>) -> nat {
    encode_utf8(s).len()
}

/// Bytes of the first `n` header lines, `name: value\r\n` each; a value that
/// is not text counts as empty.
pub open spec fn header_lines_size(headers: Seq<(String, Option<String>)>, n: int) -> int
    decreases n,
{
    if n <= 0 {
        0
    } else {
        let (name, value) = headers[n - 1];
        header_lines_size(headers, n - 1) + byte_len(name@) + 2 + match value {
            Some(v) => byte_len(v@) as int,
            None => 0,
        } + 2
    }
}

/// The estimated size of a response's header block: every header line plus
/// the blank line that ends the block. The status line is not counted.
pub open spec fn header_size(headers: Seq<(String, Option<String>)>) -> int {
    header_lines_size(headers, headers.len() as int) + 2
}

proof fn lemma_header_lines_monotone(headers: Seq<(String, Option<String>)>, m: int, n: int)
    requires
        0 <= m <= n,
    ensures
        header_lines_size(headers, m) <= header_lines_size(headers, n),
    decreases n - m,
{
    if m < n {
        lemma_header_lines_monotone(headers, m, n - 1);
    }
}

/// Estimates the header bytes of a response from its headers, given as name
/// and value (`None` for a value that is not valid text).
pub fn calculate_header_size(headers: &Vec<(String, Option<String>)>) -> (r: u64)
    requires
        header_size(headers@) <= usize::MAX,
    ensures
        r == header_size(headers@),
{
    let mut size: usize = 0;
    let mut i: usize = 0;
    while i < headers.len()
        invariant
            i <= headers@.len(),
            size == header_lines_size(headers@, i as int),
            header_size(headers@) <= usize::MAX,
        decreases headers@.len() - i,
    {
        proof {
            lemma_header_lines_monotone(headers@, i + 1, headers@.len() as int);
        }
        let (name, value) = &headers[i];
        let value_len: usize = match value {
            Some(v) => v.as_str().len(),
            None => 0,
        };
        size = size + name.as_str().len() + 2 + value_len + 2;
        i = i + 1;
    }
    (size + 2) as u64
}

} // verus!
