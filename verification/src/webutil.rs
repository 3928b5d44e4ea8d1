//! Pure helpers of the web-facing plugins: encoding a query for a wiki URL,
//! and gating a fetched page on its response status. The fetches themselves
//! are network work and happen outside the library; the library is handed
//! their outcome as plain values.

use vstd::prelude::*;

use crate::strutil;

verus! {

/// How one character is encoded in a wiki URL: spaces and ampersands are
/// percent-encoded, everything else stands as it is.
pub open spec fn encoded_char(c: char) -> Seq<char> {
    if c == ' ' {
        seq!['%', '2', '0']
    } else if c == '&' {
        seq!['%', '2', '6']
    } else {
        seq![c]
    }
}

/// A query text from position `i` on, encoded character by character.
pub open spec fn wiki_encoded(s: Seq<char>, i: int) -> Seq<char>
    decreases s.len() - i,
{
    if i < 0 || i >= s.len() {
        Seq::empty()
    } else {
        encoded_char(s[i]) + wiki_encoded(s, i + 1)
    }
}

/// Encode a query into the URL form the wiki accepts.
pub fn wikiencode(query: &str) -> (r: String)
    ensures
        r@ == wiki_encoded(query@, 0),
{
    let len = query.unicode_len();
    let mut out = String::new();
    let mut i: usize = 0;
    proof {
        assert(out@ + wiki_encoded(query@, 0) =~= wiki_encoded(query@, 0));
    }
    while i < len
        invariant
            i <= len == query@.len(),
            out@ + wiki_encoded(query@, i as int) == wiki_encoded(query@, 0),
        decreases len - i,
    {
        let c = query.get_char(i);
        if c == ' ' {
            strutil::push_char(&mut out, '%');
            strutil::push_char(&mut out, '2');
            strutil::push_char(&mut out, '0');
        } else if c == '&' {
            strutil::push_char(&mut out, '%');
            strutil::push_char(&mut out, '2');
            strutil::push_char(&mut out, '6');
        } else {
            strutil::push_char(&mut out, c);
        }
        proof {
            assert(out@ + wiki_encoded(query@, i + 1 as int) =~= wiki_encoded(query@, 0));
        }
        i = i + 1;
    }
    proof {
        assert(out@ =~= wiki_encoded(query@, 0));
    }
    out
}

/// Why a fetch yielded no usable page: the transport failed with a message,
/// or the server answered with a non-success status.
#[derive(Debug, PartialEq, Eq)]
pub enum FetchError {
    Transport(String),
    Status(u16),
}

/// Whether an HTTP status code reports success.
pub open spec fn status_is_success(status: u16) -> bool {
    200 <= status < 300
}

/// Gate a fetch on its status: the page body exactly when the fetch came
/// back with a success status, its status code when it did not, and the
/// transport's own error when nothing came back at all.
pub fn fetch_string_on_success(fetched: Result<(String, u16), String>) -> (r: Result<
    String,
    FetchError,
>)
    ensures
        match fetched {
            Ok(page) => if status_is_success(page.1) {
                r matches Ok(body) && body == page.0
            } else {
                r == Err::<String, FetchError>(FetchError::Status(page.1))
            },
            Err(e) => r matches Err(fe) && fe == FetchError::Transport(e),
        },
{
    match fetched {
        Ok((body, status)) => {
            if 200 <= status && status < 300 {
                Ok(body)
            } else {
                Err(FetchError::Status(status))
            }
        },
        Err(e) => Err(FetchError::Transport(e)),
    }
}

} // verus!
