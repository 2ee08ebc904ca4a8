//! Routing of the optional Charon coordination service: which answer a
//! request gets, by the method and path of its request line. Listening,
//! reading and writing the connection are the caller's.

use vstd::prelude::*;

use crate::charon::{is_white, is_whitespace, trim_start};

verus! {

/// Address the service binds to unless configured otherwise.
pub const DEFAULT_BIND: &'static str = "127.0.0.1:3737";

/// What the service answers.
#[derive(Debug, Clone, Copy, PartialEq, Eq, Structural)]
pub enum Route {
    /// `GET /health`: 200 with the health body.
    Health,
    /// `GET /api/v1/handshake`: 200 with the handshake body.
    Handshake,
    /// Another `GET`: 404.
    NotFound,
    /// Any other method: 405.
    MethodNotAllowed,
}

/// The first line of a request (up to the first line feed, without a
/// carriage return before it).
pub open spec fn first_line(s: Seq<char>) -> Seq<char>
    decreases s.len(),
{
    if s.len() == 0 {
        s
    } else if s[0] == '\n' {
        Seq::empty()
    } else if s[0] == '\r' && s.len() >= 2 && s[1] == '\n' {
        Seq::empty()
    } else {
        seq![s[0]] + first_line(s.drop_first())
    }
}

/// The leading run of non-white characters.
pub open spec fn word(s: Seq<char>) -> Seq<char>
    decreases s.len(),
{
    if s.len() == 0 || is_white(s[0]) {
        Seq::empty()
    } else {
        seq![s[0]] + word(s.drop_first())
    }
}

/// The first white-space separated word and what follows it.
pub open spec fn first_word(s: Seq<char>) -> (Seq<char>, Seq<char>) {
    let t = trim_start(s);
    let w = word(t);
    (w, t.subrange(w.len() as int, t.len() as int))
}

/// The answer to a request, by the method and path of its first line.
pub open spec fn route_of(request: Seq<char>) -> Route {
    let (method, rest) = first_word(first_line(request));
    let (path, _) = first_word(rest);
    if method == "GET"@ && path == "/health"@ {
        Route::Health
    } else if method == "GET"@ && path == "/api/v1/handshake"@ {
        Route::Handshake
    } else if method == "GET"@ {
        Route::NotFound
    } else {
        Route::MethodNotAllowed
    }
}

/// Start of the first line's end (or the length when there is none).
pub(crate) fn line_end(s: &Vec<char>) -> (r: usize)
    ensures
        r <= s@.len(),
        s@.subrange(0, r as int) == first_line(s@),
{
    let mut i: usize = 0;
    assert(s@.subrange(0, s@.len() as int) =~= s@);
    assert(s@.subrange(0, 0) + s@ =~= s@);
    while i < s.len()
        invariant
            i <= s@.len(),
            first_line(s@) == s@.subrange(0, i as int) + first_line(s@.subrange(i as int, s@.len() as int)),
        decreases s.len() - i,
    {
        let ghost rest = s@.subrange(i as int, s@.len() as int);
        if s[i] == '\n' {
            assert(first_line(rest) == Seq::<char>::empty());
            assert(s@.subrange(0, i as int) + Seq::<char>::empty() =~= s@.subrange(0, i as int));
            return i;
        }
        if s[i] == '\r' && i + 1 < s.len() && s[i + 1] == '\n' {
            assert(rest[1] == '\n');
            assert(first_line(rest) == Seq::<char>::empty());
            assert(s@.subrange(0, i as int) + Seq::<char>::empty() =~= s@.subrange(0, i as int));
            return i;
        }
        assert(rest.drop_first() =~= s@.subrange(i + 1, s@.len() as int));
        assert(s@.subrange(0, i + 1) =~= s@.subrange(0, i as int) + seq![s@[i as int]]);
        i = i + 1;
    }
    assert(s@.subrange(i as int, s@.len() as int) =~= Seq::<char>::empty());
    assert(s@.subrange(0, i as int) + Seq::<char>::empty() =~= s@.subrange(0, i as int));
    i
}

/// Splits off the first word of `s[from..to]`: returns where the word
/// starts and ends.
fn next_word(s: &Vec<char>, from: usize, to: usize) -> (r: (usize, usize))
    requires
        from <= to <= s@.len(),
    ensures
        from <= r.0 <= r.1 <= to,
        s@.subrange(r.0 as int, r.1 as int) == first_word(s@.subrange(from as int, to as int)).0,
        s@.subrange(r.1 as int, to as int) == first_word(s@.subrange(from as int, to as int)).1,
{
    let ghost seg = s@.subrange(from as int, to as int);
    let mut i = from;
    while i < to && is_whitespace(s[i])
        invariant
            from <= i <= to <= s@.len(),
            seg == s@.subrange(from as int, to as int),
            trim_start(seg) == trim_start(s@.subrange(i as int, to as int)),
        decreases to - i,
    {
        assert(s@.subrange(i as int, to as int).drop_first() =~= s@.subrange(i + 1, to as int));
        i = i + 1;
    }
    let ghost t = s@.subrange(i as int, to as int);
    assert(trim_start(t) == t);
    let start = i;
    while i < to && !is_whitespace(s[i])
        invariant
            start <= i <= to <= s@.len(),
            t == s@.subrange(start as int, to as int),
            word(t) == s@.subrange(start as int, i as int) + word(s@.subrange(i as int, to as int)),
        decreases to - i,
    {
        assert(s@.subrange(i as int, to as int).drop_first() =~= s@.subrange(i + 1, to as int));
        assert(s@.subrange(start as int, i + 1) =~= s@.subrange(start as int, i as int) + seq![
            s@[i as int],
        ]);
        i = i + 1;
    }
    assert(word(s@.subrange(i as int, to as int)) =~= Seq::<char>::empty());
    assert(word(t) =~= s@.subrange(start as int, i as int));
    assert(t.subrange(word(t).len() as int, t.len() as int) =~= s@.subrange(i as int, to as int));
    (start, i)
}

fn chars_are(s: &Vec<char>, from: usize, to: usize, lit: &str) -> (r: bool)
    requires
        from <= to <= s@.len(),
    ensures
        r == (s@.subrange(from as int, to as int) == lit@),
{
    let n = lit.unicode_len();
    if to - from != n {
        return false;
    }
    let mut k: usize = 0;
    while k < n
        invariant
            k <= n == lit@.len() == to - from,
            from <= to <= s@.len(),
            forall|j: int| 0 <= j < k ==> s@[from + j] == lit@[j],
        decreases n - k,
    {
        if s[from + k] != lit.get_char(k) {
            assert(s@.subrange(from as int, to as int)[k as int] != lit@[k as int]);
            return false;
        }
        k = k + 1;
    }
    assert(s@.subrange(from as int, to as int) =~= lit@);
    true
}

/// The answer to a request (its text as received).
pub fn route(request: &str) -> (r: Route)
    ensures
        r == route_of(request@),
{
    let s = crate::chars::str_chars(request);
    let end = line_end(&s);
    let (m0, m1) = next_word(&s, 0, end);
    proof {
        let line = s@.subrange(0, end as int);
        assert(s@.subrange(m1 as int, end as int) == first_word(line).1);
    }
    let (p0, p1) = next_word(&s, m1, end);
    let get = chars_are(&s, m0, m1, "GET");
    if get && chars_are(&s, p0, p1, "/health") {
        Route::Health
    } else if get && chars_are(&s, p0, p1, "/api/v1/handshake") {
        Route::Handshake
    } else if get {
        Route::NotFound
    } else {
        Route::MethodNotAllowed
    }
}

} // verus!
