//! Connection test and revision exchange with the optional Charon
//! coordination service: address parsing, protocol check, and the bookkeeping
//! of an upload run. The HTTP exchange itself is done by the caller.

use vstd::prelude::*;

use crate::chars::{chars_eq, push_digits, push_str, str_chars, string_from_chars, decimal};
use crate::error::{AppError, AppErrorView};
use vstd::utf8::{decode_utf8, encode_utf8, valid_utf8};

verus! {

/// Protocol version spoken by this client.
pub const PROTOCOL_VERSION: u32 = 1;

/// Answer of the handshake endpoint.
#[derive(Debug, Clone)]
pub struct CharonHandshake {
    pub server: String,
    pub server_version: String,
    pub protocol_version: u32,
    pub instance_id: String,
    pub capabilities: Vec<String>,
}

/// A workplace known to the service.
#[derive(Debug, Clone)]
pub struct CharonWorkplace {
    pub id: String,
    pub name: String,
    pub last_seen_unix: u64,
    pub online: bool,
}

/// Result of a successful connection test.
#[derive(Debug, Clone)]
pub struct CharonConnection {
    pub handshake: CharonHandshake,
    pub workplaces: Vec<CharonWorkplace>,
}

/// Counters of one synchronisation run.
#[derive(Debug, Clone, Copy, PartialEq, Eq, Structural)]
pub struct CharonSyncReport {
    pub uploaded: usize,
    pub pending: usize,
    pub received: usize,
}

/// Upload state of a queued local revision.
#[derive(Debug, Clone, Copy, PartialEq, Eq, Structural)]
pub enum OutboxStatus {
    Pending,
    Uploaded,
    Failed,
}

/// Is `c` white space in the sense of Unicode's `White_Space` property (the
/// characters `char::is_whitespace` accepts)?
pub open spec fn is_white(c: char) -> bool {
    ('\u{9}' <= c && c <= '\u{d}') || c == ' ' || c == '\u{85}' || c == '\u{a0}' || c == '\u{1680}'
        || ('\u{2000}' <= c && c <= '\u{200a}') || c == '\u{2028}' || c == '\u{2029}' || c
        == '\u{202f}' || c == '\u{205f}' || c == '\u{3000}'
}

pub fn is_whitespace(c: char) -> (r: bool)
    ensures
        r == is_white(c),
{
    (c >= '\u{9}' && c <= '\u{d}') || c == ' ' || c == '\u{85}' || c == '\u{a0}' || c == '\u{1680}'
        || (c >= '\u{2000}' && c <= '\u{200a}') || c == '\u{2028}' || c == '\u{2029}' || c
        == '\u{202f}' || c == '\u{205f}' || c == '\u{3000}'
}

/// `s` without leading white space.
pub open spec fn trim_start(s: Seq<char>) -> Seq<char>
    decreases s.len(),
{
    if s.len() > 0 && is_white(s[0]) {
        trim_start(s.drop_first())
    } else {
        s
    }
}

/// `s` without trailing characters satisfying `drop`.
pub open spec fn trim_end_by(s: Seq<char>, drop: spec_fn(char) -> bool) -> Seq<char>
    decreases s.len(),
{
    if s.len() > 0 && drop(s.last()) {
        trim_end_by(s.drop_last(), drop)
    } else {
        s
    }
}

/// `s` without leading and trailing white space (as `str::trim`).
pub open spec fn trim(s: Seq<char>) -> Seq<char> {
    trim_end_by(trim_start(s), |c: char| is_white(c))
}

/// `s` starts with `p`.
pub open spec fn has_prefix(s: Seq<char>, p: Seq<char>) -> bool {
    p.len() <= s.len() && s.subrange(0, p.len() as int) == p
}

/// The authority (`host[:port]`, with port 80 added when missing) that a
/// service address names, or `None` when the address is not `http://` plus
/// host and optional port (surrounding white space and trailing slashes are
/// ignored). The two refusals are distinguished by `endpoint_refusal`.
pub open spec fn endpoint_authority(raw: Seq<char>) -> Option<Seq<char>> {
    let t = trim_end_by(trim(raw), |c: char| c == '/');
    if !has_prefix(t, "http://"@) {
        None
    } else {
        let a = t.subrange(7, t.len() as int);
        if a.len() == 0 || a.contains('/') {
            None
        } else if a.contains(':') {
            Some(a)
        } else {
            Some(a + ":80"@)
        }
    }
}

/// Message of a refused address: the scheme is missing, or the rest is not a
/// bare host with optional port.
pub open spec fn endpoint_refusal(raw: Seq<char>) -> Seq<char> {
    let t = trim_end_by(trim(raw), |c: char| c == '/');
    if !has_prefix(t, "http://"@) {
        "Charon-Adresse muss mit http:// beginnen."@
    } else {
        "Charon-Adresse muss aus Host und optionalem Port bestehen."@
    }
}

/// A parsed service address.
#[derive(Debug, Clone)]
pub struct HttpEndpoint {
    pub authority: String,
}

pub(crate) fn trim_chars(v: &Vec<char>) -> (r: Vec<char>)
    ensures
        r@ == trim(v@),
{
    let n = v.len();
    let mut start: usize = 0;
    assert(v@.subrange(0, n as int) =~= v@);
    while start < n && is_whitespace(v[start])
        invariant
            n == v@.len(),
            start <= n,
            trim_start(v@) == trim_start(v@.subrange(start as int, n as int)),
        decreases n - start,
    {
        assert(v@.subrange(start as int, n as int).drop_first() =~= v@.subrange(start + 1, n as int));
        start = start + 1;
    }
    let ghost ts = v@.subrange(start as int, n as int);
    assert(trim_start(ts) == ts);
    let mut end: usize = n;
    while end > start && is_whitespace(v[end - 1])
        invariant
            n == v@.len(),
            start <= end <= n,
            ts == v@.subrange(start as int, n as int),
            trim(v@) == trim_end_by(v@.subrange(start as int, end as int), |c: char| is_white(c)),
        decreases end,
    {
        assert(v@.subrange(start as int, end as int).drop_last() =~= v@.subrange(start as int, end - 1));
        end = end - 1;
    }
    let mut r: Vec<char> = Vec::new();
    let mut i: usize = start;
    while i < end
        invariant
            start <= i <= end <= n,
            n == v@.len(),
            r@ =~= v@.subrange(start as int, i as int),
        decreases end - i,
    {
        r.push(v[i]);
        i = i + 1;
    }
    r
}

fn trim_trailing_slashes(v: &Vec<char>) -> (r: Vec<char>)
    ensures
        r@ == trim_end_by(v@, |c: char| c == '/'),
{
    let n = v.len();
    let mut end: usize = n;
    assert(v@.subrange(0, n as int) =~= v@);
    while end > 0 && v[end - 1] == '/'
        invariant
            end <= n == v@.len(),
            trim_end_by(v@, |c: char| c == '/') == trim_end_by(v@.subrange(0, end as int), |c: char| c == '/'),
        decreases end,
    {
        assert(v@.subrange(0, end as int).drop_last() =~= v@.subrange(0, end - 1));
        end = end - 1;
    }
    let mut r: Vec<char> = Vec::new();
    let mut i: usize = 0;
    while i < end
        invariant
            i <= end <= n == v@.len(),
            r@ =~= v@.subrange(0, i as int),
        decreases end - i,
    {
        r.push(v[i]);
        i = i + 1;
    }
    assert(v@.subrange(0, n as int) =~= v@);
    r
}

fn contains_char(v: &Vec<char>, from: usize, c: char) -> (r: bool)
    requires
        from <= v@.len(),
    ensures
        r == v@.subrange(from as int, v@.len() as int).contains(c),
{
    let mut i: usize = from;
    while i < v.len()
        invariant
            from <= i <= v@.len(),
            forall|k: int| from <= k < i ==> v@[k] != c,
        decreases v.len() - i,
    {
        if v[i] == c {
            assert(v@.subrange(from as int, v@.len() as int)[i - from] == c);
            return true;
        }
        i = i + 1;
    }
    false
}

impl HttpEndpoint {
    /// Parses a service address: it must start with `http://` and name only
    /// host and optional port (port 80 when missing). Surrounding white space
    /// and trailing slashes are ignored.
    pub fn parse(raw: &str) -> (r: Result<HttpEndpoint, AppError>)
        ensures
            match r {
                Ok(e) => endpoint_authority(raw@) == Some(e.authority@),
                Err(e) => endpoint_authority(raw@) is None && e@ == (AppErrorView {
                    code: "charon_url"@,
                    message: endpoint_refusal(raw@),
                    details: None,
                }),
            },
    {
        let chars = str_chars(raw);
        let trimmed = trim_chars(&chars);
        let t = trim_trailing_slashes(&trimmed);
        let prefix = str_chars("http://");
        proof {
            reveal_strlit("http://");
        }
        let mut scheme_ok = t.len() >= 7;
        if scheme_ok {
            let mut head: Vec<char> = Vec::new();
            let mut i: usize = 0;
            while i < 7
                invariant
                    i <= 7 <= t@.len(),
                    head@ =~= t@.subrange(0, i as int),
                decreases 7 - i,
            {
                head.push(t[i]);
                i = i + 1;
            }
            scheme_ok = chars_eq(&head, &prefix);
        }
        if !scheme_ok {
            return Err(AppError::new("charon_url", "Charon-Adresse muss mit http:// beginnen.".to_owned()));
        }
        if t.len() == 7 || contains_char(&t, 7, '/') {
            return Err(
                AppError::new(
                    "charon_url",
                    "Charon-Adresse muss aus Host und optionalem Port bestehen.".to_owned(),
                ),
            );
        }
        let mut a: Vec<char> = Vec::new();
        let mut i: usize = 7;
        while i < t.len()
            invariant
                7 <= i <= t@.len(),
                a@ =~= t@.subrange(7, i as int),
            decreases t.len() - i,
        {
            a.push(t[i]);
            i = i + 1;
        }
        if !contains_char(&t, 7, ':') {
            push_str(&mut a, ":80");
        }
        Ok(HttpEndpoint { authority: string_from_chars(&a) })
    }
}

/// Message of an incompatible handshake.
pub open spec fn protocol_refusal(received: u32) -> Seq<char> {
    "Charon-Protokoll ist nicht kompatibel (erwartet 1, erhalten "@ + decimal(received as nat) + ")."@
}

/// Checks that the peer is a Charon service speaking protocol version 1.
pub fn validate_handshake(handshake: &CharonHandshake) -> (r: Result<(), AppError>)
    ensures
        match r {
            Ok(()) => handshake.server@ == "charon"@ && handshake.protocol_version == PROTOCOL_VERSION,
            Err(e) => !(handshake.server@ == "charon"@ && handshake.protocol_version == PROTOCOL_VERSION)
                && e@ == (AppErrorView {
                code: "charon_protocol"@,
                message: protocol_refusal(handshake.protocol_version),
                details: None,
            }),
        },
{
    if !crate::chars::str_eq(handshake.server.as_str(), "charon") || handshake.protocol_version != PROTOCOL_VERSION {
        let mut m: Vec<char> = Vec::new();
        push_str(&mut m, "Charon-Protokoll ist nicht kompatibel (erwartet 1, erhalten ");
        push_digits(&mut m, handshake.protocol_version as u64, 10);
        push_str(&mut m, ").");
        return Err(AppError::new("charon_protocol", string_from_chars(&m)));
    }
    Ok(())
}

impl CharonSyncReport {
    /// A report with all counters at zero.
    pub fn new() -> (r: CharonSyncReport)
        ensures
            r == (CharonSyncReport { uploaded: 0, pending: 0, received: 0 }),
    {
        CharonSyncReport { uploaded: 0, pending: 0, received: 0 }
    }
}

/// Indices of the queued revisions that still have to be uploaded (all that
/// are not uploaded yet), in queue order.
pub open spec fn to_upload(statuses: Seq<OutboxStatus>, n: nat) -> Seq<usize>
    decreases n,
{
    if n == 0 {
        Seq::empty()
    } else {
        let rest = to_upload(statuses, (n - 1) as nat);
        if statuses[n - 1] is Uploaded {
            rest
        } else {
            rest.push((n - 1) as usize)
        }
    }
}

/// The queued revisions to upload in one run.
pub fn revisions_to_upload(statuses: &Vec<OutboxStatus>) -> (r: Vec<usize>)
    ensures
        r@ == to_upload(statuses@, statuses@.len()),
{
    let mut r: Vec<usize> = Vec::new();
    let mut i: usize = 0;
    while i < statuses.len()
        invariant
            i <= statuses@.len(),
            r@ == to_upload(statuses@, i as nat),
        decreases statuses.len() - i,
    {
        if !matches!(statuses[i], OutboxStatus::Uploaded) {
            r.push(i);
        }
        i = i + 1;
    }
    r
}

/// Outcome of one upload attempt during a run: the revision is counted as
/// pending, and as uploaded (no longer pending) when the service confirmed
/// it. The new status of the revision is `Uploaded` or `Failed`; a failure
/// ends the run.
pub fn record_upload(report: &mut CharonSyncReport, confirmed: bool) -> (status: OutboxStatus)
    requires
        old(report).pending < usize::MAX,
        old(report).uploaded < usize::MAX,
    ensures
        confirmed ==> *final(report) == (CharonSyncReport { uploaded: (old(report).uploaded + 1) as usize, ..*old(report) })
            && status == OutboxStatus::Uploaded,
        !confirmed ==> *final(report) == (CharonSyncReport { pending: (old(report).pending + 1) as usize, ..*old(report) })
            && status == OutboxStatus::Failed,
{
    report.pending = report.pending + 1;
    if confirmed {
        report.uploaded = report.uploaded + 1;
        report.pending = report.pending - 1;
        OutboxStatus::Uploaded
    } else {
        OutboxStatus::Failed
    }
}

/// One upload run over the outbox: the revisions to upload in queue order,
/// how many of them were attempted, the counters so far, and whether a
/// failure ended the run. The caller uploads the revision that
/// `next_upload` names and hands the outcome to `finish_upload`.
pub struct UploadRun {
    pub queue: Vec<usize>,
    pub attempted: usize,
    pub report: CharonSyncReport,
    pub stopped: bool,
}

impl UploadRun {
    /// Every attempt is counted once, as uploaded or as pending, and a run
    /// stops only after a failed attempt.
    pub open spec fn wf(&self) -> bool {
        &&& self.attempted <= self.queue@.len()
        &&& self.report.uploaded + self.report.pending == self.attempted
        &&& self.report.received == 0
        &&& self.stopped <==> self.report.pending > 0
    }

    /// Starts a run over the queued revisions with the given statuses.
    pub fn start(statuses: &Vec<OutboxStatus>) -> (run: UploadRun)
        ensures
            run.wf(),
            run.queue@ == to_upload(statuses@, statuses@.len()),
            run.attempted == 0,
            !run.stopped,
    {
        UploadRun {
            queue: revisions_to_upload(statuses),
            attempted: 0,
            report: CharonSyncReport::new(),
            stopped: false,
        }
    }

    /// The queue index of the revision to upload next; `None` once the run
    /// is over, after the last revision or after a failure.
    pub fn next_upload(&self) -> (r: Option<usize>)
        requires
            self.wf(),
        ensures
            r == (if self.stopped || self.attempted == self.queue@.len() {
                None
            } else {
                Some(self.queue@[self.attempted as int])
            }),
    {
        if self.stopped || self.attempted == self.queue.len() {
            None
        } else {
            Some(self.queue[self.attempted])
        }
    }

    /// Records the outcome of uploading the revision that `next_upload`
    /// named, as `record_upload` counts it, and returns its new status; a
    /// failure stops the run.
    pub fn finish_upload(&mut self, confirmed: bool) -> (status: OutboxStatus)
        requires
            old(self).wf(),
            !old(self).stopped,
            old(self).attempted < old(self).queue@.len(),
        ensures
            final(self).wf(),
            final(self).queue == old(self).queue,
            final(self).attempted == old(self).attempted + 1,
            final(self).stopped == !confirmed,
            confirmed ==> final(self).report == (CharonSyncReport {
                uploaded: (old(self).report.uploaded + 1) as usize,
                ..old(self).report
            }) && status == OutboxStatus::Uploaded,
            !confirmed ==> final(self).report == (CharonSyncReport {
                pending: (old(self).report.pending + 1) as usize,
                ..old(self).report
            }) && status == OutboxStatus::Failed,
    {
        let queued = self.queue.len();
        assert(self.attempted < queued);
        let status = record_upload(&mut self.report, confirmed);
        self.attempted = self.attempted + 1;
        self.stopped = !confirmed;
        status
    }
}

/// Counts a revision received from the service that was newly stored.
pub fn record_received(report: &mut CharonSyncReport, stored: bool)
    requires
        old(report).received < usize::MAX,
    ensures
        *final(report) == (CharonSyncReport {
            received: if stored { (old(report).received + 1) as usize } else { old(report).received },
            ..*old(report)
        }),
{
    if stored {
        report.received = report.received + 1;
    }
}

/// An acknowledgement confirms an upload only when it names the same revision
/// and the same content hash.
pub fn ack_confirms(ack_revision: &str, ack_hash: &str, revision_id: &str, content_hash: &str) -> (r: bool)
    ensures
        r == (ack_revision@ == revision_id@ && ack_hash@ == content_hash@),
{
    crate::chars::str_eq(ack_revision, revision_id) && crate::chars::str_eq(ack_hash, content_hash)
}

/// `std::str::from_utf8`: the bytes as text exactly when they are valid
/// UTF-8 (the text then holds the decoded characters), and the decoder's
/// reason when they are not.
#[verifier::external_body]
fn utf8_from_bytes(bytes: &[u8]) -> (r: Result<String, String>)
    ensures
        r is Ok <==> valid_utf8(bytes@),
        r matches Ok(t) ==> t@ == decode_utf8(bytes@),
{
    match std::str::from_utf8(bytes) {
        Ok(t) => Ok(t.to_owned()),
        Err(e) => Err(e.to_string()),
    }
}

/// First position at or after `i` where `pat` occurs in `s`.
pub open spec fn find_sub(s: Seq<char>, pat: Seq<char>, i: nat) -> Option<nat>
    decreases s.len() + 1 - i,
{
    if i + pat.len() > s.len() {
        None
    } else if s.subrange(i as int, (i + pat.len()) as int) == pat {
        Some(i)
    } else {
        find_sub(s, pat, i + 1)
    }
}

/// What a Charon HTTP response yields: the body after the empty line that
/// ends the header, when the status line says `200`; else the error code
/// and message.
pub open spec fn response_body(text: Seq<char>) -> Result<Seq<char>, (Seq<char>, Seq<char>)> {
    match find_sub(text, "\r\n\r\n"@, 0) {
        None => Err(("charon_response"@, "Charon hat keine gültige HTTP-Antwort geliefert."@)),
        Some(k) => {
            let status = crate::charon_server::first_line(text.subrange(0, k as int));
            if find_sub(status, " 200 "@, 0) is None {
                Err(("charon_status"@, "Charon antwortet mit "@ + status + "."@))
            } else {
                Ok(text.subrange((k + 4) as int, text.len() as int))
            }
        },
    }
}

fn find_sub_exec(s: &Vec<char>, pat: &Vec<char>) -> (r: Option<usize>)
    ensures
        match r {
            Some(k) => find_sub(s@, pat@, 0) == Some(k as nat) && k + pat@.len() <= s@.len(),
            None => find_sub(s@, pat@, 0) is None,
        },
{
    if pat.len() > s.len() {
        return None;
    }
    let limit = s.len() - pat.len();
    let mut i: usize = 0;
    while i <= limit
        invariant
            limit + pat@.len() == s@.len(),
            s@.len() <= usize::MAX,
            i <= limit + 1,
            find_sub(s@, pat@, 0) == find_sub(s@, pat@, i as nat),
        decreases limit + 1 - i,
    {
        let mut j: usize = 0;
        let mut same = true;
        while j < pat.len()
            invariant
                i <= limit,
                limit + pat@.len() == s@.len(),
                s@.len() <= usize::MAX,
                j <= pat@.len(),
                same == forall|q: int| 0 <= q < j ==> s@[i + q] == pat@[q],
            decreases pat.len() - j,
        {
            let idx = i + j;
            if s[idx] != pat[j] {
                same = false;
            }
            j = j + 1;
        }
        if same {
            assert(s@.subrange(i as int, i + pat@.len()) =~= pat@);
            return Some(i);
        }
        assert(s@.subrange(i as int, i + pat@.len()) != pat@) by {
            let q = choose|q: int| 0 <= q < pat@.len() && s@[i + q] != pat@[q];
            assert(s@.subrange(i as int, i + pat@.len())[q] == s@[i + q]);
        }
        assert(pat@.len() > 0);
        i = i + 1;
    }
    None
}

/// The body of a Charon HTTP response, refused when the bytes are no text,
/// when no empty line ends the header, or when the status is not 200.
#[verifier::loop_isolation(false)]
pub fn http_body(response: &[u8]) -> (r: Result<String, AppError>)
    ensures
        !valid_utf8(response@) ==> r is Err && r->Err_0@.code == "charon_response"@
            && r->Err_0@.message == "Charon hat ungültige Daten geliefert."@ && r->Err_0@.details is Some,
        valid_utf8(response@) ==> match response_body(decode_utf8(response@)) {
            Ok(body) => r is Ok && r->Ok_0@ == body,
            Err((code, message)) => r is Err && r->Err_0@ == (AppErrorView {
                code,
                message,
                details: None,
            }),
        },
{
    let text = match utf8_from_bytes(response) {
        Err(reason) => {
            return Err(
                AppError::wrap("charon_response", "Charon hat ungültige Daten geliefert.".to_owned(), reason),
            );
        },
        Ok(t) => t,
    };
    let chars = str_chars(text.as_str());
    let sep = str_chars("\r\n\r\n");
    proof {
        reveal_strlit("\r\n\r\n");
        reveal_strlit(" 200 ");
        reveal_strlit("Charon antwortet mit ");
        reveal_strlit(".");
    }
    assert(sep@.len() == 4);
    match find_sub_exec(&chars, &sep) {
        None => Err(
            AppError::new(
                "charon_response",
                "Charon hat keine gültige HTTP-Antwort geliefert.".to_owned(),
            ),
        ),
        Some(k) => {
            assert(find_sub(chars@, sep@, 0) == Some(k as nat));
            let total = chars.len();
            assert(k + sep@.len() <= total);
            let body_start: usize = k + 4;
            let mut headers: Vec<char> = Vec::new();
            let mut i: usize = 0;
            while i < k
                invariant
                    k + 4 <= chars@.len(),
                    i <= k,
                    headers@ =~= chars@.subrange(0, i as int),
                decreases k - i,
            {
                headers.push(chars[i]);
                i = i + 1;
            }
            let end = crate::charon_server::line_end(&headers);
            let mut status: Vec<char> = Vec::new();
            let mut j: usize = 0;
            while j < end
                invariant
                    end <= headers@.len(),
                    j <= end,
                    status@ =~= headers@.subrange(0, j as int),
                decreases end - j,
            {
                status.push(headers[j]);
                j = j + 1;
            }
            let ok = str_chars(" 200 ");
            if find_sub_exec(&status, &ok).is_none() {
                let mut m: Vec<char> = Vec::new();
                push_str(&mut m, "Charon antwortet mit ");
                let mut q: usize = 0;
                while q < status.len()
                    invariant
                        q <= status@.len(),
                        m@ =~= "Charon antwortet mit "@ + status@.subrange(0, q as int),
                    decreases status.len() - q,
                {
                    m.push(status[q]);
                    q = q + 1;
                }
                assert(status@.subrange(0, status@.len() as int) =~= status@);
                push_str(&mut m, ".");
                assert(headers@ == text@.subrange(0, k as int));
                assert(m@ == "Charon antwortet mit "@ + status@ + "."@);
                return Err(AppError::new("charon_status", string_from_chars(&m)));
            }
            let mut body: Vec<char> = Vec::new();
            let mut b: usize = body_start;
            while b < chars.len()
                invariant
                    k + 4 <= b <= chars@.len(),
                    body@ =~= chars@.subrange(k + 4, b as int),
                decreases chars.len() - b,
            {
                body.push(chars[b]);
                b = b + 1;
            }
            Ok(string_from_chars(&body))
        },
    }
}

/// The HTTP/1.1 request text that a Charon call sends: request line, host,
/// JSON content type, the body's length in bytes, `Connection: close`, an
/// empty line and the body.
pub open spec fn request_text(method: Seq<char>, path: Seq<char>, authority: Seq<char>, body: Seq<char>, body_bytes: nat) -> Seq<char> {
    method + " "@ + path + " HTTP/1.1\r\nHost: "@ + authority
        + "\r\nContent-Type: application/json\r\nContent-Length: "@ + decimal(body_bytes)
        + "\r\nConnection: close\r\n\r\n"@ + body
}

/// Builds the request for `method` and `path` on the endpoint, with `body`.
pub fn http_request(endpoint: &HttpEndpoint, method: &str, path: &str, body: &str) -> (r: String)
    ensures
        r@ == request_text(method@, path@, endpoint.authority@, body@, encode_utf8(body@).len()),
{
    let mut out: Vec<char> = Vec::new();
    push_str(&mut out, method);
    push_str(&mut out, " ");
    push_str(&mut out, path);
    push_str(&mut out, " HTTP/1.1\r\nHost: ");
    push_str(&mut out, endpoint.authority.as_str());
    push_str(&mut out, "\r\nContent-Type: application/json\r\nContent-Length: ");
    let bytes = body.as_bytes();
    let n = bytes.len();
    assert(n == encode_utf8(body@).len());
    push_digits(&mut out, n as u64, 10);
    push_str(&mut out, "\r\nConnection: close\r\n\r\n");
    push_str(&mut out, body);
    assert(out@ =~= request_text(method@, path@, endpoint.authority@, body@, encode_utf8(body@).len()));
    string_from_chars(&out)
}

/// Path under which the service lists the revisions waiting for a workplace.
pub open spec fn revisions_path_spec(workplace_id: Seq<char>) -> Seq<char> {
    "/api/v1/projects/revisions?workplace_id="@ + workplace_id
}

pub fn revisions_path(workplace_id: &str) -> (r: String)
    ensures
        r@ == revisions_path_spec(workplace_id@),
{
    let mut out: Vec<char> = Vec::new();
    push_str(&mut out, "/api/v1/projects/revisions?workplace_id=");
    push_str(&mut out, workplace_id);
    string_from_chars(&out)
}

} // verus!
