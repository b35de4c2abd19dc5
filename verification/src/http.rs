//! The textual half of the HTTP reachability check: composing a
//! request, reading a status code and a body out of raw response bytes,
//! judging a status, and digging the organisation name out of an
//! address-metadata reply. Connecting and transporting bytes is the
//! caller's business.

use crate::text::{contains_sub, find_char_from, find_from, find_sub, trim_ascii, trim_spec};
use vstd::prelude::*;
use vstd::string::StringExecFns;

verus! {

/// Index of the first occurrence of byte `b` at or past `from`, or the
/// length of `s`.
pub open spec fn find_byte_from(s: Seq<u8>, b: u8, from: int) -> int
    decreases s.len() - from,
{
    if from < 0 {
        find_byte_from(s, b, 0)
    } else if from >= s.len() {
        s.len() as int
    } else if s[from] == b {
        from
    } else {
        find_byte_from(s, b, from + 1)
    }
}

/// ASCII whitespace bytes, as token separators in a status line.
pub open spec fn is_ws_byte(b: u8) -> bool {
    b == 9 || b == 10 || b == 11 || b == 12 || b == 13 || b == 32
}

/// First index at or past `from` whose byte is (`ws`) or is not (`!ws`)
/// whitespace, or the length of `s`.
pub open spec fn scan_ws_from(s: Seq<u8>, from: int, ws: bool) -> int
    decreases s.len() - from,
{
    if from < 0 {
        scan_ws_from(s, 0, ws)
    } else if from >= s.len() {
        s.len() as int
    } else if is_ws_byte(s[from]) == ws {
        from
    } else {
        scan_ws_from(s, from + 1, ws)
    }
}

pub open spec fn is_digit_byte(b: u8) -> bool {
    48 <= b <= 57
}

pub open spec fn all_digit_bytes(s: Seq<u8>) -> bool {
    forall|i: int| 0 <= i < s.len() ==> is_digit_byte(#[trigger] s[i])
}

/// Value of a run of decimal digit bytes, most significant first.
pub open spec fn dec_val_bytes(s: Seq<u8>) -> int
    decreases s.len(),
{
    if s.len() == 0 {
        0
    } else {
        dec_val_bytes(s.drop_last()) * 10 + (s.last() - 48)
    }
}

proof fn lemma_dec_val_bytes_nonneg(s: Seq<u8>)
    requires
        all_digit_bytes(s),
    ensures
        0 <= dec_val_bytes(s),
    decreases s.len(),
{
    if s.len() > 0 {
        assert(all_digit_bytes(s.drop_last()));
        lemma_dec_val_bytes_nonneg(s.drop_last());
    }
}

proof fn lemma_dec_val_bytes_prefix_le(s: Seq<u8>, i: int)
    requires
        all_digit_bytes(s),
        0 <= i <= s.len(),
    ensures
        dec_val_bytes(s.take(i)) <= dec_val_bytes(s),
    decreases s.len() - i,
{
    lemma_dec_val_bytes_nonneg(s);
    if i < s.len() {
        lemma_dec_val_bytes_prefix_le(s, i + 1);
        assert(s.take(i + 1).drop_last() =~= s.take(i));
        assert(all_digit_bytes(s.take(i)));
        lemma_dec_val_bytes_nonneg(s.take(i));
    } else {
        assert(s.take(i) =~= s);
    }
}

/// First index at or past `from` holding byte `b`, or the length of `s`.
fn find_byte(s: &[u8], b: u8, from: usize) -> (r: usize)
    requires
        from <= s@.len(),
    ensures
        r == find_byte_from(s@, b, from as int),
        from <= r <= s@.len(),
{
    let n = s.len();
    let mut i: usize = from;
    while i < n
        invariant
            from <= i <= n,
            n == s@.len(),
            find_byte_from(s@, b, from as int) == find_byte_from(s@, b, i as int),
        decreases n - i,
    {
        if s[i] == b {
            return i;
        }
        i = i + 1;
    }
    n
}

fn ws_byte(b: u8) -> (r: bool)
    ensures
        r == is_ws_byte(b),
{
    b == 9 || b == 10 || b == 11 || b == 12 || b == 13 || b == 32
}

/// First whitespace (or non-whitespace) index at or past `from`.
fn scan_ws(s: &[u8], from: usize, ws: bool) -> (r: usize)
    requires
        from <= s@.len(),
    ensures
        r == scan_ws_from(s@, from as int, ws),
        from <= r <= s@.len(),
{
    let n = s.len();
    let mut i: usize = from;
    while i < n
        invariant
            from <= i <= n,
            n == s@.len(),
            scan_ws_from(s@, from as int, ws) == scan_ws_from(s@, i as int, ws),
        decreases n - i,
    {
        if ws_byte(s[i]) == ws {
            return i;
        }
        i = i + 1;
    }
    n
}

/// Parse a whole byte run as a decimal number of at most `cap`.
fn parse_decimal_bytes(s: &[u8], cap: u32) -> (r: Option<u32>)
    ensures
        (r is Some) == (s@.len() > 0 && all_digit_bytes(s@) && dec_val_bytes(s@) <= cap),
        r matches Some(v) ==> v == dec_val_bytes(s@),
{
    let n = s.len();
    if n == 0 {
        return None;
    }
    let mut val: u32 = 0;
    let mut i: usize = 0;
    while i < n
        invariant
            0 <= i <= n,
            n == s@.len(),
            all_digit_bytes(s@.take(i as int)),
            val == dec_val_bytes(s@.take(i as int)),
            val <= cap,
        decreases n - i,
    {
        let b = s[i];
        proof {
            assert(s@.take(i + 1).drop_last() =~= s@.take(i as int));
            assert(s@.take(i + 1).last() == b);
        }
        if b < 48 || b > 57 {
            proof {
                assert(!all_digit_bytes(s@)) by {
                    assert(s@[i as int] == b);
                }
            }
            return None;
        }
        let next: u64 = (val as u64) * 10 + (b - 48) as u64;
        if next > cap as u64 {
            proof {
                assert(all_digit_bytes(s@.take(i + 1)));
                if all_digit_bytes(s@) {
                    lemma_dec_val_bytes_prefix_le(s@, i + 1);
                }
            }
            return None;
        }
        val = next as u32;
        i = i + 1;
    }
    proof {
        assert(s@.take(n as int) =~= s@);
    }
    Some(val)
}

/// The first line of a response, its line feed and any carriage return
/// before it shed.
pub open spec fn status_line(resp: Seq<u8>) -> Seq<u8> {
    let e = find_byte_from(resp, 10, 0);
    let line = resp.subrange(0, e);
    if line.len() > 0 && line.last() == 13 {
        line.drop_last()
    } else {
        line
    }
}

/// The second whitespace-separated token of a line — where a status
/// line keeps its code.
pub open spec fn second_token(line: Seq<u8>) -> Seq<u8> {
    let t1s = scan_ws_from(line, 0, false);
    let t1e = scan_ws_from(line, t1s, true);
    let t2s = scan_ws_from(line, t1e, false);
    let t2e = scan_ws_from(line, t2s, true);
    line.subrange(t2s, t2e)
}

/// The status code a response starts with: the second token of its
/// first line read as a number within `u16`, if it is one.
pub open spec fn http_status_of(resp: Seq<u8>) -> Option<u16> {
    let tok = second_token(status_line(resp));
    if tok.len() > 0 && all_digit_bytes(tok) && dec_val_bytes(tok) <= 0xffff {
        Some(dec_val_bytes(tok) as u16)
    } else {
        None
    }
}

/// Read the status code out of raw response bytes.
pub fn parse_http_status(response: &[u8]) -> (r: Result<u16, &'static str>)
    ensures
        match (r, http_status_of(response@)) {
            (Ok(code), Some(c)) => code == c,
            (Err(e), None) => e@ == "Failed to parse status code"@,
            _ => false,
        },
{
    let nl = find_byte(response, 10, 0);
    let line0 = &response[0..nl];
    let line: &[u8] = if nl > 0 && line0[nl - 1] == 13 {
        &response[0..nl - 1]
    } else {
        line0
    };
    proof {
        assert(line@ =~= status_line(response@));
    }
    let t1s = scan_ws(line, 0, false);
    let t1e = scan_ws(line, t1s, true);
    let t2s = scan_ws(line, t1e, false);
    let t2e = scan_ws(line, t2s, true);
    let tok = &line[t2s..t2e];
    match parse_decimal_bytes(tok, 0xffff) {
        Some(v) => Ok(v as u16),
        None => Err("Failed to parse status code"),
    }
}

/// Where the `\r\n\r\n` separating head from body first stands, or the
/// length of `resp`.
pub open spec fn find_body_sep(resp: Seq<u8>, from: int) -> int
    decreases resp.len() - from,
{
    if from < 0 {
        find_body_sep(resp, 0)
    } else if from + 4 > resp.len() {
        resp.len() as int
    } else if resp[from] == 13 && resp[from + 1] == 10 && resp[from + 2] == 13 && resp[from + 3]
        == 10 {
        from
    } else {
        find_body_sep(resp, from + 1)
    }
}

/// Cut the body out of raw response bytes: everything past the first
/// blank line, or nothing at all when no blank line divides the
/// response.
pub fn parse_http_body(response: &[u8]) -> (r: Result<Vec<u8>, &'static str>)
    ensures
        match r {
            Ok(body) => find_body_sep(response@, 0) < response@.len() && body@ == response@.subrange(
                find_body_sep(response@, 0) + 4,
                response@.len() as int,
            ),
            Err(e) => find_body_sep(response@, 0) == response@.len() && e@ == "No response body"@,
        },
{
    let n = response.len();
    if n < 4 {
        proof {
            assert(find_body_sep(response@, 0) == n);
        }
        return Err("No response body");
    }
    let mut i: usize = 0;
    while i <= n - 4
        invariant
            0 <= i <= n,
            4 <= n == response@.len(),
            find_body_sep(response@, 0) == find_body_sep(response@, i as int),
        decreases n - i,
    {
        if response[i] == 13 && response[i + 1] == 10 && response[i + 2] == 13 && response[i + 3]
            == 10 {
            let body = vstd::slice::slice_to_vec(&response[i + 4..n]);
            return Ok(body);
        }
        i = i + 1;
    }
    Err("No response body")
}

/// The request the check sends: a plain `GET` with a browser-like
/// identity, asking the server to close the connection after replying.
pub fn build_request(host: &str, path: &str) -> (r: String)
    ensures
        r@ == "GET "@ + path@
            + " HTTP/1.1\r\nHost: "@ + host@
            + "\r\nUser-Agent: Mozilla/5.0 (Windows NT 10.0; Win64; x64) AppleWebKit/537.36 (KHTML, like Gecko) Chrome/115.0.0.0 Safari/537.36\r\nAccept: text/html,application/xhtml+xml,application/xml;q=0.9,*/*;q=0.8\r\nAccept-Language: en-US,en;q=0.9\r\nConnection: close\r\n\r\n"@,
{
    let mut r = "GET ".to_owned();
    r.append(path);
    r.append(" HTTP/1.1\r\nHost: ");
    r.append(host);
    r.append(
        "\r\nUser-Agent: Mozilla/5.0 (Windows NT 10.0; Win64; x64) AppleWebKit/537.36 (KHTML, like Gecko) Chrome/115.0.0.0 Safari/537.36\r\nAccept: text/html,application/xhtml+xml,application/xml;q=0.9,*/*;q=0.8\r\nAccept-Language: en-US,en;q=0.9\r\nConnection: close\r\n\r\n",
    );
    r
}

/// What a status code says about the destination: the wording to show
/// and whether the destination counts as online.
pub fn classify_status(status: u16) -> (r: (&'static str, bool))
    ensures
        200 <= status < 400 ==> r.0@ == "online"@ && r.1 == true,
        400 <= status < 500 ==> r.0@ == "online (client error)"@ && r.1 == true,
        500 <= status < 600 ==> r.0@ == "offline (server error)"@ && r.1 == false,
        status < 200 || status >= 600 ==> r.0@ == "unknown status"@ && r.1 == true,
{
    if 200 <= status && status < 400 {
        ("online", true)
    } else if 400 <= status && status < 500 {
        ("online (client error)", true)
    } else if 500 <= status && status < 600 {
        ("offline (server error)", false)
    } else {
        ("unknown status", true)
    }
}

/// The short wording for a connection error, picked by what the error's
/// own text mentions; anything unrecognised passes through unchanged.
pub open spec fn simplified_error(s: Seq<char>) -> Seq<char> {
    if contains_sub(s, "address information"@) || contains_sub(s, "nodename nor servname"@) {
        "Failed to resolve host"@
    } else if contains_sub(s, "timed out"@) || contains_sub(s, "timeout"@) {
        "Connection timed out"@
    } else if contains_sub(s, "refused"@) {
        "Connection refused"@
    } else {
        s
    }
}

/// Shorten a transport error's text to a familiar phrase.
pub fn simplify_http_error<'a>(e: &'a str) -> (r: &'a str)
    ensures
        r@ == simplified_error(e@),
{
    let n = e.unicode_len();
    if find_sub(e, "address information", 0) < n || find_sub(e, "nodename nor servname", 0) < n {
        "Failed to resolve host"
    } else if find_sub(e, "timed out", 0) < n || find_sub(e, "timeout", 0) < n {
        "Connection timed out"
    } else if find_sub(e, "refused", 0) < n {
        "Connection refused"
    } else {
        e
    }
}

/// The organisation text inside an address-metadata reply: what stands
/// between the quotes after the first `"org"` key, trimmed — or
/// `Unknown ASN` where the reply holds no such shape.
pub open spec fn asn_of(s: Seq<char>) -> Seq<char> {
    let org = find_sub_spec_org(s);
    if org == s.len() {
        "Unknown ASN"@
    } else {
        let c = find_from(s, ':', org);
        let start1 = if c < s.len() {
            c + 1
        } else {
            0
        };
        let q = find_from(s, '"', start1);
        let start2 = if q < s.len() {
            q + 1
        } else {
            0
        };
        let e = find_from(s, '"', start2);
        if e < s.len() {
            trim_spec(s.subrange(start2, e))
        } else {
            "Unknown ASN"@
        }
    }
}

/// Where the `"org"` key first stands in metadata text.
pub open spec fn find_sub_spec_org(s: Seq<char>) -> int {
    crate::text::find_sub_from(s, "\"org\""@, 0)
}

/// Pull the organisation name out of an address-metadata reply.
pub fn extract_asn_from_response(response_text: &str) -> (r: String)
    ensures
        r@ =~= asn_of(response_text@),
{
    let n = response_text.unicode_len();
    let org = find_sub(response_text, "\"org\"", 0);
    if org == n {
        return "Unknown ASN".to_owned();
    }
    let c = find_char_from(response_text, ':', org);
    let start1: usize = if c < n {
        c + 1
    } else {
        0
    };
    let q = find_char_from(response_text, '"', start1);
    let start2: usize = if q < n {
        q + 1
    } else {
        0
    };
    let e = find_char_from(response_text, '"', start2);
    if e < n {
        let raw = response_text.substring_char(start2, e);
        trim_ascii(raw).to_owned()
    } else {
        "Unknown ASN".to_owned()
    }
}

} // verus!
