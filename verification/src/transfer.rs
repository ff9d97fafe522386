//! Decisions taken while transferring files: what an HTTP status means,
//! which token and headers a request carries, how a Content-Length header
//! is read, how large a download is, how a large file is split into ranges
//! and resumed, how a repository download is invoked, when a failed
//! download is retried, and what a size probe found.

use vstd::prelude::*;
use vstd::arithmetic::div_mod::{lemma_fundamental_div_mod, lemma_mod_pos_bound};
use crate::text::{contains_text, decimal, has_substring, push_decimal, push_str};

verus! {

/// Whether an HTTP status carries the body of a download (200 or 206).
pub open spec fn is_transfer_status(sc: u16) -> bool {
    sc == 200 || sc == 206
}

/// Whether a status is one of the two that carry a body.
pub fn is_success_status(sc: u16) -> (r: bool)
    ensures
        r == is_transfer_status(sc),
{
    sc == 200 || sc == 206
}

/// The message reported for a refused download by the download engine.
pub open spec fn engine_status_text(sc: u16) -> Seq<char> {
    if sc == 401 {
        "Unauthorized (check HF_TOKEN)"@
    } else if sc == 403 {
        "Forbidden"@
    } else if sc == 404 {
        "Not Found \u{2014} model URL may be invalid or expired"@
    } else {
        "HTTP "@ + decimal(sc as nat)
    }
}

/// The short message reported for a refused download by the plain HTTP
/// downloads.
pub open spec fn plain_status_text(sc: u16) -> Seq<char> {
    if sc == 401 {
        "Unauthorized"@
    } else if sc == 403 {
        "Forbidden"@
    } else if sc == 404 {
        "Not Found"@
    } else {
        "HTTP "@ + decimal(sc as nat)
    }
}

/// Message of the download engine for an HTTP status that refused a download.
pub fn engine_status_error(sc: u16) -> (r: String)
    ensures
        r@ == engine_status_text(sc),
{
    let mut s = String::new();
    if sc == 401 {
        push_str(&mut s, "Unauthorized (check HF_TOKEN)");
    } else if sc == 403 {
        push_str(&mut s, "Forbidden");
    } else if sc == 404 {
        push_str(&mut s, "Not Found \u{2014} model URL may be invalid or expired");
    } else {
        push_str(&mut s, "HTTP ");
        push_decimal(&mut s, sc as u64);
    }
    s
}

/// Short message for an HTTP status that refused a download.
pub fn plain_status_error(sc: u16) -> (r: String)
    ensures
        r@ == plain_status_text(sc),
{
    let mut s = String::new();
    if sc == 401 {
        push_str(&mut s, "Unauthorized");
    } else if sc == 403 {
        push_str(&mut s, "Forbidden");
    } else if sc == 404 {
        push_str(&mut s, "Not Found");
    } else {
        push_str(&mut s, "HTTP ");
        push_decimal(&mut s, sc as u64);
    }
    s
}

/// The access token a request carries: the one from the environment when
/// set, else the configured one.
pub fn effective_token(from_env: Option<String>, configured: Option<String>) -> (r: Option<String>)
    ensures
        r == (match from_env {
            Some(t) => Some(t),
            None => configured,
        }),
{
    match from_env {
        Some(t) => Some(t),
        None => configured,
    }
}

/// The value of the Authorization header for a token: "Bearer <token>".
pub fn bearer_value(token: &str) -> (r: String)
    ensures
        r@ == "Bearer "@ + token@,
{
    let mut s = String::new();
    push_str(&mut s, "Bearer ");
    push_str(&mut s, token);
    s
}

/// The Range header value asking for everything from byte `from` on.
pub open spec fn open_range_text(from: u64) -> Seq<char> {
    "bytes="@ + decimal(from as nat) + "-"@
}

/// The Range header value asking for bytes `start` to `end`, inclusive.
pub open spec fn closed_range_text(start: u64, end: u64) -> Seq<char> {
    "bytes="@ + decimal(start as nat) + "-"@ + decimal(end as nat)
}

/// The Range header of a download that already has `existing` bytes on
/// disk: none for an empty file, else from byte `existing` on.
pub fn resume_range(existing: u64) -> (r: Option<String>)
    ensures
        existing == 0 ==> r is None,
        existing > 0 ==> (r matches Some(v) && v@ == open_range_text(existing)),
{
    if existing == 0 {
        return None;
    }
    let mut s = String::new();
    push_str(&mut s, "bytes=");
    push_decimal(&mut s, existing);
    push_str(&mut s, "-");
    Some(s)
}

/// The Range header value of one part of a ranged download.
pub fn closed_range(start: u64, end: u64) -> (r: String)
    ensures
        r@ == closed_range_text(start, end),
{
    let mut s = String::new();
    push_str(&mut s, "bytes=");
    push_decimal(&mut s, start);
    push_str(&mut s, "-");
    push_decimal(&mut s, end);
    s
}

/// Whether models of a category are whole repositories fetched with the
/// Hugging Face command-line tool ("diffusers").
pub fn is_diffusers(category: &str) -> (r: bool)
    ensures
        r == (category@ == "diffusers"@),
{
    crate::table::text_eq(category, "diffusers")
}

/// Whether a repository directory is already complete enough to skip: it
/// could be listed and has more than ten entries.
pub fn diffusers_present(entries: Option<usize>) -> (r: bool)
    ensures
        r == (entries matches Some(n) && n > 10),
{
    match entries {
        Some(n) => n > 10,
        None => false,
    }
}

/// The repository the diffusers category fetches.
pub open spec fn diffusers_repo() -> Seq<char> {
    "stabilityai/stable-diffusion-xl-base-1.0"@
}

/// The arguments of the command-line tool that fetches the repository into
/// `dir`, passing the token when there is one.
pub open spec fn diffusers_arg_texts(dir: Seq<char>, token: Option<Seq<char>>) -> Seq<Seq<char>> {
    let base = seq!["download"@, diffusers_repo(), "--local-dir"@, dir];
    match token {
        Some(t) => base + seq!["--token"@, t],
        None => base,
    }
}

fn owned(s: &str) -> (r: String)
    ensures
        r@ == s@,
{
    let mut r = String::new();
    push_str(&mut r, s);
    r
}

/// The arguments of the command-line tool for a repository download
/// (`diffusers_arg_texts`).
pub fn diffusers_args(dir: &str, token: Option<&str>) -> (r: Vec<String>)
    ensures
        r@.map_values(|s: String| s@) == diffusers_arg_texts(
            dir@,
            match token {
                Some(t) => Some(t@),
                None => None,
            },
        ),
{
    let mut r: Vec<String> = Vec::new();
    r.push(owned("download"));
    r.push(owned("stabilityai/stable-diffusion-xl-base-1.0"));
    r.push(owned("--local-dir"));
    r.push(owned(dir));
    match token {
        Some(t) => {
            r.push(owned("--token"));
            r.push(owned(t));
        },
        None => {},
    }
    assert(r@.map_values(|s: String| s@) =~= diffusers_arg_texts(
        dir@,
        match token {
            Some(t) => Some(t@),
            None => None,
        },
    ));
    r
}

/// Whether a character is an ASCII decimal digit.
pub open spec fn is_digit(c: char) -> bool {
    '0' <= c && c <= '9'
}

/// The number written by a sequence of decimal digits.
pub open spec fn digits_value(d: Seq<char>) -> nat
    decreases d.len(),
{
    if d.len() == 0 {
        0
    } else {
        digits_value(d.drop_last()) * 10 + ((d.last() as int - '0' as int) as nat)
    }
}

/// Whether every character is a decimal digit.
pub open spec fn all_digits(d: Seq<char>) -> bool {
    forall|i: int| 0 <= i < d.len() ==> is_digit(#[trigger] d[i])
}

/// The digits part of a number: the text without a leading '+'.
pub open spec fn unsigned_digits(s: Seq<char>) -> Seq<char> {
    if s.len() > 0 && s[0] == '+' {
        s.drop_first()
    } else {
        s
    }
}

/// What `str::parse::<u64>` yields: an optional '+' followed by at least
/// one decimal digit and nothing else, whose value fits in 64 bits.
pub open spec fn parsed_u64(s: Seq<char>) -> Option<u64> {
    let d = unsigned_digits(s);
    if d.len() > 0 && all_digits(d) && digits_value(d) <= u64::MAX {
        Some(digits_value(d) as u64)
    } else {
        None
    }
}

/// Reads an unsigned decimal number as `str::parse::<u64>` does.
pub fn parse_u64(s: &str) -> (r: Option<u64>)
    ensures
        r == parsed_u64(s@),
{
    let v = crate::text::chars_of(s);
    let start: usize = if v.len() > 0 && v[0] == '+' {
        1
    } else {
        0
    };
    let ghost d = unsigned_digits(s@);
    if start >= v.len() {
        return None;
    }
    let mut acc: u64 = 0;
    let mut overflow = false;
    let mut i: usize = start;
    assert(d =~= v@.subrange(start as int, v.len() as int));
    while i < v.len()
        invariant
            v@ == s@,
            start <= i <= v.len(),
            d == v@.subrange(start as int, v.len() as int),
            d == unsigned_digits(s@),
            forall|k: int| start <= k < i ==> is_digit(#[trigger] v@[k]),
            !overflow ==> acc as nat == digits_value(v@.subrange(start as int, i as int)),
            overflow ==> digits_value(v@.subrange(start as int, i as int)) > u64::MAX,
        decreases v.len() - i,
    {
        let c = v[i];
        if !('0' <= c && c <= '9') {
            proof {
                assert(d[i - start] == c);
                assert(!is_digit(d[i - start]));
                assert(!all_digits(d));
            }
            return None;
        }
        let dig: u64 = (c as u32 - '0' as u32) as u64;
        assert(v@.subrange(start as int, i + 1).drop_last() =~= v@.subrange(start as int, i as int));
        if !overflow {
            if acc > (u64::MAX - dig) / 10 {
                overflow = true;
            } else {
                acc = acc * 10 + dig;
            }
        }
        i = i + 1;
    }
    assert(v@.subrange(start as int, v.len() as int) == d);
    if overflow {
        None
    } else {
        Some(acc)
    }
}

/// Total size of a download: on a resumed transfer the bytes already on
/// disk plus those announced; otherwise the announced length, or the
/// catalogue size when none was announced.
pub open spec fn transfer_total(is_resume: bool, existing: u64, announced: u64, fallback: u64) -> int {
    if is_resume {
        existing + announced
    } else if announced > 0 {
        announced as int
    } else {
        fallback as int
    }
}

/// Whether a transfer continues a partial file: bytes are on disk and the
/// server answered with a partial response (206).
pub fn is_resumed(existing: u64, sc: u16) -> (r: bool)
    ensures
        r == (existing > 0 && sc == 206),
{
    existing > 0 && sc == 206
}

/// Total size of a download (`transfer_total`).
pub fn download_total(is_resume: bool, existing: u64, announced: u64, fallback: u64) -> (r: u64)
    requires
        is_resume ==> existing + announced <= u64::MAX,
    ensures
        r == transfer_total(is_resume, existing, announced, fallback),
{
    if is_resume {
        existing + announced
    } else if announced > 0 {
        announced
    } else {
        fallback
    }
}

/// Resume state of a ranged download: the total size it was started for
/// and how many bytes of each range were written.
pub struct ChunkProgress {
    pub total_size: u64,
    pub n_chunks: usize,
    pub chunk_offsets: Vec<u64>,
}

/// Number of ranges a file is fetched in: 1 below 50 MiB, 2 below 200 MiB,
/// 4 below 1 GiB, else 8.
pub open spec fn range_count(total: u64) -> usize {
    if total < 52428800 {
        1
    } else if total < 209715200 {
        2
    } else if total < 1073741824 {
        4
    } else {
        8
    }
}

/// The inclusive byte range of range `i` out of `n` for a file of `total`
/// bytes: equal shares of `total / n` bytes, the last one running to the
/// end of the file.
pub open spec fn range_bounds(total: u64, n: usize, i: int) -> (u64, u64) {
    let size = total / (n as u64);
    let start = (i * size) as u64;
    let end = if i == n - 1 {
        (total - 1) as u64
    } else {
        ((i + 1) * size - 1) as u64
    };
    (start, end)
}

/// Number of ranges for a file of `total` bytes (`range_count`).
pub fn chunk_count(total: u64) -> (n: usize)
    ensures
        n == range_count(total),
{
    if total < 52428800 {
        1
    } else if total < 209715200 {
        2
    } else if total < 1073741824 {
        4
    } else {
        8
    }
}

/// The byte ranges a file of `total` bytes is fetched in.
pub fn plan_chunks(total: u64) -> (r: Vec<(u64, u64)>)
    requires
        total > 0,
    ensures
        r.len() == range_count(total),
        forall|i: int| 0 <= i < r.len() ==> #[trigger] r@[i] == range_bounds(total, range_count(total), i),
{
    let n = chunk_count(total);
    let size = total / (n as u64);
    let mut r: Vec<(u64, u64)> = Vec::new();
    let mut i: usize = 0;
    assert(size * (n as u64) <= total) by (nonlinear_arith)
        requires
            size == total / (n as u64),
            n >= 1,
    ;
    assert(size >= 1) by {
        lemma_fundamental_div_mod(total as int, n as int);
        lemma_mod_pos_bound(total as int, n as int);
        if size == 0 {
            assert(total as int == n as int * 0 + total as int % n as int);
        }
    }
    while i < n
        invariant
            n == range_count(total),
            1 <= n <= 8,
            size == total / (n as u64),
            size * (n as u64) <= total,
            size >= 1,
            total > 0,
            i <= n,
            r.len() == i,
            forall|k: int| 0 <= k < i ==> #[trigger] r@[k] == range_bounds(total, n, k),
        decreases n - i,
    {
        assert((i as u64 + 1) * size <= total) by (nonlinear_arith)
            requires
                i < n,
                size * (n as u64) <= total,
        ;
        assert(i as u64 * size <= (i as u64 + 1) * size) by (nonlinear_arith);
        assert((i as u64 + 1) * size >= 1) by (nonlinear_arith)
            requires
                size >= 1,
        ;
        let start = i as u64 * size;
        let end = if i == n - 1 {
            total - 1
        } else {
            (i as u64 + 1) * size - 1
        };
        r.push((start, end));
        i = i + 1;
    }
    r
}

/// The ranges of a file tile it: the first starts at 0, each next one starts
/// right after the previous one ends, the last ends at the last byte, and
/// none is empty.
pub proof fn lemma_ranges_tile_file(total: u64, i: int)
    requires
        total > 0,
        0 <= i < range_count(total),
    ensures
        range_bounds(total, range_count(total), 0).0 == 0,
        range_bounds(total, range_count(total), i).0 <= range_bounds(total, range_count(total), i).1,
        i + 1 < range_count(total) ==> range_bounds(total, range_count(total), i + 1).0
            == range_bounds(total, range_count(total), i).1 + 1,
        range_bounds(total, range_count(total), range_count(total) - 1).1 == total - 1,
{
    let n = range_count(total);
    let size = total / (n as u64);
    assert(size * (n as u64) <= total) by (nonlinear_arith)
        requires
            size == total / (n as u64),
            n >= 1,
    ;
    assert(size >= 1) by {
        lemma_fundamental_div_mod(total as int, n as int);
        lemma_mod_pos_bound(total as int, n as int);
        if size == 0 {
            assert(total as int == n as int * 0 + total as int % n as int);
        }
    }
    assert((i + 1) * size <= total) by (nonlinear_arith)
        requires
            0 <= i < n,
            size * n <= total,
    ;
    assert(i * size + size == (i + 1) * size) by (nonlinear_arith);
    assert(0 <= i * size) by (nonlinear_arith)
        requires
            0 <= i,
            size >= 1,
    ;
}

/// The offsets to resume from: the saved ones when they were saved for a
/// file of the same size split into the same number of ranges, else zero
/// for every range.
pub open spec fn resume_offsets_of(saved: Option<ChunkProgress>, total: u64, n: usize) -> Seq<u64> {
    match saved {
        Some(p) => if p.total_size == total && p.chunk_offsets@.len() == n {
            p.chunk_offsets@
        } else {
            Seq::new(n as nat, |i: int| 0u64)
        },
        None => Seq::new(n as nat, |i: int| 0u64),
    }
}

/// Offsets to resume the ranges from (`resume_offsets_of`).
pub fn resume_offsets(saved: Option<ChunkProgress>, total: u64, n: usize) -> (r: Vec<u64>)
    ensures
        r@ == resume_offsets_of(saved, total, n),
{
    match saved {
        Some(p) => {
            if p.total_size == total && p.chunk_offsets.len() == n {
                return p.chunk_offsets;
            }
        },
        None => {},
    }
    let mut r: Vec<u64> = Vec::new();
    let mut i: usize = 0;
    while i < n
        invariant
            i <= n,
            r.len() == i,
            forall|k: int| 0 <= k < i ==> r@[k] == 0,
        decreases n - i,
    {
        r.push(0);
        i = i + 1;
    }
    assert(r@ =~= Seq::new(n as nat, |i: int| 0u64));
    r
}

/// Where to continue a range of `start..=end` of which `written` bytes are
/// on disk; `None` when the range is complete.
pub fn range_resume_start(start: u64, end: u64, written: u64) -> (r: Option<u64>)
    requires
        start + written <= u64::MAX,
    ensures
        r == (if start + written > end {
            None
        } else {
            Some((start + written) as u64)
        }),
{
    let pos = start + written;
    if pos > end {
        None
    } else {
        Some(pos)
    }
}

/// Whether a download error will not go away by retrying (an HTTP 401, 403
/// or 404, or a "Not Found" message).
pub open spec fn is_permanent_error(e: Seq<char>) -> bool {
    has_substring(e, "401"@) || has_substring(e, "403"@) || has_substring(e, "404"@)
        || has_substring(e, "Not Found"@)
}

/// Whether a download error is permanent (`is_permanent_error`).
pub fn is_permanent_failure(e: &str) -> (r: bool)
    ensures
        r == is_permanent_error(e@),
{
    contains_text(e, "401") || contains_text(e, "403") || contains_text(e, "404") || contains_text(
        e,
        "Not Found",
    )
}

/// Maximum number of attempts per model.
pub const MAX_ATTEMPTS: u64 = 3;

/// What to do after an attempt to download one model.
pub enum AttemptOutcome {
    /// The model was downloaded.
    Succeeded,
    /// Wait this many seconds, then try again if an attempt remains;
    /// `error` is the failure so far.
    Wait { secs: u64, error: String },
    /// Give up at once; `error` is the failure to report.
    GiveUp { error: String },
}

/// Whether attempt `attempt` (counted from 1) of a model is made: at most
/// `MAX_ATTEMPTS`, and none once cancellation was requested.
pub fn may_attempt(attempt: u64, cancelled: bool) -> (r: bool)
    ensures
        r == (attempt <= MAX_ATTEMPTS && !cancelled),
{
    attempt <= MAX_ATTEMPTS && !cancelled
}

/// Decides what follows attempt `attempt` (counted from 1) whose result was
/// `result`, `cancelled` telling whether cancellation was requested: a
/// success ends the model; a permanent error ends it at once with
/// " (skipped retry)" appended; another error ends it when cancellation was
/// requested, and otherwise is followed by a wait of `2 * attempt` seconds.
pub fn after_attempt(attempt: u64, result: Result<(), String>, cancelled: bool) -> (r:
    AttemptOutcome)
    requires
        1 <= attempt <= MAX_ATTEMPTS,
    ensures
        outcome_end(r) == attempt_end(
            match result {
                Ok(_) => Ok(()),
                Err(e) => Err(e@),
            },
            cancelled,
        ),
        match result {
            Ok(_) => r is Succeeded,
            Err(e) => if is_permanent_error(e@) {
                r matches AttemptOutcome::GiveUp { error } && error@ == e@ + " (skipped retry)"@
            } else if cancelled {
                r matches AttemptOutcome::GiveUp { error } && error@ == e@
            } else {
                r matches AttemptOutcome::Wait { secs, error } && secs == 2 * attempt && error@ == e@
            },
        },
{
    match result {
        Ok(_) => AttemptOutcome::Succeeded,
        Err(e) => {
            if is_permanent_failure(e.as_str()) {
                let mut msg = e;
                push_str(&mut msg, " (skipped retry)");
                AttemptOutcome::GiveUp { error: msg }
            } else if cancelled {
                AttemptOutcome::GiveUp { error: e }
            } else {
                AttemptOutcome::Wait { secs: 2 * attempt, error: e }
            }
        },
    }
}

/// How an attempt's result ends the model: `Some(true)` downloaded,
/// `Some(false)` failed for good (a permanent error, or cancellation was
/// requested), `None` another attempt follows after a wait if one remains.
pub open spec fn attempt_end(result: Result<(), Seq<char>>, cancelled: bool) -> Option<bool> {
    match result {
        Ok(_) => Some(true),
        Err(e) => if is_permanent_error(e) || cancelled {
            Some(false)
        } else {
            None
        },
    }
}

/// The text "HTTP " followed by the three digits of a status from 500 to
/// 599 holds none of "401", "403", "404" and "Not Found".
proof fn lemma_server_status_text_not_permanent(sc: u16)
    requires
        500 <= sc <= 599,
    ensures
        !is_permanent_error("HTTP "@ + decimal(sc as nat)),
{
    reveal_with_fuel(decimal, 3);
    reveal_strlit("HTTP ");
    reveal_strlit("401");
    reveal_strlit("403");
    reveal_strlit("404");
    reveal_strlit("Not Found");
    let n = sc as nat;
    assert(n / 10 / 10 == 5 && n / 10 >= 10 && n / 10 / 10 < 10);
    let d = decimal(n);
    assert(d == decimal(n / 10).push(crate::text::digit_char((n % 10) as int)));
    assert(decimal(n / 10) == decimal(n / 10 / 10).push(crate::text::digit_char((n / 10 % 10) as int)));
    assert(decimal(n / 10 / 10) == seq!['5']);
    assert(d.len() == 3 && d[0] == '5');
    let t = "HTTP "@ + d;
    assert(t.len() == 8);
    assert(forall|i: int| 0 <= i <= 5 ==> #[trigger] t[i] != '4') by {
        assert(t[0] == 'H' && t[1] == 'T' && t[2] == 'T' && t[3] == 'P' && t[4] == ' ' && t[5] == '5');
    }
    let four: Seq<Seq<char>> = seq!["401"@, "403"@, "404"@];
    assert forall|j: int| 0 <= j < 3 implies !has_substring(t, #[trigger] four[j]) by {
        let needle = four[j];
        assert(needle.len() == 3 && needle[0] == '4');
        if has_substring(t, needle) {
            let i = choose|i: int|
                0 <= i && i + needle.len() <= t.len() && #[trigger] t.subrange(i, i + needle.len())
                    == needle;
            assert(t.subrange(i, i + 3)[0] == t[i]);
        }
    }
    assert(!has_substring(t, "401"@) && !has_substring(t, "403"@) && !has_substring(t, "404"@)) by {
        assert(four[0] == "401"@ && four[1] == "403"@ && four[2] == "404"@);
    }
    assert("Not Found"@.len() == 9);
}

/// A server error is retried: a download refused with a status from 500 to
/// 599 reports "HTTP " and the status, by the download engine as by the
/// plain HTTP downloads, and that error is not a permanent one, so unless
/// cancellation was requested the model is not given up but waits and tries
/// again.
pub proof fn lemma_server_errors_are_retried(sc: u16)
    requires
        500 <= sc <= 599,
    ensures
        !is_permanent_error(engine_status_text(sc)),
        !is_permanent_error(plain_status_text(sc)),
        attempt_end(Err(engine_status_text(sc)), false) is None,
        attempt_end(Err(plain_status_text(sc)), false) is None,
{
    lemma_server_status_text_not_permanent(sc);
}

/// A missing model is not retried: the error for a 404 answer, from the
/// download engine or the plain HTTP downloads, says "Not Found", so the
/// model is given up after that attempt whether or not cancellation was
/// requested.
pub proof fn lemma_not_found_is_given_up(cancelled: bool)
    ensures
        is_permanent_error(engine_status_text(404)),
        is_permanent_error(plain_status_text(404)),
        attempt_end(Err(engine_status_text(404)), cancelled) == Some(false),
        attempt_end(Err(plain_status_text(404)), cancelled) == Some(false),
{
    reveal_strlit("Not Found");
    reveal_strlit("Not Found \u{2014} model URL may be invalid or expired");
    let e = engine_status_text(404);
    let p = plain_status_text(404);
    let nf = "Not Found"@;
    assert(e.subrange(0, 0int + nf.len()) == nf);
    assert(p.subrange(0, 0int + nf.len()) == nf);
    assert(has_substring(e, nf) && has_substring(p, nf));
}

/// How an outcome of `after_attempt` ends the model, in the terms of
/// `attempt_end`.
pub open spec fn outcome_end(r: AttemptOutcome) -> Option<bool> {
    match r {
        AttemptOutcome::Succeeded => Some(true),
        AttemptOutcome::GiveUp { .. } => Some(false),
        AttemptOutcome::Wait { .. } => None,
    }
}

/// The download calls one model gets, counted from attempt `attempt`, when
/// they return `results` in turn and nobody cancels: a call is made while
/// `may_attempt` allows it and its result is judged as `after_attempt`
/// judges it. The answer is the number of calls made and whether the model
/// ends downloaded.
pub open spec fn model_run(results: Seq<Result<(), Seq<char>>>, attempt: int) -> (nat, bool)
    decreases results.len(),
{
    if !(attempt <= MAX_ATTEMPTS) || results.len() == 0 {
        (0, false)
    } else {
        match attempt_end(results[0], false) {
            Some(ok) => (1, ok),
            None => {
                let rest = model_run(results.drop_first(), attempt + 1);
                ((rest.0 + 1) as nat, rest.1)
            },
        }
    }
}

proof fn lemma_model_run_from(results: Seq<Result<(), Seq<char>>>, attempt: int)
    requires
        1 <= attempt <= MAX_ATTEMPTS,
        results.len() >= MAX_ATTEMPTS + 1 - attempt,
    ensures
        1 <= model_run(results, attempt).0 <= MAX_ATTEMPTS + 1 - attempt,
        model_run(results, attempt).1 <==> exists|i: int|
            0 <= i < model_run(results, attempt).0 && #[trigger] results[i] is Ok,
        forall|i: int|
            0 <= i < model_run(results, attempt).0 - 1 ==> (#[trigger] results[i] matches Err(e)
                && !is_permanent_error(e)),
    decreases results.len(),
{
    let run = model_run(results, attempt);
    match attempt_end(results[0], false) {
        Some(ok) => {
            if ok {
                assert(results[0] is Ok);
            } else {
                assert forall|i: int| 0 <= i < run.0 implies !(#[trigger] results[i] is Ok) by {
                    assert(i == 0);
                }
            }
        },
        None => {
            let tail = results.drop_first();
            if attempt == MAX_ATTEMPTS {
                assert(run == (1nat, false));
                assert forall|i: int| 0 <= i < run.0 implies !(#[trigger] results[i] is Ok) by {
                    assert(i == 0);
                }
            } else {
                lemma_model_run_from(tail, attempt + 1);
                let rest = model_run(tail, attempt + 1);
                assert(run == ((rest.0 + 1) as nat, rest.1));
                if rest.1 {
                    let j = choose|j: int| 0 <= j < rest.0 && #[trigger] tail[j] is Ok;
                    assert(results[j + 1] is Ok);
                }
                assert forall|i: int| 0 <= i < run.0 && #[trigger] results[i] is Ok implies rest.1 by {
                    assert(i != 0);
                    assert(tail[i - 1] is Ok);
                }
                assert forall|i: int| 0 <= i < run.0 - 1 implies (#[trigger] results[i] matches Err(e)
                    && !is_permanent_error(e)) by {
                    if i > 0 {
                        assert(tail[i - 1] == results[i]);
                    }
                }
            }
        },
    }
}

/// The retry policy over one model's whole run, nobody cancelling: between
/// one and `MAX_ATTEMPTS` download calls are made; the model ends
/// downloaded exactly when one of them succeeded; every call before the
/// last failed with an error that is not permanent; and a permanent error
/// on the first call ends the model after that single call.
pub proof fn lemma_model_run(results: Seq<Result<(), Seq<char>>>)
    requires
        results.len() >= MAX_ATTEMPTS,
    ensures
        1 <= model_run(results, 1).0 <= MAX_ATTEMPTS,
        model_run(results, 1).1 <==> exists|i: int| 0 <= i < model_run(results, 1).0 && #[trigger] results[i] is Ok,
        forall|i: int|
            0 <= i < model_run(results, 1).0 - 1 ==> (#[trigger] results[i] matches Err(e)
                && !is_permanent_error(e)),
        (results[0] matches Err(e) && is_permanent_error(e)) ==> model_run(results, 1) == (1nat, false),
{
    lemma_model_run_from(results, 1);
}

/// The results of download calls as plain values.
pub open spec fn result_views(v: Seq<Result<(), String>>) -> Seq<Result<(), Seq<char>>> {
    v.map_values(
        |r: Result<(), String>|
            match r {
                Ok(_) => Ok(()),
                Err(e) => Err(e@),
            },
    )
}

proof fn lemma_model_run_ends(rv: Seq<Result<(), Seq<char>>>, attempt: int)
    requires
        1 <= attempt,
        rv.len() > 0,
        attempt + rv.len() - 1 <= MAX_ATTEMPTS,
        forall|i: int| 0 <= i < rv.len() - 1 ==> attempt_end(#[trigger] rv[i], false) is None,
    ensures
        attempt_end(rv.last(), false) matches Some(ok) ==> model_run(rv, attempt) == (rv.len() as nat, ok),
        attempt_end(rv.last(), false) is None && attempt + rv.len() - 1 == MAX_ATTEMPTS ==> model_run(
            rv,
            attempt,
        ) == (rv.len() as nat, false),
    decreases rv.len(),
{
    if rv.len() > 1 {
        let t = rv.drop_first();
        assert(attempt_end(rv[0], false) is None);
        assert forall|i: int| 0 <= i < t.len() - 1 implies attempt_end(#[trigger] t[i], false) is None by {
            assert(t[i] == rv[i + 1]);
        }
        lemma_model_run_ends(t, attempt + 1);
        assert(t.last() == rv.last());
    } else {
        assert(rv.last() == rv[0]);
        if attempt_end(rv[0], false) is None && attempt == MAX_ATTEMPTS {
            assert(rv.drop_first().len() == 0);
            assert(model_run(rv.drop_first(), attempt + 1) == (0nat, false));
        }
    }
}

/// What became of one model of the download queue.
pub struct ModelRun {
    /// Whether the model was downloaded.
    pub success: bool,
    /// The last failure seen, as reported with the model's end.
    pub error: Option<String>,
    /// The result of each download call, in order.
    pub results: Vec<Result<(), String>>,
    /// Whether the run ended because cancellation was requested.
    pub cancelled: bool,
}

/// What `run_model` guarantees of a model's run.
pub open spec fn run_post(r: ModelRun) -> bool {
    &&& r.results@.len() <= MAX_ATTEMPTS
    &&& !r.cancelled ==> r.results@.len() >= 1 && model_run(result_views(r.results@), 1) == (
        r.results@.len() as nat,
        r.success,
    )
    &&& r.success <==> (r.results@.len() > 0 && r.results@.last() is Ok)
    &&& forall|i: int|
        0 <= i < r.results@.len() - 1 ==> (#[trigger] r.results@[i] matches Err(e)
            && !is_permanent_error(e@))
    &&& r.results@.len() == 0 ==> r.error is None
    &&& r.results@.len() > 0 ==> match r.results@.last() {
        Ok(_) => if r.results@.len() == 1 {
            r.error is None
        } else {
            r.error matches Some(m) && r.results@[r.results@.len() - 2] matches Err(e) && m@ == e@
        },
        Err(e) => r.error matches Some(m) && m@ == (if is_permanent_error(e@) {
            e@ + " (skipped retry)"@
        } else {
            e@
        }),
    }
}

/// Runs the download attempts of one model: before each attempt it asks
/// `cancelled` and stops if so; it calls `download` with the attempt number
/// (counted from 1); after a failure that is not permanent it asks
/// `cancelled` again, and otherwise calls `wait` with the seconds to wait
/// before the next attempt. At most `MAX_ATTEMPTS` calls are made
/// (`may_attempt`, `after_attempt`).
pub fn run_model<D, C, W>(download: &D, cancelled: &C, wait: &W) -> (r: ModelRun) where
    D: Fn(u64) -> Result<(), String>,
    C: Fn() -> bool,
    W: Fn(u64),

    requires
        forall|a: u64| download.requires((a,)),
        cancelled.requires(()),
        forall|secs: u64| wait.requires((secs,)),
    ensures
        run_post(r),
        forall|k: int|
            0 <= k < r.results@.len() ==> download.ensures(((k + 1) as u64,), #[trigger] r.results@[k]),
        r.cancelled ==> cancelled.ensures((), true),
{
    let mut results: Vec<Result<(), String>> = Vec::new();
    let mut success = false;
    let mut error: Option<String> = None;
    let mut stopped = false;
    let mut done = false;
    let mut attempt: u64 = 1;
    while attempt <= MAX_ATTEMPTS && !done
        invariant
            forall|a: u64| download.requires((a,)),
            cancelled.requires(()),
            forall|secs: u64| wait.requires((secs,)),
            1 <= attempt <= MAX_ATTEMPTS + 1,
            results@.len() <= attempt - 1,
            forall|k: int|
                0 <= k < results@.len() ==> download.ensures(((k + 1) as u64,), #[trigger] results@[k]),
            stopped ==> cancelled.ensures((), true),
            !done ==> results@.len() == attempt - 1,
            done ==> results@.len() > 0 || stopped,
            forall|i: int|
                0 <= i < results@.len() - 1 ==> (#[trigger] results@[i] matches Err(e)
                    && !is_permanent_error(e@)),
            !done ==> forall|i: int|
                0 <= i < results@.len() ==> (#[trigger] results@[i] matches Err(e)
                    && !is_permanent_error(e@)),
            done && !stopped ==> results@.len() > 0 && attempt_end(
                result_views(results@).last(),
                false,
            ) == Some(success),
            !done ==> !success,
            success <==> (results@.len() > 0 && results@.last() is Ok),
            results@.len() == 0 ==> error is None,
            results@.len() > 0 ==> match results@.last() {
                Ok(_) => if results@.len() == 1 {
                    error is None
                } else {
                    error matches Some(m) && results@[results@.len() - 2] matches Err(e) && m@ == e@
                },
                Err(e) => error matches Some(m) && m@ == (if is_permanent_error(e@) && done {
                    e@ + " (skipped retry)"@
                } else {
                    e@
                }),
            },
        decreases 2 * (MAX_ATTEMPTS + 1 - attempt) + (if done {
            0int
        } else {
            1int
        }),
    {
        let asked = cancelled();
        if !may_attempt(attempt, asked) {
            stopped = true;
            done = true;
        } else {
            let res = download(attempt);
            let copy: Result<(), String> = match &res {
                Ok(u) => Ok(*u),
                Err(e) => {
                    let e2 = e.clone();
                    assert(e2 == *e);
                    Err(e2)
                },
            };
            let c = match &res {
                Ok(_) => false,
                Err(_) => cancelled(),
            };
            assert(copy == res);
            assert(download.ensures((attempt,), copy));
            let ghost before = results@;
            results.push(copy);
            assert forall|k: int| 0 <= k < results@.len() implies download.ensures(
                ((k + 1) as u64,),
                #[trigger] results@[k],
            ) by {
                if k < before.len() {
                    assert(results@[k] == before[k]);
                } else {
                    assert(k == attempt - 1);
                }
            }
            match after_attempt(attempt, res, c) {
                AttemptOutcome::Succeeded => {
                    success = true;
                    done = true;
                },
                AttemptOutcome::GiveUp { error: e } => {
                    error = Some(e);
                    stopped = c;
                    done = true;
                },
                AttemptOutcome::Wait { secs, error: e } => {
                    error = Some(e);
                    wait(secs);
                },
            }
            attempt = attempt + 1;
        }
    }
    proof {
        let rv = result_views(results@);
        if !stopped {
            assert forall|i: int| 0 <= i < rv.len() - 1 implies attempt_end(#[trigger] rv[i], false) is None by {
                assert(results@[i] matches Err(e) && !is_permanent_error(e@));
            }
            if results@.len() > 0 {
                lemma_model_run_ends(rv, 1);
            }
        }
    }
    ModelRun { success, error, results, cancelled: stopped }
}

/// What a HEAD request for a model URL came back with.
pub enum HeadOutcome {
    /// A response with this status and announced length (0 when the header
    /// was missing or unreadable).
    Response { status: u16, content_length: u64 },
    /// The request was answered with this error status.
    StatusError { status: u16 },
    /// The request failed without a status.
    Failed,
}

/// What a size probe established about a model URL.
pub enum SizeCheck {
    /// The URL serves a file of this many bytes.
    Valid { size: u64 },
    /// The URL serves a file of unannounced size.
    Unknown,
    /// The URL does not serve the file.
    Invalid,
}

/// Classifies a size probe: a 200 or 206 response with a positive length is
/// valid, one without a length is of unknown size, anything else invalid.
pub fn classify_head(outcome: &HeadOutcome) -> (r: SizeCheck)
    ensures
        match *outcome {
            HeadOutcome::Response { status, content_length } => if is_transfer_status(status) {
                if content_length > 0 {
                    r == SizeCheck::Valid { size: content_length }
                } else {
                    r is Unknown
                }
            } else {
                r is Invalid
            },
            _ => r is Invalid,
        },
{
    match outcome {
        HeadOutcome::Response { status, content_length } => {
            if is_success_status(*status) {
                if *content_length > 0 {
                    SizeCheck::Valid { size: *content_length }
                } else {
                    SizeCheck::Unknown
                }
            } else {
                SizeCheck::Invalid
            }
        },
        _ => SizeCheck::Invalid,
    }
}

/// The size update a metadata refresh reports for a model: the announced
/// length of a 200 or 206 response when positive, 0 for a 404, nothing
/// otherwise.
pub fn refresh_size_update(outcome: &HeadOutcome) -> (r: Option<u64>)
    ensures
        r == (match *outcome {
            HeadOutcome::Response { status, content_length } => if is_transfer_status(status)
                && content_length > 0 {
                Some(content_length)
            } else {
                None
            },
            HeadOutcome::StatusError { status } => if status == 404 {
                Some(0u64)
            } else {
                None
            },
            HeadOutcome::Failed => None,
        }),
{
    match outcome {
        HeadOutcome::Response { status, content_length } => {
            if is_success_status(*status) && *content_length > 0 {
                Some(*content_length)
            } else {
                None
            }
        },
        HeadOutcome::StatusError { status } => {
            if *status == 404 {
                Some(0)
            } else {
                None
            }
        },
        HeadOutcome::Failed => None,
    }
}

/// Counts of a size refresh: valid links, invalid links, links of unknown
/// size.
pub struct RefreshTally {
    pub valid: usize,
    pub invalid: usize,
    pub unknown: usize,
}

impl RefreshTally {
    /// No link counted yet.
    pub fn new() -> (t: Self)
        ensures
            t.valid == 0 && t.invalid == 0 && t.unknown == 0,
    {
        RefreshTally { valid: 0, invalid: 0, unknown: 0 }
    }

    /// Counts one probe result.
    pub fn record(&mut self, check: &SizeCheck)
        requires
            old(self).valid < usize::MAX,
            old(self).invalid < usize::MAX,
            old(self).unknown < usize::MAX,
        ensures
            final(self).valid == old(self).valid + (if check is Valid { 1usize } else { 0 }),
            final(self).invalid == old(self).invalid + (if check is Invalid { 1usize } else { 0 }),
            final(self).unknown == old(self).unknown + (if check is Unknown { 1usize } else { 0 }),
    {
        match check {
            SizeCheck::Valid { .. } => self.valid = self.valid + 1,
            SizeCheck::Unknown => self.unknown = self.unknown + 1,
            SizeCheck::Invalid => self.invalid = self.invalid + 1,
        }
    }
}

} // verus!
