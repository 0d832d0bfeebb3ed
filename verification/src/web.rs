//! The dashboard: which page a request asks for, the HTTP response that
//! carries a page, and the state it shows.

use vstd::prelude::*;
use vstd::utf8::encode_utf8;

use crate::config::{
    cloudflare_name, duration_spec, record_type_name, unit_seconds_spec, Config, DurationError,
    RecordConfig,
};
use crate::history::{entries_of, History, HistoryEntry};
use crate::ip::IpAddress;
use crate::text::{
    chars_of, decimal, decode_utf8_lossy, is_digit, is_white_space, law_parse_u64_of_decimal,
    lemma_decimal_digits, lemma_trim_of_clean_ends, push_char, push_decimal, same_text,
    string_of_range, trim, utf8_lossy, white_space, parse_u64_spec,
};

verus! {

broadcast use vstd::string::group_string_axioms;

// ---------------------------------------------------------------------------
// Requests

/// Index of the first line break at or after `i` (or the length).
pub open spec fn line_end(s: Seq<char>, i: int) -> int
    decreases s.len() - i,
{
    if i >= s.len() || s[i] == '\n' {
        i
    } else {
        line_end(s, i + 1)
    }
}

/// The first line of a request.
pub open spec fn first_line(s: Seq<char>) -> Seq<char> {
    s.take(line_end(s, 0))
}

/// The words of `s` between runs of white space (`str::split_whitespace`).
pub open spec fn words(s: Seq<char>) -> Seq<Seq<char>>
    decreases s.len(),
{
    if s.len() == 0 {
        Seq::empty()
    } else {
        let prev = words(s.drop_last());
        let c = s.last();
        if is_white_space(c) {
            prev
        } else if s.len() >= 2 && !is_white_space(s[s.len() - 2]) {
            prev.update(prev.len() - 1, prev.last().push(c))
        } else {
            prev.push(seq![c])
        }
    }
}

proof fn lemma_words_nonempty(s: Seq<char>)
    requires
        s.len() > 0,
        !is_white_space(s.last()),
    ensures
        words(s).len() > 0,
    decreases s.len(),
{
    if s.len() >= 2 && !is_white_space(s[s.len() - 2]) {
        let p = s.drop_last();
        assert(p.last() == s[s.len() - 2]);
        lemma_words_nonempty(p);
    }
}

/// The path a request asks for: the second word of its first line, or `/`.
pub open spec fn request_path_spec(request: Seq<char>) -> Seq<char> {
    let w = words(first_line(request));
    if w.len() >= 2 {
        w[1]
    } else {
        "/"@
    }
}

/// The path that an HTTP request asks for.
pub fn request_path(request: &str) -> (path: String)
    ensures
        path@ == request_path_spec(request@),
{
    let chars = chars_of(request);
    let mut end: usize = 0;
    while end < chars.len() && chars[end] != '\n'
        invariant
            end <= chars@.len(),
            line_end(chars@, 0) == line_end(chars@, end as int),
        decreases chars@.len() - end,
    {
        end = end + 1;
    }
    let ghost line = chars@.take(end as int);
    assert(line == first_line(request@));
    let mut count: usize = 0;
    let mut s2: usize = 0;
    let mut e2: usize = 0;
    let mut i: usize = 0;
    assert(line.take(0) =~= Seq::<char>::empty());
    while i < end
        invariant
            end <= chars@.len(),
            line == chars@.take(end as int),
            i <= end,
            count <= i,
            words(line.take(i as int)).len() == count,
            s2 <= e2 <= i,
            count >= 2 ==> words(line.take(i as int))[1] == chars@.subrange(s2 as int, e2 as int),
            i > 0 && !is_white_space(chars@[i - 1]) ==> count >= 1,
            count == 2 && i > 0 && !is_white_space(chars@[i - 1]) ==> e2 == i,
        decreases end - i,
    {
        let c = chars[i];
        let ghost prev = words(line.take(i as int));
        let ghost cur = line.take(i + 1);
        assert(cur.drop_last() =~= line.take(i as int));
        assert(cur.last() == c);
        if i >= 1 {
            assert(cur[i - 1] == chars@[i - 1]);
        }
        if white_space(c) {
        } else if i >= 1 && !white_space(chars[i - 1]) {
            proof {
                lemma_words_nonempty(line.take(i as int));
                assert(line.take(i as int).last() == chars@[i - 1]);
            }
            if count == 2 {
                assert(chars@.subrange(s2 as int, i as int).push(c) =~= chars@.subrange(
                    s2 as int,
                    i + 1,
                ));
                e2 = i + 1;
            }
        } else {
            count = count + 1;
            if count == 2 {
                s2 = i;
                e2 = i + 1;
                assert(seq![c] =~= chars@.subrange(i as int, i + 1));
            }
        }
        i = i + 1;
    }
    assert(line.take(end as int) =~= line);
    if count >= 2 {
        string_of_range(&chars, s2, e2)
    } else {
        String::from_str("/")
    }
}

/// The pages of the dashboard.
#[derive(Debug, Clone, Copy, PartialEq, Eq, Structural)]
pub enum Route {
    /// `/`: the HTML page.
    Dashboard,
    /// `/api/state`: the state as JSON.
    State,
    /// Anything else.
    NotFound,
}

pub open spec fn route_of(path: Seq<char>) -> Route {
    if path == "/"@ {
        Route::Dashboard
    } else if path == "/api/state"@ {
        Route::State
    } else {
        Route::NotFound
    }
}

/// The page that the bytes of a request ask for.
pub fn route_request(raw: &[u8]) -> (route: Route)
    ensures
        route == route_of(request_path_spec(utf8_lossy(raw@))),
        vstd::utf8::valid_utf8(raw@) ==> route == route_of(
            request_path_spec(vstd::utf8::decode_utf8(raw@)),
        ),
{
    let request = decode_utf8_lossy(raw);
    let path = request_path(request.as_str());
    if same_text(path.as_str(), "/") {
        Route::Dashboard
    } else if same_text(path.as_str(), "/api/state") {
        Route::State
    } else {
        Route::NotFound
    }
}

// ---------------------------------------------------------------------------
// Responses

/// An HTTP response with its headers.
pub open spec fn http_response_spec(status: Seq<char>, content_type: Seq<char>, body: Seq<char>) -> Seq<
    char,
> {
    "HTTP/1.1 "@ + status + "\r\nContent-Type: "@ + content_type + "\r\nContent-Length: "@
        + decimal(encode_utf8(body).len()) + "\r\nCache-Control: no-store\r\nConnection: close\r\n\r\n"@
        + body
}

/// An HTTP/1.1 response carrying `body`; the length is counted in bytes.
pub fn http_response(status: &str, content_type: &str, body: &str) -> (response: String)
    requires
        encode_utf8(body@).len() <= usize::MAX,
    ensures
        response@ == http_response_spec(status@, content_type@, body@),
{
    let mut response = String::from_str("HTTP/1.1 ");
    response.append(status);
    response.append("\r\nContent-Type: ");
    response.append(content_type);
    response.append("\r\nContent-Length: ");
    let n = body.len();
    push_decimal(&mut response, n as u64);
    response.append("\r\nCache-Control: no-store\r\nConnection: close\r\n\r\n");
    response.append(body);
    response
}

// ---------------------------------------------------------------------------
// Durations for display

/// Words joined by single spaces.
pub open spec fn join_words(parts: Seq<Seq<char>>) -> Seq<char>
    decreases parts.len(),
{
    if parts.len() == 0 {
        Seq::empty()
    } else if parts.len() == 1 {
        parts[0]
    } else {
        join_words(parts.drop_last()) + seq![' '] + parts.last()
    }
}

/// The parts of a displayed duration: days, hours, minutes and seconds, each
/// only when not zero, seconds also when nothing else is shown.
pub open spec fn duration_parts(seconds: nat) -> Seq<Seq<char>> {
    let d = seconds / 86400;
    let h = (seconds % 86400) / 3600;
    let m = (seconds % 3600) / 60;
    let s = seconds % 60;
    let p1: Seq<Seq<char>> = if d > 0 {
        seq![decimal(d).push('d')]
    } else {
        Seq::empty()
    };
    let p2 = if h > 0 {
        p1.push(decimal(h).push('h'))
    } else {
        p1
    };
    let p3 = if m > 0 {
        p2.push(decimal(m).push('m'))
    } else {
        p2
    };
    if s > 0 || p3.len() == 0 {
        p3.push(decimal(s).push('s'))
    } else {
        p3
    }
}

/// A duration as the dashboard shows it, such as `1d 2h 3m 4s`.
pub open spec fn duration_text(seconds: nat) -> Seq<char> {
    join_words(duration_parts(seconds))
}

fn push_part(
    out: &mut String,
    parts: Ghost<Seq<Seq<char>>>,
    first: bool,
    value: u64,
    unit: char,
) -> (next: Ghost<Seq<Seq<char>>>)
    requires
        old(out)@ == join_words(parts@),
        first == (parts@.len() == 0),
    ensures
        next@ == parts@.push(decimal(value as nat).push(unit)),
        final(out)@ == join_words(next@),
{
    let ghost before = out@;
    if !first {
        push_char(out, ' ');
    }
    push_decimal(out, value);
    push_char(out, unit);
    let ghost next = parts@.push(decimal(value as nat).push(unit));
    assert(next.drop_last() =~= parts@);
    assert(out@ =~= join_words(next));
    Ghost(next)
}

/// Formats a number of seconds for display: `1h 30m`, `45s`, `0s`.
pub fn format_duration(seconds: u64) -> (text: String)
    ensures
        text@ == duration_text(seconds as nat),
{
    if seconds == 0 {
        let text = String::from_str("0s");
        proof {
            reveal_strlit("0s");
            assert(decimal(0).push('s') =~= seq!['0', 's']);
        }
        return text;
    }
    let days = seconds / 86400;
    let hours = (seconds % 86400) / 3600;
    let minutes = (seconds % 3600) / 60;
    let secs = seconds % 60;
    let mut out = String::new();
    let mut parts: Ghost<Seq<Seq<char>>> = Ghost(Seq::empty());
    let mut first = true;
    if days > 0 {
        parts = push_part(&mut out, parts, first, days, 'd');
        first = false;
    }
    if hours > 0 {
        parts = push_part(&mut out, parts, first, hours, 'h');
        first = false;
    }
    if minutes > 0 {
        parts = push_part(&mut out, parts, first, minutes, 'm');
        first = false;
    }
    if secs > 0 || first {
        parts = push_part(&mut out, parts, first, secs, 's');
    }
    assert(parts@ =~= duration_parts(seconds as nat));
    out
}

/// Law: a duration written as one amount and one unit, the amount below what
/// makes up the next larger unit, is read and then shown as it was written
/// (`45s`, `5m`, `1h`, `3d` are shown so; `90m` is shown as `1h 30m`).
#[verifier::spinoff_prover]
pub proof fn law_duration_shown_as_written(amount: u64, unit: char)
    requires
        amount > 0,
        (unit == 's' && amount < 60) || (unit == 'm' && amount < 60) || (unit == 'h' && amount < 24)
            || (unit == 'd' && amount * 86400 <= u64::MAX),
    ensures
        (duration_spec(decimal(amount as nat).push(unit)) matches Ok(secs) && duration_text(
            secs as nat,
        ) == decimal(amount as nat).push(unit)),
{
    let dec = decimal(amount as nat);
    let text = dec.push(unit);
    lemma_decimal_digits(amount as nat);
    assert(is_digit(dec[0]));
    assert(text[0] == dec[0]);
    lemma_trim_of_clean_ends(text);
    assert(text.drop_last() =~= dec);
    law_parse_u64_of_decimal(amount);
    assert(trim(text) == text);
    assert(parse_u64_spec(trim(text).drop_last()) == Some(amount));
    assert(text.last() == unit);
    assert(text.len() >= 2);
    let a = amount as nat;
    let part = seq![text];
    assert(join_words(part) == text);
    if unit == 's' {
        assert(unit_seconds_spec(unit) == Some(1u64));
        assert(amount * 1 == amount);
        assert(duration_spec(text) == Ok::<u64, DurationError>(amount));
        assert(duration_parts(a) =~= part);
    } else if unit == 'm' {
        let secs = a * 60;
        assert(secs / 86400 == 0 && (secs % 86400) / 3600 == 0 && (secs % 3600) / 60 == a
            && secs % 60 == 0) by (nonlinear_arith)
            requires
                secs == a * 60,
                0 < a < 60,
        ;
        assert(duration_spec(text) == Ok::<u64, DurationError>(secs as u64));
        assert(duration_parts(secs) =~= part);
    } else if unit == 'h' {
        let secs = a * 3600;
        assert(secs / 86400 == 0 && (secs % 86400) / 3600 == a && (secs % 3600) / 60 == 0
            && secs % 60 == 0) by (nonlinear_arith)
            requires
                secs == a * 3600,
                0 < a < 24,
        ;
        assert(duration_spec(text) == Ok::<u64, DurationError>(secs as u64));
        assert(duration_parts(secs) =~= part);
    } else {
        let secs = a * 86400;
        assert(secs / 86400 == a && (secs % 86400) / 3600 == 0 && (secs % 3600) / 60 == 0
            && secs % 60 == 0) by (nonlinear_arith)
            requires
                secs == a * 86400,
                0 < a,
        ;
        assert(duration_spec(text) == Ok::<u64, DurationError>(secs as u64));
        assert(duration_parts(secs) =~= part);
    }
}

/// A part of a displayed duration, an amount and a unit, reads back as the
/// amount in that unit.
proof fn lemma_part_reads(amount: nat, unit: char, per: u64)
    requires
        amount > 0,
        unit_seconds_spec(unit) == Some(per),
        amount * per <= u64::MAX,
    ensures
        duration_spec(decimal(amount).push(unit)) == Ok::<u64, DurationError>((amount * per) as u64),
{
    assert(amount <= amount * per) by (nonlinear_arith)
        requires
            amount > 0,
            per >= 1,
    ;
    let n = amount as u64;
    let dec = decimal(amount);
    let text = dec.push(unit);
    lemma_decimal_digits(amount);
    assert(is_digit(dec[0]));
    assert(text[0] == dec[0]);
    lemma_trim_of_clean_ends(text);
    assert(text.drop_last() =~= dec);
    law_parse_u64_of_decimal(n);
    assert(trim(text) == text);
    assert(parse_u64_spec(trim(text).drop_last()) == Some(n));
    assert(text.last() == unit);
    assert(text.len() >= 2);
}

/// The seconds that the parts of a displayed duration stand for, each part
/// read as a duration on its own.
pub open spec fn parts_seconds(parts: Seq<Seq<char>>) -> int
    decreases parts.len(),
{
    if parts.len() == 0 {
        0
    } else {
        parts_seconds(parts.drop_last()) + match duration_spec(parts.last()) {
            Ok(v) => v as int,
            Err(_) => 0,
        }
    }
}

proof fn lemma_parts_seconds_push(parts: Seq<Seq<char>>, part: Seq<char>, v: u64)
    requires
        duration_spec(part) == Ok::<u64, DurationError>(v),
    ensures
        parts_seconds(parts.push(part)) == parts_seconds(parts) + v,
{
    assert(parts.push(part).drop_last() =~= parts);
}

/// Law: a duration is shown as one to four parts (days, hours, minutes,
/// seconds, in that order), each of which reads back as a duration, and
/// together they read back to the seconds shown; a duration shown as a
/// single part reads back whole.
#[verifier::spinoff_prover]
pub proof fn law_duration_parts_read_back(seconds: u64)
    requires
        seconds > 0,
    ensures
        1 <= duration_parts(seconds as nat).len() <= 4,
        forall|i: int|
            0 <= i < duration_parts(seconds as nat).len() ==> #[trigger] duration_spec(
                duration_parts(seconds as nat)[i],
            ) is Ok,
        parts_seconds(duration_parts(seconds as nat)) == seconds,
        duration_parts(seconds as nat).len() == 1 ==> duration_spec(duration_text(seconds as nat))
            == Ok::<u64, DurationError>(seconds),
{
    let t = seconds as nat;
    let d = t / 86400;
    let h = (t % 86400) / 3600;
    let m = (t % 3600) / 60;
    let sec = t % 60;
    assert(d * 86400 + h * 3600 + m * 60 + sec == t && d * 86400 <= t && h * 3600 <= t && m * 60
        <= t && sec <= t) by (nonlinear_arith)
        requires
            d == t / 86400,
            h == (t % 86400) / 3600,
            m == (t % 3600) / 60,
            sec == t % 60,
    ;
    let p0: Seq<Seq<char>> = Seq::empty();
    let p1: Seq<Seq<char>> = if d > 0 {
        p0.push(decimal(d).push('d'))
    } else {
        p0
    };
    if d > 0 {
        lemma_part_reads(d, 'd', 86400);
        lemma_parts_seconds_push(p0, decimal(d).push('d'), (d * 86400) as u64);
    }
    let p2 = if h > 0 {
        p1.push(decimal(h).push('h'))
    } else {
        p1
    };
    if h > 0 {
        lemma_part_reads(h, 'h', 3600);
        lemma_parts_seconds_push(p1, decimal(h).push('h'), (h * 3600) as u64);
    }
    let p3 = if m > 0 {
        p2.push(decimal(m).push('m'))
    } else {
        p2
    };
    if m > 0 {
        lemma_part_reads(m, 'm', 60);
        lemma_parts_seconds_push(p2, decimal(m).push('m'), (m * 60) as u64);
    }
    assert(p1 =~= (if d > 0 { seq![decimal(d).push('d')] } else { Seq::<Seq<char>>::empty() }));
    let parts = duration_parts(t);
    if sec > 0 || p3.len() == 0 {
        assert(sec > 0) by {
            if sec == 0 {
                assert(d == 0 && h == 0 && m == 0);
            }
        }
        lemma_part_reads(sec, 's', 1);
        lemma_parts_seconds_push(p3, decimal(sec).push('s'), (sec * 1) as u64);
        assert(parts == p3.push(decimal(sec).push('s')));
    } else {
        assert(parts == p3);
    }
    assert forall|i: int| 0 <= i < parts.len() implies #[trigger] duration_spec(parts[i]) is Ok by {
        if d > 0 && i == 0 {
            assert(parts[i] == decimal(d).push('d'));
        } else if h > 0 && i == (if d > 0 { 1int } else { 0int }) {
            assert(parts[i] == decimal(h).push('h'));
        } else if m > 0 && i == (if d > 0 { 1int } else { 0int }) + (if h > 0 { 1int } else { 0int }) {
            assert(parts[i] == decimal(m).push('m'));
        } else {
            assert(parts[i] == decimal(sec).push('s'));
        }
    }
    if parts.len() == 1 {
        assert(duration_text(t) == parts[0]);
        assert(parts_seconds(parts) == parts_seconds(parts.drop_last()) + match duration_spec(
            parts.last(),
        ) {
            Ok(v) => v as int,
            Err(_) => 0,
        });
        assert(parts.drop_last() =~= Seq::<Seq<char>>::empty());
    }
}

// ---------------------------------------------------------------------------
// Dashboard state

/// What the dashboard shows of a record.
pub struct RecordState {
    pub name: String,
    pub record_type: &'static str,
    pub dns_backend: &'static str,
    pub current_ip: Option<IpAddress>,
    pub last_changed_at: Option<u64>,
    pub history_limit: usize,
    pub history: Vec<HistoryEntry>,
}

/// What the dashboard shows of a record: its newest address, when that was
/// recorded (if known, i.e. not 0), and the record type's whole history.
pub open spec fn shows_record(
    state: RecordState,
    record: RecordConfig,
    history: History,
    history_limit: usize,
) -> bool {
    let entries = entries_of(history, record.record_type);
    &&& state.name == record.name
    &&& state.record_type@ == record_type_name(record.record_type)
    &&& state.dns_backend@ == cloudflare_name()
    &&& state.history_limit == history_limit
    &&& state.history@ == entries
    &&& entries.len() == 0 ==> state.current_ip is None && state.last_changed_at is None
    &&& entries.len() > 0 ==> {
        &&& state.current_ip == Some(entries.last().ip)
        &&& state.last_changed_at == (if entries.last().changed_at == 0 {
            None::<u64>
        } else {
            Some(entries.last().changed_at)
        })
    }
}

/// Law: the dashboard shows as a record's current address the address of
/// the newest entry of its type's history (what `History::get` gives), and
/// as its last change the time of that entry, unless that time is unknown
/// (0); with no entry, neither.
pub proof fn law_record_state_shows_newest(
    state: RecordState,
    record: RecordConfig,
    history: History,
    history_limit: usize,
)
    requires
        shows_record(state, record, history, history_limit),
    ensures
        ({
            let entries = entries_of(history, record.record_type);
            let n = entries.len() as int;
            &&& n == 0 ==> state.current_ip is None && state.last_changed_at is None
            &&& n > 0 ==> state.current_ip == Some(entries[n - 1].ip)
            &&& n > 0 && entries[n - 1].changed_at != 0 ==> state.last_changed_at == Some(
                entries[n - 1].changed_at,
            )
            &&& n > 0 && entries[n - 1].changed_at == 0 ==> state.last_changed_at is None
            &&& state.history@ == entries
        }),
{
}

/// What the dashboard shows of a record.
pub fn record_state(record: &RecordConfig, history: &History, history_limit: usize) -> (state:
    RecordState)
    ensures
        shows_record(state, *record, *history, history_limit),
{
    let record_type = record.record_type;
    let latest = history.latest_entry(record_type);
    let current_ip = match latest {
        Some(entry) => Some(entry.ip),
        None => None,
    };
    let last_changed_at = match latest {
        Some(entry) => if entry.changed_at == 0 {
            None
        } else {
            Some(entry.changed_at)
        },
        None => None,
    };
    let entries = history.entries(record_type);
    let mut copied: Vec<HistoryEntry> = Vec::new();
    let mut i: usize = 0;
    while i < entries.len()
        invariant
            i <= entries@.len(),
            copied@ == entries@.take(i as int),
        decreases entries@.len() - i,
    {
        copied.push(entries[i]);
        i = i + 1;
        assert(copied@ =~= entries@.take(i as int));
    }
    assert(entries@.take(entries@.len() as int) =~= entries@);
    RecordState {
        name: record.name.clone(),
        record_type: record_type.as_dns_type(),
        dns_backend: record.backend.backend_name(),
        current_ip,
        last_changed_at,
        history_limit,
        history: copied,
    }
}

/// What the dashboard shows as a whole.
pub struct DashboardState {
    pub check_interval: Option<String>,
    pub history_limit: usize,
    pub records: Vec<RecordState>,
}

/// The dashboard's state: the interval for display, the history limit, and
/// each record's state in the configured order.
pub fn dashboard_state(config: &Config, history: &History) -> (state: DashboardState)
    ensures
        config.check_interval is None ==> state.check_interval is None,
        config.check_interval matches Some(s) ==> (state.check_interval matches Some(t) && t@
            == duration_text(s as nat)),
        state.history_limit == config.history_limit,
        state.records@.len() == config.records@.len(),
        forall|i: int|
            0 <= i < state.records@.len() ==> shows_record(
                #[trigger] state.records@[i],
                config.records@[i],
                *history,
                config.history_limit,
            ),
{
    let check_interval = match config.check_interval {
        Some(s) => Some(format_duration(s)),
        None => None,
    };
    let mut records: Vec<RecordState> = Vec::new();
    let mut i: usize = 0;
    while i < config.records.len()
        invariant
            i <= config.records@.len(),
            records@.len() == i,
            forall|j: int|
                0 <= j < i ==> shows_record(
                    #[trigger] records@[j],
                    config.records@[j],
                    *history,
                    config.history_limit,
                ),
        decreases config.records@.len() - i,
    {
        let state = record_state(&config.records[i], history, config.history_limit);
        records.push(state);
        i = i + 1;
    }
    DashboardState { check_interval, history_limit: config.history_limit, records }
}

/// The dashboard's HTML page, which shows what `/api/state` returns.
pub const DASHBOARD_PAGE: &'static str = r#"<!doctype html>
<html lang="en">
<head>
  <meta charset="utf-8">
  <meta name="viewport" content="width=device-width, initial-scale=1">
  <title>DriftDNS</title>
  <style>
    :root {
      color-scheme: light;
      --bg: #f6f7f9;
      --panel: #ffffff;
      --text: #17202a;
      --muted: #64748b;
      --line: #d9dee7;
      --accent: #0f766e;
      --accent-soft: #d9f3ee;
      --warn: #9f580a;
    }
    * { box-sizing: border-box; }
    body {
      margin: 0;
      background: var(--bg);
      color: var(--text);
      font-family: ui-sans-serif, system-ui, -apple-system, BlinkMacSystemFont, "Segoe UI", sans-serif;
      font-size: 14px;
    }
    header {
      border-bottom: 1px solid var(--line);
      background: var(--panel);
    }
    .wrap {
      width: min(1180px, calc(100vw - 32px));
      margin: 0 auto;
    }
    .topbar {
      min-height: 64px;
      display: flex;
      align-items: center;
      justify-content: space-between;
      gap: 16px;
    }
    h1 {
      margin: 0;
      font-size: 22px;
      font-weight: 700;
      letter-spacing: 0;
    }
    .status {
      display: inline-flex;
      align-items: center;
      gap: 8px;
      color: var(--muted);
      white-space: nowrap;
    }
    .dot {
      width: 9px;
      height: 9px;
      border-radius: 50%;
      background: var(--accent);
    }
    main { padding: 24px 0 32px; }
    .summary {
      display: grid;
      grid-template-columns: repeat(4, minmax(0, 1fr));
      gap: 12px;
      margin-bottom: 18px;
    }
    .metric {
      background: var(--panel);
      border: 1px solid var(--line);
      border-radius: 8px;
      padding: 14px 16px;
      min-width: 0;
    }
    .metric .label {
      color: var(--muted);
      font-size: 12px;
      text-transform: uppercase;
      letter-spacing: 0;
    }
    .metric .value {
      margin-top: 4px;
      font-size: 20px;
      font-weight: 700;
      overflow-wrap: anywhere;
    }
    .table-shell {
      background: var(--panel);
      border: 1px solid var(--line);
      border-radius: 8px;
      overflow: hidden;
    }
    table {
      width: 100%;
      table-layout: fixed;
      border-collapse: collapse;
    }
    col.record { width: 17%; }
    col.type { width: 9%; }
    col.current-ip { width: 17%; }
    col.backend { width: 14%; }
    col.changed-at { width: 16%; }
    col.history { width: 27%; }
    th, td {
      text-align: left;
      padding: 12px 14px;
      border-bottom: 1px solid var(--line);
      vertical-align: top;
      overflow-wrap: anywhere;
    }
    th {
      background: #fbfcfe;
      color: var(--muted);
      font-size: 12px;
      font-weight: 700;
      text-transform: uppercase;
      letter-spacing: 0;
    }
    tr:last-child td { border-bottom: 0; }
    code {
      font-family: ui-monospace, SFMono-Regular, Menlo, Monaco, Consolas, monospace;
      background: #eef2f7;
      padding: 2px 6px;
      border-radius: 5px;
      overflow-wrap: anywhere;
    }
    .pill {
      display: inline-flex;
      align-items: center;
      border-radius: 999px;
      padding: 3px 8px;
      background: var(--accent-soft);
      color: #075e56;
      font-weight: 700;
      font-size: 12px;
    }
    .muted { color: var(--muted); }
    .history {
      display: flex;
      flex-direction: column;
      gap: 5px;
      margin-top: 8px;
    }
    details.history-toggle {
      display: block;
      max-width: 100%;
    }
    details.history-toggle > summary {
      cursor: pointer;
      list-style: none;
      user-select: none;
      color: var(--accent);
      font-weight: 700;
    }
    details.history-toggle > summary {
      overflow: hidden;
      text-overflow: ellipsis;
      white-space: nowrap;
    }
    details.history-toggle > summary::-webkit-details-marker {
      display: none;
    }
    .history-row {
      display: flex;
      justify-content: space-between;
      gap: 12px;
      color: var(--muted);
    }
    .error {
      display: none;
      margin-bottom: 18px;
      border: 1px solid #f0c36d;
      background: #fff8e7;
      color: var(--warn);
      border-radius: 8px;
      padding: 12px 14px;
    }
    @media (max-width: 800px) {
      .summary { grid-template-columns: 1fr; }
      .topbar { align-items: flex-start; flex-direction: column; padding: 14px 0; }
      .table-shell { overflow-x: auto; }
      table { min-width: 780px; }
    }
  </style>
</head>
<body>
  <header>
    <div class="wrap topbar">
      <h1>DriftDNS</h1>
      <div class="status"><span class="dot"></span><span id="updated">Loading</span></div>
    </div>
  </header>
  <main class="wrap">
    <div id="error" class="error"></div>
    <section class="summary">
      <div class="metric"><div class="label">Records</div><div id="record-count" class="value">0</div></div>
      <div class="metric"><div class="label">DNS Backends</div><div id="backend-count" class="value">0</div></div>
      <div class="metric"><div class="label">Check Interval</div><div id="check-interval" class="value">disabled</div></div>
      <div class="metric"><div class="label">History Limit</div><div id="history-limit" class="value">0</div></div>
    </section>
    <section class="table-shell">
      <table>
        <colgroup>
          <col class="record">
          <col class="type">
          <col class="current-ip">
          <col class="backend">
          <col class="changed-at">
          <col class="history">
        </colgroup>
        <thead>
          <tr>
            <th>Record</th>
            <th>Type</th>
            <th>Current IP</th>
            <th>DNS Backend</th>
            <th>Last IP Change</th>
            <th>History</th>
          </tr>
        </thead>
        <tbody id="records"></tbody>
      </table>
    </section>
  </main>
  <script>
    const tbody = document.querySelector('#records');
    const errorBox = document.querySelector('#error');

    function escapeHtml(value) {
      return String(value ?? '').replace(/[&<>"']/g, ch => ({
        '&': '&amp;', '<': '&lt;', '>': '&gt;', '"': '&quot;', "'": '&#39;'
      }[ch]));
    }

    function formatTime(seconds) {
      if (!seconds) return '<span class="muted">unknown</span>';
      return escapeHtml(new Date(seconds * 1000).toLocaleString());
    }

    function renderHistory(items) {
      if (!items.length) return '<span class="muted">none</span>';
      return `<details class="history-toggle">
        <summary>${items.length} entr${items.length === 1 ? 'y' : 'ies'}</summary>
        <div class="history">${items.map(item => `
          <div class="history-row">
            <code>${escapeHtml(item.ip)}</code>
            <span>${formatTime(item.changed_at)}</span>
          </div>
        `).join('')}</div>
      </details>`;
    }

    async function load() {
      try {
        const response = await fetch('/api/state', { cache: 'no-store' });
        const state = await response.json();
        if (!response.ok) throw new Error(state.error || 'request failed');

        errorBox.style.display = 'none';
        document.querySelector('#record-count').textContent = state.records.length;
        document.querySelector('#backend-count').textContent = new Set(state.records.map(record => record.dns_backend)).size;
        document.querySelector('#check-interval').textContent = state.check_interval || 'disabled';
        document.querySelector('#history-limit').textContent = state.history_limit;
        document.querySelector('#updated').textContent = `Updated ${new Date().toLocaleTimeString()}`;

        tbody.innerHTML = state.records.map(record => `
          <tr>
            <td><strong>${escapeHtml(record.name)}</strong></td>
            <td><span class="pill">${escapeHtml(record.record_type)}</span></td>
            <td>${record.current_ip ? `<code>${escapeHtml(record.current_ip)}</code>` : '<span class="muted">unknown</span>'}</td>
            <td>${escapeHtml(record.dns_backend)}</td>
            <td>${formatTime(record.last_changed_at)}</td>
            <td>${renderHistory(record.history || [])}</td>
          </tr>
        `).join('');
      } catch (error) {
        errorBox.textContent = error.message;
        errorBox.style.display = 'block';
        document.querySelector('#updated').textContent = 'Update failed';
      }
    }

    load();
    setInterval(load, 5000);
  </script>
</body>
</html>
"#;

/// The dashboard's HTML page.
pub fn dashboard_html() -> (page: &'static str)
    ensures
        page@ == DASHBOARD_PAGE@,
{
    DASHBOARD_PAGE
}

} // verus!
