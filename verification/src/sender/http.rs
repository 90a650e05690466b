//! An endpoint that anything that can make a request can light a room with.
//!
//! An alert is a source with an expiry, and the device removes it itself when
//! the time has passed: it needs no second request to clear.

use vstd::prelude::*;

use crate::text::a_split_undoes_a_join;
use crate::text::a_start_and_an_end_are_parts;
use crate::text::a_text_is_split_at_the_first;
use crate::text::after;
use crate::text::append_decimal;
use crate::text::before;
use crate::text::chars_of;
use crate::text::decimal;
use crate::text::decimal_reads_back;
use crate::text::ends_with;
use crate::text::find_char;
use crate::text::find_run_end;
use crate::text::has_prefix;
use crate::text::is_digit;
use crate::text::is_space;
use crate::text::next_of;
use crate::text::next_of_is_in_range;
use crate::text::parse_u64;
use crate::text::parsed;
use crate::text::run_end;
use crate::text::spells;
use crate::text::starts_with;

verus! {

/// How long an alert lasts if nobody says.
pub const DEFAULT_SECONDS: u64 = 30;

/// Zero would be an alert nobody sees, and an hour one nobody asked to live
/// with.
pub const MIN_SECONDS: u64 = 1;

pub const MAX_SECONDS: u64 = 300;

/// What a request asked the mesh to do.
#[derive(Clone, Copy, PartialEq, Eq, Debug)]
pub enum Request {
    /// Put an alert up for this many seconds.
    Alert(u64),
    /// Take the show back off.
    Off,
}

/// What one parameter asks for, if it says how long and can be read.
pub open spec fn seconds_in(parameter: Seq<char>) -> Option<u64> {
    if starts_with(parameter, "seconds="@) {
        parsed(parameter.skip("seconds="@.len() as int))
    } else {
        None
    }
}

/// What a query asks for: the first of its parameters, which `&` separates, that
/// says how long and can be read.
pub open spec fn asked(query: Seq<char>) -> Option<u64>
    decreases query.len(),
{
    match seconds_in(before(query, '&')) {
        Some(n) => Some(n),
        None => if 0 <= next_of(query, '&', 0) < query.len() {
            asked(after(query, '&'))
        } else {
            None
        },
    }
}

/// How long an alert lasts. The expiry is the safety property, so a query does
/// not get to remove it.
pub open spec fn seconds(query: Seq<char>) -> u64 {
    let n = match asked(query) {
        Some(n) => n,
        None => DEFAULT_SECONDS,
    };
    if n < MIN_SECONDS {
        MIN_SECONDS
    } else if n > MAX_SECONDS {
        MAX_SECONDS
    } else {
        n
    }
}

/// What a request target asks for.
pub open spec fn request_of(target: Seq<char>) -> Option<Request> {
    if before(target, '?') == "/alert"@ {
        Some(Request::Alert(seconds(after(target, '?'))))
    } else if before(target, '?') == "/off"@ {
        Some(Request::Off)
    } else {
        None
    }
}

/// Whether a path is answered at all.
pub open spec fn is_known(path: Seq<char>) -> bool {
    path == "/alert"@ || path == "/off"@ || path == "/"@
}

pub open spec fn status_of(target: Seq<char>) -> Seq<char> {
    if is_known(before(target, '?')) {
        "200 OK"@
    } else {
        "404 Not Found"@
    }
}

pub open spec fn body_of(target: Seq<char>) -> Seq<char> {
    if before(target, '?') == "/alert"@ {
        "alert for "@ + decimal(seconds(after(target, '?')) as nat) + "s\n"@
    } else if before(target, '?') == "/off"@ {
        "off\n"@
    } else if before(target, '?') == "/"@ {
        "lumen\n  GET /alert[?seconds=N]\n  GET /off\n"@
    } else {
        "no\n"@
    }
}

/// What one parameter asks for.
fn parameter_seconds(parameter: &[char]) -> (r: Option<u64>)
    ensures
        r == seconds_in(parameter@),
{
    let name: Vec<char> = chars_of("seconds=");
    if !has_prefix(parameter, name.as_slice()) {
        return None;
    }
    let value: &[char] = vstd::slice::slice_subrange(parameter, name.len(), parameter.len());
    assert(value@ =~= parameter@.skip("seconds="@.len() as int));
    parse_u64(value)
}

/// What a query asks for.
fn query_seconds(query: &[char]) -> (r: Option<u64>)
    ensures
        r == asked(query@),
{
    let len: usize = query.len();
    let mut from: usize = 0;
    assert(query@.skip(0) =~= query@);
    loop
        invariant
            from <= len == query@.len(),
            asked(query@) == asked(query@.skip(from as int)),
        decreases len - from,
    {
        let rest: &[char] = vstd::slice::slice_subrange(query, from, len);
        assert(rest@ =~= query@.skip(from as int));
        let end: usize = find_char(rest, '&');
        let parameter: &[char] = vstd::slice::slice_subrange(rest, 0, end);
        assert(parameter@ =~= before(rest@, '&'));
        if let Some(n) = parameter_seconds(parameter) {
            return Some(n);
        }
        if end == rest.len() {
            return None;
        }
        assert(after(rest@, '&') =~= query@.skip(from + end + 1));
        from = from + end + 1;
    }
}

/// Decide what a request target means: status, body, and what is asked of the
/// mesh.
pub fn route(target: &str) -> (r: (&'static str, String, Option<Request>))
    ensures
        r.0@ == status_of(target@),
        r.1@ == body_of(target@),
        r.2 == request_of(target@),
{
    let chars: Vec<char> = chars_of(target);
    let all: &[char] = chars.as_slice();
    let mark: usize = find_char(all, '?');
    let path: &[char] = vstd::slice::slice_subrange(all, 0, mark);
    assert(path@ =~= before(target@, '?'));
    let query: &[char] = if mark < all.len() {
        vstd::slice::slice_subrange(all, mark + 1, all.len())
    } else {
        vstd::slice::slice_subrange(all, mark, mark)
    };
    assert(query@ =~= after(target@, '?'));
    if spells(path, "/alert") {
        let n: u64 = match query_seconds(query) {
            Some(n) => n,
            None => DEFAULT_SECONDS,
        };
        let seconds: u64 = if n < MIN_SECONDS {
            MIN_SECONDS
        } else if n > MAX_SECONDS {
            MAX_SECONDS
        } else {
            n
        };
        let mut body: String = String::from_str("alert for ");
        append_decimal(&mut body, seconds);
        body.append("s\n");
        ("200 OK", body, Some(Request::Alert(seconds)))
    } else if spells(path, "/off") {
        proof {
            reveal_strlit("/off");
            reveal_strlit("/alert");
        }
        ("200 OK", String::from_str("off\n"), Some(Request::Off))
    } else if spells(path, "/") {
        (
            "200 OK",
            String::from_str("lumen\n  GET /alert[?seconds=N]\n  GET /off\n"),
            None,
        )
    } else {
        ("404 Not Found", String::from_str("no\n"), None)
    }
}

/// The target of a request: its second word, or the root.
pub open spec fn target_of(head: Seq<char>) -> Seq<char> {
    let first = run_end(head, 0, true);
    let gap = run_end(head, first, false);
    let second = run_end(head, gap, true);
    let end = run_end(head, second, false);
    if second < head.len() {
        head.subrange(second, end)
    } else {
        "/"@
    }
}

/// The target of a request: its second word, or the root.
pub fn target<'a>(head: &'a str) -> (r: &'a str)
    ensures
        r@ == target_of(head@),
{
    let chars: Vec<char> = chars_of(head);
    let all: &[char] = chars.as_slice();
    let first: usize = find_run_end(all, 0, true);
    let gap: usize = find_run_end(all, first, false);
    let second: usize = find_run_end(all, gap, true);
    let end: usize = find_run_end(all, second, false);
    if second < all.len() {
        head.substring_char(second, end)
    } else {
        "/"
    }
}

/// The bytes of an answer, as text.
pub open spec fn framed(status: Seq<char>, body: Seq<char>) -> Seq<char> {
    "HTTP/1.1 "@ + status + "\r\nContent-Type: text/plain\r\nContent-Length: "@ + decimal(
        vstd::utf8::encode_utf8(body).len(),
    ) + "\r\nConnection: close\r\n\r\n"@ + body
}

/// An answer, with the length of its body in bytes.
pub fn response(status: &str, body: &str) -> (r: String)
    ensures
        r@ == framed(status@, body@),
{
    let mut out: String = String::from_str("HTTP/1.1 ");
    out.append(status);
    out.append("\r\nContent-Type: text/plain\r\nContent-Length: ");
    append_decimal(&mut out, body.as_bytes().len() as u64);
    out.append("\r\nConnection: close\r\n\r\n");
    out.append(body);
    out
}

/// Answer a request: what to send back, and what is asked of the mesh.
pub fn answer(head: &str) -> (r: (String, Option<Request>))
    ensures
        r.0@ == framed(status_of(target_of(head@)), body_of(target_of(head@))),
        r.1 == request_of(target_of(head@)),
{
    let (status, body, request): (&'static str, String, Option<Request>) = route(target(head));
    (response(status, body.as_str()), request)
}

/// An alert always ends: whatever is asked, it lasts between one second and five
/// minutes.
pub proof fn an_alert_always_ends(target: Seq<char>)
    ensures
        request_of(target) matches Some(Request::Alert(n)) ==> MIN_SECONDS <= n <= MAX_SECONDS,
{
}

/// Nothing but the two exact paths does anything at all.
pub proof fn only_exact_paths_act(target: Seq<char>)
    ensures
        request_of(target) is Some <==> before(target, '?') == "/alert"@ || before(target, '?')
            == "/off"@,
        request_of(target) is Some ==> status_of(target) == "200 OK"@,
{
}

/// A parameter that does not say how long changes nothing.
pub proof fn other_parameters_are_ignored(parameter: Seq<char>, query: Seq<char>)
    requires
        !parameter.contains('&'),
        seconds_in(parameter) is None,
    ensures
        asked(parameter + seq!['&'] + query) == asked(query),
        seconds(parameter + seq!['&'] + query) == seconds(query),
{
    let whole = parameter + seq!['&'] + query;
    separator_is_found(parameter, query, 0);
    assert(before(whole, '&') =~= parameter);
    assert(after(whole, '&') =~= query);
}

proof fn separator_is_found(parameter: Seq<char>, query: Seq<char>, i: int)
    requires
        !parameter.contains('&'),
        0 <= i <= parameter.len(),
    ensures
        next_of(parameter + seq!['&'] + query, '&', i) == parameter.len(),
    decreases parameter.len() - i,
{
    if i < parameter.len() {
        assert(parameter.contains(parameter[i]));
        separator_is_found(parameter, query, i + 1);
    }
}

/// What is asked for is what the alert lasts, as long as it is allowed.
pub proof fn seconds_can_be_asked_for(n: u64)
    requires
        MIN_SECONDS <= n <= MAX_SECONDS,
    ensures
        seconds("seconds="@ + decimal(n as nat)) == n,
{
    reveal_strlit("seconds=");
    let query = "seconds="@ + decimal(n as nat);
    decimal_reads_back(n);
    assert forall|i: int| 0 <= i < query.len() implies query[i] != '&' by {
        if i >= 8 {
            assert(is_digit(decimal(n as nat)[i - 8]));
        }
    }
    nothing_to_find(query, 0);
    next_of_is_in_range(query, '&', 0);
    assert(before(query, '&') =~= query);
    assert(query.take(8) =~= "seconds="@);
    assert(query.skip(8) =~= decimal(n as nat));
}

proof fn nothing_to_find(text: Seq<char>, i: int)
    requires
        0 <= i <= text.len(),
        forall|k: int| i <= k < text.len() ==> text[k] != '&',
    ensures
        next_of(text, '&', i) == text.len(),
    decreases text.len() - i,
{
    if i < text.len() {
        nothing_to_find(text, i + 1);
    }
}

/// How long an alert lasts: what is asked for, between one second and three hundred,
/// and thirty if nothing is.
pub proof fn an_alert_lasts_what_is_asked_for(query: Seq<char>)
    ensures
        asked(query) is None ==> seconds(query) == 30,
        asked(query) matches Some(n) ==> {
            &&& 1 <= n <= 300 ==> seconds(query) == n
            &&& n < 1 ==> seconds(query) == 1
            &&& n > 300 ==> seconds(query) == 300
        },
        1 <= seconds(query) <= 300,
{
}

/// The first parameter that says how long, and can be read, is the one that counts,
/// wherever it is among the others.
pub proof fn the_first_that_says_how_long_counts(parameter: Seq<char>, query: Seq<char>)
    requires
        !parameter.contains('&'),
    ensures
        asked(parameter) == seconds_in(parameter),
        asked(parameter + seq!['&'] + query) == match seconds_in(parameter) {
            Some(n) => Some(n),
            None => asked(query),
        },
{
    a_text_is_split_at_the_first(parameter, '&');
    next_of_is_in_range(parameter, '&', 0);
    let all = parameter;
    assert(next_of(all, '&', 0) == all.len()) by {
        assert(before(all, '&').len() == all.len());
    }
    let whole = parameter + seq!['&'] + query;
    separator_is_found(parameter, query, 0);
    assert(before(whole, '&') =~= parameter);
    assert(after(whole, '&') =~= query);
}

/// A parameter says how long behind its name and an equals sign; any other says
/// nothing.
pub proof fn a_parameter_says_how_long_behind_its_name(value: Seq<char>, other: Seq<char>)
    ensures
        seconds_in("seconds="@ + value) == parsed(value),
        seconds_in(other) is Some ==> exists|text: Seq<char>|
            other == #[trigger] ("seconds="@ + text),
        "seconds="@ == seq!['s', 'e', 'c', 'o', 'n', 'd', 's', '='],
{
    reveal_strlit("seconds=");
    assert("seconds="@ =~= seq!['s', 'e', 'c', 'o', 'n', 'd', 's', '=']);
    let whole = "seconds="@ + value;
    assert(whole.take(8) =~= "seconds="@);
    assert(whole.skip(8) =~= value);
    a_start_and_an_end_are_parts(other, "seconds="@);
}

/// What each path does, whatever the query: an alert is put up for as long as the
/// query says, and the answer says so; off takes the show off; the root explains
/// itself and does nothing; anything else is not found and does nothing.
pub proof fn each_path_does_what_it_says(path: Seq<char>, query: Seq<char>)
    requires
        !path.contains('?'),
    ensures
        ({
            let target = path + seq!['?'] + query;
            &&& path == "/alert"@ ==> {
                &&& request_of(target) == Some(Request::Alert(seconds(query)))
                &&& status_of(target) == "200 OK"@
                &&& body_of(target) == "alert for "@ + decimal(seconds(query) as nat) + "s\n"@
            }
            &&& path == "/off"@ ==> {
                &&& request_of(target) == Some(Request::Off)
                &&& status_of(target) == "200 OK"@
                &&& body_of(target) == "off\n"@
            }
            &&& path == "/"@ ==> {
                &&& request_of(target) is None
                &&& status_of(target) == "200 OK"@
                &&& body_of(target) == "lumen\n  GET /alert[?seconds=N]\n  GET /off\n"@
            }
            &&& path != "/alert"@ && path != "/off"@ && path != "/"@ ==> {
                &&& request_of(target) is None
                &&& status_of(target) == "404 Not Found"@
                &&& body_of(target) == "no\n"@
            }
        }),
{
    a_split_undoes_a_join(path, '?', query);
    reveal_strlit("/alert");
    reveal_strlit("/off");
    reveal_strlit("/");
    assert("/alert"@.len() == 6 && "/off"@.len() == 4 && "/"@.len() == 1);
}

/// A path alone does what it does with nothing asked for.
pub proof fn a_path_alone_asks_for_nothing_more(path: Seq<char>)
    requires
        !path.contains('?'),
    ensures
        request_of(path) == request_of(path + seq!['?']),
        status_of(path) == status_of(path + seq!['?']),
        body_of(path) == body_of(path + seq!['?']),
        path == "/alert"@ ==> request_of(path) == Some(Request::Alert(30)),
{
    a_text_is_split_at_the_first(path, '?');
    assert(path + seq!['?'] =~= path + seq!['?'] + Seq::<char>::empty());
    a_split_undoes_a_join(path, '?', Seq::empty());
    assert(after(path, '?') =~= Seq::<char>::empty());
    let none = Seq::<char>::empty();
    assert(!none.contains('&'));
    the_first_that_says_how_long_counts(none, none);
    if seconds_in(none) is Some {
        a_parameter_says_how_long_behind_its_name(none, none);
        let text = choose|text: Seq<char>| none == #[trigger] ("seconds="@ + text);
        assert(("seconds="@ + text).len() >= 8);
    }
}

/// No character of a text is white space.
pub open spec fn is_word(text: Seq<char>) -> bool {
    text.len() > 0 && forall|i: int| 0 <= i < text.len() ==> !is_space(#[trigger] text[i])
}

/// A text is white space, and some.
pub open spec fn is_gap(text: Seq<char>) -> bool {
    text.len() > 0 && forall|i: int| 0 <= i < text.len() ==> is_space(#[trigger] text[i])
}

/// The target of a request is its second word, whatever white space is around it and
/// whatever follows; with one word or none it is the root.
pub proof fn the_target_is_the_second_word(
    method: Seq<char>,
    gap: Seq<char>,
    target: Seq<char>,
    rest: Seq<char>,
)
    requires
        is_word(method),
        is_gap(gap),
        is_word(target),
        rest.len() == 0 || is_space(rest[0]),
    ensures
        target_of(method + gap + target + rest) == target,
        target_of(gap + method + gap + target + rest) == target,
        target_of(method) == seq!['/'],
        target_of(method + gap) == seq!['/'],
        target_of(gap) == seq!['/'],
        target_of(Seq::empty()) == seq!['/'],
{
    reveal_strlit("/");
    assert("/"@ =~= seq!['/']);
    let none = Seq::<char>::empty();
    let m = method.len() as int;
    let g = gap.len() as int;
    let t = target.len() as int;
    assert(is_space(gap[0]));
    assert(!is_space(method[0]));
    assert(!is_space(target[0]));
    let a = method + gap + target + rest;
    run_is(a, 0, 0, true);
    run_is(a, 0, m, false);
    run_is(a, m, m + g, true);
    run_is(a, m + g, m + g + t, false);
    assert(a.subrange(m + g, m + g + t) =~= target);
    let b = gap + method + gap + target + rest;
    run_is(b, 0, g, true);
    run_is(b, g, g + m, false);
    run_is(b, g + m, g + m + g, true);
    run_is(b, g + m + g, g + m + g + t, false);
    assert(b.subrange(g + m + g, g + m + g + t) =~= target);
    run_is(method, 0, 0, true);
    run_is(method, 0, m, false);
    run_is(method, m, m, true);
    let c = method + gap;
    run_is(c, 0, 0, true);
    run_is(c, 0, m, false);
    run_is(c, m, m + g, true);
    run_is(gap, 0, g, true);
    run_is(gap, g, g, false);
    run_is(gap, g, g, true);
    run_is(none, 0, 0, true);
    run_is(none, 0, 0, false);
}

proof fn run_is(text: Seq<char>, i: int, end: int, spaces: bool)
    requires
        0 <= i <= end <= text.len(),
        forall|k: int| i <= k < end ==> is_space(#[trigger] text[k]) == spaces,
        end < text.len() ==> is_space(text[end]) != spaces,
    ensures
        run_end(text, i, spaces) == end,
    decreases end - i,
{
    if i < end {
        run_is(text, i + 1, end, spaces);
    }
}

/// An answer is the status behind the version, three lines that say that text of so
/// many bytes follows and nothing after it, a blank line, and the body.
pub proof fn an_answer_says_how_long_it_is(status: Seq<char>, body: Seq<char>)
    ensures
        ({
            let length = decimal(vstd::utf8::encode_utf8(body).len());
            &&& framed(status, body) == "HTTP/1.1 "@ + status
                + "\r\nContent-Type: text/plain\r\nContent-Length: "@ + length
                + "\r\nConnection: close\r\n\r\n"@ + body
            &&& vstd::utf8::encode_utf8(body).len() <= u64::MAX ==> parsed(length) == Some(
                vstd::utf8::encode_utf8(body).len() as u64,
            )
            &&& ends_with(framed(status, body), body)
        }),
{
    let length = decimal(vstd::utf8::encode_utf8(body).len());
    if vstd::utf8::encode_utf8(body).len() <= u64::MAX {
        decimal_reads_back(vstd::utf8::encode_utf8(body).len() as u64);
    }
    let front = "HTTP/1.1 "@ + status + "\r\nContent-Type: text/plain\r\nContent-Length: "@
        + length + "\r\nConnection: close\r\n\r\n"@;
    assert(framed(status, body) =~= front + body);
    a_start_and_an_end_are_parts(framed(status, body), body);
}

} // verus!
