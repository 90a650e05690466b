use lumen_dev::sender::http::answer;
use lumen_dev::sender::http::response;
use lumen_dev::sender::http::route;
use lumen_dev::sender::http::target;
use lumen_dev::sender::http::Request;

#[test]
fn an_alert_defaults_to_thirty_seconds() {
    assert_eq!(route("/alert").2, Some(Request::Alert(30)));
}

#[test]
fn seconds_can_be_asked_for_and_cannot_be_removed() {
    assert_eq!(route("/alert?seconds=5").2, Some(Request::Alert(5)));
    // The expiry is the safety property, so a query string does not get to ask
    // for zero or for an afternoon.
    assert_eq!(route("/alert?seconds=0").2, Some(Request::Alert(1)));
    assert_eq!(route("/alert?seconds=99999").2, Some(Request::Alert(300)));
    assert_eq!(route("/alert?seconds=nonsense").2, Some(Request::Alert(30)));
}

#[test]
fn other_parameters_are_ignored_rather_than_refused() {
    assert_eq!(route("/alert?x=1&seconds=7&y=2").2, Some(Request::Alert(7)));
}

#[test]
fn unknown_paths_do_nothing_at_all() {
    // Including ones that look close.
    assert_eq!(route("/alerts").2, None);
    assert_eq!(route("/ALERT").2, None);
    assert_eq!(route("/../alert").2, None);
    assert_eq!(route("/alerts").0, "404 Not Found");
}

#[test]
fn the_root_explains_itself_without_doing_anything() {
    let (status, body, request) = route("/");
    assert_eq!(status, "200 OK");
    assert!(body.contains("/alert"));
    assert_eq!(request, None);
}

#[test]
fn the_body_says_how_long() {
    assert_eq!(route("/alert?seconds=120").1, "alert for 120s\n");
    assert_eq!(route("/alert?seconds=7").1, "alert for 7s\n");
    assert_eq!(route("/off").1, "off\n");
    assert_eq!(route("/off").2, Some(Request::Off));
    assert_eq!(route("/nowhere").1, "no\n");
    assert_eq!(route("/").1, "lumen\n  GET /alert[?seconds=N]\n  GET /off\n");
}

#[test]
fn the_first_readable_parameter_counts() {
    assert_eq!(
        route("/alert?seconds=x&seconds=8&seconds=9").2,
        Some(Request::Alert(8))
    );
    assert_eq!(route("/alert?seconds=+12").2, Some(Request::Alert(12)));
    assert_eq!(route("/alert?seconds=-12").2, Some(Request::Alert(30)));
    assert_eq!(route("/alert?seconds=").2, Some(Request::Alert(30)));
    assert_eq!(route("/alert?seconds=+").2, Some(Request::Alert(30)));
    assert_eq!(route("/alert?seconds=007").2, Some(Request::Alert(7)));
    // The largest that fits, and the first that does not.
    assert_eq!(
        route("/alert?seconds=18446744073709551615").2,
        Some(Request::Alert(300))
    );
    assert_eq!(
        route("/alert?seconds=18446744073709551616").2,
        Some(Request::Alert(30))
    );
    assert_eq!(route("/alert?seconds=5?seconds=6").2, Some(Request::Alert(30)));
    assert_eq!(route("/off?seconds=6").2, Some(Request::Off));
}

#[test]
fn the_target_is_the_second_word() {
    assert_eq!(target("GET /alert HTTP/1.1\r\nHost: x\r\n"), "/alert");
    assert_eq!(target("  GET\t/off"), "/off");
    assert_eq!(target("GET\u{2003}/x\u{00a0}y"), "/x");
    assert_eq!(target("GET"), "/");
    assert_eq!(target("GET  \r\n"), "/");
    assert_eq!(target(""), "/");
}

#[test]
fn an_answer_counts_the_bytes_of_its_body() {
    assert_eq!(
        response("200 OK", "off\n"),
        "HTTP/1.1 200 OK\r\nContent-Type: text/plain\r\nContent-Length: 4\r\nConnection: close\r\n\r\noff\n"
    );
    assert!(response("200 OK", "h\u{e9}llo").contains("Content-Length: 6\r\n"));
}

#[test]
fn a_request_is_answered_whole() {
    let (out, request) = answer("GET /alert?seconds=60 HTTP/1.1\r\n\r\n");
    assert_eq!(request, Some(Request::Alert(60)));
    assert_eq!(
        out,
        "HTTP/1.1 200 OK\r\nContent-Type: text/plain\r\nContent-Length: 14\r\nConnection: close\r\n\r\nalert for 60s\n"
    );
}
