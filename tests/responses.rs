use quote_stream::errors::QuoteError;
use quote_stream::protocol::{
    interpret_line, reply_for, stream_request, Command, LineOutcome, ServerResponse,
};

fn known(list: &[&str]) -> Vec<String> {
    list.iter().map(|s| s.to_string()).collect()
}

fn parts(list: &[&str]) -> Vec<String> {
    list.iter().map(|s| s.to_string()).collect()
}

fn reply(line: &str, tickers: &[&str]) -> String {
    let outcome = interpret_line(line, 1000, "127.0.0.1:5000", &known(tickers));
    reply_for(&outcome).to_string()
}

#[test]
fn server_response_format_ok() {
    let r1 = ServerResponse::ok("");
    let r2 = ServerResponse::ok("hello");
    assert_eq!(r1.to_string(), "OK");
    assert_eq!(r2.to_string(), "OK|hello");
}

#[test]
fn server_response_format_err() {
    let r1 = ServerResponse::err("");
    let r2 = ServerResponse::err("bad");
    assert_eq!(r1.to_string(), "ERROR");
    assert_eq!(r2.to_string(), "ERROR|bad");
}

#[test]
fn blank_detail_is_left_out() {
    assert_eq!(ServerResponse::ok(" \t ").to_string(), "OK");
    assert_eq!(ServerResponse::err("\u{3000}").to_string(), "ERROR");
    assert_eq!(ServerResponse::ok(" x ").to_string(), "OK| x ");
}

#[test]
fn stream_command_all_is_valid() {
    let cmd = Command::Stream;
    let parts = vec!["udp://127.0.0.1:34254".into(), "ALL".into()];
    let client = cmd.make_client(1, "127.0.0.1:1234", &parts, &known(&["AAPL", "MSFT"]));
    assert!(client.is_ok());
}

#[test]
fn stream_command_rejects_bad_udp_scheme() {
    let cmd = Command::Stream;
    let parts = vec!["http://127.0.0.1:34254".into(), "ALL".into()];
    let client = cmd.make_client(1, "127.0.0.1:1234", &parts, &known(&["AAPL", "MSFT"]));
    assert!(client.is_err());
}

#[test]
fn make_client_keeps_request() {
    let sub = Command::Stream
        .make_client(
            1001,
            "127.0.0.1:1234",
            &parts(&["udp://127.0.0.1:34254/", "aapl, tsla ,"]),
            &known(&["AAPL", "MSFT", "TSLA"]),
        )
        .unwrap();
    assert_eq!(sub.unique_id, 1001);
    assert_eq!(sub.tcp_addr, "127.0.0.1:1234");
    assert_eq!(sub.udp_url, "udp://127.0.0.1:34254/");
    assert_eq!(sub.tickers, vec!["AAPL".to_string(), "TSLA".to_string()]);
}

#[test]
fn make_client_all_means_empty_filter() {
    let sub = Command::Stream
        .make_client(7, "a", &parts(&["udp://127.0.0.1:34254/", "all"]), &known(&["AAPL"]))
        .unwrap();
    assert!(sub.tickers.is_empty());
}

#[test]
fn make_client_errors() {
    let k = known(&["AAPL"]);
    let incomplete = Command::Stream.make_client(1, "a", &parts(&["udp://h:1"]), &k);
    assert!(matches!(incomplete, Err(QuoteError::CommandError(ref m)) if m == "команда неполная"));
    let bad_url = Command::Stream.make_client(1, "a", &parts(&["no url", "ALL"]), &k);
    match bad_url {
        Err(QuoteError::CommandError(m)) => assert!(m.starts_with("некорректный udp-адрес 'no url': ")),
        _ => panic!("expected a URL error"),
    }
    let no_tickers = Command::Stream.make_client(1, "a", &parts(&["udp://h:1", "ALL"]), &Vec::new());
    assert!(matches!(no_tickers, Err(QuoteError::CommandError(ref m)) if m == "отсутствуют тикеры"));
    let cancel = Command::Cancel.make_client(1, "a", &parts(&["udp://h:1", "ALL"]), &k);
    assert!(matches!(cancel, Err(QuoteError::ValueError(_))));
}

#[test]
fn command_names_in_any_case() {
    assert_eq!(Command::from_str("stream").unwrap(), Command::Stream);
    assert_eq!(Command::from_str(" StReAm ").unwrap(), Command::Stream);
    assert_eq!(Command::from_str("CANCEL").unwrap(), Command::Cancel);
    assert!(matches!(Command::from_str("FOO"), Err(QuoteError::ValueError(_))));
}

#[test]
fn unknown_ticker_is_refused() {
    assert_eq!(
        reply("STREAM udp://127.0.0.1:34254/ UNKNOWN", &["AAPL", "MSFT"]),
        "ERROR|некорректные тикеры"
    );
}

#[test]
fn http_scheme_is_refused() {
    assert_eq!(
        reply("STREAM http://127.0.0.1:34254 ALL", &["AAPL", "MSFT"]),
        "ERROR|поддерживается только UDP"
    );
}

#[test]
fn empty_line_is_refused() {
    assert_eq!(reply("", &["AAPL"]), "ERROR|empty line");
    assert_eq!(reply("   \t", &["AAPL"]), "ERROR|empty line");
    assert!(matches!(
        interpret_line("  ", 1, "a", &known(&["AAPL"])),
        LineOutcome::Empty
    ));
}

#[test]
fn bad_command_then_stream() {
    let k = &["AAPL", "MSFT"];
    assert_eq!(reply("FOO BAR", k), "ERROR|invalid command");
    assert_eq!(reply("STREAM udp://127.0.0.1:34254/ ALL", k), "OK|stream started");
}

#[test]
fn incomplete_stream() {
    assert_eq!(reply("STREAM udp://127.0.0.1:34254/", &["AAPL"]), "ERROR|команда неполная");
}

#[test]
fn cancel_line_is_accepted() {
    assert_eq!(reply("cancel udp://127.0.0.1:34254/", &["AAPL"]), "OK|canceled");
    assert_eq!(reply("CANCEL", &["AAPL"]), "OK|canceled");
}

#[test]
fn stream_line_builds_subscription() {
    let outcome = interpret_line(
        "  stream   udp://127.0.0.1:34254/   AAPL,TSLA  ",
        1002,
        "127.0.0.1:9",
        &known(&["AAPL", "MSFT", "TSLA"]),
    );
    match outcome {
        LineOutcome::Subscribe(sub) => {
            assert_eq!(sub.unique_id, 1002);
            assert_eq!(sub.udp_url, "udp://127.0.0.1:34254/");
            assert_eq!(sub.tickers, vec!["AAPL".to_string(), "TSLA".to_string()]);
        }
        _ => panic!("expected a subscription"),
    }
}

#[test]
fn error_texts_carry_kind() {
    assert_eq!(QuoteError::ticker_err("x").to_string(), "ошибка при формировании тикера: x");
    assert_eq!(QuoteError::value_err("v").to_string(), "v");
    assert_eq!(QuoteError::server_err("s").to_string(), "s");
    assert_eq!(QuoteError::command_err("c").to_string(), "c");
}

#[test]
fn stream_request_given_scheme() {
    let k = known(&["AAPL", "MSFT"]);
    let p = parts(&["http://127.0.0.1:34254", "ALL"]);
    let r = stream_request(1, "a", &p, &Ok("http".to_string()), &k);
    assert!(matches!(r, Err(QuoteError::CommandError(ref m)) if m == "поддерживается только UDP"));
    let r = stream_request(1, "a", &parts(&["x", "ALL"]), &Err("bad".to_string()), &k);
    assert!(matches!(r, Err(QuoteError::CommandError(ref m)) if m == "некорректный udp-адрес 'x': bad"));
    let p = parts(&["udp://127.0.0.1:34254/", "AAPL,UNKNOWN"]);
    let r = stream_request(1, "a", &p, &Ok("udp".to_string()), &k);
    assert!(matches!(r, Err(QuoteError::CommandError(ref m)) if m == "некорректные тикеры"));
    let p = parts(&["udp://127.0.0.1:34254/", "ALL"]);
    let sub = stream_request(1, "a", &p, &Ok("udp".to_string()), &k).unwrap();
    assert!(sub.tickers.is_empty());
    assert_eq!(sub.udp_url, "udp://127.0.0.1:34254/");
}
