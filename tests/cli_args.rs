use quote_stream::client_cli::{
    make_udp_url, parse_ticker_data, port_in_range, tickers_and_command, validate_tcp_port,
    validate_udp_port, Commands, ExitCode, PORT_MAX, PORT_MIN,
};
use quote_stream::protocol::{interpret_line, LineOutcome};
use quote_stream::server_cli;
use quote_stream::server_cli::{TCP_PORT_MAX, TCP_PORT_MIN};

#[test]
fn tcp_port_validator_accepts_allowed() {
    let ok = PORT_MIN.to_string();
    assert!(validate_tcp_port(&ok).is_ok());
}

#[test]
fn udp_port_validator_rejects_out_of_range() {
    let bad = (PORT_MAX + 1).to_string();
    assert!(validate_udp_port(&bad).is_err());
}

#[test]
fn port_validator_accepts_allowed_port() {
    let ok_port = TCP_PORT_MIN.to_string();
    let res = server_cli::port_in_range(&ok_port);
    assert!(res.is_ok());
}

#[test]
fn port_validator_rejects_out_of_range() {
    let bad_port = (TCP_PORT_MAX as usize + 1).to_string();
    let res = server_cli::port_in_range(&bad_port);
    assert!(res.is_err());
}

#[test]
fn port_bounds_and_messages() {
    assert_eq!(server_cli::port_in_range("1024"), Ok(1024));
    assert_eq!(server_cli::port_in_range("49151"), Ok(49151));
    assert_eq!(server_cli::port_in_range("+8888"), Ok(8888));
    assert_eq!(
        server_cli::port_in_range("1023"),
        Err("port number 1023 not in range 1024 — 49151".to_string())
    );
    assert_eq!(
        server_cli::port_in_range("70000"),
        Err("port number 70000 not in range 1024 — 49151".to_string())
    );
    assert_eq!(server_cli::port_in_range("abc"), Err("invalid port number: abc".to_string()));
    assert_eq!(server_cli::port_in_range(""), Err("invalid port number: ".to_string()));
    assert_eq!(port_in_range("70000", 1024, 49151), Err("invalid port number: 70000".to_string()));
    assert_eq!(
        port_in_range("49152", 1024, 49151),
        Err("port number 49152 not in range 1024 — 49151".to_string())
    );
    assert_eq!(port_in_range("34254", 1024, 49151), Ok(34254));
    assert_eq!(validate_udp_port("1023").is_err(), true);
    assert_eq!(validate_tcp_port("8888"), Ok(8888));
}

#[test]
fn make_udp_url_is_correct() {
    let url = make_udp_url(34254);
    assert_eq!(url.as_str(), format!("udp://{}:34254", "127.0.0.1"));
}

#[test]
fn stream_command_all_if_no_file() {
    let udp_url = "udp://127.0.0.1:34254";
    let (tickers, cmd) = tickers_and_command(&Commands::Stream { tickers: vec![] }, udp_url);
    assert!(tickers.is_empty());
    assert_eq!(cmd, "STREAM udp://127.0.0.1:34254 ALL");
}

#[test]
fn stream_command_with_tickers() {
    let udp_url = "udp://127.0.0.1:34254";
    let list = vec!["AAPL".to_string(), "TSLA".to_string()];
    let (tickers, cmd) = tickers_and_command(&Commands::Stream { tickers: list }, udp_url);
    assert_eq!(tickers, vec!["AAPL", "TSLA"]);
    assert_eq!(cmd, "STREAM udp://127.0.0.1:34254 AAPL,TSLA");
    let (_, one) = tickers_and_command(
        &Commands::Stream { tickers: vec!["MSFT".to_string()] },
        udp_url,
    );
    assert_eq!(one, "STREAM udp://127.0.0.1:34254 MSFT");
}

#[test]
fn cancel_command() {
    let (tickers, cmd) = tickers_and_command(&Commands::Cancel, "udp://127.0.0.1:34254");
    assert!(tickers.is_empty());
    assert_eq!(cmd, "CANCEL udp://127.0.0.1:34254");
}

#[test]
fn exit_code_values() {
    assert_eq!(ExitCode::InvalidServerSocket.value(), 1u8);
    assert_eq!(ExitCode::InvalidUDP.value(), 2u8);
}

#[test]
fn test_get_ticker_data_with_valid_file() {
    let contents = format!("{}\n", "AAPL\nGOOGL\nMSFT\nTSLA\nAMZN");
    let result = parse_ticker_data(&contents);
    assert!(result.is_some());
    let tickers = result.unwrap();
    assert_eq!(tickers.len(), 5);
    assert_eq!(tickers, vec!["AAPL", "GOOGL", "MSFT", "TSLA", "AMZN"]);
}

#[test]
fn test_get_ticker_data_with_empty_and_whitespace() {
    let contents = format!("{}\n", "AAPL\n\n  GOOGL  \n\nMSFT\n\t\nAMZN");
    let result = parse_ticker_data(&contents);
    assert!(result.is_some());
    let tickers = result.unwrap();
    assert_eq!(tickers.len(), 4);
    assert_eq!(tickers, vec!["AAPL", "GOOGL", "MSFT", "AMZN"]);
}

#[test]
fn test_get_ticker_data_with_empty_file() {
    let result = parse_ticker_data("");
    assert!(result.is_none());
}

#[test]
fn ticker_data_with_crlf_and_blank_only() {
    assert_eq!(parse_ticker_data("AAPL\r\nTSLA\r\n").unwrap(), vec!["AAPL", "TSLA"]);
    assert!(parse_ticker_data(" \n\t\n").is_none());
}

#[test]
fn client_request_is_accepted_by_server() {
    let known: Vec<String> = vec!["AAPL".into(), "MSFT".into(), "TSLA".into()];
    let url = make_udp_url(34254);
    let list = vec!["AAPL".to_string(), "TSLA".to_string()];
    let (_, listed) = tickers_and_command(&Commands::Stream { tickers: list.clone() }, &url);
    match interpret_line(&listed, 1000, "127.0.0.1:1", &known) {
        LineOutcome::Subscribe(sub) => {
            assert_eq!(sub.tickers, list);
            assert_eq!(sub.udp_url, url);
        }
        _ => panic!("expected a subscription"),
    }
    let (_, all) = tickers_and_command(&Commands::Stream { tickers: vec![] }, &url);
    match interpret_line(&all, 1000, "127.0.0.1:1", &known) {
        LineOutcome::Subscribe(sub) => assert!(sub.tickers.is_empty()),
        _ => panic!("expected a subscription"),
    }
    let (_, cancel) = tickers_and_command(&Commands::Cancel, &url);
    assert!(matches!(interpret_line(&cancel, 1000, "127.0.0.1:1", &known), LineOutcome::Cancel));
}
