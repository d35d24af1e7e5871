use dc_generator::endpoints::parse_endpoints;
use dc_generator::endpoints::EndpointError;

#[test]
fn parses_two_endpoints() {
    let eps = parse_endpoints("host1:9092,host2:9093").unwrap();
    assert_eq!(eps.len(), 2);
    assert_eq!(eps[0].host, "host1");
    assert_eq!(eps[0].port, 9092);
    assert_eq!(eps[1].host, "host2");
    assert_eq!(eps[1].port, 9093);
}

#[test]
fn parses_one_endpoint() {
    let eps = parse_endpoints("localhost:19092").unwrap();
    assert_eq!(eps.len(), 1);
    assert_eq!(eps[0].host, "localhost");
    assert_eq!(eps[0].port, 19092);
}

#[test]
fn rejects_endpoint_without_port() {
    assert_eq!(parse_endpoints("host1").unwrap_err(), EndpointError::MissingPort);
}

#[test]
fn rejects_empty_input() {
    assert_eq!(parse_endpoints("").unwrap_err(), EndpointError::EmptyList);
}

#[test]
fn rejects_non_numeric_port() {
    assert_eq!(parse_endpoints("host:12ab").unwrap_err(), EndpointError::InvalidPort);
    assert_eq!(parse_endpoints("host:p").unwrap_err(), EndpointError::InvalidPort);
}

#[test]
fn rejects_empty_port() {
    assert_eq!(parse_endpoints("host:").unwrap_err(), EndpointError::InvalidPort);
}

#[test]
fn rejects_port_above_range() {
    assert_eq!(parse_endpoints("host:65536").unwrap_err(), EndpointError::InvalidPort);
    assert_eq!(parse_endpoints("host:99999999999999999999").unwrap_err(), EndpointError::InvalidPort);
}

#[test]
fn accepts_port_bounds() {
    let eps = parse_endpoints("a:0,b:65535").unwrap();
    assert_eq!(eps[0].port, 0);
    assert_eq!(eps[1].port, 65535);
}

#[test]
fn rejects_list_with_one_bad_entry() {
    assert_eq!(parse_endpoints("a:1,b").unwrap_err(), EndpointError::MissingPort);
    assert_eq!(parse_endpoints("a:1,").unwrap_err(), EndpointError::MissingPort);
    assert_eq!(parse_endpoints("a:1,b:x,c").unwrap_err(), EndpointError::InvalidPort);
}

#[test]
fn splits_host_at_first_colon() {
    let eps = parse_endpoints(":9092").unwrap();
    assert_eq!(eps[0].host, "");
    assert_eq!(eps[0].port, 9092);
    assert_eq!(parse_endpoints("h:1:2").unwrap_err(), EndpointError::InvalidPort);
}

#[test]
fn trims_whitespace_around_each_piece() {
    let eps = parse_endpoints("a:1 ,b:2").unwrap();
    assert_eq!(eps.len(), 2);
    assert_eq!(eps[0].host, "a");
    assert_eq!(eps[0].port, 1);
    assert_eq!(eps[1].host, "b");
    assert_eq!(eps[1].port, 2);

    let eps = parse_endpoints(" host1:9092 , host2:9093 ").unwrap();
    assert_eq!(eps[0].host, "host1");
    assert_eq!(eps[0].port, 9092);
    assert_eq!(eps[1].host, "host2");
    assert_eq!(eps[1].port, 9093);
}

#[test]
fn whitespace_at_piece_ends_does_not_change_the_result() {
    let plain = parse_endpoints("a:1,b:2").unwrap();
    let spaced = parse_endpoints("a:1 ,\tb:2 ").unwrap();
    assert_eq!(plain.len(), spaced.len());
    for (p, s) in plain.iter().zip(spaced.iter()) {
        assert_eq!(p.host, s.host);
        assert_eq!(p.port, s.port);
    }
}

#[test]
fn whitespace_next_to_the_colon_is_not_tolerated() {
    assert_eq!(parse_endpoints("a: 1").unwrap_err(), EndpointError::InvalidPort);
}

#[test]
fn accepts_one_leading_plus_on_a_port() {
    let eps = parse_endpoints("a:+1").unwrap();
    assert_eq!(eps[0].port, 1);
    let eps = parse_endpoints("a:+09092").unwrap();
    assert_eq!(eps[0].port, 9092);
}

#[test]
fn rejects_malformed_signs_on_a_port() {
    assert_eq!(parse_endpoints("a:+").unwrap_err(), EndpointError::InvalidPort);
    assert_eq!(parse_endpoints("a:++1").unwrap_err(), EndpointError::InvalidPort);
    assert_eq!(parse_endpoints("a:-1").unwrap_err(), EndpointError::InvalidPort);
}
