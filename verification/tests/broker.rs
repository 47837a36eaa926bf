use socket_io_emitter::broker::{broker_addr, broker_url};

#[test]
fn url_has_the_redis_scheme() {
    assert_eq!("redis://localhost:6379", broker_url("localhost:6379"));
    assert_eq!("redis://127.0.0.1", broker_url("127.0.0.1"));
    assert_eq!("redis://", broker_url(""));
}

#[test]
fn address_joins_host_and_port() {
    assert_eq!("localhost:6379", broker_addr("localhost", 6379));
    assert_eq!("10.0.0.7:0", broker_addr("10.0.0.7", 0));
    assert_eq!(":9", broker_addr("", 9));
}

#[test]
fn port_is_written_in_decimal() {
    for port in [
        0,
        1,
        9,
        10,
        11,
        99,
        100,
        101,
        6379,
        65535,
        65536,
        1_000_000_000,
        i32::MAX,
        -1,
        -9,
        -10,
        -6379,
        -2_147_483_647,
        i32::MIN,
    ] {
        assert_eq!(format!("h:{}", port), broker_addr("h", port));
    }
    assert_eq!("h:2147483647", broker_addr("h", i32::MAX));
    assert_eq!("h:-2147483648", broker_addr("h", i32::MIN));
    assert_eq!("h:1000", broker_addr("h", 1000));
}

#[test]
fn url_of_host_and_port_opens() {
    let url = broker_url(&broker_addr("example.org", 7000));
    assert_eq!("redis://example.org:7000", url);
    let client = redis::Client::open(url.as_str()).unwrap();
    assert_eq!(
        "example.org:7000",
        client.get_connection_info().addr().to_string()
    );
}
