use rconcrete::validate::hostname_matches;
use rconcrete::validate::ipv4_address_matches;
use rconcrete::validate::port_suffix_matches;
use rconcrete::validate::valid_socket_address;

#[test]
fn test_port_regex() {
    let success_cases = vec![
        "rt.picrtejkr234908g2<2<42+34:23403",
        "https://google.com:50234",
        "192.168.0.100:22",
    ];
    let fail_cases = vec!["helloworld:-4", "1.1.1.1:", "bruh", "hello.com:no"];

    for test in success_cases {
        assert!(port_suffix_matches(test));
    }

    for test in fail_cases {
        assert!(!port_suffix_matches(test))
    }
}

#[test]
fn ipv4_address_regex_test() {
    let success_cases = vec![
        "192.168.0.1:1",
        "255.255.105.9:50",
        "127.0.0.1:25575",
        "8.8.8.8:2",
    ];

    let fail_cases = vec![
        "256.500.999.888:3",
        "172.215.186.23/24",
        "bur:43421",
        "https://youtube.com:3",
        "192.167.0.999:5",
        "165.91.95.0:35  ",
    ];

    for test in success_cases {
        assert!(ipv4_address_matches(test));
    }

    for test in fail_cases {
        assert!(!ipv4_address_matches(test))
    }
}

#[test]
fn hostname_regex_test() {
    let success_cases = vec![
        "server:656",
        "my-website.with_underscore.tld:111",
        "hellothere1234:1",
    ];
    let failure_cases = vec!["illegal/character:143", "noport", ".atbeginning:34"];

    for test in success_cases {
        assert!(hostname_matches(test));
    }

    for test in failure_cases {
        assert!(!hostname_matches(test))
    }
}

#[test]
fn validate_socket_address() {
    let success_cases = vec![
        "server:25575",
        "192.168.1.75:9",
        "100.100.50.50:50",
        "my-domain.tld:40",
        "192.167.0.999:5", // this is technically a valid HOSTNAME, but not ipv4 address
    ];
    let failure_cases = vec![
        "no-port.com:",
        "no-colon234",
        "negativeport:-324",
        "comma,in,text:1",
        "port-too-big:99999",
        "port-zero:0",
    ];

    for test in success_cases {
        assert!(valid_socket_address(test).is_ok());
    }

    for test in failure_cases {
        println!("case: {}", test);
        assert!(valid_socket_address(test).is_err());
    }
}

#[test]
fn port_boundaries() {
    assert!(valid_socket_address("host:1").is_ok());
    assert!(valid_socket_address("host:65535").is_ok());
    assert!(valid_socket_address("host:65536").is_err());
    assert!(valid_socket_address("host:0").is_err());
    // leading zeros only pad the value
    assert!(valid_socket_address("host:0025575").is_ok());
    assert!(valid_socket_address("host:00000").is_err());
}

#[test]
fn validation_messages_and_value() {
    assert_eq!(valid_socket_address("server:25575").unwrap(), "server:25575");
    assert_eq!(
        valid_socket_address("bruh").unwrap_err(),
        "No valid port specified"
    );
    assert_eq!(
        valid_socket_address("port-zero:0").unwrap_err(),
        "No valid port specified"
    );
    assert_eq!(
        valid_socket_address("comma,in,text:1").unwrap_err(),
        "Invalid address"
    );
}

#[test]
fn ipv4_octet_shapes() {
    assert!(ipv4_address_matches("0.0.0.0:1"));
    assert!(ipv4_address_matches("000.001.019.199:1"));
    assert!(!ipv4_address_matches("1.2.3:1"));
    assert!(!ipv4_address_matches("1.2.3.4.5:1"));
    assert!(!ipv4_address_matches("1.2.3.1234:1"));
    assert!(!ipv4_address_matches(".1.2.3.4:1"));
    assert!(!ipv4_address_matches("1.2.3.4:"));
}

#[test]
fn hostname_shapes() {
    assert!(hostname_matches("a:1"));
    assert!(!hostname_matches("a..b:1"));
    assert!(!hostname_matches("a-:1"));
    assert!(!hostname_matches(":1"));
    assert!(hostname_matches("a-b_c.d:1"));
}
