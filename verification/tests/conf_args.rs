use redis_lite::conf::{from_args, Conf, ConfError, Role, DEFAULT_PORT};

fn args(list: &[&str]) -> Vec<String> {
    list.iter().map(|s| s.to_string()).collect()
}

fn conf(list: &[&str]) -> Result<Conf, ConfError> {
    from_args(&args(list))
}

#[test]
fn no_option_gives_a_primary_on_the_default_port() {
    let conf = conf(&["server"]).unwrap();
    assert_eq!(DEFAULT_PORT, 6379);
    assert_eq!(conf.port, 6379);
    assert!(conf.is_master());
    match conf.role {
        Role::Master { repl_id, repl_offset } => {
            assert_eq!(repl_id, "8371b4fb1155b71f4a04d3e1bc3e18c4a990aeeb");
            assert_eq!(repl_id.len(), 40);
            assert!(repl_id.bytes().all(|b| b.is_ascii_hexdigit()));
            assert_eq!(repl_offset, 0);
        }
        Role::Servant { .. } => panic!("a primary was expected"),
    }
}

#[test]
fn an_empty_command_line_is_accepted() {
    let conf = conf(&[]).unwrap();
    assert_eq!(conf.port, 6379);
    assert!(conf.is_master());
}

#[test]
fn the_first_argument_is_passed_over() {
    let conf = conf(&["--port"]).unwrap();
    assert_eq!(conf.port, 6379);
}

#[test]
fn port_option_sets_the_port() {
    let conf = conf(&["server", "--port", "6380"]).unwrap();
    assert_eq!(conf.port, 6380);
    assert!(conf.is_master());
}

#[test]
fn replicaof_option_makes_a_replica() {
    let conf = conf(&["server", "--replicaof", "localhost", "6379"]).unwrap();
    assert_eq!(conf.port, 6379);
    assert!(!conf.is_master());
    match conf.role {
        Role::Servant { host, port } => {
            assert_eq!(host, "localhost");
            assert_eq!(port, 6379);
        }
        Role::Master { .. } => panic!("a replica was expected"),
    }
}

#[test]
fn options_combine_in_any_order() {
    let a = conf(&["server", "--port", "7000", "--replicaof", "10.0.0.1", "7001"]).unwrap();
    let b = conf(&["server", "--replicaof", "10.0.0.1", "7001", "--port", "7000"]).unwrap();
    for conf in [a, b] {
        assert_eq!(conf.port, 7000);
        match conf.role {
            Role::Servant { host, port } => {
                assert_eq!(host, "10.0.0.1");
                assert_eq!(port, 7001);
            }
            Role::Master { .. } => panic!("a replica was expected"),
        }
    }
}

#[test]
fn a_later_option_overrides_an_earlier_one() {
    let conf = conf(&["server", "--port", "1", "--port", "2"]).unwrap();
    assert_eq!(conf.port, 2);
}

#[test]
fn port_without_a_number_is_refused() {
    assert_eq!(conf(&["server", "--port"]).unwrap_err(), ConfError::PortNeedsNumber);
}

#[test]
fn replicaof_without_a_host_is_refused() {
    assert_eq!(
        conf(&["server", "--replicaof"]).unwrap_err(),
        ConfError::ReplicaofNeedsHost
    );
}

#[test]
fn replicaof_without_a_port_is_refused() {
    assert_eq!(
        conf(&["server", "--replicaof", "localhost"]).unwrap_err(),
        ConfError::ReplicaofNeedsPort
    );
}

#[test]
fn a_port_that_is_no_number_is_refused() {
    assert_eq!(conf(&["server", "--port", "http"]).unwrap_err(), ConfError::InvalidPort);
    assert_eq!(conf(&["server", "--port", "65536"]).unwrap_err(), ConfError::InvalidPort);
    assert_eq!(conf(&["server", "--port", ""]).unwrap_err(), ConfError::InvalidPort);
    assert_eq!(
        conf(&["server", "--replicaof", "localhost", "-1"]).unwrap_err(),
        ConfError::InvalidPort
    );
}

#[test]
fn an_unknown_option_is_refused() {
    assert_eq!(conf(&["server", "--verbose"]).unwrap_err(), ConfError::UnknownOption);
    assert_eq!(conf(&["server", "6379"]).unwrap_err(), ConfError::UnknownOption);
    assert_eq!(conf(&["server", "--PORT", "1"]).unwrap_err(), ConfError::UnknownOption);
}

#[test]
fn the_first_error_from_the_left_is_reported() {
    assert_eq!(
        conf(&["server", "--port", "x", "--verbose"]).unwrap_err(),
        ConfError::InvalidPort
    );
    assert_eq!(
        conf(&["server", "--verbose", "--port", "x"]).unwrap_err(),
        ConfError::UnknownOption
    );
}

#[test]
fn conf_errors_have_messages() {
    assert_eq!(ConfError::PortNeedsNumber.message(), "--port needs a port number");
    assert_eq!(ConfError::ReplicaofNeedsHost.message(), "--replicaof needs a host");
    assert_eq!(ConfError::ReplicaofNeedsPort.message(), "--replicaof needs a port");
    assert_eq!(ConfError::InvalidPort.message(), "invalid port number");
    assert_eq!(ConfError::UnknownOption.message(), "unknown option");
}

#[test]
fn a_configuration_can_be_copied() {
    let first = conf(&["server", "--port", "7000", "--replicaof", "primary.local", "7001"]).unwrap();
    let second = first.clone();
    assert_eq!(second.port, 7000);
    match (first.role, second.role) {
        (Role::Servant { host: a, port: p }, Role::Servant { host: b, port: q }) => {
            assert_eq!(a, "primary.local");
            assert_eq!(b, "primary.local");
            assert_eq!(p, 7001);
            assert_eq!(q, 7001);
        }
        _ => panic!("two replicas were expected"),
    }
    let primary = conf(&["server"]).unwrap().clone();
    assert!(primary.is_master());
}
