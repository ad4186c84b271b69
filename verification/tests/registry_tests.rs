use rconcrete::Quirk;
use rconcrete::Server;
use rconcrete::configfile::Configuration;
use rconcrete::error::Error;
use rconcrete::registry::AddArgs;
use rconcrete::registry::RemoveArgs;
use rconcrete::registry::run_add;
use rconcrete::registry::run_remove;
use rconcrete::session::ConnectArgs;
use rconcrete::session::prepare_connect;

fn server_args(name: &str, address: &str, password: &str) -> AddArgs {
    AddArgs {
        name: name.to_owned(),
        address: address.to_owned(),
        password: password.to_owned(),
        quirks: Vec::new(),
    }
}

#[test]
fn fresh_start_lists_nothing() {
    let config = Configuration::default();
    assert_eq!(config.list().len(), 0);
    assert!(config.find(&"anything".to_owned()).is_none());
}

#[test]
fn add_appends_to_prior_records() {
    let mut config = Configuration::default();
    assert!(run_add(server_args("alpha", "example.com:25575", "secret"), &mut config).is_ok());
    assert!(run_add(server_args("beta", "1.2.3.4:1", "other"), &mut config).is_ok());
    let listed = config.list();
    assert_eq!(listed.len(), 2);
    assert_eq!(listed[0].name, "alpha");
    assert_eq!(listed[1].name, "beta");
    assert_eq!(listed[1].address, "1.2.3.4:1");
    assert_eq!(listed[1].password, "other");
}

#[test]
fn duplicate_name_is_rejected_and_registry_unchanged() {
    let mut config = Configuration::default();
    assert!(run_add(server_args("home", "example.com:25575", "secret"), &mut config).is_ok());
    let second = run_add(server_args("home", "1.2.3.4:1", "other"), &mut config);
    assert!(matches!(second, Err(Error::ServerAlreadyExists)));
    assert_eq!(config.list().len(), 1);
    assert_eq!(config.list()[0].name, "home");
    assert_eq!(config.list()[0].address, "example.com:25575");
}

#[test]
fn add_with_invalid_address_never_reaches_the_registry() {
    let mut config = Configuration::default();
    let validated = rconcrete::validate::valid_socket_address("bad-address");
    assert!(validated.is_err());
    // the address never validated, so no add is attempted
    assert_eq!(config.list().len(), 0);
    assert!(run_add(server_args("alpha", "good.example:1", "secret"), &mut config).is_ok());
    assert_eq!(config.list().len(), 1);
}

#[test]
fn remove_takes_matching_records_and_keeps_the_rest() {
    let mut config = Configuration::default();
    run_add(server_args("one", "a.example:1", "p1"), &mut config).unwrap();
    run_add(server_args("two", "b.example:2", "p2"), &mut config).unwrap();
    run_add(server_args("three", "c.example:3", "p3"), &mut config).unwrap();
    let args = RemoveArgs { names: vec!["one".to_owned(), "three".to_owned(), "ghost".to_owned()] };
    assert!(run_remove(args, &mut config).is_ok());
    assert_eq!(config.list().len(), 1);
    assert_eq!(config.list()[0].name, "two");
    assert_eq!(config.list()[0].address, "b.example:2");
}

#[test]
fn remove_with_no_match_fails_and_keeps_everything() {
    let mut config = Configuration::default();
    run_add(server_args("one", "a.example:1", "p1"), &mut config).unwrap();
    let args = RemoveArgs { names: vec!["ghost".to_owned()] };
    let r = run_remove(args, &mut config);
    assert!(matches!(r, Err(Error::NoServersMatched)));
    assert_eq!(config.list().len(), 1);
    assert_eq!(config.list()[0].name, "one");
}

#[test]
fn find_returns_first_match() {
    let mut config = Configuration::default();
    run_add(server_args("one", "a.example:1", "p1"), &mut config).unwrap();
    run_add(server_args("two", "b.example:2", "p2"), &mut config).unwrap();
    let found = config.find(&"two".to_owned()).unwrap();
    assert_eq!(found.address, "b.example:2");
    assert!(config.find(&"ghost".to_owned()).is_none());
}

#[test]
fn connect_against_unknown_name_fails_before_any_network_call() {
    let config = Configuration::default();
    let args = ConnectArgs { server: "ghost".to_owned() };
    let r = prepare_connect(&args, &config);
    assert!(matches!(r, Err(Error::ServerDoesNotExist)));
}

#[test]
fn connect_plan_carries_record_and_quirks() {
    let mut config = Configuration::default();
    config.known_servers.push(Server {
        name: "factory".to_owned(),
        address: "factorio.example:34197".to_owned(),
        password: "hunter2".to_owned(),
        quirks: vec![Quirk::FactorioQuirk],
    });
    let args = ConnectArgs { server: "factory".to_owned() };
    let plan = prepare_connect(&args, &config).unwrap();
    assert_eq!(plan.name, "factory");
    assert_eq!(plan.address, "factorio.example:34197");
    assert_eq!(plan.password, "hunter2");
    assert!(plan.options.factorio_quirks);
    assert!(!plan.options.minecraft_quirks);
}
