use rconcrete::ConnectionOptions;
use rconcrete::Quirk;
use rconcrete::Server;
use rconcrete::error::Error;
use rconcrete::session::ProtocolError;
use rconcrete::session::SessionAction;
use rconcrete::session::SessionEvent;
use rconcrete::session::SessionState;
use rconcrete::session::map_protocol_error;
use rconcrete::session::session_step;

fn quirked_server(quirks: Vec<Quirk>) -> Server {
    Server {
        name: "s".to_owned(),
        address: "s.example:1".to_owned(),
        password: "p".to_owned(),
        quirks,
    }
}

#[test]
fn quirk_flags_are_independent() {
    let base = ConnectionOptions::new();
    let only_minecraft = quirked_server(vec![Quirk::MinecraftQuirk]).enable_quirks(base);
    assert!(only_minecraft.minecraft_quirks);
    assert!(!only_minecraft.factorio_quirks);
    let only_factorio = quirked_server(vec![Quirk::FactorioQuirk]).enable_quirks(base);
    assert!(only_factorio.factorio_quirks);
    assert!(!only_factorio.minecraft_quirks);
    let both = quirked_server(vec![Quirk::FactorioQuirk, Quirk::MinecraftQuirk])
        .enable_quirks(base);
    assert!(both.minecraft_quirks && both.factorio_quirks);
}

#[test]
fn applying_a_quirk_twice_changes_nothing_more() {
    let base = ConnectionOptions::new();
    let twice = quirked_server(vec![Quirk::MinecraftQuirk, Quirk::MinecraftQuirk])
        .enable_quirks(base);
    let once = quirked_server(vec![Quirk::MinecraftQuirk]).enable_quirks(base);
    assert_eq!(twice, once);
}

#[test]
fn quirk_tokens() {
    assert_eq!(Quirk::MinecraftQuirk.token(), "minecraft-quirk");
    assert_eq!(Quirk::FactorioQuirk.token(), "factorio-quirk");
}

#[test]
fn a_read_line_is_trimmed_and_sent() {
    let (state, action) = session_step(
        SessionState::Connected,
        SessionEvent::LineRead("  say hello world \n".to_owned()),
    );
    assert_eq!(state, SessionState::Connected);
    match action {
        SessionAction::SendCommand(cmd) => assert_eq!(cmd, "say hello world"),
        _ => panic!("expected a command to be sent"),
    }
}

#[test]
fn a_response_is_printed_verbatim() {
    let (state, action) = session_step(
        SessionState::Connected,
        SessionEvent::CommandSucceeded("There are 3 players online".to_owned()),
    );
    assert_eq!(state, SessionState::Connected);
    match action {
        SessionAction::PrintResponse(out) => assert_eq!(out, "There are 3 players online"),
        _ => panic!("expected the response to be printed"),
    }
}

#[test]
fn a_protocol_failure_terminates_the_session() {
    let (state, action) = session_step(
        SessionState::Connected,
        SessionEvent::CommandFailed(ProtocolError::Auth),
    );
    assert_eq!(state, SessionState::Terminated);
    assert!(matches!(action, SessionAction::Fail(Error::AuthenticationError)));

    let (state, action) = session_step(
        SessionState::Connected,
        SessionEvent::InputFailed("stdin closed".to_owned()),
    );
    assert_eq!(state, SessionState::Terminated);
    match action {
        SessionAction::Fail(Error::IoError(m)) => assert_eq!(m, "stdin closed"),
        _ => panic!("expected an I/O failure"),
    }
}

#[test]
fn protocol_errors_map_onto_the_core_taxonomy() {
    assert!(matches!(
        map_protocol_error(ProtocolError::Auth),
        Error::AuthenticationError
    ));
    assert!(matches!(
        map_protocol_error(ProtocolError::CommandTooLong),
        Error::CommandTooLong
    ));
    match map_protocol_error(ProtocolError::Io("connection reset".to_owned())) {
        Error::ConnectionError(m) => assert_eq!(m, "connection reset"),
        _ => panic!("expected a connection error"),
    }
}

#[test]
fn default_config_location_names_the_backing_file() {
    if let Ok(file) = rconcrete::configfile::ConfigurationFile::build_default() {
        assert!(file.file_path.ends_with("config.json"));
    }
}
