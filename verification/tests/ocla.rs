use lean_ctx::ocla::{handle, OclaCommand, OclaError};

fn names(v: &[&str]) -> Vec<String> {
    v.iter().map(|s| s.to_string()).collect()
}

#[test]
fn status_and_bare_ocla_report_status() {
    assert_eq!(handle(&names(&["ocla", "status"])), Ok(OclaCommand::Status));
    assert_eq!(handle(&names(&["ocla"])), Ok(OclaCommand::Status));
    assert_eq!(handle(&names(&[])), Ok(OclaCommand::Status));
    assert_eq!(handle(&names(&["status", "anything"])), Ok(OclaCommand::Status));
}

#[test]
fn unknown_subcommand_is_refused() {
    let r = handle(&names(&["ocla", "ocla", "purge"]));
    assert_eq!(r, Err(OclaError::UnknownSubcommand("purge".to_string())));
    if let Err(e) = r {
        assert_eq!(e.message(), "unknown ocla subcommand: purge");
    }
}
