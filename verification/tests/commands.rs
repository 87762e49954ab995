use simple_chat::commands::Command;
use simple_chat::commands::UserKind;
use simple_chat::error::Error;

#[test]
fn test() {
    let samples = vec![
        "%add_user e634488a-a14e-4166-903c-56ac9f37f8e9 normal",
        "%remove_user e634488a-a14e-4166-903c-56ac9f37f8e9",
        "%login e634488a-a14e-4166-903c-56ac9f37f8e9",
        "%show_users",
        "@Roma @Alex Пацаны, помогите распарсить",
        "Good bye, world!",
    ];
    for sample in samples {
        assert!(Command::new(sample).is_ok(), "{sample}");
    }
}

#[test]
fn login_trims_identity() {
    match Command::new("%login   alice  ") {
        Ok(Command::Login(l)) => assert_eq!(l.id, "alice"),
        _ => panic!("expected a login"),
    }
}

#[test]
fn login_empty_identity_is_accepted() {
    match Command::new("%login ") {
        Ok(Command::Login(l)) => assert_eq!(l.id, ""),
        _ => panic!("expected a login"),
    }
    match Command::new("%login") {
        Ok(Command::Login(l)) => assert_eq!(l.id, ""),
        _ => panic!("expected a login"),
    }
}

#[test]
fn plain_message_is_kept_verbatim() {
    match Command::new("Good bye,  world! ") {
        Ok(Command::Message(m)) => assert_eq!(m.message, "Good bye,  world! "),
        _ => panic!("expected a message"),
    }
}

#[test]
fn mentions_are_split_from_text() {
    match Command::new("@Roma @Alex Пацаны, помогите распарсить") {
        Ok(Command::MessageWithMentions(m)) => {
            assert_eq!(m.user_names, vec!["Roma".to_string(), "Alex".to_string()]);
            assert_eq!(m.message, "Пацаны, помогите распарсить");
        }
        _ => panic!("expected a message with mentions"),
    }
}

#[test]
fn mention_list_may_end_the_line() {
    match Command::new("@Roma ") {
        Ok(Command::MessageWithMentions(m)) => {
            assert_eq!(m.user_names, vec!["Roma".to_string()]);
            assert_eq!(m.message, "");
        }
        _ => panic!("expected a message with mentions"),
    }
    match Command::new("@Roma @Alex ") {
        Ok(Command::MessageWithMentions(m)) => {
            assert_eq!(m.user_names, vec!["Roma".to_string(), "Alex".to_string()]);
            assert_eq!(m.message, "");
        }
        _ => panic!("expected a message with mentions"),
    }
}

#[test]
fn mention_without_separator_fails() {
    assert!(matches!(
        Command::new("@Roma"),
        Err(Error::MissingUserName)
    ));
    assert!(matches!(
        Command::new("@Roma @Alex"),
        Err(Error::MissingUserName)
    ));
}

#[test]
fn empty_line_fails_with_missing_command_name() {
    assert!(matches!(
        Command::new(""),
        Err(Error::MissingCommandName)
    ));
}

#[test]
fn unknown_command_name_fails() {
    assert!(matches!(
        Command::new("%logout now"),
        Err(Error::UnknownCommand)
    ));
    assert!(matches!(Command::new("%"), Err(Error::UnknownCommand)));
}

#[test]
fn add_user_parses_kinds() {
    match Command::new("%add_user e634488a-a14e-4166-903c-56ac9f37f8e9 normal") {
        Ok(Command::AddUser(a)) => assert_eq!(a.kind, UserKind::Normal),
        _ => panic!("expected an add_user"),
    }
    match Command::new("%add_user e634488a-a14e-4166-903c-56ac9f37f8e9 admin") {
        Ok(Command::AddUser(a)) => assert_eq!(a.kind, UserKind::Admin),
        _ => panic!("expected an add_user"),
    }
}

#[test]
fn add_user_bad_uuid_fails() {
    assert!(matches!(
        Command::new("%add_user not-a-uuid normal"),
        Err(Error::InvalidUuid)
    ));
}

#[test]
fn add_user_bad_kind_fails() {
    assert!(matches!(
        Command::new("%add_user e634488a-a14e-4166-903c-56ac9f37f8e9 boss"),
        Err(Error::InvalidUserKind)
    ));
}

#[test]
fn add_user_without_kind_fails() {
    assert!(matches!(
        Command::new("%add_user e634488a-a14e-4166-903c-56ac9f37f8e9"),
        Err(Error::MissingArgument)
    ));
    assert!(matches!(
        Command::new("%add_user"),
        Err(Error::MissingArgument)
    ));
}

#[test]
fn remove_user_bad_uuid_fails() {
    assert!(matches!(
        Command::new("%remove_user junk"),
        Err(Error::InvalidUuid)
    ));
}

#[test]
fn show_users_takes_no_payload() {
    assert!(matches!(
        Command::new("%show_users"),
        Ok(Command::ShowUsers(_))
    ));
}

#[test]
fn error_messages_are_exact() {
    assert_eq!(Error::InvalidUuid.message(), "invalid uuid");
    assert_eq!(Error::UnknownCommand.message(), "unknown command");
    assert_eq!(Error::MissingArgument.message(), "missing argument");
    assert_eq!(Error::InvalidUserKind.message(), "invalid user kind");
    assert_eq!(Error::MissingUserName.message(), "missing user name");
    assert_eq!(Error::MissingCommandName.message(), "missing command name");
    assert_eq!(Error::InvalidInput.message(), "invalid or empty input");
    assert_eq!(Error::IO.message(), "input/output error");
}
