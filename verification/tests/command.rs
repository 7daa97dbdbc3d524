use notetui::command::{parse, prompted_host, Command, CommandError};
use notetui::paths::{data_dir, DataDir, DB_PATH, HOME_DATA_DIR};

fn args(list: &[&str]) -> Vec<String> {
    list.iter().map(|s| String::from(*s)).collect()
}

#[test]
fn without_arguments_the_timelines_are_shown() {
    assert!(matches!(parse(&args(&[])), Ok(Command::Timelines)));
}

#[test]
fn login_takes_a_host() {
    match parse(&args(&["login", "misskey.io", "more"])) {
        Ok(Command::Login(host)) => assert_eq!(host, "misskey.io"),
        _ => panic!("no login"),
    }
}

#[test]
fn login_without_a_host_is_refused() {
    match parse(&args(&["login"])) {
        Err(e) => {
            assert!(matches!(e, CommandError::MissingHost));
            assert_eq!(e.message(), "usage: notetui login <HOST>  (e.g. misskey.io)");
        }
        Ok(_) => panic!("accepted"),
    }
}

#[test]
fn help_is_asked_for_in_two_ways() {
    assert!(matches!(parse(&args(&["-h"])), Ok(Command::Help)));
    assert!(matches!(parse(&args(&["--help", "x"])), Ok(Command::Help)));
}

#[test]
fn unknown_commands_are_refused() {
    for word in ["logout", "Login", "", "-help"] {
        match parse(&args(&[word, "login"])) {
            Err(e) => {
                assert!(matches!(e, CommandError::Unknown(_)));
                assert_eq!(
                    e.message(),
                    format!("unknown command: {} (try `notetui login <HOST>`)", word)
                );
            }
            Ok(_) => panic!("accepted"),
        }
    }
}

#[test]
fn the_prompted_host_is_trimmed() {
    assert_eq!(prompted_host("  misskey.io\n"), Some(String::from("misskey.io")));
    assert_eq!(prompted_host("\n"), None);
    assert_eq!(prompted_host(""), None);
}

#[test]
fn the_platform_names_the_data_directory() {
    let home = Some(String::from("/home/ai"));
    assert!(matches!(data_dir(Some("/data"), home), DataDir::Platform("/data")));
}

#[test]
fn the_data_directory_is_below_home_otherwise() {
    match data_dir::<&str>(None, Some(String::from("/home/ai"))) {
        DataDir::BelowHome(home) => assert_eq!(home, "/home/ai"),
        DataDir::Platform(_) => panic!("there is no platform directory"),
    }
    match data_dir::<&str>(None, None) {
        DataDir::BelowHome(home) => assert_eq!(home, "."),
        DataDir::Platform(_) => panic!("there is no platform directory"),
    }
    assert_eq!(HOME_DATA_DIR, ".local/share");
    assert_eq!(DB_PATH, ["notecli", "notecli.db"]);
}
