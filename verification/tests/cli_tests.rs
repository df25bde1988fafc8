use dotenv_tool::cli::{parse_command, parse_path_argument, Command, Target, DEFAULT_PATH, PATH_FLAG};

fn words(line: &[&str]) -> Vec<String> {
    line.iter().map(|word| word.to_string()).collect()
}

fn at(path: &str) -> Target {
    Target { path: path.to_string(), flag_without_path: false }
}

fn here() -> Target {
    at(".")
}

#[test]
fn flag_and_default_path() {
    assert_eq!(PATH_FLAG, "--path");
    assert_eq!(DEFAULT_PATH, ".");
}

#[test]
fn path_is_the_word_behind_the_flag() {
    assert_eq!(parse_path_argument(&words(&["tool", "show", "--path", "/etc/app"])), at("/etc/app"));
    assert_eq!(parse_path_argument(&words(&["tool", "set", "K", "V", "--path", "cfg"])), at("cfg"));
    assert_eq!(parse_path_argument(&words(&["--path", "x", "--path", "y"])), at("x"));
    assert_eq!(parse_path_argument(&words(&["tool", "--path", "--path"])), at("--path"));
}

#[test]
fn path_defaults_to_current_directory() {
    assert_eq!(parse_path_argument(&words(&[])), here());
    assert_eq!(parse_path_argument(&words(&["tool", "show"])), here());
    assert_eq!(parse_path_argument(&words(&["tool", "show", "-path", "x"])), here());
}

#[test]
fn flag_without_path_falls_back_and_says_so() {
    let fallback = Target { path: ".".to_string(), flag_without_path: true };
    assert_eq!(parse_path_argument(&words(&["tool", "show", "--path"])), fallback);
    assert_eq!(parse_path_argument(&words(&["--path"])), fallback);
}

#[test]
fn no_command_asks_for_help() {
    assert_eq!(parse_command(&words(&[])), Command::Help);
    assert_eq!(parse_command(&words(&["tool"])), Command::Help);
    assert_eq!(parse_command(&words(&["tool", "--help"])), Command::Help);
    assert_eq!(parse_command(&words(&["tool", "-h"])), Command::Help);
    assert_eq!(parse_command(&words(&["tool", "-h", "show"])), Command::Help);
}

#[test]
fn show_and_its_other_names() {
    for name in ["show", "view", "find", "read"] {
        assert_eq!(
            parse_command(&words(&["tool", name])),
            Command::Show { key: None, target: here() }
        );
        assert_eq!(
            parse_command(&words(&["tool", name, "DB_NAME", "--path", "/srv"])),
            Command::Show { key: Some("DB_NAME".to_string()), target: at("/srv") }
        );
    }
}

#[test]
fn show_with_path_and_no_key() {
    assert_eq!(
        parse_command(&words(&["tool", "show", "--path", "dir"])),
        Command::Show { key: None, target: at("dir") }
    );
    assert_eq!(
        parse_command(&words(&["tool", "show", "--path"])),
        Command::Show { key: None, target: Target { path: ".".to_string(), flag_without_path: true } }
    );
}

#[test]
fn set_and_its_other_names() {
    for name in ["set", "config", "update", "edit"] {
        assert_eq!(
            parse_command(&words(&["tool", name, "K", "V"])),
            Command::Config {
                property: "K".to_string(),
                value: Some("V".to_string()),
                target: here(),
            }
        );
    }
}

#[test]
fn set_without_value_leaves_it_open() {
    assert_eq!(
        parse_command(&words(&["tool", "set", "K"])),
        Command::Config { property: "K".to_string(), value: None, target: here() }
    );
    assert_eq!(
        parse_command(&words(&["tool", "set", "K", "--path", "cfg"])),
        Command::Config { property: "K".to_string(), value: None, target: at("cfg") }
    );
}

#[test]
fn set_with_value_and_path() {
    assert_eq!(
        parse_command(&words(&["tool", "set", "DB_PORT", "5432", "--path", "./cfg"])),
        Command::Config {
            property: "DB_PORT".to_string(),
            value: Some("5432".to_string()),
            target: at("./cfg"),
        }
    );
    assert_eq!(
        parse_command(&words(&["tool", "set", "K", "\"quoted value\"", "--path"])),
        Command::Config {
            property: "K".to_string(),
            value: Some("\"quoted value\"".to_string()),
            target: Target { path: ".".to_string(), flag_without_path: true },
        }
    );
}

#[test]
fn set_without_property_is_told_apart() {
    assert_eq!(parse_command(&words(&["tool", "set"])), Command::ConfigWithoutProperty);
    assert_eq!(parse_command(&words(&["tool", "edit"])), Command::ConfigWithoutProperty);
}

#[test]
fn unknown_word_comes_back() {
    assert_eq!(
        parse_command(&words(&["tool", "delete", "K"])),
        Command::Unknown("delete".to_string())
    );
    assert_eq!(parse_command(&words(&["tool", "SHOW"])), Command::Unknown("SHOW".to_string()));
    assert_eq!(parse_command(&words(&["tool", ""])), Command::Unknown("".to_string()));
}
