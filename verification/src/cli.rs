//! The command line: which command is asked for, on which key, and where the
//! file lies.

use vstd::prelude::*;
use vstd::string::*;
use crate::text::{lemma_position_at, position, str_eq};

verus! {

/// The flag that is followed by the directory or file to work on.
pub const PATH_FLAG: &'static str = "--path";

/// The path to work on where none is given: the current directory.
pub const DEFAULT_PATH: &'static str = ".";

/// Where the file lies, as the arguments say.
#[derive(Debug, Clone, PartialEq, Eq)]
pub struct Target {
    /// The directory or file to work on.
    pub path: String,
    /// The path flag was the last word, with no path behind it, so `path` is
    /// the current directory.
    pub flag_without_path: bool,
}

/// What the command line asks for.
#[derive(Debug, Clone, PartialEq, Eq)]
pub enum Command {
    /// To print the usage text.
    Help,
    /// To show every assignment, or the one for `key`.
    Show { key: Option<String>, target: Target },
    /// To set `property` to `value`, or to a value yet to be asked for.
    Config { property: String, value: Option<String>, target: Target },
    /// To set a property that is not named.
    ConfigWithoutProperty,
    /// Something that is no command.
    Unknown(String),
}

/// A word that asks to show the file.
pub open spec fn is_show_word(word: Seq<char>) -> bool {
    word == "show"@ || word == "view"@ || word == "find"@ || word == "read"@
}

/// A word that asks to set a key.
pub open spec fn is_set_word(word: Seq<char>) -> bool {
    word == "set"@ || word == "config"@ || word == "update"@ || word == "edit"@
}

/// A word that asks for the usage text.
pub open spec fn is_help_word(word: Seq<char>) -> bool {
    word == "--help"@ || word == "-h"@
}

/// The path that the arguments name, and whether the path flag stood without
/// one. The path is the word behind the first path flag; it is the current
/// directory where that flag is the last word or is not there at all.
pub open spec fn path_argument(args: Seq<Seq<char>>) -> (Seq<char>, bool) {
    let at = position(args, PATH_FLAG@);
    if 0 <= at && at + 1 < args.len() {
        (args[at + 1], false)
    } else if at < args.len() {
        (DEFAULT_PATH@, true)
    } else {
        (DEFAULT_PATH@, false)
    }
}

/// The key to show: the word behind the command, unless it is the path flag.
pub open spec fn show_key(args: Seq<Seq<char>>) -> Option<Seq<char>> {
    if args.len() > 2 && args[2] != PATH_FLAG@ {
        Some(args[2])
    } else {
        None
    }
}

/// The value to set: the word behind the property, unless the path flag
/// stands there or before it.
pub open spec fn set_value(args: Seq<Seq<char>>) -> Option<Seq<char>> {
    if args.len() > 3 && position(args, PATH_FLAG@) > 3 {
        Some(args[3])
    } else {
        None
    }
}

/// The index of the first path flag among `args`, or their number where there is none.
fn find_path_flag(args: &Vec<String>) -> (at: usize)
    ensures
        at == position(args.deep_view(), PATH_FLAG@),
        at <= args.len(),
{
    let mut at: usize = 0;
    while at < args.len() && !str_eq(args[at].as_str(), PATH_FLAG)
        invariant
            at <= args.len(),
            forall|j: int| 0 <= j < at ==> #[trigger] args.deep_view()[j] != PATH_FLAG@,
        decreases args.len() - at,
    {
        assert(args.deep_view()[at as int] == args[at as int]@);
        at += 1;
    }
    proof {
        if at < args.len() {
            assert(args.deep_view()[at as int] == args[at as int]@);
        }
        lemma_position_at(args.deep_view(), PATH_FLAG@, at as int);
    }
    at
}

/// The path to work on, given the index `at` of the first path flag.
fn target_behind(args: &Vec<String>, at: usize) -> (target: Target)
    requires
        at == position(args.deep_view(), PATH_FLAG@),
        at <= args.len(),
    ensures
        (target.path@, target.flag_without_path) == path_argument(args.deep_view()),
{
    if at < args.len() && args.len() - at > 1 {
        assert(args.deep_view()[at + 1] == args[at + 1]@);
        Target { path: args[at + 1].clone(), flag_without_path: false }
    } else {
        Target { path: String::from_str(DEFAULT_PATH), flag_without_path: at < args.len() }
    }
}

/// The path to work on, taken from the path flag, and the current directory
/// where the flag has no path behind it or is not given.
pub fn parse_path_argument(args: &Vec<String>) -> (target: Target)
    ensures
        (target.path@, target.flag_without_path) == path_argument(args.deep_view()),
{
    target_behind(args, find_path_flag(args))
}

/// Reads the command line. `args` are its words, the program's name first.
/// Without a command, and for a word that asks for help, the answer is
/// `Help`. A word that is no command comes back as `Unknown`.
pub fn parse_command(args: &Vec<String>) -> (command: Command)
    ensures
        ({
            let words = args.deep_view();
            if words.len() < 2 {
                command is Help
            } else if is_show_word(words[1]) {
                &&& command matches Command::Show { key, target }
                &&& key.deep_view() == show_key(words)
                &&& (target.path@, target.flag_without_path) == path_argument(words)
            } else if is_set_word(words[1]) {
                if words.len() < 3 {
                    command is ConfigWithoutProperty
                } else {
                    &&& command matches Command::Config { property, value, target }
                    &&& property@ == words[2]
                    &&& value.deep_view() == set_value(words)
                    &&& (target.path@, target.flag_without_path) == path_argument(words)
                }
            } else if is_help_word(words[1]) {
                command is Help
            } else {
                command matches Command::Unknown(word) && word@ == words[1]
            }
        }),
{
    let ghost words = args.deep_view();
    if args.len() < 2 {
        return Command::Help;
    }
    assert(words[1] == args[1]@);
    let word = args[1].as_str();
    if str_eq(word, "show") || str_eq(word, "view") || str_eq(word, "find") || str_eq(
        word,
        "read",
    ) {
        let target = parse_path_argument(args);
        let key = if args.len() > 2 && !str_eq(args[2].as_str(), PATH_FLAG) {
            assert(words[2] == args[2]@);
            Some(args[2].clone())
        } else {
            assert(args.len() > 2 ==> words[2] == args[2]@);
            None
        };
        Command::Show { key, target }
    } else if str_eq(word, "set") || str_eq(word, "config") || str_eq(word, "update") || str_eq(
        word,
        "edit",
    ) {
        if args.len() < 3 {
            return Command::ConfigWithoutProperty;
        }
        assert(words[2] == args[2]@);
        let flag_at = find_path_flag(args);
        let target = target_behind(args, flag_at);
        let value = if args.len() > 3 && flag_at > 3 {
            assert(words[3] == args[3]@);
            Some(args[3].clone())
        } else {
            None
        };
        Command::Config { property: args[2].clone(), value, target }
    } else if str_eq(word, "--help") || str_eq(word, "-h") {
        Command::Help
    } else {
        Command::Unknown(args[1].clone())
    }
}

} // verus!
