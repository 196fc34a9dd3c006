use vstd::prelude::*;
use crate::text::same_text;

verus! {

/// The command that an invocation asks for.
#[derive(Clone, Debug, PartialEq, Eq)]
pub enum SubCommand {
    List,
    Port { app_name: Option<String> },
    Link { app_name: Option<String> },
    Unlink { app_name: Option<String> },
    Procfile,
}

/// What the command line asks for.
#[derive(Clone, Debug, PartialEq, Eq)]
pub struct Options {
    pub sub_command: SubCommand,
}

/// The options for the subcommand called `name` (empty where none was given)
/// with the entry name `app`, or `None` where the subcommand is unknown.
pub open spec fn options_for(name: Seq<char>, app: Option<String>) -> Option<Options> {
    if name == "list"@ || name.len() == 0 {
        Some(Options { sub_command: SubCommand::List })
    } else if name == "procfile"@ {
        Some(Options { sub_command: SubCommand::Procfile })
    } else if name == "port"@ {
        Some(Options { sub_command: SubCommand::Port { app_name: app } })
    } else if name == "link"@ {
        Some(Options { sub_command: SubCommand::Link { app_name: app } })
    } else if name == "unlink"@ {
        Some(Options { sub_command: SubCommand::Unlink { app_name: app } })
    } else {
        None
    }
}

/// The options for the subcommand called `name` with the entry name `app`.
pub fn options_from(name: &str, app: Option<String>) -> (r: Option<Options>)
    ensures
        r == options_for(name@, app),
{
    proof {
        reveal_strlit("list");
        reveal_strlit("procfile");
        reveal_strlit("port");
        reveal_strlit("link");
        reveal_strlit("unlink");
    }
    if same_text(name, "list") || name.is_empty() {
        Some(Options { sub_command: SubCommand::List })
    } else if same_text(name, "procfile") {
        Some(Options { sub_command: SubCommand::Procfile })
    } else if same_text(name, "port") {
        Some(Options { sub_command: SubCommand::Port { app_name: app } })
    } else if same_text(name, "link") {
        Some(Options { sub_command: SubCommand::Link { app_name: app } })
    } else if same_text(name, "unlink") {
        Some(Options { sub_command: SubCommand::Unlink { app_name: app } })
    } else {
        None
    }
}

} // verus!
