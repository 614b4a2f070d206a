//! The help pages.

use vstd::prelude::*;

verus! {

/// The page of `vendor` with no subcommand.
pub const ROOT_HELP: &'static str = "Usage: vendor [options] [command]\n\n\
Keep files from GitHub repositories in a project and up to date\n\n\
Options:\n\
\x20 -c, --config <file/folder path>             Config file path, or a folder containing the config file\n\
\x20 -p, --plain                                 Print plain lines instead of a live display\n\
\x20 -v, --version                               output the current version\n\
\x20 -h, --help                                  display help for command\n\n\
Commands:\n\
\x20 sync|s [options]                            Sync all dependencies in the config file\n\
\x20 update|upgrade [options] [names...]         Update all/selected dependencies to their latest version\n\
\x20 outdated|o                                  List outdated dependencies\n\
\x20 install|add [options] <url/name...>         Install dependencies\n\
\x20 uninstall|remove [names...]                 Uninstall all/selected dependencies\n\
\x20 list|ls                                     List dependencies in the config file\n\
\x20 config|cfg [command]                        Show or edit the config file\n\
\x20 login|auth [token]                          Login to GitHub to increase rate limit\n\
\x20 completions <shell>                         Print a shell completion script\n\
\x20 help [command]                              display help for command\n";

/// The page of `vendor sync`.
pub const SYNC_HELP: &'static str = "Usage: vendor sync|s [options]\n\n\
Sync all dependencies in the config file\n\n\
Options:\n\
\x20 -f, --force  Force sync\n\
\x20 -h, --help   display help for command\n";

/// The page of `vendor update`.
pub const UPDATE_HELP: &'static str = "Usage: vendor update|upgrade [options] [names...]\n\n\
Update all/selected dependencies to their latest version\n\n\
Arguments:\n\
\x20 names       Names of dependencies to update\n\n\
Options:\n\
\x20 --pr        Output a pull request body\n\
\x20 -h, --help  display help for command\n";

/// The page of `vendor outdated`.
pub const OUTDATED_HELP: &'static str = "Usage: vendor outdated|o [options]\n\n\
List outdated dependencies\n\n\
Options:\n\
\x20 -h, --help  display help for command\n";

/// The page of `vendor install`.
pub const INSTALL_HELP: &'static str = "Usage: vendor install|add [options] <url/name...>\n\n\
Install dependencies. Each source can be a GitHub repo URL or owner/repo format\n\
or name of repo to search for, and may pin a version as source@version.\n\n\
Arguments:\n\
\x20 url/name                GitHub repo URL or owner/repo format or name of repo\n\
\x20                         to search for, optionally as source@version\n\n\
Options:\n\
\x20 -n, --name [name]       Name to write in dependencies\n\
\x20 -f, --files <files...>  Files to install\n\
\x20 --refresh               Re-check the program registry\n\
\x20 --dry-run               Print the entry, change nothing\n\
\x20 -h, --help              display help for command\n\n\
A name in the program registry needs no files; otherwise provide them with -f or\n\
--files <files...>\n\n\
Examples:\n\
\x20   vendor add React -n MyReact -f README.md\n\
\x20   vendor add Araxeus/vendorfiles@v1.0.0 -f README.md LICENSE\n\
\x20   vendor add rg fd\n";

/// The page of `vendor uninstall`.
pub const UNINSTALL_HELP: &'static str = "Usage: vendor uninstall|remove [options] [names...]\n\n\
Uninstall all/selected dependencies\n\n\
Arguments:\n\
\x20 names       Names of dependencies to uninstall\n\n\
Options:\n\
\x20 -h, --help  display help for command\n";

/// The page of `vendor list`.
pub const LIST_HELP: &'static str = "Usage: vendor list|ls [options]\n\n\
List dependencies in the config file\n\n\
Options:\n\
\x20 -h, --help  display help for command\n";

/// The page of `vendor config`.
pub const CONFIG_HELP: &'static str = "Usage: vendor config|cfg [options] [command]\n\n\
Print the path of the config file, or act on it\n\n\
Options:\n\
\x20 -h, --help     display help for command\n\n\
Commands:\n\
\x20 edit [editor]  Open the config file in an editor\n\
\x20 list|ls        List the dependencies in the config file\n";

/// The page of `vendor login`.
pub const LOGIN_HELP: &'static str = "Usage: vendor login|auth [options] [token]\n\n\
Login to GitHub to increase rate limit\n\n\
Arguments:\n\
\x20 token       GitHub token (leave empty to login via browser)\n\n\
Options:\n\
\x20 -h, --help  display help for command\n";

/// The page of `vendor completions`.
pub const COMPLETIONS_HELP: &'static str = "Usage: vendor completions [options] <shell>\n\n\
Print a shell completion script\n\n\
Arguments:\n\
\x20 shell       bash, elvish, fish, powershell or zsh\n\n\
Options:\n\
\x20 -h, --help  display help for command\n";

} // verus!
