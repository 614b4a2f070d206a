# vendorfiles

Pulls files out of GitHub repositories into a project, and keeps them up to date. A config file
(`vendor.json`, `vendor.yml`, `vendor.toml` or `package.json`) lists the dependencies; a lockfile in
each dependency's folder records what was written there.

The project is in two parts.

* `src/` is a library in Verus. It holds everything the tool decides: what a command line asks for,
  how a config is found, read and edited, which version is installed and whether that is stale, what
  goes into the lockfile, which registry entry a name means, how a request to GitHub is worded and
  its answer understood, and what the live display shows. Every function has a contract that Verus
  proves.
* `app/` is the `vendor` program around it: the terminal, the disk, the network and the credential
  store. It hands plain values to the library and does what the library says.

## Modules

| module | what it is about |
| --- | --- |
| `text`, `value` | text as sequences of characters; maps in insertion order; documents |
| `codec` | reading JSON, YAML and TOML, and writing JSON |
| `template`, `source` | `{version}` and `{release}` in paths; repository URLs; `name@version` |
| `model` | dependencies as they are written, validated and resolved |
| `config` | finding, reading, editing and rendering config files |
| `lockfile` | what was written into a dependency's folder |
| `fsx`, `archive` | paths; telling archives apart and naming what is in them |
| `github` | URLs, releases, quotas, refusals, tokens |
| `registry` | programs by name, and what each host gets |
| `ops` | install, sync, uninstall, and the choice of a version |
| `progress`, `ui` | the state of a run, the rows on screen, and the lines that are printed |
| `grammar`, `cli`, `help`, `help_text`, `known`, `run` | the command line and what each command does |
| `error` | what can go wrong, and how it is said |

Paths are text. Whether they are those of Windows, with drives and both separators, is told to the
functions that take them apart, so both kinds are handled alike on every platform.

## What is taken on trust

Calls into other crates stand behind small functions marked `external_body`. Each says in its doc
comment which function it calls and what it claims of it. They cover `serde_json`, `serde_yaml_ng`
and `toml_edit` for documents, `indexmap` for the order of keys, `regex` and `fancy_regex` for
patterns, and `zip` for the listing of an archive held in memory.

Laws that hold across several functions are public proof functions beside them, such as
`lockfile::a_lockfile_reads_back` or `registry::resolve::an_output_lands_in_the_folder`.
