# rdev

A remote development proxy: edit locally, build and run on a remote server.
`rdev go build ./...` syncs the project with rsync to `root/<project name>`
on the current server and runs the command there over ssh, in the remote
login shell, with the remote exit code passed back.

## Layout

- `src/` — the verified library. It decides what is sent where:
  - `shell_words.rs`: a model of how a POSIX shell splits a command line into
    words, and the laws that quoted arguments arrive intact;
  - `ssh.rs`: quoting, the remote project path, the remote scripts of a run,
    an interactive shell and the quick checks, and the ssh argument lists;
  - `sync.rs`: the rsync arguments of a sync (built-in exclusions and the
    `.gitignore` patterns, never `--delete`) and of a pull;
  - `task.rs`: the scripts that start, inspect and tail a background task;
  - `setup.rs`: the provisioning script and its ssh arguments;
  - `config.rs`: servers, kept in name order, the current one, root
    validation and the location of the configuration file;
  - `commands.rs`: the `server add/use/ls/rm/setup` decisions;
  - `project.rs`, `paths.rs`: finding the project root and the current
    directory inside it, over a model of slash-separated paths;
  - `names.rs`, `text.rs`, `error.rs`: name order, character helpers, errors.
- `app/` — the command line: argument parsing, the environment, the file
  system, the TOML configuration file, and running ssh and rsync.
- `tests/` — tests of the library on concrete values.
