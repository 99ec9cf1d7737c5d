# roost

A daemon that runs the game servers of one node of a Pterodactyl panel: it keeps
their containers, shows their consoles, moves, packs and restores their files,
and answers the panel's API.

`src/` is the library. It holds what the daemon decides and computes, with
contracts that Verus proves:

- `server/` the state of a server and what may happen to it: power, crashes,
  installs, transfers, the console, activity, and the registry of all servers
- `docker/` the settings of containers, networks and images
- `router/` what requests mean: files, backups, downloads, uploads, websockets
- `sftp/` logins, permissions, paths and listings
- `parser/` the rewriting of a server's configuration files
- `jwt/` tokens, and the store of those that were used or revoked
- `remote/`, `models/` calls to the panel and what they carry
- `config`, `cli`, `diagnostics` the daemon's own settings and commands
- `text`, `json`, `codec`, `paths`, `numbers`, `ids`, `net`, `pattern`, `digest`
  what all of these are made of

Calls into other crates stand behind small trusted functions whose doc comments
say what is claimed of the call.

`app/` is the program: sockets, files, Docker, SQLite and the panel's HTTP API,
each step decided by the library.

`tests/` runs the library on concrete values.
