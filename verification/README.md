# dynamod

The decisions of the dynamod init system, verified with Verus, and the programs
around them.

`src/` is the library. It neither reads nor writes files, opens no sockets and
starts no processes: its functions take what was read as plain values and return
what is to be written, sent or done. Each public function states in its contract
what it returns for every input; properties that span several functions stand as
public proof functions beside them.

| module      | what it decides                                                        |
|-------------|------------------------------------------------------------------------|
| `common`    | messages between the programs, their frames, names and states          |
| `svmgr`     | services: definitions, dependencies, supervision, readiness, shutdown   |
| `logind`    | sessions, seats, users, devices, inhibitor locks and power actions      |
| `sd1bridge` | services as units on the bus                                           |
| `hostnamed` | host name, locale, keyboard and time zone files                        |
| `logd`      | log entries and their storage                                          |
| `sdnotify`  | readiness notification and session queries for services                |
| `pam`       | the session that a login opens                                         |
| `ctl`       | what the command line tool asks for and prints                         |

The modules `text`, `names`, `ids`, `time`, `fspath` and `bus` hold what the
others share: scanning and building texts, maps by name or number, spans of
time, paths and object paths.

`tests/` runs the library on concrete values. `app/` holds the programs: they do
the I/O, talk to the bus and the kernel, and leave every decision to the library.
