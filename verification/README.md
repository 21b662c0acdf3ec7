# rolling_reboot

A rolling reboot of servers over SSH, with a terminal view of its progress.

`src/` is a Verus library that holds every decision of the tool, each with
its contract:

- `server`: servers, their statuses, and how a `host` or `host:port` entry
  is read.
- `fleet`: the list of servers from the command line and a server file.
- `text`: the character-level work behind it (trimming, port numbers,
  decimal digits, search and replace, line splitting).
- `rolling`: the scheduler of the rolling reboot, a state machine from
  events to actions, with its laws (concurrency bound, order of starts,
  stopping on failure, statuses that only move forward).
- `command`: the SSH and verification command lines, and how their results
  are read.
- `app`, `order`, `view`: what the terminal shows (the sorted server table,
  header counts, status bar).

`app/` is the program around it: command line, file reading, running
commands and timers with tokio, and drawing with ratatui.
