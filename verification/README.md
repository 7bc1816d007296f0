# remote_sessions

Remote tmux session management over ssh: the library behind a panel that
lists configured hosts, connects to them through a shared ssh master and a
tmux control-mode client, and shows and manages their sessions.

- `src/` is the verified library. Each module states its behaviour in
  `requires`/`ensures` over spec functions and views, and proves it:
  - `text`: the string operations the rest is built on, with their specs;
  - `commands`: tmux command lines, shell quoting, `list-sessions` rows;
  - `cc_parser`: tmux control-mode output, line by line;
  - `probe`: ssh error classification and the probe report;
  - `remote_hosts`, `ssh_args`, `working_dir_editor`: host configuration
    and the ssh / editor command lines built from it;
  - `connection`: the control connection's reader state machine;
  - `model`: the hosts' connection states;
  - `attach_registry`: which terminal is attached to which tmux session;
  - `panel`, `host_form`, `hosts_page`: the decisions of the panel, the
    host form and the settings page.
- `tests/` runs the library on concrete inputs.
- `app/` holds what cannot be verified: processes, timers, settings storage
  and the views of the desktop application, which call the library for
  every decision.
