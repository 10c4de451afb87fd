# axuser_perm

User and permission management for a small unikernel, written in Verus.

`src/` is the verified library:

- `permission`: the current user (`Credentials`), file capabilities
  (`fops_cap`), the execute check for scripts and directories
  (`check_execute`) and the owner-or-root rule for changing file attributes.
- `api`: logging in (`login_uid`), switching users (`ax_setuid`) and
  `sudo`, checked against the password and sudoers files; password key editing.
- `user`: reading `/etc/passwd` into a table by user id (`user_list`,
  `user_name`, `user_id`) and `/etc/sudoers` (`is_sudoer`).
- `shadow`: password hashes in `/etc/shadow` (`verify`, `set_password`),
  with the round-trip laws.
- `shell`, `commands`, `script`: the shell's user and group tables and the
  parsing and decisions of its commands (`chmod`, `chown`, `su`, `echo`,
  `adduser`, `deluser`, `ll`, the steps of a command line and the lines
  a script runs).
- `text`: the string model (splitting, trimming, numerals) the rest is
  stated in.
- `env`, `fs_user`: the environment calls and the file system's own copies.

`app/` is the shell program around it: console, files and the process-wide
state. `tests/` runs the library on concrete values.
