# auth_client

The client side of interactive SSH authentication in a terminal multiplexer: a machine that asks
for authentication gets a badge, a click on the badge opens a popup, and the popup shows a program
that authenticates on a PTY. What the user types goes to that program and nowhere else.

- `src/` is the library. It is verified with Verus; only the calls into other crates and some of
  std's, each in a small function of its own, have contracts that are believed.
  - `input_epoch`: who owns input that was read before or after a popup closed
  - `shell`, `shell::auth`, `shell::frame`: badges, popup, input to the popup, painting
  - `ssh_auth`: the command on the PTY, and the channels to and from it
  - `ssh_authentication`: one attempt at a time: start, input, polling, success and failure
  - `endpoint`, `error`, `input`, `rect`, `style`, `text`: what these are made of
- `app/` does what needs the host: the PTY with its threads, the terminal, and the conversion of
  crossterm, ratatui and portable-pty values. The client implements the trait `Host` of `app/host.rs`.
- `tests/` runs the library, also on real PTYs and real ratatui buffers.

The functions named `law_...` state what holds across several functions.

The doc comment of a function whose contract is believed says what is claimed of the outside
function that it calls.
