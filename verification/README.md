# Ubuntu Miracast Server

A Miracast (Wi-Fi Display) receiver. The logic is a Verus library whose
contracts are proved; a thin program around it does the input and output.

- `src/` is the library: the RTSP messages and the session with the source, the
  bring-up of the Wi-Fi Direct group, the DHCP replies, the plan of the media
  pipeline, the watch over the stream, the configuration and the history, and
  the decisions of the service and of the window. `src/outside.rs` holds all
  that is trusted of other crates.
- `tests/` runs the library.
- `app/` is the program: sockets, processes, files, D-Bus, GStreamer and GTK. It
  carries out what the library decides and hands back what came of it.

Public proof functions whose names begin with `law_` state what holds across
several functions.
