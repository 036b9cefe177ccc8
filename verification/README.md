# ashell core

The verified core of a Wayland status bar, written in Verus.

- `src/` holds the logic, each function with a contract that Verus proves:
  how each compositor backend's replies map into the bar's state, the
  tray, power, network, audio, Bluetooth, notification and service models,
  the iCalendar reader and recurrence expansion, and icon-name matching.
  Calls into chrono, chrono-tz, swayipc-types and std that the proofs rely
  on stand behind small trusted wrappers whose contracts say what those
  libraries document.
- `app/` is the unverified I/O around it: sockets of the compositors,
  command line tools, files and the environment. It converts what it reads
  into the library's types and carries out the library's decisions.
- `tests/` runs the library on concrete values.
