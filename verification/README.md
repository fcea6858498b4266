# helium_api

Ground-station side of a serial telemetry link.

- `src/` is the verified library: COBS framing (`cobs`), the backend state
  machine (`backend`, `query`), the layout of the packet logs (`logfile`), and
  the state of the monitoring widgets (`cursor`, `sensor_ui`, `panel_ui`,
  `select_port`).
- `app/` is the desktop program: it opens the serial port, reads and writes
  it, writes the log files, and draws the widgets; the library decides what
  each step does.
- `tests/` runs the library on concrete inputs.
