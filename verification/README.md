# glance

The logic of a small system monitor (看一眼) that shows CPU usage, memory
usage and network rates as a two-row readout: in the macOS menu bar as a
template icon, and on Windows and Linux in a small floating widget.

`src/` holds that logic, written in Verus and proved against its contracts:

- `metrics`: one refresh of CPU, memory and interface counters turned into
  the four figures (which interfaces count on each platform, the memory
  percentage, zero rates before the first network reading).
- `speed`: the byte-rate formatting (`B`/`K`/`M`/`G`) and the two rows.
- `icon`: the fixed-width cell layout of the menu bar icon.
- `locale`: whether the interface language is Chinese, from each platform's
  report; `menu`: the tray menu's labels and the launch-at-login toggle.
- `placement`: the widget's position over the Windows taskbar or on a Linux
  screen, dragging, and the saved position's text form.
- `text`: decimal formatting and parsing, Unicode white space and trimming.

`app/` is the Tauri shell: reading the system, the tray, the widget window,
drawing the icon with Core Text, and the platform calls.
