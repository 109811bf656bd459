# formatpen

A removable-drive formatter for Linux (GTK4/Libadwaita, UDisks2), whose rules
are a library verified with Verus.

- `src/` — the library. Which UDisks2 block devices are offered as removable
  drives (`services::udisks`), which UDisks2 calls reformat a drive
  (`services::format`: unmount every partition, delete them, write a new
  partition table, create one partition and its filesystem), how a volume
  label is checked and cut (`label_validation`), how a failed format and a
  missing system component are explained (`format_errors`, `environment`),
  what the window shows after a refresh (`window_state`) and the stored
  update preference (`updater`). Text rules (`text`) and the order of paths
  (`ordering`) are shared.
- `app/` — the program: D-Bus calls, files, environment variables,
  AppImage updates and the GTK interface, handing plain values to the library.
- `tests/` — tests of the library.
