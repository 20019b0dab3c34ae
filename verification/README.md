# WindowWarden

WindowWarden applies per-application rules on Windows based on the foreground
window: it confines the cursor while a managed application is in front, and
mutes a managed application while it is in the background, restoring only the
mutes it added.

## Layout

- `src/` is the verified library (Verus). It holds the rules: which managed
  application a process is (`identity`), what the cursor lock decides (`lock`),
  which audio sessions to mute and restore (`mute`, with its laws in
  `mute_laws`), how running applications are listed (`processes`), what the
  editor accepts (`editor`) and what the settings window decides (`panel`),
  where the settings live and how start-up reads them (`config`, `stored`),
  which translation to use (`language`), and small shell decisions (`shell`).
- `tests/` exercises the library on concrete values.
- `app/` is the Windows program around it: the Win32 and COM calls, file and
  registry access, JSON (de)serialisation and the main loop, which hands the
  library plain values and carries out what it decides. It runs without a
  window or tray icon: the window and tray are Slint markup (`ui/*.slint`) with
  bundled translations, which are not part of this tree, so the settings
  window's decisions (`panel`) and the tray's (`shell`) are verified but have
  no window to drive them here.
