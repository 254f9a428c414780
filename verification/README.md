# Hermes desktop shell

A desktop shell shows a web interface in tabs of its own: one window holds a tab bar and
one webview for each tab. This crate is the logic of that shell, written and proved in
Verus.

- `src/` is the library. It holds the registry of windows and tabs and decides what each
  event leads to. It performs nothing itself: every operation returns the steps to take,
  and its contract equates the new state and those steps with a function of the old state.
  What holds across operations is proved in `laws`, `screen`, `jars` and `restoring`.
- `tests/` runs the library on concrete values.
- `app/` is the shell around it: windows, webviews, files and menus.

Three items are taken on trust: the parser of the `url` crate, whose result is only named,
and `push` and `to_lowercase` of std.
