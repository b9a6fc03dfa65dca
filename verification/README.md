# waylandcraft (Windows window layer)

The native Windows side of a Minecraft mod that shows the windows of real
desktop applications inside the game: it launches applications onto a hidden
desktop, captures their windows, and forwards the player's mouse and keyboard
to them.

- `src/` is the library, verified with Verus: the window registry and its
  handles, launch tracking, the window scanner's rules, capture bookkeeping,
  input planning, the launcher list, command lines and shortcut handling.
  Calls into other crates and into std that Verus has no specification for
  go through small trusted functions whose contracts state what those calls
  return. The public proof functions in `src/laws.rs` (and a few beside the
  definitions they speak of) state properties that span several functions.
- `tests/` runs the library on concrete values.
- `app/` is the Windows-only glue around it: the JNI entry points, Win32
  window enumeration, Windows Graphics Capture and PrintWindow capture,
  posted input messages, UI Automation and process creation. It gathers
  plain values, checks the library's preconditions before each call (failing
  as the game expects where they do not hold), calls the library and carries
  out what the library returns, in the order the library gives it.
