# benilla_app

The input-side decisions of a Bevy game client, written in Verus and proved against their
contracts.

- `src/touch.rs`: the touch arbiter. Each finger gets a role (movement stick, UI pointer or
  free-swipe look) once, on touchdown, and keeps it until it lifts; at most one finger holds the
  stick; a finger is retired only after its release has been published.
- `src/keyboard.rs`: when the Android soft keyboard goes up and down.
- `src/camera_view.rs`: the camera-view verbs of the Lua surface and their request queue.
- `src/config.rs`: how an on/off tunable is read from its environment value.
- `app/`: the Bevy plugins and Lua globals around the library: touches, window, time, the
  floating-point stick, look and tap arithmetic, the on-screen stick, and the platform calls.
- `tests/`: scenarios for each module.
