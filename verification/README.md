# audiover

The core of Audiover, a real-time voice changer and soundboard for Linux
on PipeWire / PulseAudio, written as a Verus library. The functions of `src/` carry contracts that
Verus proves, except a few small trusted wrappers (marked
`#[verifier::external_body]`) around calls into std, serde_json, base64,
uuid and evdev: each one's doc comment says what its contract claims of
the call, and those claims are what the proofs rest on.

- `src/` — the verified library:
  - `hotkeys`, `keymap`: global hotkey bindings, routing of key presses,
    the per-key debounce, binding requests from the user.
  - `settings`: what is restored from the settings file's text at
    start-up (bindings, saved sounds, block size, devices, language).
  - `devices`, `config`: which microphone, monitor and stream
    configuration the engine opens; never one of Audiover's own virtual
    devices.
  - `router`, `pactl`: the setup and teardown of the virtual sink and
    microphone as a step function, and the text `pactl` and WirePlumber
    read and write.
  - `playback`, `library`, `soundboard`: which frames of which sound play
    in each block, the sound library, sound ids, hotkeys and dropped files.
  - `presets`: built-in and user voice presets and the active one.
  - `log_buffer`: the bounded, numbered in-memory log.
  - `table`, `text`: a table by name and the string helpers.
- `tests/` — tests of the library on concrete values.
- `app/` — the program around it: the effects chain and resampling in
  floating point, the cpal streams, `pactl`/`pacat`, evdev, reading and
  writing the settings file, and the command loop for the front end.
