# piper_poc

A small desktop front end for the piper text-to-speech synthesizer, whose
logic is a library verified with Verus.

- `src/` is the verified library:
  - `voices`: which files of the models directory are voice models, the
    voices' names (the files' stems) and their order (a stable sort by name);
  - `synthesis`: the synthesis protocol of the piper C API, from return codes
    and audio chunks to the collected samples and sample rate;
  - `playback`: the channel layout for the output device (each sample on
    every channel of its frame) and the filling of the device's buffers;
  - `controls`: which voice a request uses and the status line;
  - `wav`: the format speech is saved in;
  - `text`: code point ordering, string equality and decimal formatting.
- `app/` is the program around it: the window (Slint), the piper C library,
  the audio device (cpal), the WAV file (hound), the directory walk, and the
  floating-point resampling and sample scaling.
- `tests/` runs the library on concrete values.
