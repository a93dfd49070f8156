# Biquad Studio core

The verified core of Biquad Studio, a desktop audio suite (parametric EQ,
AutoEQ headphone calibration, per-channel routing and mixing).

- `src/` is the library, verified with Verus: the AutoEQ `ParametricEQ.txt`
  parser and its text and number grammar (`parser`, `text`, `number`, `order`),
  the headphone database (`database`, `profile`), the running-application list
  (`process`), the audio endpoint list (`device`), the plugin's command
  decisions (`commands`, `params`), the engine and stream lifecycles
  (`engine`, `stream`), the hotkey and tray decisions (`shell`), the noise
  processor's frame check (`noise`) and the MXCSR bits of the denormal guard
  (`denormals`).
- `tests/` runs the library on concrete inputs.
- `app/` is the Windows desktop program around it: the Tauri shell and plugin,
  the WASAPI threads and device calls, the directory walk, and the `f32` DSP
  stages (biquad coefficients, equalizer, crossfader, limiter).
