# remani

The logic of a 7-key rhythm game, verified with Verus: readers for osu!mania
charts (`.osu`), O2Jam charts and sound banks (`.ojn`, `.ojm`) and osu! skin
settings (`skin.ini`), the checks on the game configuration, and the play
model that makes notes pending, reports misses and judges key presses.

Layout:

- `src/text.rs`, `src/bytes.rs`: reading text lines and little-endian binary
  records.
- `src/chart/`: the chart model (`mod.rs`), the `.osu` line reader (`osu.rs`)
  and the finished osu chart (`osu_chart.rs`), the `.ojn` and `.ojm` readers.
- `src/skin.rs`: `skin.ini`, and the search for a skin's image files.
- `src/config.rs`: the game configuration.
- `src/button.rs`: the display names of bound keys and buttons.
- `src/model.rs`: the play model.
- `src/scene.rs`: the play scene's decisions on each update (autoplay sounds,
  leaving after the chart ends).
- `src/audio.rs`: choosing a music decoder and walking shared sample buffers.
- `app/`: a command-line front end that reads files, decodes music and prints
  what the library finds.

Times are whole nanoseconds: a number read from a chart is held exactly to
the millionth (a millisecond time to the nanosecond), and digits past the sixth
decimal place are dropped. A hit object's x position is read with every digit
to find its column. Exponents, `inf` and `NaN`, which osu! never writes, are
refused. Nothing in the library uses floating point; the front end converts.
