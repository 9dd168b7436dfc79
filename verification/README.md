# lambda_dx

Chart model and chart conversions of the LambdaDX rhythm-game chart editor,
written in Verus with their contracts proved.

Chart positions and lengths are whole numbers of measure quanta: 100000
quanta make one measure, and measure 1 (the first beat) is position 100000.
`{split, beat}` time points are read exactly as fractions and then placed on
this grid at the nearest step. Tempos and offsets use the same 1/100000
scale. Everything the library computes is exact integer arithmetic.

## Layout

- `src/model.rs` notes, slides and charts, their views, ordering by time.
- `src/cli.rs` launch options.
- `src/beat_format.rs` the saved beat format (measure, beat, division,
  offset) and its round trips.
- `src/maichart.rs` the `chart.json` (serialized simai) loader logic,
  double stars, each groups, note ids.
- `src/maidata.rs`, `src/simai_io.rs`, `src/simai_source.rs` parsed Simai
  charts into charts, chart selection, the maidata header.
- `src/simai_export.rs` charts back into Simai charts, and the round trip
  of slide tracks.
- `src/hotkeys.rs` the editor's command keys (play, record, clear, pad-only
  view, mobile UI, audio, hide, load, save, scale, delete, flag toggles):
  the new editor state and the work handed to the front end.
- `src/simai_write.rs` Simai text: the notes of one time step, the layout
  of a chart's steps, a file's header and charts.
- `src/slide_match.rs`, `src/pad.rs` slide shapes from waypoints, pad zone
  numbering, judge segments of a slide trail.
- `src/chart.rs`, `src/params.rs`, `src/session.rs`, `src/audio.rs` the
  demo chart, parameter switches, judgement-core sessions, PCM decoding.
- `app/` the command-line front end: files, JSON, floating-point tempos and
  resampling, and the floating-point part of writing Simai text (placing
  notes on beat divisors, fractions of lengths, slide tempos).
