# Laybacker

Laybacker lays finished audio back onto video in batches with ffmpeg: it
pairs the dropped audio with the dropped pictures, names the outputs, builds
the ffmpeg runs (length fixes, slates, loudness gain, broadcast silence),
and offers audio tools (fold, fade, trim, split/join channels, QC).

## Layout

- `src/` — the library, verified with Verus. Every public function states
  its result in its contract; the laws of the library are public proof
  functions.
  - `models` — export settings, containers, supported extensions.
  - `matcher` — which audio goes with which video.
  - `namer` — output names: unique parts, level/step/conversion tags,
    stripping old tags, numbering repeated names until every name is unique.
  - `ffmpeg` — the layback mux, audio-only, ProRes and solo-slate commands.
  - `processor` — where a pair's output goes and the steps of processing it.
  - `processing` — fold/fade/trim ops and the chain's shaping steps.
  - `channels` — channel names, split and join.
  - `fastslate` — eligibility, keyframe cut and checks of the fast slate path.
  - `inspector` — what a media file is, from its name and ffprobe's streams.
  - `reports` — reading ffmpeg's and ffprobe's text reports.
  - `commands` — URL checks, ffmpeg status, ProRes/slate paths, data URLs.
  - `text`, `numtext` — string helpers and number-text recognisers.
- `app/` — the command-line program around the library: running ffmpeg and
  ffprobe, the file system, JSON, and the floating-point measurements
  (loudness, levels, click and dropout detection, waveforms).
- `tests/` — tests of the library.
