# supertonic_reader

A local text-to-speech reader: select text anywhere, press a shortcut, and the
selection is read aloud by an on-device synthesizer.

The library under `src/` holds the logic of the reader, written in Verus with
contracts proved by the verifier:

- `text`: characters of strings, trimming, splitting and UTF-8 lengths.
- `lang`: the reading and interface languages, and the chunk limit per language.
- `preprocess`: the cleanup applied to text before synthesis (Unicode
  compatibility decomposition, symbol replacements, whitespace and
  punctuation rules, language tags), code points and file names from text.
- `chunking`: splitting long text into paragraphs, sentences, clauses and
  words so that each chunk fits the synthesizer's limit.
- `processor`: character ids, position masks and the latent layout fed to
  the models, and the model configuration.
- `shortcut`: parsing of shortcuts such as `Ctrl+`` `.
- `settings`: defaults, bringing stored settings into range, and what a
  settings change requires.
- `model_files`: which model files are missing, download addresses and
  download progress.
- `playback`: what the audio thread does with each command, how the pause
  shortcut pauses and resumes, and how synthesized chunks are queued.
- `session`: which models run on the GPU and how many threads they use.

`app/` is the desktop application around the library: the window, tray and
global shortcuts, audio output, downloads, model inference and file access.
It calls the library for every decision that does not involve floating point
samples or outside services.
