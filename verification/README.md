# mirae_tts_engine

A Korean text-to-speech front end written in Verus: text in KPS 9566 bytes is split into
sentences, read word by word through the pronunciation dictionaries, turned into prosody
records, passed through the tone rules, matched against the voice's unit index and laid out
as units to render. The library's functions carry contracts that Verus proves; the two
small wrappers over std in `text.rs` (`String::from_iter`, `char::from_u32`) are trusted,
their contracts taken from std's documentation.

## Layout

- `src/` — the verified library, one module per stage:
  - `keypad`, `kps9566`, `korean`, `text`: character conversion and decoding tables;
  - `segmenter`: sentence splitting and token classes;
  - `dict`, `voice_dict`, `connect`, `speech`: dictionary packages (double-array tries),
    the connection matrix and the reading dictionary;
  - `g2p` (`codec`, `words`, `viterbi`, `word_record`, `sandhi`, `word_markers`, `data`,
    `exact_hooks`, `linking`): readings of words, dictionary codes, in-word sound changes and
    markers, and the cross-word rules decided on analyzer records;
  - `number`, `alphabet`: numbers, units and letters read aloud;
  - `record`, `tone`, `pipeline`, `synthesis`: prosody records, the tone pass, and the
    sentence-to-records pipeline;
  - `voice_info`, `unit_select`: the unit index and unit selection;
  - `render`, `chunk_order`, `render_plan`, `wav`, `wave_render`: render units, the chunk
    ring and WAV layout.
- `tests/` — unit and scenario tests of the library.
- `app/` — file access and the engine around the library: loading the voice files, reading
  unit waveforms, writing WAV files, the prosody smoothing stage (single-precision arithmetic)
  and `TtsEngine`.
