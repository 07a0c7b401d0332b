# armadillo_learn_desktop

The logic of a desktop vocabulary helper: the user clicks a word on the
screen, the text around the click is recognised, the word is looked up by a
language model in the context of its sentence, and the result can be saved
to a local word list.

`src/` is the library, written in Verus; every function in it is verified
against its `requires`/`ensures`. Calls into other crates (rusqlite,
serde_json, base64, image) and into std where vstd gives no specification
sit behind small trusted wrappers, each documenting what it claims.

- `text`, `ocr_filter`, `sentence`: character-level text rules, filtering of
  recognised words, sentence endings and assembly.
- `lookup_text`, `lookup_flow`, `reply_fields`, `json_reply`, `provider`,
  `ai`, `api`: prompts, cleaning of model replies, the correction flow of a
  lookup and the provider that falls back to a second one.
- `image`, `framing`, `geometry`, `components`, `recognition`, `warmup`,
  `ocr_config`: image crops and markings, window placement, text areas of
  the detector's map, decoding of the recogniser's output.
- `storage`: the SQLite word repository and its schema migrations.
- `input`, `click_flow`: decisions on keyboard and mouse events.
- `screenshot`, `clock`: base64 screenshots, file names and the time.

`tests/` runs the library on concrete values. `app/` is the desktop
program around it: windows, hooks, screen capture, HTTP calls, the OCR
engines and the floating-point geometry of recognised boxes.
