# catchword

A desktop helper that translates the English word under a double click or a
drag selection and keeps a word book of everything looked up.

- `src/` is the verified library (Verus): the source and mode tables
  (`types`), string helpers (`text`), the word test and capture decisions
  (`capture`), the click counter (`hook`), the capture loop and tray rules
  (`session`), the settings (`config`), the word book (`wordbook`), a JSON
  model (`json`) and the translation chain, URL encoding and response
  readers (`translator`).
- `app/` is the Tauri application around it: the mouse hook, Windows UI
  Automation and OCR, HTTP requests, files on disk and the windows.
- `tests/` exercises the library.
