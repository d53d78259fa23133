# fsp

FSP, a fast screenshot tool for Windows: Print Screen captures the monitor under
the cursor and lets the user drag out a region; Alt+Print Screen captures the
window in the foreground. Captures open in a small editor that scrolls, copies to
the clipboard and saves to the output folder named in `settings.ini`.

Layout:

- `src/` is the library, verified with Verus: the INI reader and the settings file
  format (with a proof that what is written reads back), colors, the capture
  bookkeeping (sizes, file names, which files are stale, which are recent), the
  DIB that goes on the clipboard, the overlay's selection state machine, the
  editor's scrolling and placement, hotkey decisions, and the calls into the
  `image` crate for PNG encoding and decoding.
- `app/` is the Windows program around it: windows, GDI painting, the clipboard,
  the file system and the message loop.
- `tests/` runs the library on concrete values.
