# cosmic-ext-applet-per-app-layout

A COSMIC panel applet that remembers the keyboard layout of each window and
restores it when the window regains focus. The layouts are also remembered per
application and saved in the applet's cosmic-config state, so that a new
window of a known application, also after a restart, gets its layout back.

- `src/` is the verified library:
  - `text`: splitting, trimming, joining and ordering of texts, with exact
    specifications and the split/join round trip;
  - `xkb`: the XKB configuration, its layout and variant lists, and the
    rewriting that makes a layout active (the active layout is the first one);
  - `text_map`: a map from texts to texts kept in ascending key order;
  - `focus`: deduplication and debouncing of window focus reports;
  - `applet`: the per-window and per-application layout memory, what to
    save and how to start from it, and the decisions on focus changes, polls,
    closes and the popup's contents;
  - `panel`: adding the applet to the panel's list and taking it out.
- `app/` is the program around it: the panel applet UI, the Wayland event
  loop, reading and writing the compositor's configuration, the saved
  layouts, and the `--register` / `--unregister` flags.
- `tests/` exercises the library.
