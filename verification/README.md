# xkb_type

A virtual keyboard that types with the keyboard layout of the session. The library in `src/`
is verified with Verus; `app/` connects it to the session, to `xkbcommon` and to `/dev/uinput`.

The library:

- `detect`, `hyprland`, `sway`, `x11`, `layout`: which layout the session has, read from what
  the compositor, `setxkbmap` and the environment report (`json` and `text` do the reading);
- `keymap`, `keys`: which taps type which character in a compiled keymap, dead keys included;
- `keyboard`, `plan`: the key events, waits and clipboard uses for typing text, erasing it and
  pressing key combinations;
- `run`: carrying out such a plan, one request to the outside at a time;
- `detect_laws`, `keymap_laws`, `typing_laws`: what holds of all of these as a whole, over the
  model of the keys held and of the clipboard in `effect`.
