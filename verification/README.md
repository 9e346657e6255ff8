# yank

Clipboard history. `yank --watch` records every copy and mouse selection into
`~/.yank/hist/`, one file per entry, newest kept, capped. `yank` lists the
history newest first; Enter has the clipboard and the primary selection own the
chosen entry and leaves `~/.yank/paste` as a flag. `yank --paste-into XID`
focuses a window and, once it has the focus, sends one Shift+Insert.

## Layout

`src/` is the verified library:

- `recorder`, `recording`: what the recorder does about each event, and what
  holds of every run of it
- `startup`: one recorder at a time, with a display
- `history`, `directory`: names, order and pruning of the entries, and the laws
  of storing, listing and deleting over a directory
- `preview`, `picker`, `picking`, `session`: the list, its screen and its keys
- `paste`: when the keystroke may be sent
- `paths`, `cli`: where things are kept, and the command line
- `text`, `digits`, `order`: characters, decimal numbers, the order of names
- `foreign`: the calls into other crates and the standard library whose
  contracts are stated rather than proved

`app/` is the program around it: the X display, the terminal, the files and the
helper processes. `tests/` runs the library.
