# pardon

An offline dictionary, sentence translation and a clipboard daemon for Chinese
and English.

- `src/` is the library, in Verus. It holds every decision of the program:
  routing, dictionary entries, engines and their chains, streams, speech, the
  configuration and its rules, what the commands print, and the daemon. Whatever
  needs files, network, clipboard or windows is a state machine: it says what to
  do next and takes back what happened.
- `tests/` runs the library on concrete values, with the outside crates linked.
- `app/` is the program around it: `pardon`, `pardond` and `pardon-import`. It
  performs the steps, keeps the dictionaries and the history in SQLite, and
  speaks to the desktop.

Each outside call inside the library stands in a small wrapper whose doc comment
says what is taken on trust. Statements about more than one function are the
public proof functions named `law_…`.

The daemon's tray shows the picture `pardon-tray.png` in the data directory, if
there is one.
