# vidwatcher

Re-encodes every video below a directory to AV1 video and Opus audio in a WebM
container, by way of `ffmpeg`. The decisions are a library verified with Verus; the
program around it does the reading, writing and running.

## The library (`src/`)

| module | what it decides |
| --- | --- |
| `batch` | the conversion of one tree, from the first look at it to the last file |
| `pass` | one scan over all watched directories, and what it counts |
| `worker` | what happens to one file of a scan, and what is remembered of it |
| `state` | which files are done with, failed, or due again |
| `config` | the values of a configuration, their defaults, and what makes one valid |
| `scan` | which files are videos, their order, and where their results go |
| `naming` | what results are called, and that they never replace their source |
| `command` | the command lines of `ffmpeg` and `ffprobe`, and what becomes of an encoder |
| `ffmpeg` | what the tools' output says: encoders, codecs, missing tools |
| `logging` | log levels and where messages go |
| `report`, `rounding` | sizes, percentages and times as people read them |
| `ratio` | a size ratio by the bits of a double-precision number |
| `path`, `path_laws` | Unix paths as bytes, and the components that they name |
| `text`, `utf8`, `order` | characters, lines, words, numbers; bytes as text; orders |

Work that needs the outside (looking at files, running tools) is asked for by a value:
`Batch::action`, `Pass::action` and `FileJob::action` say what is to be done, and what
that gave is handed back as an event. What each event leads to is stated as a function on
views (`BatchView::next`, `PassView::next`, `FileJobView::next`). Public proof functions
named `law_..` state what holds of whole runs.

Trusted are five things, each with what is claimed of it: `String::push`,
`std::str::from_utf8`, `String::from_utf8_lossy`, `str`'s `Debug`, and the parser of
`log::LevelFilter`.

## The program (`app/`)

`main.rs` converts one tree; run it with a directory and `--help` for the options. The
other files read configuration and state, walk directories, run the tools and set up
logging.
