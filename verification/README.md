# Tiro

Tiro turns speech into text on the clipboard, offline. Press a key and talk; press it
again, and the take is transcribed by a local model, tidied, copied, and logged word for
word. A second key also pastes the text at the cursor.

The rules of the program stand in `src/`, a Verus library: every function there has a
contract, and Verus proves it. What it calls of other crates and of the standard library
stands behind eight wrappers and one assumed specification, whose contracts are believed:
`from_utf8_lossy` in `app_scope`, `read_json` and `write_object` in `json`,
`regex_replace_all` and `regex_escape` in `pattern`, `parse_time` in `store`, and
`to_lowercase`, `to_uppercase` and `String::push` in `text`.

| Module | What it decides |
| --- | --- |
| `flow` | A take from the first press to the log; which engine serves, and when the GPU may |
| `hotkeys`, `hotkeys_portal` | What a press and a release mean; combinations and their spellings; who binds them |
| `audio` | Which microphone is opened and how; what of a take is kept; its resampling and level |
| `transcribe` | The models and their files; a download; what counts as silence |
| `gpu`, `gpu_worker` | The two ends of the pipe to the process that may wake the GPU |
| `hw`, `power` | What graphics processors there are, and whether the machine is plugged in |
| `clipboard`, `vocab` | The tidied copy; the words to expect and the words to mend |
| `store` | The two files of the log, and how a take is shown |
| `inject` | The key presses of a paste |
| `placement` | Where the windows go |
| `app_scope` | Under which name the desktop knows the program |
| `cues`, `report` | The notes of the sounds; the line that a panic leaves |
| `text`, `pattern`, `json` | Texts, regular expressions and JSON |

`app/` is the program around the library: windows, devices, files, processes and the
speech model. `tests/` runs the library from outside.
