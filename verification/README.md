# Whispera

Floating voice dictation for Windows: press a shortcut, speak, and the
transcription from Groq is pasted where you were typing.

`src/` is the library, written in Verus: the app's rules and decisions are
stated there as contracts and proved, step by step; what remains in `app/` is
the I/O that carries them out (windows, devices, files, network, the store):

| module | what it decides |
|---|---|
| `groq` | the personal dictionary (validation, corrections, vocabulary hint) and what a transcription request sends |
| `incremental` | transcription while recording: 60-second parts with one second of context, which words a part owns, when a join is trusted, retries |
| `audio` | session ids, the durable 16-bit PCM, parts, silence trimming, recovery listing, the recorder's commands and state |
| `engine` | which recorder actions are allowed in which phase, pasting, file names and progress |
| `health` | the window watchdog |
| `legacy` | importing the previous version's files |
| `storage` | preferences and their validation |
| `onboarding`, `shortcuts`, `sounds`, `paste`, `floating_window`, `system_audio` | setup keys, the global shortcut, cues, paste safety, window styles, speaker muting |
| `text` | character sequences, Unicode white space, trimming, joining |

`tests/` runs the library on concrete values. `app/` is the Tauri desktop
shell around it: windows, tray, microphone, files, SQLite, HTTP and the
Windows API.
