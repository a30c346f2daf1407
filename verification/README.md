# mavlog

A viewer for MAVLink `.tlog` telemetry logs and ArduPilot DataFlash `.bin` logs.

`src/` is the library, written in Verus. Every function states what it returns or
changes in its contract, and the contract is proved.

- Text and numbers: `text`, `numeral`, `bytes`, `value`, `glob`, `ids`, `path`.
- The two log formats: `tlog`, `schema`, `dataflash`, `entry`, `dialect`, `index`.
- Filters and columns, with their text forms: `filter`, `column`.
- A session over one or two logs: `session`, `browse`, `inspect`, `marks`, `plot`,
  `align`, `sync`, `order`, `time`, `setup`, `persist`, `load`. `sound` states what
  every operation on a session keeps.
- The state of the window, without the drawing: `gui`.

Proof functions named `law_..` relate several functions to each other. Functions
marked `external_body`, functions named in `assume_specification` and spec functions
without a body are what the proofs take as given of `mavlink`, `chrono`,
`serde_json` and the standard library.

`app/` is the program around the library: files, JSON, floating-point arithmetic and
the window itself. `tests/` runs the library on concrete inputs.
