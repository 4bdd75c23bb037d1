# Arrow object-store exporter

Exports every populated payload of an OTAP pdata batch as a standalone Arrow IPC file, to a local
directory or to an object store.

## Layout

- `src/` is the library. It decides which objects a pdata batch becomes, how they are named and
  encoded, in which order a local file is written, synced and renamed, what a write results in,
  what is counted, and whether pdata is acknowledged. Its functions carry contracts that Verus
  proves. Calls into `arrow_ipc`, `chrono`, `object_store`, `sha2` and `uuid` stand behind small
  functions whose contracts are believed, each with a comment that says what is believed.
- `app/` is the part that touches files, object stores and the pipeline.
- `tests/` runs the library with the outside crates.

## Object names

An object path template is relative and ends in `.arrow`. These placeholders are filled in:

| Placeholder  | Value                                       |
|--------------|---------------------------------------------|
| `[signal]`   | `logs`, `metrics` or `traces`               |
| `[payload]`  | Payload type in small letters, e.g. `spans` |
| `[pdata_id]` | UUIDv7 of the pdata                         |
| `[date]`     | UTC date as `YYYY-MM-DD`                    |
| `[year]`     | UTC year                                    |
| `[month]`    | UTC month                                   |
| `[day]`      | UTC day                                     |
| `[hour]`     | UTC hour                                    |
| `[minute]`   | UTC minute                                  |

Date and time are the creation time of the UUIDv7. The default template is
`otap/v1/signal=[signal]/payload=[payload]/date=[date]/hour=[hour]/[pdata_id].arrow`.

## Local files

A file is written under a temporary name beside its destination and renamed when it is complete.
With `fsync`, which is on by default, the file is synced before it is renamed, and the directories
from the root down to the file are synced after it.
