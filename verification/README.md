# kimi-pet

A desktop companion for Kimi Code. A small window on the desktop shows what the sessions of
the local `kimi web` service are doing: thinking, answering, waiting for the user, or idle;
it turns grey when the service is gone.

`src/` is the verified library. Every rule of the companion is there, as functions from plain
values to plain values with their contracts:

| module | what it holds |
| --- | --- |
| `json`, `text`, `keyed` | JSON values over `serde_json`, text, tables keyed by text |
| `state` | the shown state, and how the activities of many sessions become one |
| `pet` | the shown state over time: grace period, quitting along with the service |
| `service` | token, ports and addresses of the service, its list of sessions |
| `events`, `frames` | what the service streams, and what it is sent |
| `board` | what is known of the sessions during one connection |
| `runner` | the main loop, one step at a time |
| `edge_hide` | hiding at the edge of the screen |
| `updater` | looking for updates |
| `launch_hook` | starting along with the service, over `toml_edit` |

The functions named `law_...` state what holds of the library as a whole.

`app/` is the program around it: the windows (Tauri), the files, the network and the clock.
It does what the library asks for and tells it what came of it.
