# pharos_server

The interface of a media server to its clients, split in two.

`src/` is a library that decides what every request comes to: which items a list
holds and in what order, how a title is played, what part of a file is sent, which
subtitles are found and how they are served, what a socket is told, who may see
what. It is verified with Verus: each function states in `requires` and `ensures`
what it takes and what it gives, and the laws that hold of several functions
together stand beside them as `law_..` proof functions. It works on plain values
and does no input or output.

`app/` is the web server around it: routes, extractors, JSON, files, child
processes, sockets and the clock. The store, the groups that watch together, the
bus and the transcoder are traits in `app/state.rs`.

`tests/` runs the library on concrete values.

## Modules of the library

| Modules | Subject |
| --- | --- |
| `browse`, `parents`, `library`, `item_pages`, `entities`, `folder_items`, `folders` | lists, their parents, their facets and pages, libraries and folders |
| `shows`, `music`, `similar_music`, `search`, `playlists` | episodes and what is next, albums and artists, likeness, search, playlists |
| `playback`, `stream`, `seek`, `stream_select`, `user_prefs`, `waveform`, `trickplay` | how a title is played and sent |
| `subtitles`, `sidecar_cache`, `subtitle_delivery`, `subtitle_burn`, `single_flight` | subtitles, and making a thing once |
| `sessions`, `user_data`, `users`, `socket`, `socket_messages`, `syncplay` | who plays what, signing in, sockets, watching together |
| `system`, `live_tv`, `remote_items`, `client_log`, `wire`, `answer` | settings, television, addresses, reports, bodies, refusals |
| `text`, `text_sets`, `seqs`, `sort`, `lines`, `query_string`, `path_text`, `dates`, `ids`, `media`, `shuffle` | what the others are made of |

What the library takes on trust from other crates stands in the functions that
call them, each marked and each with a contract of its own.
