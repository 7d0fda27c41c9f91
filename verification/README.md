# youdao_dict

A small English/Chinese dictionary client, with its logic verified by Verus.

- `src/scan.rs` — tag patterns (`OPEN[^>]*?>(GROUP)CLOSE`, leftmost-first, lazy)
  over a window of characters, with their meaning as spec functions and laws
  (matches are leftmost, groups are shortest, successive matches are ordered).
- `src/youdao.rs` — the dictionary's result page read into coloured lines, the
  translation reply read into explanations, and the addresses of both.
- `src/kugou.rs` — the lyrics service: search keyword (percent-encoding), the
  addresses, and the decisions on search and download replies.
- `src/json.rs` — JSON values as the replies hold them, and field reads.
- `src/text.rs` — trimming, joining lines, characters of a string.
- `src/cli.rs` — what the command line asks for, and the word typed in the window.
- `src/search.rs`, `src/mplayer.rs` — search options and the player's release.
- `app/` — the program: HTTP requests, JSON parsing, the terminal prompt, the
  GTK window, the music player daemon and the SQLite store.
