# vortex_mod_vimeo

Vimeo plugin for the Vortex download manager, with its logic verified in Verus.

- Public videos, share links (`vimeo.com/<id>/<hash>`) and player URLs are
  recognised; showcases are refused.
- Metadata comes from the oEmbed endpoint, variants from the player config:
  progressive files by height, then the HLS manifest.
- A player config is taken from the config endpoint or, where that refuses,
  from the player page.
- Videos that come as an adaptive stream alone, or at the wanted quality only as
  one, are downloaded by the host's yt-dlp broker.

## Layout

- `src/` is the verified library. `url_matcher` and `routing` decide which URLs
  are taken on; `parser`, `json` and `yt_dlp` write requests and read answers;
  `scanner` and `literal` find a player config in a page; `player_config`,
  `variants` and `links` hold what is offered; `plugin_api` takes the decisions
  between the calls to the host. `text` and `patterns` are what the others
  build on.
- `app/` is the plugin around it: exports, host functions and serde types.
- `tests/` runs the library.

Proof functions named `law_…` state what holds across functions. What is
believed without proof is marked at its declaration: `String::push`,
`Regex::captures` and `serde_json::to_string` on a flat object. Of the text of a
`serde_json::Error` nothing is claimed.
