# underpane

The verified core of Underpane, a host for live HTML wallpapers: each monitor
shows a web page as its desktop background, configured per monitor.

`src/` is a Verus library. Verus proves its functions against their
contracts; the few calls into outside crates (`percent-encoding`, `url`,
`mime_guess`, `indexmap`) and into `std` that Verus has no specification for
stand behind small trusted wrappers, whose contracts restate what those
crates document (file names and MIME types are stated for paths that every
platform splits alike, see `paths`):

- `text`: splitting, prefixes, and decimal formatting/parsing with the
  grammar of Rust's unsigned `FromStr`.
- `encoding`: percent-encoding and decoding of URL path segments, UTF-16 for
  Win32 wide strings.
- `paths`: the file name and extension of a path with `/` as its only
  separator.
- `string_map`: the string-keyed tables of the configuration.
- `config`: configuration model, per-monitor lookup, wallpaper ids.
- `wallpapers`: manifests, their declared defaults, manifest file choice,
  and the catalog of wallpapers found across the wallpaper directories.
- `protocol`: the `underpane://` hosts, request routing, response heads,
  byte ranges, directory listings, `asset`-realm resolution.
- `desktop`: window labels, the configuration a wallpaper page receives,
  window synchronisation.
- `monitors`, `locale`, `tracker`, `install`: monitor listing, translations,
  change tracking, install checks and progress throttling.

`app/` is the Tauri application around it: windows, tray, file and network
I/O, platform window enumeration, and floating-point geometry.
