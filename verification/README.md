# RoExtract

RoExtract finds the assets that the Roblox client keeps in its cache (sounds,
music, images, KTX textures and RBXM models), tells them apart by the headers
of the cached files, and extracts them.

The library under `src/` is written in Verus. Its functions carry contracts
that Verus proves, except for a few small trusted wrappers around the Fluent,
image and serde_json crates and std's `to_lowercase`, whose contracts are taken on trust
from those libraries' sources and documentation.

- `headers`: searching bytes for the file headers of each category, and
  what extracting a cached file writes, and where.
- `logic`: the state shared by the listing, extraction and deletion tasks,
  and the decision each task takes on every entry it goes through.
- `config`: the JSON configuration, read from and written to its file's
  bytes, with its lookups, updates and aliases.
- `image_cache`, `preview`: the least-recently-used cache of preview
  textures, and decoding previews with the image crate.
- `log`, `locale`, `updater`, `text`: the log kept in memory, the Fluent
  translations, the update check's version comparison, and text helpers.
- `file_list`, `gui`, `cli`: the decisions of the window and of the command
  line.

`app/` is the program around the library: the command line, file system and
network work, and the window drawn with eframe. It reads translations from a
`locales` directory holding one `<language>.ftl` file for each language.

`tests/` runs the library on concrete inputs.
