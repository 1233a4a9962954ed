# lightning_manager

A manager for Minecraft: Java Edition mods, launcher profiles and direct launches, and for
Bedrock behavior and resource packs, on Windows.

- `src/` is the library, verified with Verus: folder layout (`paths`), dates and backup
  names (`dates`), text and command-line words (`text`, `words`), version manifests and
  library rules (`manifest`), placeholder filling (`arguments`), the direct-launch command
  line, Java and launcher lookup (`launch`), mod and pack listings (`mods`), and the state
  of the manager window with every transition a click makes (`state`).
- `app/` is the program around it: the egui window, file and process work, JSON files
  through serde, file dialogs, and the Windows shell.
- `tests/` runs the library on concrete values.
