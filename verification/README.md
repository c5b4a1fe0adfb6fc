# psypher (verified core)

The logic of the psypher tools, written in Verus and proved against its
contracts:

- `windows`, `layout`, `corridor`, `geometry`, `session`, `laws`, `footprint`: the OS
  Dungeon — directory windows, the voxel layout of rooms, doorways and ramped
  corridors, players' visits, and the laws of the layout (walkable doorways,
  nothing drawn outside the cleared box).
- `browser`, `screen`, `text`, `paths`: the ASCII `psy dungeon` browser's
  state machine, what it draws, and the names directories are shown by.
- `terminal`, `terminput`, `termgrid`: the embedded terminal's colours, key
  and text input, and grid/cursor painting.
- `mountstore`, `mounts`, `mountlaws`, `sites`: the NPC simulation's mount
  links (with the laws that keep their three collections consistent, and
  that saving the links and loading them back gives the same answers) and
  each site's nearest larger sites.
- `plots`, `trace`: site plot geometry and the trace log's event numbering.

`cellmap`, `sessiontable` and `mountstore` hold the outside collections
(`hashbrown`, `slotmap`) behind small trusted wrappers.

`app/` is the `psy` command and the egui terminal widget: terminal I/O,
filesystem reads, the pty and drawing, around the library's decisions.

Not here: the projectiles' construction and the NPCs' movement during a
simulation tick, which are floating-point computations on the game's own
types; and the game-server glue (teleporting, buffs, chat commands), which
needs the game's entity system. The link upkeep of a tick is here, as
`ActorLinks::maintain_links`.
