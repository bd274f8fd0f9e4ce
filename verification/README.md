# veloren_logic

Game-rule logic of a voxel RPG server and client, written in Verus with
machine-checked contracts.

- `inventory`: inventories with built-in slots and the slots that equipped
  bags provide; pushing, stacking, equipping, swapping, recipes, price lists.
  `inventory::laws` states what holds across operations (nothing is lost or
  duplicated by pushing or unequipping, a full inventory hands items back,
  swapping twice restores, the free-slot forecasts come true).
- `mesh`: greedy meshing of voxel faces into rectangles, and the texture atlas
  the rectangles are placed in.
- `site`, `site2`: dungeons (floors, rooms, stairs, tunnels, walls, lights,
  and who spawns where) and structures built from boxes and pyramids.
- `net`: which server messages a client may receive; terrain requests.
- `persistence`: character limits, the records of a new character, and the
  breadth-first walk over stored items.
- `states`: rolling and climbing.
- `server_cli`: the server console's line editing and layout.
- `combat`: the weapons held in each hand, and which parts of an attack
  reach a target.

`app/` holds what stays outside the verified library: floating-point
geometry, random draws without a bound, closure-based glue (the three-axis
greedy mesher, the population of a dungeon chunk), dungeon generation around
a route search supplied by the caller (the library gives the route's moves,
step costs and distance estimate), and telemetry.

Left out altogether, being floating-point work or storage and asset I/O:
- physics: movement through terrain, voxel collision and pushback;
- attack damage and its effects, and the beam, shockwave and shoot
  animations (the weapon and requirement checks of an attack are in
  `combat`);
- dungeon column sampling (its integer parts, such as pillar lights and
  column positions, are in `site::dungeon`);
- reading trade prices from asset files (choosing the price lists is in
  `inventory::trade_pricing`);
- writing characters and their items to the database (the character limit,
  the records of a new character and the walk over stored items are in
  `persistence`);
- the route search itself, which comes from a module not part of this
  project.
