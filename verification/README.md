# battle_instinct

A Sekiro combat-art / prosthetic mod: two-key combos swap and fire combat
arts; a first key plus `q`/`t` (or a bare `t` / `q`) equips and fires
prosthetics.

- `src/` is the verified library:
  - `text.rs`: character-level helpers for the cfg parsers;
  - `cfg_meta.rs`, `config.rs`: the `battle_instinct.cfg` format (binds,
    per-bind `-time` locks, comment settings) as a function from text to a
    `Config`, with its model `ConfigModel`;
  - `binds.rs`, `input.rs`: first-bind-wins bind tables and combo keys;
  - `engine.rs`: one frame of the mod (`Mod::process_input`) as a function
    from state, cfg, inventory, equipment and inputs to the next state,
    the rewritten inputs and the slot writes, with the laws it keeps;
  - `boot.rs`: boot-console steps, the mod DLL report and the chain-load order.
- `app/` is the DLL around it: file and directory access, the Windows console,
  logging, chain-loading, and the seconds-to-frames conversions (floating point).
- `tests/` runs the library on concrete cfgs and frames.
