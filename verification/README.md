# roblox_studio_mcp

The verified core of an MCP server for Roblox Studio projects: the policy and
logic behind its file, search, metrics, watcher, tool-runner and 3D-generation
tools, with its contracts proved.

## Layout

- `src/` — the library; its functions are verified against their contracts,
  except the few trusted wrappers around calls into std, `regex` and `base64`:
  - `filesystem` — path validation against the project root, symlink
    rejection, the checks made before a script is written or deleted;
  - `tree` — building a project file tree (sorted entries, skipped entries,
    depth and entry limits) from directory listings the caller reads;
  - `search` — regex safety, line search with a result limit, and the
    content and change scans over a directory walk;
  - `metrics` — per-tool call/error counters, duration samples and
    percentiles, and the server-wide counters;
  - `watcher` — the bounded queue of file changes;
  - `glb` — GLB container framing and mesh extraction from glTF accessors;
  - `luau_lsp` — parsing `luau-lsp analyze` output;
  - `runners` — arguments and result interpretation for StyLua, selene,
    Rojo, Wally, Moonwave, Lune and luau-lsp;
  - `trellis` — the decisions on each reply of the text-to-3D job API and the
    wait for a job;
  - `error`, `params`, `startup`, `text` — errors, tool parameters, startup
    messages and text helpers.
- `app/` — the program around the library: process spawning, file system
  access, JSON (de)serialisation, the file watcher, tracing and async tasks.
- `tests/` — tests of the library's public API.

The file system, processes and network are read by `app/`; the library
decides on what they reported, so those decisions are verified for every
possible report. What remains in `app/` is unverified: the process, file,
network and task plumbing, JSON replies, and the floating-point views of
the metrics. The MCP server and its HTTP bridge to the Studio plugin are not
part of this crate.
