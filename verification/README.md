# shader_patcher

Patches the shaders that DWM (`dwm.exe`, through `dwmcore.dll`) uses for SDR to
HDR conversion, so that they use a gamma EOTF (2.2 by default) in place of the
piecewise sRGB one. The program reads the read-only memory of the loaded module,
finds the DXBC shader containers in it, replaces the sRGB EOTF constants in the
whitelisted ones (or in all of them), brings each container's checksum up to
date and writes the regions back. It can also run in the system tray, register
itself as a startup task, and dump the shaders as DXBC files.

## Layout

- `src/` is the library, verified with Verus:
  - `dxcontainer.rs`: the container header, the recursive scan that patches
    containers and keeps their checksums in step, and the scan that lists
    containers for dumping;
  - `patcher.rs`: the patchers, which replace the constants through an
    Aho-Corasick automaton (leftmost-longest);
  - `memory.rs`: the copy of the module's memory, region by region;
  - `tray.rs`, `args.rs`: the decisions of tray mode and of the command line;
  - `process.rs`: finding a process or module by name in a snapshot;
  - `bytes.rs`, `floats.rs`: little-endian numbers, and `f32` comparisons on
    bit patterns.
- `app/` is the program around it: command line parsing, the Windows calls
  (process memory, privileges, Task Scheduler through PowerShell, the tray
  icon). The DXBC checksum is a C function, `CalculateDXBCChecksum`, that
  the program declares and expects to be linked in from a C library built
  beside it; this crate holds no build script for it. The library never
  computes the checksum itself: it takes the checksum function as an argument.
- `tests/` exercises the library.
