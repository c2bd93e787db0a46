# unshroud

A reactive diagnostic agent for Unix systems: it collects metrics and events
from the host and from plugins, evaluates them against threshold rules with
cooldowns, and writes zstd-compressed forensic bundles when a rule fires.

- `src/` is the library, verified with Verus: the metric ring and event log,
  plugin message routing, the `/proc/stat` reader, the rule engine's firing
  and cooldown decisions, the bundle layout and names, configuration types and
  the rules the configuration implies.
- `app/` is the daemon around it: command line, configuration file, the Unix
  socket listener, the CPU collector loop, floating-point and Lua rule
  predicates, and writing bundle files.
- `tests/` exercises the library.
