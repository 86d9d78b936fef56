# java_detector

Detection of installed Java runtimes, verified with Verus.

- `src/text.rs`: character-sequence specifications (search, lines, trimming, decimal
  reading) and their verified implementations.
- `src/version.rs`: reading `java -version` output; the Java version recommended for a
  Minecraft version.
- `src/paths.rs`: installation roots and executables, over the standard library's path
  operations (named, not restated).
- `src/platform.rs`: per-platform search command and common installation directories.
- `src/validate.rs`: the decisions of validating one installation path.
- `src/scan.rs`: installation roots named by search and `java_home` listings; registry keys.
- `src/cache.rs`: installations keyed by path, and the cache of the last scan.
- `app/`: commands, file system, environment, registry and the process-wide cache.
