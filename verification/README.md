# qpm_cli

The verified core of QPM, the package manager for Quest mods, written in Verus.

- `src/` is the library, proved with Verus: semantic versions and requirements
  (`version`, `ranges`, `versions`), package configs (`package`), the local
  repository's registry and the memo of a repository's answers (`repository`,
  `cache`), the resolver's decisions and what a restore records (`resolver`),
  linking a restore into a workspace (`workspace`), publishing checks and checksums
  (`publish`), the qpackages.com addresses and replies (`qpackages`), NDK selection
  (`android`, `ndk`), text work for git and GitHub (`git`, `github`), self-update
  decisions (`update`), the CMake files (`cmake`), and on/off switches (`toggle`).
  `laws` states properties that span several functions.
- `tests/` exercises the library on concrete values.
- `app/` is the unverified shell: files, the network, the package cache on disk,
  the `pubgrub` solver and terminal output. It reads what the disk and the network hold,
  hands it to the library, and carries out what the library decides.
