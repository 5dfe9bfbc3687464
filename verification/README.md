# turnstile

A launcher for OpenRCT2 and OpenLoco: it fetches builds, installs them, keeps several
side by side, starts them, and unpacks the data of the games they need.

- `src/` is the library, written in Verus. It decides: which release and which asset to
  take, what the interface shows next, which renames an install or a switch of versions
  makes and how one that was interrupted is put right, what the games' configuration
  files say afterwards. Every function states what it returns, and Verus proves it. Three
  calls are trusted rather than proved: `String::push` in `text`, and the two into the
  `time` crate in `timestamp`.
- `app/` is the application around it: the windows, the network, the file system. It
  reads what the library asks about, hands it over as plain values, and does what the
  library answers.
- `tests/` runs the library on concrete values.

Work on the disk is planned before it is done. A `Disk` holds what was found, a `Plan`
records the steps taken on it, and the laws in `store_laws`, `install_laws`,
`recovery_laws`, `side_by_side_laws` and `sequence` say what every plan keeps: that no
build is lost, that an install which fails leaves the one before it, that one which was
cut short can be recovered, and that two versions are never in each other's way.
