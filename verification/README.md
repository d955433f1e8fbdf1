# shield_optimizer

The decision logic behind the ADB and self-update commands of a TV-device
manager, written in Verus and proved against its contracts.

- `src/version.rs`: version comparison (`MAJOR.MINOR.PATCH`, then stable above
  pre-release, then pre-release identifiers) and its laws.
- `src/update.rs`: reading the release list, choosing the latest `v2-` release, and the update verdict.
- `src/install.rs`: ADB status and install reports, and the steps and report of a restart.
- `src/scan.rs`: the steps of a network scan, its report and connect judgement.
- `src/adb.rs`: what a command reads of an `adb` run; sorting by outcome.
- `src/text.rs`, `src/numeric.rs`: text search, trimming, joining, decimal
  rendering, lowercasing, and `u64` numerals.
- `app/`: the asynchronous layer that runs `adb`, queries GitHub and sleeps,
  and turns the library's reports into serializable values.
