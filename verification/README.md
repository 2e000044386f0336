# vault_watch

A terminal monitor for SAS/SATA disks and Linux MD RAID arrays, with a small
root-side privilege broker that answers typed, read-only ATA health requests.

The decisions of the program live in a library whose functions carry
`requires`/`ensures` contracts proved with Verus; the executable around it
only reads the system, draws the screen and moves bytes.

## Layout

- `src/` — the verified library.
  - `ata`, `scsi` — ATA pass-through commands and responses, SCSI CDBs, VPD
    and log pages, sense data, the `SG_IO` request layout.
  - `broker` — the broker's wire format (with encode/decode round trips),
    authorization of requests against discovered devices, per-session replay
    protection, capability negotiation, device revalidation and socket policy.
  - `storage`, `storage_discovery`, `storage_events` — the block-device
    inventory, its reconciliation, and which kernel events wake it.
  - `collectors` — `/proc/diskstats`, MD sysfs, `/proc/mdstat`, `iostat` and
    `smartctl` text formats, and the broker health poll.
  - `monitor`, `notifier`, `history`, `navigation`, `widgets`, `config`,
    `security` — alerts and their cooldown, bounded graph histories, keyboard
    and mouse navigation, table/topology values, configuration checks.
  - `text`, `char_text`, `matching`, `order`, `timing` — shared text, ordering
    and time helpers.
- `tests/` — tests of the library run against the compiled crate.
- `app/` — the terminal UI, the collectors' file and process I/O, the broker
  daemon and client, and the `SG_IO` ioctl.
