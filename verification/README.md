# c_drive_cleaner

The safety rules of a Windows C drive cleaner, written in Verus and proved
against their contracts.

- `src/` is the verified library: the built-in cleanup rules, the C drive and
  root-folder checks, the planning and execution of a cleanup (nothing is
  handed to the recycle bin unless it passed every check), tool-configuration
  and process references, duplicate and large-file scans, duplicate cleanup,
  large-file migration, settings, history and analytics.
- `app/` is the thin shell around it: it reads the disk, the environment, the
  running processes and the clock, hands the library plain values, carries out
  what the library decides, and keeps the serde forms of the stored records.
- `tests/` runs the library on concrete cases.

Public proof functions whose names start with `law_` state the properties
that hold across the library, such as that recommendations never select a
protected copy, or that a registered operation can be cancelled without
touching any other.
