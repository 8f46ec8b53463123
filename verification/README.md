# jetkvm_cli

The command-line client for a JetKVM device, split in two:

- `src/` is the verified library (Verus): the parsers for boolean and DC
  restore-state arguments, the splitting of the trailing argument list into
  successive commands, and the `data:` URL under which a screenshot is
  reported.
- `app/main.rs` is the program around it: argument parsing with `clap`, the
  connection to the device, the remote procedure calls, and the JSON output.
