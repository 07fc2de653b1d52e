# sound_switch

Switches the Windows default playback device to a HyperX wireless headset when
the headset is powered on, and puts the previous default back when it is
powered off.

`src/` is the verified library:

- `hid` decodes the receiver's HID input reports (power on/off, volume,
  microphone; an optional leading report id `0x00` is tolerated), shortens
  device paths for log lines and remembers which collections were reported as
  failing;
- `audio` names the default-device roles and picks the headset among the
  active playback endpoints by a case-insensitive keyword;
- `app` is the event handler: `Actions::on_event` and `Actions::resume` turn
  each HID event, and each result of the work they ask for, into the next
  step (notes to log and one command: find the endpoint, wait, read or set a
  role's default, finish and maybe save);
- `cycle` holds the event handler against a model of the audio system in
  which every call succeeds, and proves that switching the headset on and
  then off gives every role its previous default back (or none, where it had
  none), whatever names are configured and whichever roles already had the
  headset. It assumes that each device that is the default of a configured
  role has a non-empty id: a record with an empty id is not put back;
- `state` keeps, per role name and in ascending name order, the device that
  the headset replaced. It is a sorted `Vec` of pairs with that order as its
  type invariant rather than a `BTreeMap<String, String>`: vstd's map
  specifications hold for keys whose comparison and hashing it knows to be
  lawful, which `String` keys are not shown to be here, so nothing could be
  proved through them. The set of HID collections already reported as
  failing (`hid::WarnedPaths`) is a `Vec` without repeats for the same
  reason;
- `log` plans log lines (level filter, layout, size-limited rotation);
- `cli` reads the command line; `config` holds the settings and defaults;
- `launch` picks the launcher's working directory;
- `text` has the character-level helpers.

`app/` is the Windows program around it: Core Audio and `IPolicyConfig`
calls, HID reader threads, the JSON files, the log file, the single-instance
mutex and Ctrl+C handling. The launcher used by the logon task is the same
program: copied as `sound-switch-launch.exe`, it frees its console at once,
starts `sound-switch.exe run` next to itself without a console window and
returns. Since it is a console program and not a separate windowless one, its
own console may show for an instant when it starts.
