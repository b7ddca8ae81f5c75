# lianli_rgb

Lighting control for fan banks on a wireless dongle, and for wired devices
beside them, written in Verus: what each request does is stated in contracts
and proved.

- `src/` is the library. It decides and computes; it never touches a device.
  Each request changes the state and answers with the actions to perform.
- `app/` is the service around it: USB, radio, threads, clock, logging, and the
  breathing curve, which is computed in floating point and handed to the
  library as a table.
- `tests/` runs the library on concrete values.

| module | content |
|--------|---------|
| `fan_type`, `zones` | LED layouts, and where each zone lies in the buffer |
| `effect` | colors, brightness, breathing pace, and the mark of a lighting state |
| `bank`, `bank_laws` | the state of one bank and its upload |
| `model`, `controller`, `controller_laws`, `history_laws` | all devices: effects, colors, configuration, OpenRGB, restoring |
| `capabilities`, `config`, `action` | what is offered, what is configured, what is to be done |
| `direct_color`, `turn_laws` | streamed colors between arrival and upload |
| `discovery`, `slots`, `network`, `network_laws` | device records and polls of the dongle |
| `vec_map`, `text`, `mac` | a small map, and numbers and addresses as text |
