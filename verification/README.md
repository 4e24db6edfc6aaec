# pro_controller

The report logic of a Nintendo Switch Pro Controller emulator, verified with
Verus.

- `src/response.rs` answers the Switch's output reports (USB handshake
  commands and subcommands, including reads of the emulated SPI flash).
- `src/input.rs` keeps the controller's input state, set from an action line
  (`"A|B|LSTICK@-128,127"`) or a UART frame, and builds the 11-byte input
  report from it.
- `src/effect.rs` shows that a line's state is fixed by the buttons it
  presses and the last position it gives each stick, so reordering its
  actions (keeping each stick's moves in order), repeating a button or adding
  an action that names nothing leaves the report unchanged.
- `src/controller.rs` holds the controller state and decides what is sent:
  the reply to each output report, and the periodic `0x30` report once
  connected.
- `src/uart.rs` frames the UART link; `src/scripts.rs` holds the scripts of
  timed actions; `src/text.rs` is the character-level text handling they use.
- `src/frame.rs` and `src/lines.rs` give the `heapless` and `fixed-queue`
  buffers (the 64-byte report buffer, the 11-byte input report, the queue of
  script lines) their contracts.

`app/` holds what Verus does not see: the USB device and interrupt handling
(over any `usb_device` bus), the UART loop, and the floating-point projection
of the UART stick bytes onto the stick's circle.
