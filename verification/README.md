# yaroc

Verified core of YAROC, a system that sends SportIdent punches over a cellular modem
(Quectel BG77) to an MQTT broker.

- `src/` is the library, verified with Verus: the AT-command protocol of the modem
  (`at`, `bounded`), the modem procedures as state machines that say which command comes next
  (`modem`, `mqtt_client`, `system_info`), the connection supervisor (`connection`), MQTT status
  codes (`mqtt`), SportIdent punch records (`punch`, `si_uart`), the backoff of punch sending
  (`backoff`), the receiving side (`receive`), USB packets and commands (`usb`), and the text
  helpers they share (`text`).
- `app/` holds what drives the library: the serial line of the modem and the loops that carry
  out the procedures, the backoff loop and the senders that keep a punch until it is
  published, the SportIdent serial line, the dispatch of the modem's unsolicited reports, the
  USB link, the MQTT receiver, configurations on the wire, `chrono`
  conversions, and the status reports that hold floating-point values.
- `tests/` runs the library on concrete values, with a scripted modem.
