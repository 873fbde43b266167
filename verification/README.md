# big_red_button

A button on an ESP32-C6 that "launches" when pressed, and a small web backend
that logs each launch and shows them on an admin page.

- `src/` is the verified library: the LED animation arithmetic and the button
  state machine of the device, the parsing of its backend address, the framing
  of the HTTP request it sends and the test of the answer, and the backend's
  event log, admin page and admin credential check. Each public function states
  its result exactly; the laws (numbering of presses, newest-first listing,
  request framing, read-back of written numbers and addresses, brightness
  ranges, press counting) are proof functions beside the code.
- `app/` is the backend server (axum): routing, shared state, environment
  configuration and JSON encoding around the library.
- There is no device shell here. The firmware's hardware layer (GPIO button,
  RMT-driven LED, WiFi radio, DNS/TCP over embassy-net, timers) runs on the
  ESP32-C6 without `std`, on crates that cannot be built for this host. Its
  decisions are the verified pieces in `src/`: `ButtonMonitor::step` per
  button sample, `startup_sequence`, `launch_sequence` (countdown, then the
  report), `parse_backend_url`/`parse_https_url`/`resolved_target` for the
  address, `build_destruction_request` and `event_delivered` for the report,
  `after_delivery` for the feedback, and `needs_action` and
  `connection_round_pauses` for the WiFi task.
- `tests/` runs the library on concrete values.
