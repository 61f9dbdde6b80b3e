# syncaudio

Streams the sound of one machine to another over the local network: the
sender captures its audio output, folds it down to stereo and sends 10 ms
frames as UDP datagrams; the receiver buffers them and plays them on its own
output device.

`src/` is the verified library:

- `audio/capture.rs` – the downmix table and how captured stereo enters the ring;
- `audio/playback.rs` – the jitter gate and the spreading of stereo over speakers;
- `audio/volume.rs` – muting the local output (portable part);
- `network/packet.rs` – the datagram format, with its round-trip law;
- `network/sender.rs`, `network/receiver.rs` – the two ends of the transport;
- `ring.rs` – the lock-free sample ring (`ringbuf`) behind trusted wrappers;
- `config.rs`, `session.rs`, `state.rs` – settings, connection plans, the
  start-up reconnect loop and the status codes.

`app/` is the desktop program around it (Tauri commands and tray, `cpal`
audio streams, sockets, the Windows volume API, settings file); it evaluates
the floating-point mixes that the library describes.
