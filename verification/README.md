# Remote desktop

A low-latency remote desktop: a server that captures the screen, encodes it with
FFmpeg and streams it over a WebSocket, and the client side of its protocol.

`src/` is the library, in Verus. What it decides and computes is stated in
contracts and proved:

| Module | What it holds |
|--------|---------------|
| `protocol` | the messages of both directions and their bytes |
| `wire` | integers, flags and named records in little-endian bytes |
| `client` | what the browser reads and writes |
| `server` | the rules of a session: greeting, routing, queueing, stamping |
| `encoder` | encoder settings, FFmpeg command lines, frame splitters |
| `hw_probe` | which encoders there are, and which one is picked |
| `config` | the configuration, and the settings that follow from it |
| `auth` | credentials, sessions and access |
| `audio`, `capture`, `cursor`, `input` | devices, frames, monitors, pointer and keys |
| `diagnostics` | counters and what the endpoints tell |
| `text` | searching, trimming and splitting text |

Functions whose names start with `law_` state what holds of several of these at
once: that every message comes back from its bytes, that the splitters lose
nothing and do not depend on how the stream is cut, that no key frame is dropped
on a slow link, that nothing private is served without a session.

What the library takes from other crates stands behind a few declarations, each
with a comment that says what is taken for granted: `memchr::memchr`,
`sha2::Sha256`, `hex::encode`, `rand::Rng`, and of the standard library
`String::from_utf8_lossy` and `String::push`.

`app/` is the program around it: command line, HTTP, processes, threads and the
calls into the operating system. It reads `config.toml` and, for the login page,
`static_auth/login.html`.

```toml
[auth]
username = "admin"
password = "your-secure-password"

[encoder]
default_profile = "gaming"

[encoder.profiles.gaming]
encoder = "h264_nvenc"
fps = 60
quality = 20
```
