# match_display

The software of a small device, built around an RP2040 microcontroller, that plays
WAV files from an SD card, fetches the latest match of a Valorant player over WiFi
and shows it on a touch screen.

- `src/` is the library, written in Verus. It holds what the device decides and
  computes. Its functions are proved against their contracts, on the strength of a
  few contracts of outside functions that are taken on trust (see below).
- `app/` is the firmware around it: pins, buses, network, file system and screen.
  It does what the library asks for and reports how it went.
- `tests/` runs the library on concrete values.

## The library

| Module       | What it holds                                                      |
|--------------|--------------------------------------------------------------------|
| `wav_header` | the parser of WAV headers                                          |
| `wav_file`   | what the parser makes of a whole file                              |
| `pcm`        | samples, and the words for the I2S output                          |
| `playback`   | the course of playing a file with two buffers                      |
| `stream`     | what is heard when a file is played                                |
| `text`       | texts of bounded length                                            |
| `match_info` | a match, copied out of a response of the match service             |
| `request`    | the address of a request, and the course of a fetch                |
| `sd_card`    | the configuration, and the course of reading it                    |
| `display`    | the screen for a match                                             |
| `touch`      | points on the touch panel                                          |
| `audio`      | errors and formats                                                 |
| `bytes`      | integers in bytes                                                  |

## What is taken on trust

| Item                                                   | Outside function                     |
|--------------------------------------------------------|--------------------------------------|
| `text::heapless_push_str`                              | `heapless::String::push_str`         |
| `match_info::no_players`, `push_player`                | `heapless::Vec::new`, `push`         |
| `match_info::player_slice`, `match_slice`, `listed_slice` | `heapless::Vec::as_slice`         |
| the specification of `core::str::from_utf8` in `text`  | `core::str::from_utf8`               |

`match_info::roster`, `matches_in` and `listed` name what a `heapless::Vec` of each kind
holds; `ExHeaplessVec` and `ExUtf8Error` declare the outside types.

## The firmware

The library is a `std` crate: it uses `String` and `Vec`, and the firmware links it as
such, with the panic handler of `std`. The bare-metal target of the RP2040 has no
`std`. A build for the device takes these types from `alloc` and needs a global
allocator and a panic handler such as `panic-probe`; neither is set up here.

`cortex-m-rt` provides the entry point of the executor, and `der`
is held to the version with which the TLS client under `reqwless` builds.

`app/` expects the firmware of the radio chip under `app/cyw43-firmware/`:
`43439A0.bin`, `43439A0_clm.bin` and `nvram_rp2040.bin`.

The device reads its configuration from `CONFIG.TXT`, a JSON object with the strings
`wifi_ssid`, `wifi_password`, `api_key`, `player_region`, `player_name` and
`player_tag`, in the root of a FAT-formatted SD card. Without it the device uses its
built-in configuration. The first button plays `AUDIO.WAV` from the same place.
