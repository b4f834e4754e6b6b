# yomag_audio

The routing core of a Windows virtual audio mixer: virtual devices that mix
sources (inputs, system loopback, application sessions, network peers) into
output channels and feed them to monitors, with recording, non-destructive
editing of recorded sessions, saved profiles and LAN publication.

- `src/` is the verified library (Verus). Each module states its behaviour
  over mathematical views of its data:
  - `devices`, `sources`: device descriptions and source ids;
  - `routing`, `router`: virtual devices (sources, connections, monitors)
    and the set of devices, with their invariants;
  - `profile`: saving a router's configuration and applying it again;
  - `engine`: frame arithmetic of the mixer tick and monitor backlog, and
    monitor channel routing;
  - `network`: peer discovery table, publication schedule and the sample
    packet format;
  - `recording`, `edit`: recording sessions, file naming, clip layouts and
    mixdown planning;
  - `platform`, `sessions`: values exchanged with the OS audio APIs;
  - `text`: string helpers shared by the above.
- `app/` is the program around it: the desktop commands, the audio threads
  (sample mixing, DSP, resampling, capture and playback), files and sockets.
- `tests/` runs the library on concrete values.
