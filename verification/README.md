# moget

A downloader for videos that are served in pieces: HTTP Live Streaming playlists, and clips
that are described in JSON.

`src/` is a library with the rules of the download, verified with Verus:

- `hls`: playlists, the choice of streams in a master playlist, keys and initialisation
  vectors, the segments that a playlist adds, the life of a stream whose playlist is fetched
  again and again, and the decryption of segments.
- `vimeo`: the renditions of a clip and the sources that each is made of.
- `headers`, `proxy`, `retry`: how requests are made.
- `command`: the protocol that an address suggests, and the command line that puts the
  parts together.
- `skip`: bytes left out at the start of each segment.
- `split`, `text`, `url`: what the others need.

`app/` is the program around it: command line, requests, files and the progress bar. It
hands bytes and text to the library and does what the library says.

What the library has from other crates (URLs, playlists, AES, Base64, header maps) stands
behind small functions whose contracts are not proved. Each says in its comment what it
claims.
