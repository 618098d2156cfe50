# fitgirl_downloader

The download logic of a desktop client for the FuckingFast file hoster,
written in Verus and proved against its contracts.

## Layout

- `src/` — the verified library.
  - `page.rs`, `links.rs`, `natural.rs`: reading the download links of a
    repack page (through `scraper`), ordering them naturally by file name
    and removing repeats; laws on the order, its stability and uniqueness.
  - `resolver.rs`: file names of links, the resolver window's label (from
    the link's path, through `url`), which
    navigations it catches, and the timed wait for the direct address.
  - `ranges.rs`: splitting a file into byte ranges; the partition law.
  - `transfer.rs`: the retry, resume and progress-reporting decisions of a
    part and of a single stream; the accounting law.
  - `parallel.rs`: combining the outcomes of the parts.
  - `registry.rs`, `control.rs`, `table.rs`: per-download progress and the
    pause, resume, cancel and clear commands; read-back laws.
  - `wire.rs`: status texts, the `Range` header, the `Content-Range` probe
    and request addresses (through `http`).
  - `text.rs`, `messages.rs`, `clock.rs`: characters, decimal numbers,
    error texts and timestamps.
- `tests/` — tests on concrete values.
- `app/` — the desktop backend: Tauri commands, HTTP requests (`wreq`), the
  resolver window, file writes, and the loops that perform what the library
  decides.
