# aprsmsg

Interactive APRS messaging over Direwolf (KISS) or APRS-IS, verified with Verus.

The library in `src/` holds the protocol and the client: AX.25 and KISS framing, APRS messages,
decoding of other stations' packets, retries and acks, the lines that are shown, the arguments and
the event loop. Verus proves the functions there against their contracts, but for the few named at
the end, and the laws of the library stand beside them as proof functions whose names begin with
`law_`.

The program in `app/` opens sockets, reads standard input and prints:

```
aprsmsg --call SA0KAM-1
msg SM0YOS-1 hello from the radio

aprsmsg --call SA0KAM-1 --aprs-is
msg EMAIL-2 friend@example.com Hello from APRS-IS
```

Started as `aprsmsg-bridge` it connects browsers to Direwolf, and compiled to WebAssembly it is the
browser's side, which hands the library the browser's time.

| Module | What it holds |
| --- | --- |
| `text`, `split`, `numeral`, `encoding`, `base64`, `table` | characters, numbers and bytes |
| `ax25`, `kiss`, `heard`, `link` | frames, received packets and links |
| `aprs` | messages and acks |
| `decode`, `position`, `mic_e`, `symbols` | other packets in words |
| `client`, `action`, `seen`, `digis`, `clock`, `client_laws` | the messaging client |
| `ui`, `cli`, `session`, `bridge` | terminal, command line, browser session and bridge |

What is not proved is what a few functions of the standard library do: how bytes that are not UTF-8
are shown, how strings look in quotes, and what time it is.
