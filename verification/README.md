# canzero_server

A bridge that carries CAN frames between the CAN interfaces of a server and
its clients over TCP, with a UDP protocol by which clients find a server.

- `src/` is the verified library:
  - `frame` – the frames (CAN frames, timestamped network frames, discovery frames);
  - `tcpcan` – the fixed-size byte image of a timestamped frame on a TCP
    connection: every frame encodes, every 29-byte block decodes, and a
    stream of frames reads back as sent, whatever the timestamps hold;
  - `client::udp_discover` – the plain byte discovery protocol (hello packet, answer parsing);
  - `discovery::udp_discover`, `server::udp_reflector` – the decisions of the
    bincode discovery protocol on the client and server side;
  - `server::network`, `network` – the registry of a server's nodes, the
    routing of frames between them and, in `network`, the replay history;
  - `dep` – the plain TCP bridge: bus frames, their byte image, the channels
    from the CAN interfaces to the TCP side, and the choice of interface per bus.
- `app/` is the program around it: the command line, sockets, tasks and
  threads, and serde/bincode for the discovery frames.
- `tests/` exercises the library on concrete values.

There is no `NetworkAdapter` type: its TCP client payload, `TcpClient`, has
no definition to build it on.

The plain TCP bridge lives in `app/dep/` (`run_client`, `run_server`, the
reader threads); its frame encoding, channel handling, dispatch to client
endpoints and interface choice are in `src/dep/`.
