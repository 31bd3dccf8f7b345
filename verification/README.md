# rust_sniffer

A terminal network sniffer for HTTP, HTTPS, QUIC/HTTP3, DNS, SSH, FTP and
SMTP traffic, with its packet handling verified in Verus.

* `src/` is the verified library:
  * `protocols` – protocols by port, endpoint addresses, flow keys, and the
    per-packet and per-flow records;
  * `wire` – the header fields read through pnet's packet views;
  * `capture` – frame decoding, the TLS / HTTP / DNS payload heuristics;
  * `flows` – the table of active flows (counting, new/update decisions,
    flushing of silent flows);
  * `output`, `logger` – the printed flow line and the JSON log record;
  * `iface_names`, `cli` – interface names, interface selection, arguments;
  * `text` – decimal text, joining, and the standard string operations used.
* `app/` is the program around it: argument and terminal handling, the
  capture loop over a pnet datalink channel, printing, the log file, and the
  Windows registry lookup of interface names.
* `tests/` exercises the library on concrete frames and values.
